[package]
name = "turingdb"
version = "0.1.0"
edition = "2021"
publish = false

[dependencies]
sled = "=0.34.7"
tai64 = "=4.1.0"
dashmap = "=6.2.1"
camino = "=1.2.6"
anyhow = "=1.0.104"
smol = "=2.0.2"
directories = "*"

[dev-dependencies]
bincode = "=1.3.3"
