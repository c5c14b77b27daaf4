//! TuringDB: a document-oriented key/value database engine.
//!
//! Data lives in a hierarchy of four levels: the *repository* holds
//! *databases*, a database holds *documents*, a document holds *fields*. A
//! document is one ordered key/value store on disk, with the sorted list of
//! its keys cached in memory; a field is a key and a record of its payload
//! with the times of its creation and of its last change.
//!
//! The modules, from the leaves up:
//!
//! - [`keys`], [`names`]: byte-string keys and names, and their order;
//! - [`fields`]: the field record and its stored form;
//! - [`store`], [`registry`]: the embedded store and the concurrent index,
//!   as far as the engine relies on them;
//! - [`document`], [`database`], [`engine`]: the three levels of the
//!   hierarchy in memory, and recovery from what the disk holds;
//! - [`commands`], [`wire`], [`reply`], [`outcome`], [`errors`]: what
//!   travels between client and server, and how it is written;
//! - [`server`], [`connection`]: the dispatcher and the framing of one
//!   connection;
//! - [`client`]: request builders.
//!
//! The engine does no work on directories and none on sockets. Where an
//! operation needs a directory made or removed, the dispatcher hands that
//! out as a [`server::DirWork`]; what arrives on a stream is handed in
//! through [`connection::Connection`].

pub mod client;
pub mod commands;
pub mod connection;
pub mod database;
pub mod document;
pub mod engine;
pub mod errors;
pub mod fields;
pub mod keys;
pub mod names;
pub mod outcome;
pub mod registry;
pub mod reply;
pub mod server;
pub mod store;
pub mod wire;

pub use client::{DbQuery, DocumentQuery, FieldQuery, RepoQuery};
pub use commands::{
    from_op, to_op, DocumentOnly, FieldNoData, FieldWithData, TuringCommands, TuringOp,
};
pub use database::Tdb;
pub use document::Document;
pub use engine::TuringEngine;
pub use errors::{IoErrors, OpsErrors, TuringDbError};
pub use fields::{FieldData, Timestamp};
pub use outcome::OpsOutcome;
