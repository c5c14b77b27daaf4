//! The embedded ordered key/value store behind each document.
//!
//! A store is an opaque handle. What it holds is named by [`kv_contents`];
//! the functions of this module say what each call on the handle does to
//! that and what it hands back. None of them is proved: they state what the
//! store's own documentation promises.

use crate::keys::key_views;
use vstd::prelude::*;

verus! {

/// `sled::Db`: the handle of a store.
#[verifier::external_type_specification]
#[verifier::external_body]
pub struct ExSledDb(sled::Db);

/// `sled::Error`: what a call on a store fails with.
#[verifier::external_type_specification]
#[verifier::external_body]
pub struct ExSledError(sled::Error);

/// The key/value pairs that a store holds.
pub uninterp spec fn kv_contents(db: sled::Db) -> Map<Seq<u8>, Seq<u8>>;

/// The path of the directory that a store was opened at.
pub uninterp spec fn store_place(db: sled::Db) -> Seq<char>;

/// Every write made through the store so far is on stable storage: the last
/// call that wrote to it or flushed it was a flush, and it succeeded.
pub uninterp spec fn store_flushed(db: sled::Db) -> bool;

/// A failure of the store, by kind.
#[derive(Debug)]
pub enum StoreFault {
    /// The collection behind the handle no longer exists.
    CollectionNotFound,
    /// The store was used in a way it does not support.
    Unsupported(String),
    /// The store met a fault of its own.
    ReportableBug(String),
    /// Reading or writing the files failed.
    Io(std::io::ErrorKind),
    /// The files are corrupted.
    Corruption,
}

/// `sled::Config::path`, `create_new` and `open`: opens the store kept in
/// the directory at `path`. With `fresh` the store must not exist yet and
/// is made; without it the store is opened as it is found, or made where
/// there is none. The store that comes back is the one at `path`. What it
/// holds depends on the disk, so nothing is said of that.
#[verifier::external_body]
pub(crate) fn store_open(path: &str, fresh: bool) -> (r: Result<sled::Db, sled::Error>)
    ensures
        r matches Ok(db) ==> store_place(db) == path@,
{
    sled::Config::new().path(path).create_new(fresh).open()
}

/// `sled::Tree::get`: the value under `key`, if the store holds one.
#[verifier::external_body]
pub(crate) fn store_get(db: &sled::Db, key: &[u8]) -> (r: Result<Option<Vec<u8>>, sled::Error>)
    ensures
        r matches Ok(found) ==> found matches Some(v) ==> kv_contents(*db).contains_key(key@)
            && kv_contents(*db)[key@] == v@,
        r matches Ok(found) ==> found is None ==> !kv_contents(*db).contains_key(key@),
{
    match db.get(key) {
        Ok(found) => Ok(found.map(|v| v.to_vec())),
        Err(e) => Err(e),
    }
}

/// `sled::Tree::insert`: puts `value` under `key` and returns the value
/// that was there before, if there was one. After a failure nothing is known
/// of what the store holds. The store stays where it is.
#[verifier::external_body]
pub(crate) fn store_insert(db: &mut sled::Db, key: &[u8], value: &[u8]) -> (r: Result<
    Option<Vec<u8>>,
    sled::Error,
>)
    ensures
        store_place(*final(db)) == store_place(*old(db)),
        r is Ok ==> kv_contents(*final(db)) == kv_contents(*old(db)).insert(key@, value@),
        r matches Ok(before) ==> before matches Some(v) ==> kv_contents(*old(db)).contains_key(
            key@,
        ) && kv_contents(*old(db))[key@] == v@,
        r matches Ok(before) ==> before is None ==> !kv_contents(*old(db)).contains_key(key@),
{
    match db.insert(key, value) {
        Ok(before) => Ok(before.map(|v| v.to_vec())),
        Err(e) => Err(e),
    }
}

/// `sled::Tree::remove`: takes out what is under `key` and returns the
/// value that was there, if there was one. After a failure nothing is known
/// of what the store holds. The store stays where it is.
#[verifier::external_body]
pub(crate) fn store_remove(db: &mut sled::Db, key: &[u8]) -> (r: Result<
    Option<Vec<u8>>,
    sled::Error,
>)
    ensures
        store_place(*final(db)) == store_place(*old(db)),
        r is Ok ==> kv_contents(*final(db)) == kv_contents(*old(db)).remove(key@),
        r matches Ok(before) ==> before matches Some(v) ==> kv_contents(*old(db)).contains_key(
            key@,
        ) && kv_contents(*old(db))[key@] == v@,
        r matches Ok(before) ==> before is None ==> !kv_contents(*old(db)).contains_key(key@),
{
    match db.remove(key) {
        Ok(before) => Ok(before.map(|v| v.to_vec())),
        Err(e) => Err(e),
    }
}

/// `sled::Tree::flush`: writes what is pending to stable storage and
/// returns the number of bytes written. It changes nothing of what the
/// store holds, nor where it is. Where it succeeds, every write made before
/// it is on stable storage: the store is flushed. Where it fails, nothing
/// is known of that.
#[verifier::external_body]
pub(crate) fn store_flush(db: &mut sled::Db) -> (r: Result<usize, sled::Error>)
    ensures
        store_place(*final(db)) == store_place(*old(db)),
        kv_contents(*final(db)) == kv_contents(*old(db)),
        r is Ok ==> store_flushed(*final(db)),
{
    db.flush()
}

/// `sled::Tree::iter` with `sled::Iter::keys`: every key that the store
/// holds.
#[verifier::external_body]
pub(crate) fn store_keys(db: &sled::Db) -> (r: Result<Vec<Vec<u8>>, sled::Error>)
    ensures
        r matches Ok(keys) ==> key_views(keys@).to_set() == kv_contents(*db).dom(),
{
    db.iter().keys().map(|key| key.map(|k| k.to_vec())).collect()
}

/// Tells the variants of `sled::Error` apart.
#[verifier::external_body]
pub(crate) fn store_fault(e: sled::Error) -> StoreFault {
    match e {
        sled::Error::CollectionNotFound(_) => StoreFault::CollectionNotFound,
        sled::Error::Unsupported(what) => StoreFault::Unsupported(what),
        sled::Error::ReportableBug(what) => StoreFault::ReportableBug(what),
        sled::Error::Io(e) => StoreFault::Io(e.kind()),
        sled::Error::Corruption { .. } => StoreFault::Corruption,
    }
}

} // verus!
