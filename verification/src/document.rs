//! A document: one store of fields and the sorted list of their keys.
//!
//! The key list mirrors the keys in the store. A failed write leaves the
//! store in a state that nothing is known of; the document then counts as out
//! of step, and the next operation reads the keys afresh before it does
//! anything else. A write is flushed to stable storage before it is
//! acknowledged.

use crate::errors::{IoErrors, TuringDbError};
use crate::fields::{parse_record, record_bytes, FieldData, RecordView, Timestamp};
use crate::keys::{ascending, KeyList};
use crate::outcome::{gives, OpsOutcome, OutcomeView};
use crate::store::{
    kv_contents, store_fault, store_flush, store_flushed, store_get, store_insert, store_keys,
    store_open, store_place, store_remove,
};
use crate::names::{place_of, store_path};
use vstd::prelude::*;

verus! {

/// One document: exclusive access to its store, and the cached key list.
pub struct Document {
    store: sled::Db,
    keys: KeyList,
    synced: bool,
}

fn store_error(e: sled::Error) -> (r: TuringDbError)
    ensures
        r.is_store_failure(),
{
    TuringDbError::from_fault(store_fault(e))
}

/// Reads every key of the store into a sorted list.
fn load_keys(store: &sled::Db) -> (r: Result<KeyList, sled::Error>)
    ensures
        r matches Ok(list) ==> list.wf() && list.set() == kv_contents(*store).dom(),
{
    let found = store_keys(store)?;
    Ok(KeyList::from_keys(&found))
}

/// The payload of the field under `key`, where the store holds a record
/// there.
pub open spec fn stored_payload(contents: Map<Seq<u8>, Seq<u8>>, key: Seq<u8>) -> Option<Seq<u8>> {
    if contents.contains_key(key) && parse_record(contents[key]) is Some {
        Some(parse_record(contents[key])->0.data)
    } else {
        None
    }
}

/// What `Document::list_keys` comes to.
pub open spec fn list_post(
    before: Document,
    after: Document,
    r: Result<OpsOutcome, TuringDbError>,
) -> bool {
    &&& after.contents() == before.contents()
    &&& after.place() == before.place()
    &&& before.in_step() ==> r is Ok && after == before
    &&& match r {
        Ok(outcome) => {
            &&& after.in_step()
            &&& ascending(after.key_list())
            &&& after.key_list().to_set() == before.contents().dom()
            &&& outcome@ == if after.key_list().len() == 0 {
                OutcomeView::DocumentEmpty
            } else {
                OutcomeView::FieldList(after.key_list())
            }
        },
        Err(e) => e.is_store_failure(),
    }
}

/// What `Document::insert` comes to.
pub open spec fn insert_post(
    before: Document,
    after: Document,
    key: Seq<u8>,
    data: Seq<u8>,
    r: Result<OpsOutcome, TuringDbError>,
) -> bool {
    if key.len() == 0 || data.len() == 0 {
        &&& r == Err::<OpsOutcome, TuringDbError>(
            if key.len() == 0 {
                TuringDbError::EmptyFieldName
            } else {
                TuringDbError::EmptyData
            },
        )
        &&& after == before
    } else {
        &&& after.place() == before.place()
        // Where the key list is known to mirror the store, the store is
        // not asked.
        &&& before.in_step() && before.contents().contains_key(key) ==> gives(
            r,
            OutcomeView::FieldAlreadyExists,
        ) && after == before
        &&& match r {
            Ok(OpsOutcome::FieldAlreadyExists) => {
                &&& before.contents().contains_key(key)
                &&& after.contents() == before.contents()
                &&& after.in_step()
            },
            Ok(OpsOutcome::FieldInserted) => {
                &&& !before.contents().contains_key(key)
                &&& after.in_step()
                &&& after.settled()
                &&& after.contents().contains_key(key)
                &&& after.contents() == before.contents().insert(key, after.contents()[key])
                &&& parse_record(after.contents()[key]) matches Some(record)
                &&& record.wf()
                &&& record.data == data
                &&& record.created == record.modified
            },
            Ok(_) => false,
            Err(e) => e.is_store_failure(),
        }
    }
}

/// What `Document::get` comes to.
pub open spec fn get_post(
    before: Document,
    after: Document,
    key: Seq<u8>,
    r: Result<OpsOutcome, TuringDbError>,
) -> bool {
    if key.len() == 0 {
        &&& r == Err::<OpsOutcome, TuringDbError>(TuringDbError::EmptyFieldName)
        &&& after == before
    } else {
        &&& after.contents() == before.contents()
        &&& after.place() == before.place()
        &&& before.in_step() ==> after == before
        // Where the key list is known to mirror the store, the store is
        // not asked for a key that the list does not hold.
        &&& before.in_step() && !before.contents().contains_key(key) ==> gives(
            r,
            OutcomeView::FieldNotFound,
        )
        &&& match r {
            Ok(OpsOutcome::FieldContents(data)) => stored_payload(before.contents(), key) == Some(
                data@,
            ),
            Ok(OpsOutcome::FieldNotFound) => !before.contents().contains_key(key),
            Ok(_) => false,
            Err(TuringDbError::CorruptRecord) => before.contents().contains_key(key)
                && parse_record(before.contents()[key]) is None,
            Err(e) => e.is_store_failure(),
        }
    }
}

/// What `Document::remove` comes to.
pub open spec fn remove_post(
    before: Document,
    after: Document,
    key: Seq<u8>,
    r: Result<OpsOutcome, TuringDbError>,
) -> bool {
    if key.len() == 0 {
        &&& r == Err::<OpsOutcome, TuringDbError>(TuringDbError::EmptyFieldName)
        &&& after == before
    } else {
        &&& after.place() == before.place()
        // Where the key list is known to mirror the store, the store is
        // not asked for a key that the list does not hold.
        &&& before.in_step() && !before.contents().contains_key(key) ==> gives(
            r,
            OutcomeView::FieldNotFound,
        ) && after == before
        &&& match r {
            Ok(OpsOutcome::FieldNotFound) => {
                &&& !before.contents().contains_key(key)
                &&& after.contents() == before.contents()
                &&& after.in_step()
            },
            Ok(OpsOutcome::FieldDropped) => {
                &&& before.contents().contains_key(key)
                &&& after.contents() == before.contents().remove(key)
                &&& after.in_step()
                &&& after.settled()
            },
            Ok(_) => false,
            Err(e) => e.is_store_failure(),
        }
    }
}

/// What `Document::modify` comes to.
pub open spec fn modify_post(
    before: Document,
    after: Document,
    key: Seq<u8>,
    data: Seq<u8>,
    r: Result<OpsOutcome, TuringDbError>,
) -> bool {
    if key.len() == 0 || data.len() == 0 {
        &&& r == Err::<OpsOutcome, TuringDbError>(
            if key.len() == 0 {
                TuringDbError::EmptyFieldName
            } else {
                TuringDbError::EmptyData
            },
        )
        &&& after == before
    } else {
        &&& after.place() == before.place()
        // Where the key list is known to mirror the store, the store is
        // not asked for a key that the list does not hold.
        &&& before.in_step() && !before.contents().contains_key(key) ==> gives(
            r,
            OutcomeView::FieldNotFound,
        ) && after == before
        &&& match r {
            Ok(OpsOutcome::FieldNotFound) => {
                &&& !before.contents().contains_key(key)
                &&& after.contents() == before.contents()
                &&& after.in_step()
            },
            Ok(OpsOutcome::FieldModified) => {
                &&& before.contents().contains_key(key)
                &&& after.in_step()
                &&& after.settled()
                &&& after.contents().contains_key(key)
                &&& after.contents() == before.contents().insert(key, after.contents()[key])
                &&& parse_record(before.contents()[key]) matches Some(was)
                &&& parse_record(after.contents()[key]) matches Some(is)
                &&& is.wf()
                &&& is.data == data
                &&& is.created == was.created
                &&& is.modified.at_or_after(was.modified)
            },
            Ok(_) => false,
            Err(TuringDbError::CorruptRecord) => before.contents().contains_key(key)
                && parse_record(before.contents()[key]) is None && after.contents()
                == before.contents(),
            Err(e) => e.is_store_failure(),
        }
    }
}

/// What `Document::flush` comes to: the fields stay as they are, and where
/// the call succeeds, all of them are on stable storage.
pub open spec fn flush_post(
    before: Document,
    after: Document,
    r: Result<OpsOutcome, TuringDbError>,
) -> bool {
    &&& after.contents() == before.contents()
    &&& after.place() == before.place()
    &&& after.key_list() == before.key_list()
    &&& after.in_step() == before.in_step()
    &&& match r {
        Ok(outcome) => outcome@ == OutcomeView::Committed && after.settled(),
        Err(e) => e.is_store_failure(),
    }
}

/// What reading a field comes to, given what the store holds under its
/// key: without anything there the field is not found; a record there gives
/// its payload; bytes that are no record are corrupt.
pub open spec fn read_view(stored: Option<Seq<u8>>) -> Result<OutcomeView, TuringDbError> {
    match stored {
        None => Ok(OutcomeView::FieldNotFound),
        Some(bytes) => match parse_record(bytes) {
            Some(record) => Ok(OutcomeView::FieldContents(record.data)),
            None => Err(TuringDbError::CorruptRecord),
        },
    }
}

/// What reading a field comes to, given what the store handed back for its
/// key.
pub fn read_outcome(stored: Option<Vec<u8>>) -> (r: Result<OpsOutcome, TuringDbError>)
    ensures
        match r {
            Ok(outcome) => read_view(
                match stored {
                    Some(bytes) => Some(bytes@),
                    None => None,
                },
            ) == Ok::<OutcomeView, TuringDbError>(outcome@),
            Err(e) => read_view(
                match stored {
                    Some(bytes) => Some(bytes@),
                    None => None,
                },
            ) == Err::<OutcomeView, TuringDbError>(e),
        },
{
    match stored {
        None => Ok(OpsOutcome::FieldNotFound),
        Some(bytes) => {
            let record = FieldData::decode(bytes.as_slice())?;
            Ok(OpsOutcome::FieldContents(record.into_data()))
        },
    }
}

/// The record that takes the place of a stored one when its payload is
/// replaced by `data` at the time `now`: the time of creation stays, and the
/// time of change moves to `now` unless that would take it back.
pub open spec fn renewed(stored: Seq<u8>, data: Seq<u8>, now: Timestamp) -> Option<RecordView> {
    match parse_record(stored) {
        Some(was) => Some(
            RecordView {
                data,
                created: was.created,
                modified: if now.at_or_after(was.modified) {
                    now
                } else {
                    was.modified
                },
            },
        ),
        None => None,
    }
}

/// The bytes to store in place of `stored` when the payload is replaced by
/// `data` at the time `now`. Bytes that are no record are refused as
/// `CorruptRecord`.
pub fn renew_record(stored: &[u8], data: &[u8], now: Timestamp) -> (r: Result<
    Vec<u8>,
    TuringDbError,
>)
    requires
        now.wf(),
    ensures
        match r {
            Ok(bytes) => renewed(stored@, data@, now) matches Some(record) && record.wf()
                && bytes@ == record_bytes(record),
            Err(e) => renewed(stored@, data@, now) is None && e == TuringDbError::CorruptRecord,
        },
{
    let mut record = FieldData::decode(stored)?;
    record.update_at(data, now);
    Ok(record.encode())
}

/// What a failure to open a store is reported as: where a new store was
/// asked for and one exists at the place already, `DocumentAlreadyExists`;
/// else the failure itself.
pub open spec fn refusal_view(fresh: bool, e: TuringDbError) -> TuringDbError {
    if fresh && e == TuringDbError::Io(IoErrors::AlreadyExists) {
        TuringDbError::DocumentAlreadyExists
    } else {
        e
    }
}

/// Reports a failure to open a store.
pub fn refused_open(fresh: bool, e: TuringDbError) -> (r: TuringDbError)
    ensures
        r == refusal_view(fresh, e),
{
    if fresh {
        if let TuringDbError::Io(IoErrors::AlreadyExists) = e {
            return TuringDbError::DocumentAlreadyExists;
        }
    }
    e
}

/// What opening a document comes to once its store stands open, given what
/// reading the keys of the store gave: the keys, or the failure of the read.
///
/// A store that is opened as it is found gives its keys, or the failure. A
/// store that was to be new gives its keys where there is none; one that
/// holds a key is refused as `DocumentAlreadyExists`, and one whose keys
/// could not be read as `DocumentUnfinished`.
pub open spec fn open_view(fresh: bool, found: Result<Seq<Seq<u8>>, TuringDbError>) -> Result<
    Seq<Seq<u8>>,
    TuringDbError,
> {
    match found {
        Ok(keys) => if fresh && keys.len() > 0 {
            Err(TuringDbError::DocumentAlreadyExists)
        } else {
            Ok(keys)
        },
        Err(e) => if fresh {
            Err(TuringDbError::DocumentUnfinished)
        } else {
            Err(e)
        },
    }
}

/// The keys that were read, or the failure of the read, as `open_view`
/// takes them.
pub open spec fn found_view(found: Result<KeyList, TuringDbError>) -> Result<
    Seq<Seq<u8>>,
    TuringDbError,
> {
    match found {
        Ok(list) => Ok(list@),
        Err(e) => Err(e),
    }
}

/// Settles the opening of a document whose store stands open: `found` is
/// what reading its keys gave. The list that is handed back is the one that
/// was handed in.
pub fn settle_open(fresh: bool, found: Result<KeyList, TuringDbError>) -> (r: Result<
    KeyList,
    TuringDbError,
>)
    ensures
        found_view(r) == open_view(fresh, found_view(found)),
        r is Ok ==> r == found,
{
    match found {
        Ok(keys) => {
            if fresh && !keys.is_empty() {
                return Err(TuringDbError::DocumentAlreadyExists);
            }
            Ok(keys)
        },
        Err(e) => {
            if fresh {
                return Err(TuringDbError::DocumentUnfinished);
            }
            Err(e)
        },
    }
}

impl Document {
    /// What the store holds: the stored bytes of each field, by key.
    pub closed spec fn contents(&self) -> Map<Seq<u8>, Seq<u8>> {
        kv_contents(self.store)
    }

    /// The path of the directory that the store was opened at.
    pub closed spec fn place(&self) -> Seq<char> {
        store_place(self.store)
    }

    /// The cached keys, in order.
    pub closed spec fn key_list(&self) -> Seq<Seq<u8>> {
        self.keys@
    }

    /// The key list is known to mirror the store.
    pub closed spec fn in_step(&self) -> bool {
        self.synced
    }

    /// Every write made to the store so far is on stable storage.
    pub closed spec fn settled(&self) -> bool {
        store_flushed(self.store)
    }

    /// The key list is strictly ascending, and while the document is in
    /// step, its keys are exactly the keys in the store.
    pub open spec fn wf(&self) -> bool {
        &&& ascending(self.key_list())
        &&& self.in_step() ==> self.key_list().to_set() == self.contents().dom()
    }

    /// Opens the store of document `doc` of database `db` in the repository
    /// at `repo`, which is kept in the directory `repo/db/doc`, and reads
    /// its keys. What the store hands back is settled by `settle_open`.
    /// Without `fresh` the store is opened as it is found.
    ///
    /// With `fresh` the store must be new: one that exists already, or that
    /// holds anything once opened, is refused as `DocumentAlreadyExists`.
    /// Where a new store was made and its keys could then not be read, the
    /// call fails with `DocumentUnfinished`: only then is a directory left
    /// behind that holds nothing of worth.
    pub fn open(repo: &str, db: &str, doc: &str, fresh: bool) -> (r: Result<
        Document,
        TuringDbError,
    >)
        ensures
            match r {
                Ok(d) => d.wf() && d.in_step() && d.place() == place_of(repo@, db@, doc@) && (fresh
                    ==> d.contents() == Map::<Seq<u8>, Seq<u8>>::empty()),
                Err(e) => e.is_store_failure() || (fresh && e
                    == TuringDbError::DocumentAlreadyExists),
            },
    {
        let path = store_path(repo, db, doc);
        let store = match store_open(path.as_str(), fresh) {
            Ok(store) => store,
            Err(e) => {
                return Err(refused_open(fresh, store_error(e)));
            },
        };
        let found = match load_keys(&store) {
            Ok(keys) => Ok(keys),
            Err(e) => Err(store_error(e)),
        };
        let keys = settle_open(fresh, found)?;
        let d = Document { store, keys, synced: true };
        proof {
            if fresh {
                assert(d.key_list().to_set() =~= Set::<Seq<u8>>::empty());
                assert(d.contents() =~= Map::<Seq<u8>, Seq<u8>>::empty());
            }
        }
        Ok(d)
    }

    /// Brings a document that is out of step back in step: reads the keys of
    /// the store afresh.
    fn resync(&mut self) -> (r: Result<(), TuringDbError>)
        requires
            old(self).wf(),
        ensures
            final(self).wf(),
            final(self).contents() == old(self).contents(),
            final(self).place() == old(self).place(),
            old(self).in_step() ==> r is Ok && *final(self) == *old(self),
            r is Ok ==> final(self).in_step(),
            r matches Err(e) ==> e.is_store_failure(),
    {
        if self.synced {
            return Ok(());
        }
        match load_keys(&self.store) {
            Ok(keys) => {
                self.keys = keys;
                self.synced = true;
                Ok(())
            },
            Err(e) => Err(store_error(e)),
        }
    }

    /// The keys of all fields, in ascending order, or `DocumentEmpty` where
    /// there is none.
    pub fn list_keys(&mut self) -> (r: Result<OpsOutcome, TuringDbError>)
        requires
            old(self).wf(),
        ensures
            final(self).wf(),
            list_post(*old(self), *final(self), r),
    {
        self.resync()?;
        if self.keys.is_empty() {
            Ok(OpsOutcome::DocumentEmpty)
        } else {
            Ok(OpsOutcome::FieldList(self.keys.to_vec()))
        }
    }

    /// Creates the field `key` with the payload `data`.
    ///
    /// An empty key is refused as `EmptyFieldName`, an empty payload as
    /// `EmptyData`. Where the key exists the outcome is `FieldAlreadyExists`
    /// and nothing changes. Else a record of `data`, created and changed
    /// now, is stored under `key` and flushed, and the outcome is
    /// `FieldInserted`.
    pub fn insert(&mut self, key: &[u8], data: &[u8]) -> (r: Result<OpsOutcome, TuringDbError>)
        requires
            old(self).wf(),
        ensures
            final(self).wf(),
            insert_post(*old(self), *final(self), key@, data@, r),
    {
        if key.len() == 0 {
            return Err(TuringDbError::EmptyFieldName);
        }
        if data.len() == 0 {
            return Err(TuringDbError::EmptyData);
        }
        self.resync()?;
        if self.keys.contains(key) {
            return Ok(OpsOutcome::FieldAlreadyExists);
        }
        let record = FieldData::new(data);
        let bytes = record.encode();
        proof {
            crate::fields::lemma_record_round_trip(record@);
        }
        match store_insert(&mut self.store, key, bytes.as_slice()) {
            Ok(_) => {
                self.keys.insert(key);
            },
            Err(e) => {
                self.synced = false;
                return Err(store_error(e));
            },
        }
        match store_flush(&mut self.store) {
            Ok(_) => Ok(OpsOutcome::FieldInserted),
            Err(e) => Err(store_error(e)),
        }
    }

    /// The payload of the field `key`.
    ///
    /// An empty key is refused as `EmptyFieldName`. Where the key does not
    /// exist the outcome is `FieldNotFound`. Where the bytes stored under it
    /// are no record the call fails with `CorruptRecord`.
    pub fn get(&mut self, key: &[u8]) -> (r: Result<OpsOutcome, TuringDbError>)
        requires
            old(self).wf(),
        ensures
            final(self).wf(),
            get_post(*old(self), *final(self), key@, r),
    {
        if key.len() == 0 {
            return Err(TuringDbError::EmptyFieldName);
        }
        self.resync()?;
        if !self.keys.contains(key) {
            return Ok(OpsOutcome::FieldNotFound);
        }
        match store_get(&self.store, key) {
            Ok(stored) => read_outcome(stored),
            Err(e) => Err(store_error(e)),
        }
    }

    /// Drops the field `key`.
    ///
    /// An empty key is refused as `EmptyFieldName`. Where the key does not
    /// exist the outcome is `FieldNotFound` and nothing changes. Else the
    /// field is taken out of the store and of the key list, the store is
    /// flushed, and the outcome is `FieldDropped`.
    pub fn remove(&mut self, key: &[u8]) -> (r: Result<OpsOutcome, TuringDbError>)
        requires
            old(self).wf(),
        ensures
            final(self).wf(),
            remove_post(*old(self), *final(self), key@, r),
    {
        if key.len() == 0 {
            return Err(TuringDbError::EmptyFieldName);
        }
        self.resync()?;
        if !self.keys.contains(key) {
            return Ok(OpsOutcome::FieldNotFound);
        }
        match store_remove(&mut self.store, key) {
            Ok(_) => {
                self.keys.remove(key);
            },
            Err(e) => {
                self.synced = false;
                return Err(store_error(e));
            },
        }
        match store_flush(&mut self.store) {
            Ok(_) => Ok(OpsOutcome::FieldDropped),
            Err(e) => Err(store_error(e)),
        }
    }

    /// Replaces the payload of the field `key` by `data`.
    ///
    /// An empty key is refused as `EmptyFieldName`, an empty payload as
    /// `EmptyData`. Where the key does not exist the outcome is
    /// `FieldNotFound` and nothing changes. Else the stored record is read,
    /// its payload replaced and its time of change renewed, the record is
    /// stored again under the same key and flushed, and the outcome is
    /// `FieldModified`. The time of creation stays, and the time of change
    /// does not go back.
    pub fn modify(&mut self, key: &[u8], data: &[u8]) -> (r: Result<OpsOutcome, TuringDbError>)
        requires
            old(self).wf(),
        ensures
            final(self).wf(),
            modify_post(*old(self), *final(self), key@, data@, r),
    {
        if key.len() == 0 {
            return Err(TuringDbError::EmptyFieldName);
        }
        if data.len() == 0 {
            return Err(TuringDbError::EmptyData);
        }
        self.resync()?;
        if !self.keys.contains(key) {
            return Ok(OpsOutcome::FieldNotFound);
        }
        let stored = match store_get(&self.store, key) {
            Ok(Some(bytes)) => bytes,
            Ok(None) => {
                return Ok(OpsOutcome::FieldNotFound);
            },
            Err(e) => {
                return Err(store_error(e));
            },
        };
        let now = Timestamp::now();
        let bytes = renew_record(stored.as_slice(), data, now)?;
        proof {
            crate::fields::lemma_record_round_trip(renewed(stored@, data@, now)->0);
        }
        match store_insert(&mut self.store, key, bytes.as_slice()) {
            Ok(_) => {
                proof {
                    assert(self.contents().dom() =~= old(self).contents().dom());
                }
            },
            Err(e) => {
                self.synced = false;
                return Err(store_error(e));
            },
        }
        match store_flush(&mut self.store) {
            Ok(_) => Ok(OpsOutcome::FieldModified),
            Err(e) => Err(store_error(e)),
        }
    }

    /// Writes what is pending to stable storage.
    pub fn flush(&mut self) -> (r: Result<OpsOutcome, TuringDbError>)
        requires
            old(self).wf(),
        ensures
            final(self).wf(),
            flush_post(*old(self), *final(self), r),
    {
        match store_flush(&mut self.store) {
            Ok(_) => Ok(OpsOutcome::Committed),
            Err(e) => Err(store_error(e)),
        }
    }
}

/// Key-list mirror: in a well-formed document that is in step, the cached
/// keys are strictly ascending and are exactly the keys in the store.
pub proof fn lemma_key_list_mirror(d: Document)
    requires
        d.wf(),
        d.in_step(),
    ensures
        ascending(d.key_list()),
        d.key_list().no_duplicates(),
        forall|key: Seq<u8>| d.key_list().contains(key) <==> d.contents().contains_key(key),
{
    crate::keys::lemma_ascending_distinct(d.key_list());
    assert forall|key: Seq<u8>| d.key_list().contains(key) <==> d.contents().contains_key(
        key,
    ) by {
        assert(d.key_list().to_set().contains(key) == d.contents().dom().contains(key));
    }
}

/// The cached key list is determined by what the store holds: two
/// well-formed documents in step whose stores hold the same keys list the
/// same keys in the same order.
pub proof fn lemma_key_list_determined(a: Document, b: Document)
    requires
        a.wf(),
        a.in_step(),
        b.wf(),
        b.in_step(),
        a.contents().dom() == b.contents().dom(),
    ensures
        a.key_list() == b.key_list(),
{
    crate::keys::lemma_ascending_unique(a.key_list(), b.key_list());
}

/// Round trip: once a field was inserted with a payload, reading it gives
/// that payload, unless the store fails.
pub proof fn lemma_insert_then_get(
    d0: Document,
    d1: Document,
    d2: Document,
    key: Seq<u8>,
    data: Seq<u8>,
    inserted: Result<OpsOutcome, TuringDbError>,
    read: Result<OpsOutcome, TuringDbError>,
)
    requires
        insert_post(d0, d1, key, data, inserted),
        gives(inserted, OutcomeView::FieldInserted),
        get_post(d1, d2, key, read),
    ensures
        match read {
            Ok(outcome) => outcome@ == OutcomeView::FieldContents(data),
            Err(e) => e.is_store_failure(),
        },
{
}

/// Flushed before acknowledged: a write that is acknowledged, be it an
/// insert, a removal or a change, is on stable storage.
pub proof fn lemma_acknowledged_write_settled(
    d0: Document,
    d1: Document,
    key: Seq<u8>,
    data: Seq<u8>,
    r: Result<OpsOutcome, TuringDbError>,
)
    requires
        ({
            ||| insert_post(d0, d1, key, data, r) && gives(r, OutcomeView::FieldInserted)
            ||| remove_post(d0, d1, key, r) && gives(r, OutcomeView::FieldDropped)
            ||| modify_post(d0, d1, key, data, r) && gives(r, OutcomeView::FieldModified)
        }),
    ensures
        d1.settled(),
{
}

/// Timestamps: a record that was inserted or modified was not changed
/// before it was made; modifying keeps its time of creation and does not
/// move its time of change back.
pub proof fn lemma_modify_keeps_times(
    d0: Document,
    d1: Document,
    key: Seq<u8>,
    data: Seq<u8>,
    modified: Result<OpsOutcome, TuringDbError>,
)
    requires
        modify_post(d0, d1, key, data, modified),
        gives(modified, OutcomeView::FieldModified),
    ensures
        parse_record(d0.contents()[key]) is Some,
        parse_record(d1.contents()[key]) is Some,
        parse_record(d1.contents()[key])->0.modified.at_or_after(
            parse_record(d1.contents()[key])->0.created,
        ),
        parse_record(d1.contents()[key])->0.created == parse_record(d0.contents()[key])->0.created,
        parse_record(d1.contents()[key])->0.modified.at_or_after(
            parse_record(d0.contents()[key])->0.modified,
        ),
{
}

/// A record that was modified is the stored record renewed at some reading
/// of the clock: the engine stores what `renew_record` gives, and nothing
/// else.
pub proof fn lemma_modified_is_renewed(
    d0: Document,
    d1: Document,
    key: Seq<u8>,
    data: Seq<u8>,
    modified: Result<OpsOutcome, TuringDbError>,
)
    requires
        modify_post(d0, d1, key, data, modified),
        gives(modified, OutcomeView::FieldModified),
    ensures
        exists|now: Timestamp|
            now.wf() && #[trigger] renewed(d0.contents()[key], data, now) == parse_record(
                d1.contents()[key],
            ),
{
    let is = parse_record(d1.contents()[key])->0;
    assert(renewed(d0.contents()[key], data, is.modified) == Some(is));
}

/// The record of `data` that is made at the time `now`.
pub open spec fn made_at(data: Seq<u8>, now: Timestamp) -> RecordView {
    RecordView { data, created: now, modified: now }
}

/// A record that was inserted was made and last changed at one reading of
/// the clock.
pub proof fn lemma_inserted_is_new(
    d0: Document,
    d1: Document,
    key: Seq<u8>,
    data: Seq<u8>,
    inserted: Result<OpsOutcome, TuringDbError>,
)
    requires
        insert_post(d0, d1, key, data, inserted),
        gives(inserted, OutcomeView::FieldInserted),
    ensures
        exists|now: Timestamp|
            now.wf() && parse_record(d1.contents()[key]) == Some(#[trigger] made_at(data, now)),
{
    let is = parse_record(d1.contents()[key])->0;
    assert(is == made_at(data, is.created));
}

/// Every record that the store can hand back was not changed before it was
/// made.
pub proof fn lemma_stored_record_times(bytes: Seq<u8>)
    requires
        parse_record(bytes) is Some,
    ensures
        parse_record(bytes)->0.modified.at_or_after(parse_record(bytes)->0.created),
{
}

/// Double insert: where a field was inserted, inserting it again comes to
/// `FieldAlreadyExists` and changes nothing.
pub proof fn lemma_insert_twice(
    d0: Document,
    d1: Document,
    d2: Document,
    key: Seq<u8>,
    first: Seq<u8>,
    second: Seq<u8>,
    r1: Result<OpsOutcome, TuringDbError>,
    r2: Result<OpsOutcome, TuringDbError>,
)
    requires
        insert_post(d0, d1, key, first, r1),
        gives(r1, OutcomeView::FieldInserted),
        second.len() > 0,
        insert_post(d1, d2, key, second, r2),
    ensures
        gives(r2, OutcomeView::FieldAlreadyExists),
        d2 == d1,
{
}

/// Removing a field that a document in step does not have comes to
/// `FieldNotFound` and changes nothing.
pub proof fn lemma_remove_absent(
    d0: Document,
    d1: Document,
    key: Seq<u8>,
    r: Result<OpsOutcome, TuringDbError>,
)
    requires
        key.len() > 0,
        d0.in_step(),
        !d0.contents().contains_key(key),
        remove_post(d0, d1, key, r),
    ensures
        gives(r, OutcomeView::FieldNotFound),
        d1 == d0,
{
}

/// Reading or modifying a field that a document in step does not have comes
/// to `FieldNotFound` and changes nothing.
pub proof fn lemma_absent_field(
    d0: Document,
    d1: Document,
    d2: Document,
    key: Seq<u8>,
    data: Seq<u8>,
    read: Result<OpsOutcome, TuringDbError>,
    modified: Result<OpsOutcome, TuringDbError>,
)
    requires
        key.len() > 0,
        data.len() > 0,
        d0.in_step(),
        !d0.contents().contains_key(key),
        get_post(d0, d1, key, read),
        modify_post(d1, d2, key, data, modified),
    ensures
        gives(read, OutcomeView::FieldNotFound),
        gives(modified, OutcomeView::FieldNotFound),
        d2 == d0,
{
}

/// What a document answers is decided by what its store holds: two
/// documents in step whose stores hold the same list the same keys and read
/// the same payload under every key, unless the store fails.
pub proof fn lemma_same_store_same_answers(
    a: Document,
    a1: Document,
    b: Document,
    b1: Document,
    key: Seq<u8>,
    read_a: Result<OpsOutcome, TuringDbError>,
    read_b: Result<OpsOutcome, TuringDbError>,
    list_a: Result<OpsOutcome, TuringDbError>,
    list_b: Result<OpsOutcome, TuringDbError>,
)
    requires
        a.wf(),
        b.wf(),
        a.in_step(),
        b.in_step(),
        a.contents() == b.contents(),
        get_post(a, a1, key, read_a),
        get_post(b, b1, key, read_b),
        list_post(a, a1, list_a),
        list_post(b, b1, list_b),
    ensures
        read_a matches Ok(x) ==> (read_b matches Ok(y) ==> x@ == y@),
        list_a matches Ok(x) && list_b matches Ok(y) && x@ == y@,
{
    lemma_key_list_determined(a, b);
}

} // verus!
