//! The repository: its databases by name.

use crate::database::{
    lemma_places_after_push,
    document_create_post, document_drop_post, document_list_sorted_post, document_list_view,
    field_get_post, field_insert_post, field_list_post, field_modify_post, field_remove_post,
    flush_document_post, lemma_empty_text, Tdb,
};
use crate::document::Document;
use crate::errors::TuringDbError;
use crate::names::{
    is_component, names_ascending, place_of, plain_component, sort_names, text_bytes,
};
use crate::outcome::{gives, name_views, OpsOutcome, OutcomeView};
use crate::registry::{
    index_clear, index_contents, index_get, index_insert, index_is_empty, index_names, index_new,
    index_remove,
};
use vstd::prelude::*;

verus! {

/// The repository in memory: an index from the name of each database to
/// the slot that holds it, the slots, and the path of the root directory.
pub struct TuringEngine {
    index: dashmap::DashMap<String, usize>,
    slots: Vec<Option<Tdb>>,
    repo_dir: String,
}

/// One entry of a directory, as the file system lists it.
#[derive(Debug, Clone, PartialEq, Eq)]
pub struct DirEntry {
    pub name: String,
    pub is_dir: bool,
}

/// An entry of the root directory, and the entries below it where it is a
/// directory.
#[derive(Debug, Clone, PartialEq, Eq)]
pub struct DbDir {
    pub entry: DirEntry,
    pub children: Vec<DirEntry>,
}

/// A document that recovery found and could not load.
#[derive(Debug, Clone, PartialEq, Eq)]
pub struct RecoveryFault {
    pub db: String,
    pub document: String,
    pub error: TuringDbError,
}

/// Recovery loads an entry where it is a directory whose name can stand as
/// the name of a database or of a document; so it passes over hidden
/// directories.
pub open spec fn loadable(e: DirEntry) -> bool {
    e.is_dir && plain_component(text_bytes(e.name@))
}

/// The entries hold a loadable one of this name.
pub open spec fn listed(entries: Seq<DirEntry>, name: Seq<char>) -> bool {
    exists|j: int| 0 <= j < entries.len() && loadable(#[trigger] entries[j]) && entries[j].name@ == name
}

/// The listing holds a loadable database directory of this name.
pub open spec fn listed_db(listing: Seq<DbDir>, db: Seq<char>) -> bool {
    exists|i: int|
        0 <= i < listing.len() && loadable((#[trigger] listing[i]).entry) && listing[i].entry.name@
            == db
}

/// The listing holds a loadable document directory of this name in a
/// loadable database directory of that name.
pub open spec fn listed_doc(listing: Seq<DbDir>, db: Seq<char>, doc: Seq<char>) -> bool {
    exists|i: int|
        0 <= i < listing.len() && loadable((#[trigger] listing[i]).entry) && listing[i].entry.name@
            == db && listed(listing[i].children@, doc)
}

/// The report holds a fault for this document.
pub open spec fn reported(report: Seq<RecoveryFault>, db: Seq<char>, doc: Seq<char>) -> bool {
    exists|k: int|
        0 <= k < report.len() && (#[trigger] report[k]).db@ == db && report[k].document@ == doc
}

/// The document is in step with its store, and its store is the one kept in
/// the directory of document `doc` of database `db` under `root`.
pub open spec fn recovered_at(d: Document, root: Seq<char>, db: Seq<char>, doc: Seq<char>) -> bool {
    d.in_step() && d.place() == place_of(root, db, doc)
}

/// What `TuringEngine::repo_init` comes to: the repository has exactly the
/// databases that the listing holds; every document it has is one that the
/// listing holds, is in step with its store, and has its store in its own
/// directory under the root; every document that the
/// listing holds is in the repository or in the report; and the report
/// holds nothing but documents that the listing holds and whose store
/// failed.
pub open spec fn repo_init_post(
    after: TuringEngine,
    listing: Seq<DbDir>,
    report: Seq<RecoveryFault>,
) -> bool {
    &&& forall|db: Seq<char>| after.has_db(db) <==> listed_db(listing, db)
    &&& forall|db: Seq<char>, doc: Seq<char>|
        after.has_db(db) && #[trigger] after.db(db).has(doc) ==> listed_doc(listing, db, doc)
            && recovered_at(after.db(db).named(doc), after.root(), db, doc)
    &&& forall|db: Seq<char>, doc: Seq<char>| #[trigger]
        listed_doc(listing, db, doc) ==> after.db(db).has(doc) || reported(report, db, doc)
    &&& forall|k: int|
        0 <= k < report.len() ==> listed_doc(
            listing,
            (#[trigger] report[k]).db@,
            report[k].document@,
        ) && report[k].error.is_store_failure()
}

/// What an operation within the database `db` comes to, given what it comes
/// to in the database itself: without that database the outcome is
/// `DbNotFound` and nothing changes; with it, nothing but that database
/// changes.
pub open spec fn in_database(
    before: TuringEngine,
    after: TuringEngine,
    db: Seq<char>,
    r: Result<OpsOutcome, TuringDbError>,
    post: spec_fn(Tdb, Tdb) -> bool,
) -> bool {
    if before.has_db(db) {
        &&& after.same_but(before, db)
        &&& after.has_db(db)
        &&& post(before.db(db), after.db(db))
    } else {
        &&& after.same_as(before)
        &&& gives(r, OutcomeView::DbNotFound)
    }
}

/// What `TuringEngine::doc_create` comes to.
pub open spec fn doc_create_post(
    before: TuringEngine,
    after: TuringEngine,
    db: Seq<char>,
    doc: Seq<char>,
    r: Result<OpsOutcome, TuringDbError>,
) -> bool {
    in_database(
        before,
        after,
        db,
        r,
        |was: Tdb, is: Tdb| document_create_post(was, is, before.root(), db, doc, r),
    )
}

/// What `TuringEngine::doc_drop` comes to.
pub open spec fn doc_drop_post(
    before: TuringEngine,
    after: TuringEngine,
    db: Seq<char>,
    doc: Seq<char>,
    r: Result<OpsOutcome, TuringDbError>,
) -> bool {
    in_database(before, after, db, r, |was: Tdb, is: Tdb| document_drop_post(was, is, doc, r))
}

/// What `TuringEngine::field_list` comes to.
pub open spec fn engine_field_list_post(
    before: TuringEngine,
    after: TuringEngine,
    db: Seq<char>,
    doc: Seq<char>,
    r: Result<OpsOutcome, TuringDbError>,
) -> bool {
    in_database(before, after, db, r, |was: Tdb, is: Tdb| field_list_post(was, is, doc, r))
}

/// What `TuringEngine::flush` comes to.
pub open spec fn engine_flush_post(
    before: TuringEngine,
    after: TuringEngine,
    db: Seq<char>,
    doc: Seq<char>,
    r: Result<OpsOutcome, TuringDbError>,
) -> bool {
    in_database(before, after, db, r, |was: Tdb, is: Tdb| flush_document_post(was, is, doc, r))
}

/// What `TuringEngine::field_insert` comes to.
pub open spec fn engine_field_insert_post(
    before: TuringEngine,
    after: TuringEngine,
    db: Seq<char>,
    doc: Seq<char>,
    key: Seq<u8>,
    data: Seq<u8>,
    r: Result<OpsOutcome, TuringDbError>,
) -> bool {
    in_database(before, after, db, r, |was: Tdb, is: Tdb| field_insert_post(was, is, doc, key, data, r))
}

/// What `TuringEngine::field_get` comes to.
pub open spec fn engine_field_get_post(
    before: TuringEngine,
    after: TuringEngine,
    db: Seq<char>,
    doc: Seq<char>,
    key: Seq<u8>,
    r: Result<OpsOutcome, TuringDbError>,
) -> bool {
    in_database(before, after, db, r, |was: Tdb, is: Tdb| field_get_post(was, is, doc, key, r))
}

/// What `TuringEngine::field_remove` comes to.
pub open spec fn engine_field_remove_post(
    before: TuringEngine,
    after: TuringEngine,
    db: Seq<char>,
    doc: Seq<char>,
    key: Seq<u8>,
    r: Result<OpsOutcome, TuringDbError>,
) -> bool {
    in_database(before, after, db, r, |was: Tdb, is: Tdb| field_remove_post(was, is, doc, key, r))
}

/// What `TuringEngine::field_modify` comes to.
pub open spec fn engine_field_modify_post(
    before: TuringEngine,
    after: TuringEngine,
    db: Seq<char>,
    doc: Seq<char>,
    key: Seq<u8>,
    data: Seq<u8>,
    r: Result<OpsOutcome, TuringDbError>,
) -> bool {
    in_database(before, after, db, r, |was: Tdb, is: Tdb| field_modify_post(was, is, doc, key, data, r))
}

/// What `TuringEngine::db_create` comes to.
pub open spec fn db_create_post(
    before: TuringEngine,
    after: TuringEngine,
    name: Seq<char>,
    r: Result<OpsOutcome, TuringDbError>,
) -> bool {
    if name.len() == 0 {
        &&& r == Err::<OpsOutcome, TuringDbError>(TuringDbError::DbNameMissing)
        &&& after.same_as(before)
    } else if !plain_component(text_bytes(name)) {
        &&& r == Err::<OpsOutcome, TuringDbError>(TuringDbError::InvalidPathUnicodeName)
        &&& after.same_as(before)
    } else if before.has_db(name) {
        &&& gives(r, OutcomeView::DbAlreadyExists)
        &&& after.same_as(before)
    } else {
        &&& gives(r, OutcomeView::DbCreated)
        &&& after.same_but(before, name)
        &&& after.has_db(name)
        &&& after.db(name).names() == Seq::<Seq<char>>::empty()
    }
}

/// What `TuringEngine::db_drop` comes to.
pub open spec fn db_drop_post(
    before: TuringEngine,
    after: TuringEngine,
    name: Seq<char>,
    r: Result<OpsOutcome, TuringDbError>,
) -> bool {
    if name.len() == 0 {
        &&& r == Err::<OpsOutcome, TuringDbError>(TuringDbError::DbNameMissing)
        &&& after.same_as(before)
    } else if !before.has_db(name) {
        &&& gives(r, OutcomeView::DbNotFound)
        &&& after.same_as(before)
    } else {
        &&& gives(r, OutcomeView::DbDropped)
        &&& after.same_but(before, name)
        &&& !after.has_db(name)
    }
}

/// What `TuringEngine::db_list` and `TuringEngine::db_list_sorted` come to:
/// `RepoEmpty` where there is no database, else the names of all, once each.
pub open spec fn db_list_post(engine: TuringEngine, outcome: OutcomeView) -> bool {
    if engine.has_none() {
        outcome == OutcomeView::RepoEmpty
    } else {
        &&& outcome matches OutcomeView::DbList(names)
        &&& names.no_duplicates()
        &&& forall|name: Seq<char>| names.contains(name) <==> engine.has_db(name)
    }
}

impl TuringEngine {
    /// The repository has a database of this name.
    pub closed spec fn has_db(&self, name: Seq<char>) -> bool {
        index_contents(self.index).contains_key(name)
    }

    /// The database of this name.
    pub closed spec fn db(&self, name: Seq<char>) -> Tdb {
        self.slots@[index_contents(self.index)[name] as int]->0
    }

    /// The path of the root directory.
    pub closed spec fn root(&self) -> Seq<char> {
        self.repo_dir@
    }

    /// Every name of the index leads to a slot that is taken, and no two
    /// names to the same.
    pub closed spec fn linked(&self) -> bool {
        &&& forall|name: Seq<char>| #[trigger]
            index_contents(self.index).contains_key(name) ==> index_contents(self.index)[name]
                < self.slots@.len() && self.slots@[index_contents(
                self.index,
            )[name] as int] is Some
        &&& forall|a: Seq<char>, b: Seq<char>|
            index_contents(self.index).contains_key(a) && index_contents(self.index).contains_key(
                b,
            ) && a != b ==> #[trigger] index_contents(self.index)[a] != #[trigger] index_contents(
                self.index,
            )[b]
    }

    /// The index is sound, every name can stand as the name of a database,
    /// every database is well formed, and every document has its store in
    /// its own directory under the root.
    pub open spec fn wf(&self) -> bool {
        &&& self.linked()
        &&& forall|name: Seq<char>| #[trigger]
            self.has_db(name) ==> plain_component(text_bytes(name)) && self.db(name).wf()
                && self.db(name).seated(self.root(), name)
    }

    /// The repository has no database.
    pub open spec fn has_none(&self) -> bool {
        forall|name: Seq<char>| !self.has_db(name)
    }

    /// The same root, the same names and the same databases.
    pub open spec fn same_as(&self, other: TuringEngine) -> bool {
        &&& self.root() == other.root()
        &&& forall|name: Seq<char>| #[trigger] self.has_db(name) == other.has_db(name)
        &&& forall|name: Seq<char>| #[trigger] self.has_db(name) ==> self.db(name) == other.db(name)
    }

    /// The same but for the database of this name.
    pub open spec fn same_but(&self, other: TuringEngine, db: Seq<char>) -> bool {
        &&& self.root() == other.root()
        &&& forall|name: Seq<char>| name != db ==> #[trigger] self.has_db(name) == other.has_db(name)
        &&& forall|name: Seq<char>|
            name != db && #[trigger] self.has_db(name) ==> self.db(name) == other.db(name)
    }

    /// A repository without databases, with its root directory at
    /// `repo_dir`.
    pub fn new(repo_dir: &str) -> (r: TuringEngine)
        ensures
            r.wf(),
            r.has_none(),
            r.root() == repo_dir@,
    {
        TuringEngine { index: index_new(), slots: Vec::new(), repo_dir: repo_dir.to_owned() }
    }

    /// The path of the root directory.
    pub fn get_repo_dir(&self) -> (r: &String)
        ensures
            r@ == self.root(),
    {
        &self.repo_dir
    }

    /// Whether the repository has no database.
    pub fn is_empty(&self) -> (r: bool)
        ensures
            r == self.has_none(),
    {
        let r = index_is_empty(&self.index);
        proof {
            if r {
                assert forall|name: Seq<char>| !self.has_db(name) by {
                    assert(!index_contents(self.index).contains_key(name));
                }
            } else if self.has_none() {
                assert forall|name: Seq<char>| !index_contents(self.index).contains_key(name) by {
                    assert(!self.has_db(name));
                }
            }
        }
        r
    }

    /// Whether the repository has the database `name`.
    pub fn contains_db(&self, name: &str) -> (r: bool)
        ensures
            r == self.has_db(name@),
    {
        index_get(&self.index, name).is_some()
    }

    /// Whether the repository has the document `doc` of the database `db`.
    pub fn contains_doc(&self, db: &str, doc: &str) -> (r: bool)
        requires
            self.wf(),
        ensures
            r == (self.has_db(db@) && self.db(db@).has(doc@)),
    {
        match self.slot_of(db) {
            None => false,
            Some(i) => match &self.slots[i] {
                Some(tdb) => tdb.find(doc).is_some(),
                None => false,
            },
        }
    }

    /// The first slot that is free, if there is one: every slot before it
    /// is taken, and where there is none, every slot is.
    fn free_slot(&self) -> (r: Option<usize>)
        ensures
            match r {
                Some(i) => {
                    &&& i < self.slots@.len()
                    &&& self.slots@[i as int] is None
                    &&& forall|k: int| 0 <= k < i ==> self.slots@[k] is Some
                },
                None => forall|k: int| 0 <= k < self.slots@.len() ==> self.slots@[k] is Some,
            },
    {
        let mut i: usize = 0;
        while i < self.slots.len()
            invariant
                i <= self.slots.len(),
                forall|k: int| 0 <= k < i ==> self.slots@[k] is Some,
            decreases self.slots.len() - i,
        {
            if self.slots[i].is_none() {
                return Some(i);
            }
            i = i + 1;
        }
        None
    }

    /// Takes in the database `name`, without documents. Its directory is
    /// the caller's to make.
    ///
    /// An empty name is refused as `DbNameMissing`, one that is hidden or
    /// is no single component of a path as `InvalidPathUnicodeName`. Where the
    /// database exists the outcome is `DbAlreadyExists` and nothing changes.
    pub fn db_create(&mut self, name: &str) -> (r: Result<OpsOutcome, TuringDbError>)
        requires
            old(self).wf(),
        ensures
            final(self).wf(),
            db_create_post(*old(self), *final(self), name@, r),
    {
        proof {
            lemma_empty_text(name@);
        }
        if name.is_empty() {
            return Err(TuringDbError::DbNameMissing);
        }
        if !is_component(name) {
            return Err(TuringDbError::InvalidPathUnicodeName);
        }
        if index_get(&self.index, name).is_some() {
            return Ok(OpsOutcome::DbAlreadyExists);
        }
        let slot: usize = match self.free_slot() {
            Some(i) => {
                self.slots.set(i, Some(Tdb::new()));
                i
            },
            None => {
                self.slots.push(Some(Tdb::new()));
                self.slots.len() - 1
            },
        };
        let _ = index_insert(&mut self.index, name.to_owned(), slot);
        proof {
            let before = *old(self);
            let before_index = index_contents(before.index);
            assert forall|other: Seq<char>| #[trigger]
                self.has_db(other) implies plain_component(text_bytes(other)) && self.db(other).wf() && self.db(
                other,
            ).seated(self.root(), other) by {
                if other != name@ {
                    assert(before.has_db(other));
                    assert(before_index[other] != slot);
                    assert(self.db(other) == before.db(other));
                }
            }
            assert forall|other: Seq<char>| other != name@ && #[trigger] self.has_db(
                other,
            ) implies self.db(other) == before.db(other) by {
                assert(before.has_db(other));
                assert(before_index[other] != slot);
            }
        }
        Ok(OpsOutcome::DbCreated)
    }

    /// Takes the database `name` out of the repository and closes the
    /// stores of its documents. The directories are the caller's: the
    /// database is let go once its directory is removed.
    ///
    /// An empty name is refused as `DbNameMissing`. Where the database does
    /// not exist the outcome is `DbNotFound` and nothing changes.
    pub fn db_drop(&mut self, name: &str) -> (r: Result<OpsOutcome, TuringDbError>)
        requires
            old(self).wf(),
        ensures
            final(self).wf(),
            db_drop_post(*old(self), *final(self), name@, r),
    {
        if name.is_empty() {
            return Err(TuringDbError::DbNameMissing);
        }
        match index_remove(&mut self.index, name) {
            None => {
                proof {
                    assert(index_contents(self.index) =~= index_contents(old(self).index));
                    assert(self.linked());
                    assert forall|other: Seq<char>| #[trigger]
                        self.has_db(other) implies plain_component(text_bytes(other)) && self.db(
                        other,
                    ).wf() && self.db(other).seated(self.root(), other) by {
                        assert(old(self).has_db(other));
                    }
                }
                Ok(OpsOutcome::DbNotFound)
            },
            Some(slot) => {
                assert(old(self).has_db(name@));
                self.slots.set(slot, None);
                proof {
                    let before = *old(self);
                    let before_index = index_contents(before.index);
                    let index = index_contents(self.index);
                    assert forall|other: Seq<char>| #[trigger]
                        index.contains_key(other) implies index[other] < self.slots@.len()
                        && self.slots@[index[other] as int] is Some by {
                        assert(before_index.contains_key(other));
                        assert(before_index[other] != before_index[name@]);
                    }
                    assert(self.linked());
                    assert forall|other: Seq<char>| #[trigger]
                        self.has_db(other) implies plain_component(text_bytes(other)) && self.db(
                        other,
                    ).wf() && self.db(other).seated(self.root(), other) by {
                        assert(before.has_db(other));
                        assert(before_index[other] != slot);
                        assert(self.db(other) == before.db(other));
                    }
                    assert forall|other: Seq<char>| other != name@ && #[trigger] self.has_db(
                        other,
                    ) implies self.db(other) == before.db(other) by {
                        assert(before.has_db(other));
                        assert(before_index[other] != slot);
                    }
                }
                Ok(OpsOutcome::DbDropped)
            },
        }
    }

    /// Takes every database out of the repository and closes all stores.
    /// The directories are the caller's.
    pub fn clear(&mut self)
        ensures
            final(self).wf(),
            final(self).has_none(),
            final(self).root() == old(self).root(),
    {
        index_clear(&mut self.index);
        self.slots.clear();
    }

    /// The names of all databases in the order in which the index walks
    /// them, or `RepoEmpty` where there is none.
    pub fn db_list(&self) -> (r: OpsOutcome)
        ensures
            db_list_post(*self, r@),
    {
        let names = index_names(&self.index);
        proof {
            lemma_all_listed(*self, name_views(names@));
        }
        if names.len() == 0 {
            OpsOutcome::RepoEmpty
        } else {
            OpsOutcome::DbList(names)
        }
    }

    /// The names of all databases in ascending order, or `RepoEmpty` where
    /// there is none.
    pub fn db_list_sorted(&self) -> (r: OpsOutcome)
        ensures
            db_list_post(*self, r@),
            r@ matches OutcomeView::DbList(names) ==> names_ascending(names),
    {
        let names = index_names(&self.index);
        proof {
            lemma_all_listed(*self, name_views(names@));
        }
        if names.len() == 0 {
            OpsOutcome::RepoEmpty
        } else {
            let sorted = sort_names(&names);
            proof {
                crate::names::lemma_names_ascending_distinct(name_views(sorted@));
                lemma_all_listed(*self, name_views(sorted@));
            }
            OpsOutcome::DbList(sorted)
        }
    }

    /// The slot of the database `name`, if the repository has it.
    fn slot_of(&self, name: &str) -> (r: Option<usize>)
        requires
            self.wf(),
        ensures
            match r {
                Some(i) => {
                    &&& self.has_db(name@)
                    &&& i == index_contents(self.index)[name@]
                    &&& i < self.slots@.len()
                    &&& self.slots@[i as int] == Some(self.db(name@))
                    &&& self.db(name@).wf()
                },
                None => !self.has_db(name@),
            },
    {
        let r = index_get(&self.index, name);
        proof {
            if r is Some {
                assert(self.has_db(name@));
            }
        }
        r
    }

    /// Creates the document `doc` of the database `db`: opens a store that
    /// must be new in the directory of the document, which is named after
    /// it and lies in the directory of the database under the root, and
    /// takes the document in. After a failure of the store a directory may
    /// be left behind, which is the caller's to remove.
    pub fn doc_create(&mut self, db: &str, doc: &str) -> (r: Result<OpsOutcome, TuringDbError>)
        requires
            old(self).wf(),
        ensures
            final(self).wf(),
            doc_create_post(*old(self), *final(self), db@, doc@, r),
    {
        match self.slot_of(db) {
            None => Ok(OpsOutcome::DbNotFound),
            Some(i) => {
                let r = match &mut self.slots[i] {
                    Some(tdb) => tdb.document_create(self.repo_dir.as_str(), db, doc),
                    None => Ok(OpsOutcome::DbNotFound),
                };
                proof {
                    lemma_one_changed(*old(self), *self, db@);
                }
                r
            },
        }
    }

    /// Takes the document `doc` out of the database `db` and closes its
    /// store. The directory is the caller's: the document is let go once
    /// its directory is removed.
    pub fn doc_drop(&mut self, db: &str, doc: &str) -> (r: Result<OpsOutcome, TuringDbError>)
        requires
            old(self).wf(),
        ensures
            final(self).wf(),
            doc_drop_post(*old(self), *final(self), db@, doc@, r),
    {
        match self.slot_of(db) {
            None => Ok(OpsOutcome::DbNotFound),
            Some(i) => {
                let r = match &mut self.slots[i] {
                    Some(tdb) => tdb.document_drop(doc),
                    None => Ok(OpsOutcome::DbNotFound),
                };
                proof {
                    lemma_one_changed(*old(self), *self, db@);
                }
                r
            },
        }
    }

    /// The names of the documents of the database `db` in the order in
    /// which they came, `DbEmpty` where it has none, `DbNotFound` where
    /// there is no such database.
    pub fn doc_list(&self, db: &str) -> (r: OpsOutcome)
        requires
            self.wf(),
        ensures
            r@ == if self.has_db(db@) {
                document_list_view(self.db(db@))
            } else {
                OutcomeView::DbNotFound
            },
    {
        match self.slot_of(db) {
            None => OpsOutcome::DbNotFound,
            Some(i) => match &self.slots[i] {
                Some(tdb) => tdb.document_list(),
                None => OpsOutcome::DbNotFound,
            },
        }
    }

    /// The names of the documents of the database `db` in ascending order,
    /// `DbEmpty` where it has none, `DbNotFound` where there is no such
    /// database.
    pub fn doc_list_sorted(&self, db: &str) -> (r: OpsOutcome)
        requires
            self.wf(),
        ensures
            if self.has_db(db@) {
                document_list_sorted_post(self.db(db@), r@)
            } else {
                r@ == OutcomeView::DbNotFound
            },
    {
        match self.slot_of(db) {
            None => OpsOutcome::DbNotFound,
            Some(i) => match &self.slots[i] {
                Some(tdb) => tdb.document_list_sorted(),
                None => OpsOutcome::DbNotFound,
            },
        }
    }

    /// Flushes the store of the document `doc` of the database `db`.
    pub fn flush(&mut self, db: &str, doc: &str) -> (r: Result<OpsOutcome, TuringDbError>)
        requires
            old(self).wf(),
        ensures
            final(self).wf(),
            engine_flush_post(*old(self), *final(self), db@, doc@, r),
    {
        match self.slot_of(db) {
            None => Ok(OpsOutcome::DbNotFound),
            Some(i) => {
                let r = match &mut self.slots[i] {
                    Some(tdb) => tdb.flush(doc),
                    None => Ok(OpsOutcome::DbNotFound),
                };
                proof {
                    lemma_one_changed(*old(self), *self, db@);
                }
                r
            },
        }
    }

    /// The keys of the document `doc` of the database `db`, in ascending
    /// order.
    pub fn field_list(&mut self, db: &str, doc: &str) -> (r: Result<OpsOutcome, TuringDbError>)
        requires
            old(self).wf(),
        ensures
            final(self).wf(),
            engine_field_list_post(*old(self), *final(self), db@, doc@, r),
    {
        match self.slot_of(db) {
            None => Ok(OpsOutcome::DbNotFound),
            Some(i) => {
                let r = match &mut self.slots[i] {
                    Some(tdb) => tdb.field_list(doc),
                    None => Ok(OpsOutcome::DbNotFound),
                };
                proof {
                    lemma_one_changed(*old(self), *self, db@);
                }
                r
            },
        }
    }

    /// Creates the field `key` of the document `doc` of the database `db`
    /// with the payload `data`.
    pub fn field_insert(&mut self, db: &str, doc: &str, key: &[u8], data: &[u8]) -> (r: Result<
        OpsOutcome,
        TuringDbError,
    >)
        requires
            old(self).wf(),
        ensures
            final(self).wf(),
            engine_field_insert_post(*old(self), *final(self), db@, doc@, key@, data@, r),
    {
        match self.slot_of(db) {
            None => Ok(OpsOutcome::DbNotFound),
            Some(i) => {
                let r = match &mut self.slots[i] {
                    Some(tdb) => tdb.field_insert(doc, key, data),
                    None => Ok(OpsOutcome::DbNotFound),
                };
                proof {
                    lemma_one_changed(*old(self), *self, db@);
                }
                r
            },
        }
    }

    /// The payload of the field `key` of the document `doc` of the database
    /// `db`.
    pub fn field_get(&mut self, db: &str, doc: &str, key: &[u8]) -> (r: Result<
        OpsOutcome,
        TuringDbError,
    >)
        requires
            old(self).wf(),
        ensures
            final(self).wf(),
            engine_field_get_post(*old(self), *final(self), db@, doc@, key@, r),
    {
        match self.slot_of(db) {
            None => Ok(OpsOutcome::DbNotFound),
            Some(i) => {
                let r = match &mut self.slots[i] {
                    Some(tdb) => tdb.field_get(doc, key),
                    None => Ok(OpsOutcome::DbNotFound),
                };
                proof {
                    lemma_one_changed(*old(self), *self, db@);
                }
                r
            },
        }
    }

    /// Drops the field `key` of the document `doc` of the database `db`.
    pub fn field_remove(&mut self, db: &str, doc: &str, key: &[u8]) -> (r: Result<
        OpsOutcome,
        TuringDbError,
    >)
        requires
            old(self).wf(),
        ensures
            final(self).wf(),
            engine_field_remove_post(*old(self), *final(self), db@, doc@, key@, r),
    {
        match self.slot_of(db) {
            None => Ok(OpsOutcome::DbNotFound),
            Some(i) => {
                let r = match &mut self.slots[i] {
                    Some(tdb) => tdb.field_remove(doc, key),
                    None => Ok(OpsOutcome::DbNotFound),
                };
                proof {
                    lemma_one_changed(*old(self), *self, db@);
                }
                r
            },
        }
    }

    /// Replaces the payload of the field `key` of the document `doc` of the
    /// database `db` by `data`.
    pub fn field_modify(&mut self, db: &str, doc: &str, key: &[u8], data: &[u8]) -> (r: Result<
        OpsOutcome,
        TuringDbError,
    >)
        requires
            old(self).wf(),
        ensures
            final(self).wf(),
            engine_field_modify_post(*old(self), *final(self), db@, doc@, key@, data@, r),
    {
        match self.slot_of(db) {
            None => Ok(OpsOutcome::DbNotFound),
            Some(i) => {
                let r = match &mut self.slots[i] {
                    Some(tdb) => tdb.field_modify(doc, key, data),
                    None => Ok(OpsOutcome::DbNotFound),
                };
                proof {
                    lemma_one_changed(*old(self), *self, db@);
                }
                r
            },
        }
    }
}

impl TuringEngine {
    /// Takes a document that was opened from an existing store into the
    /// database `db`, unless that has one of its name already.
    fn adopt(&mut self, db: &str, name: &str, doc: Document) -> (taken: bool)
        requires
            old(self).wf(),
            old(self).has_db(db@),
            doc.wf(),
            doc.place() == place_of(old(self).root(), db@, name@),
            plain_component(text_bytes(name@)),
        ensures
            final(self).wf(),
            final(self).has_db(db@),
            final(self).same_but(*old(self), db@),
            taken == !old(self).db(db@).has(name@),
            !taken ==> final(self).db(db@) == old(self).db(db@),
            taken ==> {
                &&& final(self).db(db@).names() == old(self).db(db@).names().push(name@)
                &&& final(self).db(db@).named(name@) == doc
                &&& forall|other: Seq<char>|
                    old(self).db(db@).has(other) ==> final(self).db(db@).named(other) == old(
                        self,
                    ).db(db@).named(other)
            },
    {
        match self.slot_of(db) {
            None => false,
            Some(i) => {
                let taken = match &mut self.slots[i] {
                    Some(tdb) => tdb.adopt(name, doc),
                    None => false,
                };
                proof {
                    let was = old(self).db(db@);
                    let is = self.slots@[i as int]->0;
                    assert forall|k: int| 0 <= k < is.names().len() implies (#[trigger] is.document(
                        k,
                    )).place() == place_of(old(self).root(), db@, is.names()[k]) by {
                        if k < was.names().len() {
                            assert(was.document(k).place() == place_of(
                                old(self).root(),
                                db@,
                                was.names()[k],
                            ));
                        }
                    }
                    lemma_one_changed(*old(self), *self, db@);
                    if taken {
                        lemma_places_after_push(old(self).db(db@), self.db(db@), name@);
                    } else {
                        assert(self.db(db@) == old(self).db(db@));
                    }
                }
                taken
            },
        }
    }

    /// Loads the documents that `children` lists into the database `db`:
    /// opens the store of each as it is found and reads its keys. A
    /// document that cannot be loaded is reported and left out; the others
    /// are loaded all the same.
    fn load_documents(&mut self, db: &str, children: &Vec<DirEntry>, report: &mut Vec<RecoveryFault>)
        requires
            old(self).wf(),
            old(self).has_db(db@),
        ensures
            final(self).wf(),
            final(self).has_db(db@),
            final(self).same_but(*old(self), db@),
            forall|doc: Seq<char>|
                old(self).db(db@).has(doc) ==> final(self).db(db@).has(doc) && final(self).db(
                    db@,
                ).named(doc) == old(self).db(db@).named(doc),
            forall|doc: Seq<char>|
                final(self).db(db@).has(doc) && !old(self).db(db@).has(doc) ==> listed(
                    children@,
                    doc,
                ) && recovered_at(final(self).db(db@).named(doc), old(self).root(), db@, doc),
            forall|doc: Seq<char>|
                listed(children@, doc) && !final(self).db(db@).has(doc) ==> reported(
                    final(report)@,
                    db@,
                    doc,
                ),
            final(report)@.len() >= old(report)@.len(),
            forall|k: int| 0 <= k < old(report)@.len() ==> final(report)@[k] == old(report)@[k],
            forall|k: int|
                old(report)@.len() <= k < final(report)@.len() ==> (#[trigger] final(report)@[k]).db@
                    == db@ && listed(children@, final(report)@[k].document@)
                    && final(report)@[k].error.is_store_failure(),
    {
        let mut j: usize = 0;
        while j < children.len()
            invariant
                j <= children.len(),
                self.wf(),
                self.has_db(db@),
                old(self).wf(),
                old(self).has_db(db@),
                self.same_but(*old(self), db@),
                forall|doc: Seq<char>|
                    old(self).db(db@).has(doc) ==> self.db(db@).has(doc) && self.db(db@).named(doc)
                        == old(self).db(db@).named(doc),
                forall|doc: Seq<char>|
                    self.db(db@).has(doc) && !old(self).db(db@).has(doc) ==> listed(
                        children@.subrange(0, j as int),
                        doc,
                    ) && recovered_at(self.db(db@).named(doc), old(self).root(), db@, doc),
                forall|doc: Seq<char>|
                    listed(children@.subrange(0, j as int), doc) && !self.db(db@).has(doc)
                        ==> reported(report@, db@, doc),
                report@.len() >= old(report)@.len(),
                forall|k: int| 0 <= k < old(report)@.len() ==> report@[k] == old(report)@[k],
                forall|k: int|
                    old(report)@.len() <= k < report@.len() ==> (#[trigger] report@[k]).db@ == db@
                        && listed(children@, report@[k].document@)
                        && report@[k].error.is_store_failure(),
            decreases children.len() - j,
        {
            let child = &children[j];
            let ghost seen = children@.subrange(0, j as int);
            let ghost next = children@.subrange(0, j + 1);
            let ghost was = *self;
            let ghost was_report = report@;
            let ghost name = child.name@;
            proof {
                assert(next =~= seen.push(children@[j as int]));
                assert forall|doc: Seq<char>| listed(seen, doc) implies listed(next, doc) by {
                    let m = choose|m: int|
                        0 <= m < seen.len() && loadable(#[trigger] seen[m]) && seen[m].name@ == doc;
                    assert(next[m] == seen[m]);
                }
                assert forall|doc: Seq<char>| listed(next, doc) implies listed(seen, doc) || (
                loadable(children@[j as int]) && doc == name) by {
                    let m = choose|m: int|
                        0 <= m < next.len() && loadable(#[trigger] next[m]) && next[m].name@ == doc;
                    if m < j {
                        assert(seen[m] == next[m]);
                    }
                }
                if loadable(children@[j as int]) {
                    assert(next[j as int] == children@[j as int]);
                    assert(listed(next, name));
                    assert(listed(children@, name));
                }
            }
            if child.is_dir && is_component(child.name.as_str()) {
                let known = match self.slot_of(db) {
                    Some(i) => match &self.slots[i] {
                        Some(tdb) => tdb.find(child.name.as_str()).is_some(),
                        None => false,
                    },
                    None => false,
                };
                if !known {
                    match Document::open(self.repo_dir.as_str(), db, child.name.as_str(), false) {
                        Ok(doc) => {
                            let _ = self.adopt(db, child.name.as_str(), doc);
                            proof {
                                lemma_places_after_push(was.db(db@), self.db(db@), name);
                                assert forall|other: Seq<char>| #![auto]
                                    other != db@ implies self.has_db(other) == old(self).has_db(
                                    other,
                                ) by {
                                    assert(self.has_db(other) == was.has_db(other));
                                }
                                assert forall|other: Seq<char>|
                                    other != db@ && #[trigger] self.has_db(
                                        other,
                                    ) implies self.db(other) == old(self).db(other) by {
                                    assert(was.has_db(other));
                                    assert(self.db(other) == was.db(other));
                                }
                            }
                        },
                        Err(error) => {
                            report.push(
                                RecoveryFault {
                                    db: db.to_owned(),
                                    document: child.name.clone(),
                                    error,
                                },
                            );
                            proof {
                                let last = was_report.len() as int;
                                assert(report@[last].db@ == db@ && report@[last].document@ == name);
                                assert(reported(report@, db@, name));
                                assert forall|doc: Seq<char>|
                                    reported(was_report, db@, doc) implies reported(
                                    report@,
                                    db@,
                                    doc,
                                ) by {
                                    let k = choose|k: int|
                                        0 <= k < was_report.len() && (
                                        #[trigger] was_report[k]).db@ == db@
                                            && was_report[k].document@ == doc;
                                    assert(report@[k] == was_report[k]);
                                }
                            }
                        },
                    }
                }
            }
            j = j + 1;
        }
        assert(children@.subrange(0, j as int) =~= children@);
    }

    /// Recovery: rebuilds the repository from what the root directory
    /// holds.
    ///
    /// Whatever the repository held before is let go. Then every entry of
    /// the listing that is a directory and has a name that can stand as the
    /// name of a database, so is not hidden, becomes a database, and every
    /// such entry below it a document: its store is opened as it is found
    /// and its keys are read. Other entries are passed over. A document
    /// that cannot be loaded is left out and reported; the rest is loaded
    /// all the same. A listing without entries, as of a root that does not
    /// exist yet, gives a repository without databases.
    pub fn repo_init(&mut self, listing: &Vec<DbDir>) -> (report: Vec<RecoveryFault>)
        ensures
            final(self).wf(),
            final(self).root() == old(self).root(),
            repo_init_post(*final(self), listing@, report@),
    {
        self.clear();
        let mut report: Vec<RecoveryFault> = Vec::new();
        let mut i: usize = 0;
        while i < listing.len()
            invariant
                i <= listing.len(),
                self.wf(),
                self.root() == old(self).root(),
                forall|db: Seq<char>|
                    self.has_db(db) <==> listed_db(listing@.subrange(0, i as int), db),
                forall|db: Seq<char>, doc: Seq<char>|
                    self.has_db(db) && #[trigger] self.db(db).has(doc) ==> listed_doc(
                        listing@.subrange(0, i as int),
                        db,
                        doc,
                    ) && recovered_at(self.db(db).named(doc), self.root(), db, doc),
                forall|db: Seq<char>, doc: Seq<char>|
                    #[trigger] listed_doc(listing@.subrange(0, i as int), db, doc) ==> self.db(
                        db,
                    ).has(doc) || reported(report@, db, doc),
                forall|k: int|
                    0 <= k < report@.len() ==> listed_doc(
                        listing@.subrange(0, i as int),
                        (#[trigger] report@[k]).db@,
                        report@[k].document@,
                    ) && report@[k].error.is_store_failure(),
            decreases listing.len() - i,
        {
            let dir = &listing[i];
            let ghost seen = listing@.subrange(0, i as int);
            let ghost next = listing@.subrange(0, i + 1);
            let ghost was = *self;
            let ghost was_report = report@;
            let ghost name = dir.entry.name@;
            proof {
                assert(next =~= seen.push(listing@[i as int]));
                assert(next[i as int] == listing@[i as int]);
                assert forall|db: Seq<char>| listed_db(seen, db) implies listed_db(next, db) by {
                    let m = choose|m: int|
                        0 <= m < seen.len() && loadable((#[trigger] seen[m]).entry)
                            && seen[m].entry.name@ == db;
                    assert(next[m] == seen[m]);
                }
                assert forall|db: Seq<char>| listed_db(next, db) implies listed_db(seen, db) || (
                loadable(dir.entry) && db == name) by {
                    let m = choose|m: int|
                        0 <= m < next.len() && loadable((#[trigger] next[m]).entry)
                            && next[m].entry.name@ == db;
                    if m < i {
                        assert(seen[m] == next[m]);
                    }
                }
                assert forall|db: Seq<char>, doc: Seq<char>| listed_doc(seen, db, doc) implies listed_doc(
                    next,
                    db,
                    doc,
                ) by {
                    let m = choose|m: int|
                        0 <= m < seen.len() && loadable((#[trigger] seen[m]).entry)
                            && seen[m].entry.name@ == db && listed(seen[m].children@, doc);
                    assert(next[m] == seen[m]);
                }
                assert forall|db: Seq<char>, doc: Seq<char>| listed_doc(next, db, doc) implies listed_doc(
                    seen,
                    db,
                    doc,
                ) || (loadable(dir.entry) && db == name && listed(dir.children@, doc)) by {
                    let m = choose|m: int|
                        0 <= m < next.len() && loadable((#[trigger] next[m]).entry)
                            && next[m].entry.name@ == db && listed(next[m].children@, doc);
                    if m < i {
                        assert(seen[m] == next[m]);
                    }
                }
            }
            if dir.entry.is_dir && is_component(dir.entry.name.as_str()) {
                proof {
                    lemma_empty_text(name);
                    assert(listed_db(next, name));
                }
                let _ = self.db_create(dir.entry.name.as_str());
                let ghost made = *self;
                proof {
                    assert forall|db: Seq<char>| made.has_db(db) <==> listed_db(next, db) by {
                        if db != name {
                            assert(made.has_db(db) == was.has_db(db));
                        }
                    }
                    assert forall|db: Seq<char>, doc: Seq<char>|
                        made.has_db(db) && #[trigger] made.db(db).has(doc) implies listed_doc(
                        next,
                        db,
                        doc,
                    ) && recovered_at(made.db(db).named(doc), made.root(), db, doc) by {
                        if db != name {
                            assert(was.has_db(db) == made.has_db(db));
                            assert(made.db(db) == was.db(db));
                            assert(was.db(db).has(doc));
                        } else if was.has_db(name) {
                            assert(made.db(db) == was.db(db));
                            assert(was.db(db).has(doc));
                        }
                    }
                }
                self.load_documents(dir.entry.name.as_str(), &dir.children, &mut report);
                proof {
                    assert forall|db: Seq<char>| self.has_db(db) <==> listed_db(next, db) by {
                        if db != name {
                            assert(self.has_db(db) == made.has_db(db));
                        }
                    }
                    assert forall|db: Seq<char>, doc: Seq<char>|
                        self.has_db(db) && #[trigger] self.db(db).has(doc) implies listed_doc(
                        next,
                        db,
                        doc,
                    ) && recovered_at(self.db(db).named(doc), self.root(), db, doc) by {
                        if db != name {
                            assert(made.has_db(db) == self.has_db(db));
                            assert(self.db(db) == made.db(db));
                            assert(made.db(db).has(doc));
                        } else if made.db(name).has(doc) {
                            assert(self.db(name).named(doc) == made.db(name).named(doc));
                        } else {
                            assert(listed(dir.children@, doc));
                            assert(listed_doc(next, name, doc));
                        }
                    }
                    assert forall|db: Seq<char>, doc: Seq<char>| #[trigger]
                        listed_doc(next, db, doc) implies self.db(db).has(doc) || reported(
                        report@,
                        db,
                        doc,
                    ) by {
                        if listed_doc(seen, db, doc) {
                            if was.db(db).has(doc) {
                                assert(was.has_db(db)) by {
                                    let m = choose|m: int|
                                        0 <= m < seen.len() && loadable((#[trigger] seen[m]).entry)
                                            && seen[m].entry.name@ == db && listed(
                                            seen[m].children@,
                                            doc,
                                        );
                                    assert(listed_db(seen, db));
                                }
                                if db != name {
                                    assert(made.has_db(db) == was.has_db(db));
                                    assert(self.has_db(db) == made.has_db(db));
                                    assert(made.db(db) == was.db(db));
                                    assert(self.db(db) == made.db(db));
                                } else {
                                    assert(made.db(db) == was.db(db));
                                }
                            } else {
                                let k = choose|k: int|
                                    0 <= k < was_report.len() && (#[trigger] was_report[k]).db@
                                        == db && was_report[k].document@ == doc;
                                assert(report@[k] == was_report[k]);
                            }
                        }
                    }
                    assert forall|k: int| 0 <= k < report@.len() implies listed_doc(
                        next,
                        (#[trigger] report@[k]).db@,
                        report@[k].document@,
                    ) && report@[k].error.is_store_failure() by {
                        if k < was_report.len() {
                            assert(report@[k] == was_report[k]);
                        } else {
                            assert(listed_doc(next, name, report@[k].document@));
                        }
                    }
                }
            } else {
                proof {
                    assert(!loadable(dir.entry));
                }
            }
            i = i + 1;
        }
        assert(listing@.subrange(0, i as int) =~= listing@);
        report
    }
}

/// A list that holds the names of the index, each once, is empty exactly
/// where the repository has no database, and is else what listing the
/// databases comes to.
proof fn lemma_all_listed(engine: TuringEngine, names: Seq<Seq<char>>)
    requires
        names.no_duplicates(),
        names.to_set() == index_contents(engine.index).dom(),
    ensures
        (names.len() == 0) == engine.has_none(),
        names.len() > 0 ==> db_list_post(engine, OutcomeView::DbList(names)),
{
    assert forall|name: Seq<char>| names.contains(name) <==> engine.has_db(name) by {
        assert(names.to_set().contains(name) == engine.has_db(name));
    }
    if names.len() > 0 {
        assert(names.contains(names[0]));
        assert(engine.has_db(names[0]));
    }
}

/// Where the database `name` of a well-formed repository was replaced by a
/// well-formed one, the repository is well formed and the same but for that
/// database.
proof fn lemma_one_changed(before: TuringEngine, after: TuringEngine, name: Seq<char>)
    requires
        before.wf(),
        before.has_db(name),
        after.index == before.index,
        after.repo_dir == before.repo_dir,
        after.slots@.len() == before.slots@.len(),
        forall|k: int|
            0 <= k < before.slots@.len() && k != index_contents(before.index)[name]
                ==> after.slots@[k] == before.slots@[k],
        after.slots@[index_contents(before.index)[name] as int] is Some,
        after.slots@[index_contents(before.index)[name] as int]->0.wf(),
        after.slots@[index_contents(before.index)[name] as int]->0.seated(before.repo_dir@, name),
    ensures
        after.wf(),
        after.has_db(name),
        after.same_but(before, name),
        after.db(name) == after.slots@[index_contents(before.index)[name] as int]->0,
        after.db(name) == before.db(name) ==> after.same_as(before),
{
    let index = index_contents(before.index);
    assert forall|other: Seq<char>| #[trigger] index.contains_key(other) implies index[other]
        < after.slots@.len() && after.slots@[index[other] as int] is Some by {
        assert(before.has_db(other));
    }
    assert(after.linked());
    assert forall|other: Seq<char>| #[trigger] after.has_db(other) implies plain_component(
        text_bytes(other),
    ) && after.db(other).wf() && after.db(other).seated(after.root(), other) by {
        assert(before.has_db(other));
        if other != name {
            assert(index[other] != index[name]);
            assert(after.db(other) == before.db(other));
        }
    }
    assert forall|other: Seq<char>| other != name && #[trigger] after.has_db(
        other,
    ) implies after.db(other) == before.db(other) by {
        assert(before.has_db(other));
        assert(index[other] != index[name]);
    }
}

/// Layout: in a well-formed repository every document has its store in the
/// directory named after it, in the directory named after its database,
/// under the root.
pub proof fn lemma_documents_in_place(engine: TuringEngine, db: Seq<char>, doc: Seq<char>)
    requires
        engine.wf(),
        engine.has_db(db),
        engine.db(db).has(doc),
    ensures
        engine.db(db).named(doc).place() == place_of(engine.root(), db, doc),
{
    let at = engine.db(db).names().index_of(doc);
    assert(engine.db(db).names()[at] == doc);
    assert(engine.db(db).document(at).place() == place_of(
        engine.root(),
        db,
        engine.db(db).names()[at],
    ));
}

/// Create after drop: where a database that existed was dropped, creating
/// it again comes to `DbCreated`.
pub proof fn lemma_create_after_drop(
    a: TuringEngine,
    b: TuringEngine,
    c: TuringEngine,
    name: Seq<char>,
    dropped: Result<OpsOutcome, TuringDbError>,
    created: Result<OpsOutcome, TuringDbError>,
)
    requires
        a.wf(),
        a.has_db(name),
        db_drop_post(a, b, name, dropped),
        db_create_post(b, c, name, created),
    ensures
        gives(dropped, OutcomeView::DbDropped),
        gives(created, OutcomeView::DbCreated),
        c.has_db(name),
        c.db(name).names().len() == 0,
{
    lemma_empty_text(name);
}

/// Double create: where a database was created, creating it again comes to
/// `DbAlreadyExists` and changes nothing.
pub proof fn lemma_db_create_twice(
    a: TuringEngine,
    b: TuringEngine,
    c: TuringEngine,
    name: Seq<char>,
    r1: Result<OpsOutcome, TuringDbError>,
    r2: Result<OpsOutcome, TuringDbError>,
)
    requires
        db_create_post(a, b, name, r1),
        gives(r1, OutcomeView::DbCreated),
        db_create_post(b, c, name, r2),
    ensures
        gives(r2, OutcomeView::DbAlreadyExists),
        c.same_as(b),
{
}

/// Dropping a database that does not exist comes to `DbNotFound` and
/// changes nothing.
pub proof fn lemma_db_drop_absent(
    a: TuringEngine,
    b: TuringEngine,
    name: Seq<char>,
    r: Result<OpsOutcome, TuringDbError>,
)
    requires
        name.len() > 0,
        !a.has_db(name),
        db_drop_post(a, b, name, r),
    ensures
        gives(r, OutcomeView::DbNotFound),
        b.same_as(a),
{
}

/// Every operation on a field first finds the database, then the document:
/// without the database the outcome is `DbNotFound`, with it and without
/// the document `DocumentNotFound`, and either way nothing changes.
pub proof fn lemma_field_insert_resolves(
    a: TuringEngine,
    b: TuringEngine,
    db: Seq<char>,
    doc: Seq<char>,
    key: Seq<u8>,
    data: Seq<u8>,
    r: Result<OpsOutcome, TuringDbError>,
)
    requires
        engine_field_insert_post(a, b, db, doc, key, data, r),
        !a.has_db(db) || !a.db(db).has(doc),
    ensures
        !a.has_db(db) ==> gives(r, OutcomeView::DbNotFound) && b.same_as(a),
        a.has_db(db) ==> gives(r, OutcomeView::DocumentNotFound) && b.db(db).same_as(a.db(db)),
{
}

/// Recovery: where the listing holds the directories of exactly the
/// databases and documents that a repository had, and recovery reports no
/// fault, the recovered repository has the same databases and in each the
/// same documents. Where moreover the store of a document holds what it
/// held before, the recovered document lists the same keys.
pub proof fn lemma_recovery_restores(
    before: TuringEngine,
    after: TuringEngine,
    listing: Seq<DbDir>,
    report: Seq<RecoveryFault>,
)
    requires
        before.wf(),
        after.wf(),
        forall|db: Seq<char>| listed_db(listing, db) <==> before.has_db(db),
        forall|db: Seq<char>, doc: Seq<char>|
            listed_doc(listing, db, doc) <==> before.has_db(db) && before.db(db).has(doc),
        repo_init_post(after, listing, report),
        report.len() == 0,
    ensures
        forall|db: Seq<char>| after.has_db(db) == before.has_db(db),
        forall|db: Seq<char>, doc: Seq<char>|
            before.has_db(db) ==> #[trigger] after.db(db).has(doc) == before.db(db).has(doc),
        forall|db: Seq<char>, doc: Seq<char>|
            before.has_db(db) && #[trigger] before.db(db).has(doc) && before.db(db).named(
                doc,
            ).in_step() && after.db(db).named(doc).contents() == before.db(db).named(
                doc,
            ).contents() ==> after.db(db).named(doc).key_list() == before.db(db).named(
                doc,
            ).key_list(),
{
    assert forall|db: Seq<char>, doc: Seq<char>| before.has_db(db) implies #[trigger] after.db(
        db,
    ).has(doc) == before.db(db).has(doc) by {
        assert(after.has_db(db));
        if before.db(db).has(doc) {
            assert(listed_doc(listing, db, doc));
            assert(after.db(db).has(doc) || reported(report, db, doc));
        }
        if after.db(db).has(doc) {
            assert(listed_doc(listing, db, doc));
        }
    }
    assert forall|db: Seq<char>, doc: Seq<char>|
        before.has_db(db) && #[trigger] before.db(db).has(doc) && before.db(db).named(
            doc,
        ).in_step() && after.db(db).named(doc).contents() == before.db(db).named(
            doc,
        ).contents() implies after.db(db).named(doc).key_list() == before.db(db).named(
        doc,
    ).key_list() by {
        assert(after.has_db(db));
        assert(after.db(db).has(doc));
        let a = after.db(db);
        let b = before.db(db);
        assert(a.wf() && b.wf());
        assert(a.document(a.place(doc)).wf());
        assert(b.document(b.place(doc)).wf());
        crate::document::lemma_key_list_determined(a.named(doc), b.named(doc));
    }
}

} // verus!
