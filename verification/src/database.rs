//! A database: its documents by name, in the order in which they came.

use crate::document::{
    flush_post, get_post, insert_post, list_post, modify_post, remove_post, Document,
};
use crate::errors::TuringDbError;
use crate::names::{
    place_of, is_component, names_ascending, plain_component, same_text, sort_names, text_bytes,
};
use crate::outcome::{gives, name_views, OpsOutcome, OutcomeView};
use vstd::prelude::*;

verus! {

struct DocEntry {
    name: String,
    doc: Document,
}

/// The documents of one database.
pub struct Tdb {
    list: Vec<DocEntry>,
}

/// What `Tdb::document_create` comes to.
pub open spec fn document_create_post(
    before: Tdb,
    after: Tdb,
    repo: Seq<char>,
    db: Seq<char>,
    name: Seq<char>,
    r: Result<OpsOutcome, TuringDbError>,
) -> bool {
    if name.len() == 0 {
        &&& r == Err::<OpsOutcome, TuringDbError>(TuringDbError::EmptyDocumentName)
        &&& after.same_as(before)
    } else if !plain_component(text_bytes(name)) {
        &&& r == Err::<OpsOutcome, TuringDbError>(TuringDbError::InvalidPathUnicodeName)
        &&& after.same_as(before)
    } else if before.has(name) {
        &&& gives(r, OutcomeView::DocumentAlreadyExists)
        &&& after.same_as(before)
    } else {
        match r {
            Ok(OpsOutcome::DocumentCreated) => {
                &&& after.names() == before.names().push(name)
                &&& forall|i: int|
                    0 <= i < before.names().len() ==> after.document(i) == before.document(i)
                &&& after.document(before.names().len() as int).in_step()
                &&& after.document(before.names().len() as int).place() == place_of(repo, db, name)
                &&& after.document(before.names().len() as int).contents() == Map::<
                    Seq<u8>,
                    Seq<u8>,
                >::empty()
            },
            // The store exists on disk though the database does not know it.
            Ok(OpsOutcome::DocumentAlreadyExists) => after.same_as(before),
            Ok(_) => false,
            Err(e) => e.is_store_failure() && after.same_as(before),
        }
    }
}

/// What `Tdb::document_drop` comes to.
pub open spec fn document_drop_post(
    before: Tdb,
    after: Tdb,
    name: Seq<char>,
    r: Result<OpsOutcome, TuringDbError>,
) -> bool {
    if name.len() == 0 {
        &&& r == Err::<OpsOutcome, TuringDbError>(TuringDbError::EmptyDocumentName)
        &&& after.same_as(before)
    } else if !before.has(name) {
        &&& gives(r, OutcomeView::DocumentNotFound)
        &&& after.same_as(before)
    } else {
        &&& gives(r, OutcomeView::DocumentDropped)
        &&& after.names() == before.names().remove(before.place(name))
        &&& !after.has(name)
        &&& forall|i: int|
            0 <= i < after.names().len() ==> after.document(i) == before.document(
                if i < before.place(name) {
                    i
                } else {
                    i + 1
                },
            )
    }
}

/// What an operation on the fields of the document `name` comes to, given
/// what it comes to in the document itself: without that document the
/// outcome is `DocumentNotFound` and nothing changes; with it, nothing but
/// that document changes.
pub open spec fn in_document(
    before: Tdb,
    after: Tdb,
    name: Seq<char>,
    r: Result<OpsOutcome, TuringDbError>,
    post: spec_fn(Document, Document) -> bool,
) -> bool {
    if before.has(name) {
        &&& after.same_but(before, name)
        &&& post(before.named(name), after.named(name))
    } else {
        &&& after.same_as(before)
        &&& gives(r, OutcomeView::DocumentNotFound)
    }
}

/// What `Tdb::field_list` comes to.
pub open spec fn field_list_post(
    before: Tdb,
    after: Tdb,
    name: Seq<char>,
    r: Result<OpsOutcome, TuringDbError>,
) -> bool {
    in_document(before, after, name, r, |was: Document, is: Document| list_post(was, is, r))
}

/// What `Tdb::field_insert` comes to.
pub open spec fn field_insert_post(
    before: Tdb,
    after: Tdb,
    name: Seq<char>,
    key: Seq<u8>,
    data: Seq<u8>,
    r: Result<OpsOutcome, TuringDbError>,
) -> bool {
    in_document(
        before,
        after,
        name,
        r,
        |was: Document, is: Document| insert_post(was, is, key, data, r),
    )
}

/// What `Tdb::field_get` comes to.
pub open spec fn field_get_post(
    before: Tdb,
    after: Tdb,
    name: Seq<char>,
    key: Seq<u8>,
    r: Result<OpsOutcome, TuringDbError>,
) -> bool {
    in_document(before, after, name, r, |was: Document, is: Document| get_post(was, is, key, r))
}

/// What `Tdb::field_remove` comes to.
pub open spec fn field_remove_post(
    before: Tdb,
    after: Tdb,
    name: Seq<char>,
    key: Seq<u8>,
    r: Result<OpsOutcome, TuringDbError>,
) -> bool {
    in_document(before, after, name, r, |was: Document, is: Document| remove_post(was, is, key, r))
}

/// What `Tdb::field_modify` comes to.
pub open spec fn field_modify_post(
    before: Tdb,
    after: Tdb,
    name: Seq<char>,
    key: Seq<u8>,
    data: Seq<u8>,
    r: Result<OpsOutcome, TuringDbError>,
) -> bool {
    in_document(
        before,
        after,
        name,
        r,
        |was: Document, is: Document| modify_post(was, is, key, data, r),
    )
}

/// What `Tdb::flush` comes to.
pub open spec fn flush_document_post(
    before: Tdb,
    after: Tdb,
    name: Seq<char>,
    r: Result<OpsOutcome, TuringDbError>,
) -> bool {
    in_document(before, after, name, r, |was: Document, is: Document| flush_post(was, is, r))
}

/// What `Tdb::document_list` comes to.
pub open spec fn document_list_view(db: Tdb) -> OutcomeView {
    if db.names().len() == 0 {
        OutcomeView::DbEmpty
    } else {
        OutcomeView::DocumentList(db.names())
    }
}

/// What `Tdb::document_list_sorted` comes to.
pub open spec fn document_list_sorted_post(db: Tdb, outcome: OutcomeView) -> bool {
    if db.names().len() == 0 {
        outcome == OutcomeView::DbEmpty
    } else {
        &&& outcome matches OutcomeView::DocumentList(sorted)
        &&& names_ascending(sorted)
        &&& sorted.to_set() == db.names().to_set()
        &&& sorted.len() == db.names().len()
    }
}

impl Tdb {
    /// The names of the documents, in the order in which they came.
    pub closed spec fn names(&self) -> Seq<Seq<char>> {
        Seq::new(self.list@.len(), |i: int| self.list@[i].name@)
    }

    /// The document at place `i`.
    pub closed spec fn document(&self, i: int) -> Document {
        self.list@[i].doc
    }

    /// No name occurs twice, every name can stand as the name of a
    /// document, and every document is well formed.
    pub open spec fn wf(&self) -> bool {
        &&& self.names().no_duplicates()
        &&& forall|i: int|
            0 <= i < self.names().len() ==> plain_component(text_bytes(#[trigger] self.names()[i]))
        &&& forall|i: int| 0 <= i < self.names().len() ==> (#[trigger] self.document(i)).wf()
    }

    /// Every document has its store in its own directory: the one named
    /// after it, in the directory of the database `db` under `root`.
    pub open spec fn seated(&self, root: Seq<char>, db: Seq<char>) -> bool {
        forall|i: int|
            0 <= i < self.names().len() ==> (#[trigger] self.document(i)).place() == place_of(
                root,
                db,
                self.names()[i],
            )
    }

    /// The database has a document of this name.
    pub open spec fn has(&self, name: Seq<char>) -> bool {
        self.names().contains(name)
    }

    /// The place of the document of this name.
    pub open spec fn place(&self, name: Seq<char>) -> int {
        self.names().index_of(name)
    }

    /// The document of this name.
    pub open spec fn named(&self, name: Seq<char>) -> Document {
        self.document(self.place(name))
    }

    /// The same names and the same documents.
    pub open spec fn same_as(&self, other: Tdb) -> bool {
        &&& self.names() == other.names()
        &&& forall|i: int| 0 <= i < self.names().len() ==> self.document(i) == other.document(i)
    }

    /// The same but for the document of this name, which `self` has.
    pub open spec fn same_but(&self, other: Tdb, name: Seq<char>) -> bool {
        &&& self.names() == other.names()
        &&& forall|i: int|
            0 <= i < self.names().len() && i != self.place(name) ==> self.document(i)
                == other.document(i)
    }

    /// A database without documents.
    pub fn new() -> (r: Tdb)
        ensures
            r.wf(),
            r.names() == Seq::<Seq<char>>::empty(),
    {
        let r = Tdb { list: Vec::new() };
        assert(r.names() =~= Seq::<Seq<char>>::empty());
        r
    }

    /// How many documents the database has.
    pub fn len(&self) -> (n: usize)
        ensures
            n == self.names().len(),
    {
        self.list.len()
    }

    pub fn is_empty(&self) -> (r: bool)
        ensures
            r == (self.names().len() == 0),
    {
        self.list.len() == 0
    }

    /// The place of the document `name`, if the database has it.
    pub fn find(&self, name: &str) -> (r: Option<usize>)
        requires
            self.wf(),
        ensures
            match r {
                Some(i) => self.has(name@) && i == self.place(name@) && i < self.names().len(),
                None => !self.has(name@),
            },
    {
        let mut i: usize = 0;
        while i < self.list.len()
            invariant
                i <= self.list.len(),
                self.wf(),
                forall|k: int| 0 <= k < i ==> self.names()[k] != name@,
            decreases self.list.len() - i,
        {
            if same_text(self.list[i].name.as_str(), name) {
                proof {
                    assert(self.names()[i as int] == name@);
                    let j = self.names().index_of(name@);
                    assert(self.names().no_duplicates());
                }
                return Some(i);
            }
            i = i + 1;
        }
        None
    }

    /// Takes in a document under a name that the database does not have.
    fn take_in(&mut self, name: &str, doc: Document)
        requires
            old(self).wf(),
            !old(self).has(name@),
            plain_component(text_bytes(name@)),
            doc.wf(),
        ensures
            final(self).wf(),
            final(self).names() == old(self).names().push(name@),
            final(self).document(old(self).names().len() as int) == doc,
            forall|i: int|
                0 <= i < old(self).names().len() ==> final(self).document(i) == old(self).document(
                    i,
                ),
    {
        let ghost before = *self;
        self.list.push(DocEntry { name: name.to_owned(), doc });
        proof {
            assert(self.names() =~= before.names().push(name@));
            assert forall|i: int, j: int|
                0 <= i < self.names().len() && 0 <= j < self.names().len() && i != j implies self.names()[i]
                != self.names()[j] by {
                if i < before.names().len() && j < before.names().len() {
                    assert(before.names()[i] != before.names()[j]);
                } else if i < before.names().len() {
                    assert(before.names().contains(before.names()[i]));
                } else {
                    assert(before.names().contains(before.names()[j]));
                }
            }
            assert forall|i: int| 0 <= i < self.names().len() implies plain_component(
                text_bytes(#[trigger] self.names()[i]),
            ) by {
                if i < before.names().len() {
                    assert(self.names()[i] == before.names()[i]);
                }
            }
            assert forall|i: int| 0 <= i < self.names().len() implies (#[trigger] self.document(
                i,
            )).wf() by {
                if i < before.names().len() {
                    assert(self.document(i) == before.document(i));
                }
            }
        }
    }

    /// Creates the document `name` of this database, which is `db` in the
    /// repository at `repo`: opens a store that must be new in the
    /// directory `repo/db/name`, and takes the document in.
    pub fn document_create(&mut self, repo: &str, db: &str, name: &str) -> (r: Result<
        OpsOutcome,
        TuringDbError,
    >)
        requires
            old(self).wf(),
        ensures
            final(self).wf(),
            document_create_post(*old(self), *final(self), repo@, db@, name@, r),
    {
        proof {
            lemma_empty_text(name@);
        }
        if name.is_empty() {
            return Err(TuringDbError::EmptyDocumentName);
        }
        if !is_component(name) {
            return Err(TuringDbError::InvalidPathUnicodeName);
        }
        if self.find(name).is_some() {
            return Ok(OpsOutcome::DocumentAlreadyExists);
        }
        let doc = match Document::open(repo, db, name, true) {
            Ok(doc) => doc,
            Err(TuringDbError::DocumentAlreadyExists) => {
                return Ok(OpsOutcome::DocumentAlreadyExists);
            },
            Err(e) => {
                return Err(e);
            },
        };
        self.take_in(name, doc);
        Ok(OpsOutcome::DocumentCreated)
    }

    /// Takes the document `name` out of the database and closes its store.
    /// The directory of the store is the caller's: the document is let go
    /// once its directory is removed.
    pub fn document_drop(&mut self, name: &str) -> (r: Result<OpsOutcome, TuringDbError>)
        requires
            old(self).wf(),
        ensures
            final(self).wf(),
            document_drop_post(*old(self), *final(self), name@, r),
    {
        proof {
            lemma_empty_text(name@);
        }
        if name.is_empty() {
            return Err(TuringDbError::EmptyDocumentName);
        }
        match self.find(name) {
            None => Ok(OpsOutcome::DocumentNotFound),
            Some(i) => {
                let ghost before = *self;
                let _ = self.list.remove(i);
                proof {
                    assert(self.names() =~= before.names().remove(i as int));
                    assert forall|a: int, b: int|
                        0 <= a < self.names().len() && 0 <= b < self.names().len() && a
                            != b implies self.names()[a] != self.names()[b] by {
                        let a0 = if a < i { a } else { a + 1 };
                        let b0 = if b < i { b } else { b + 1 };
                        assert(before.names()[a0] != before.names()[b0]);
                    }
                    assert forall|a: int| 0 <= a < self.names().len() implies plain_component(
                        text_bytes(#[trigger] self.names()[a]),
                    ) by {
                        let a0 = if a < i { a } else { a + 1 };
                        assert(self.names()[a] == before.names()[a0]);
                    }
                    assert forall|a: int| 0 <= a < self.names().len() implies (
                    #[trigger] self.document(a)).wf() by {
                        let a0 = if a < i { a } else { a + 1 };
                        assert(self.document(a) == before.document(a0));
                    }
                    if self.names().contains(name@) {
                        let a = choose|a: int| 0 <= a < self.names().len() && self.names()[a] == name@;
                        let a0 = if a < i { a } else { a + 1 };
                        assert(before.names()[a0] == before.names()[i as int]);
                    }
                }
                Ok(OpsOutcome::DocumentDropped)
            },
        }
    }

    /// A copy of the names, in the order in which the documents came.
    fn name_list(&self) -> (out: Vec<String>)
        ensures
            name_views(out@) == self.names(),
    {
        let mut out: Vec<String> = Vec::new();
        let mut i: usize = 0;
        while i < self.list.len()
            invariant
                i <= self.list.len(),
                out@.len() == i,
                forall|k: int| 0 <= k < i ==> out@[k]@ == self.list@[k].name@,
            decreases self.list.len() - i,
        {
            out.push(self.list[i].name.clone());
            i = i + 1;
        }
        assert(name_views(out@) =~= self.names());
        out
    }

    /// The names of the documents in the order in which they came, or
    /// `DbEmpty` where there is none.
    pub fn document_list(&self) -> (r: OpsOutcome)
        ensures
            r@ == document_list_view(*self),
    {
        if self.list.len() == 0 {
            OpsOutcome::DbEmpty
        } else {
            OpsOutcome::DocumentList(self.name_list())
        }
    }

    /// The names of the documents in ascending order, or `DbEmpty` where
    /// there is none.
    pub fn document_list_sorted(&self) -> (r: OpsOutcome)
        requires
            self.wf(),
        ensures
            document_list_sorted_post(*self, r@),
    {
        if self.list.len() == 0 {
            OpsOutcome::DbEmpty
        } else {
            let names = self.name_list();
            OpsOutcome::DocumentList(sort_names(&names))
        }
    }

    /// Flushes the store of the document `name`.
    pub fn flush(&mut self, name: &str) -> (r: Result<OpsOutcome, TuringDbError>)
        requires
            old(self).wf(),
        ensures
            final(self).wf(),
            flush_document_post(*old(self), *final(self), name@, r),
    {
        match self.find(name) {
            None => Ok(OpsOutcome::DocumentNotFound),
            Some(i) => {
                let ghost before = *self;
                assert(self.document(i as int).wf());
                let r = self.list[i].doc.flush();
                proof {
                    lemma_one_changed(before, *self, i as int);
                }
                r
            },
        }
    }

    /// The keys of the document `name`.
    pub fn field_list(&mut self, name: &str) -> (r: Result<OpsOutcome, TuringDbError>)
        requires
            old(self).wf(),
        ensures
            final(self).wf(),
            field_list_post(*old(self), *final(self), name@, r),
    {
        match self.find(name) {
            None => Ok(OpsOutcome::DocumentNotFound),
            Some(i) => {
                let ghost before = *self;
                assert(self.document(i as int).wf());
                let r = self.list[i].doc.list_keys();
                proof {
                    lemma_one_changed(before, *self, i as int);
                }
                r
            },
        }
    }

    /// Creates the field `key` of the document `name`.
    pub fn field_insert(&mut self, name: &str, key: &[u8], data: &[u8]) -> (r: Result<
        OpsOutcome,
        TuringDbError,
    >)
        requires
            old(self).wf(),
        ensures
            final(self).wf(),
            field_insert_post(*old(self), *final(self), name@, key@, data@, r),
    {
        match self.find(name) {
            None => Ok(OpsOutcome::DocumentNotFound),
            Some(i) => {
                let ghost before = *self;
                assert(self.document(i as int).wf());
                let r = self.list[i].doc.insert(key, data);
                proof {
                    lemma_one_changed(before, *self, i as int);
                }
                r
            },
        }
    }

    /// Reads the field `key` of the document `name`.
    pub fn field_get(&mut self, name: &str, key: &[u8]) -> (r: Result<OpsOutcome, TuringDbError>)
        requires
            old(self).wf(),
        ensures
            final(self).wf(),
            field_get_post(*old(self), *final(self), name@, key@, r),
    {
        match self.find(name) {
            None => Ok(OpsOutcome::DocumentNotFound),
            Some(i) => {
                let ghost before = *self;
                assert(self.document(i as int).wf());
                let r = self.list[i].doc.get(key);
                proof {
                    lemma_one_changed(before, *self, i as int);
                }
                r
            },
        }
    }

    /// Drops the field `key` of the document `name`.
    pub fn field_remove(&mut self, name: &str, key: &[u8]) -> (r: Result<
        OpsOutcome,
        TuringDbError,
    >)
        requires
            old(self).wf(),
        ensures
            final(self).wf(),
            field_remove_post(*old(self), *final(self), name@, key@, r),
    {
        match self.find(name) {
            None => Ok(OpsOutcome::DocumentNotFound),
            Some(i) => {
                let ghost before = *self;
                assert(self.document(i as int).wf());
                let r = self.list[i].doc.remove(key);
                proof {
                    lemma_one_changed(before, *self, i as int);
                }
                r
            },
        }
    }

    /// Replaces the payload of the field `key` of the document `name`.
    pub fn field_modify(&mut self, name: &str, key: &[u8], data: &[u8]) -> (r: Result<
        OpsOutcome,
        TuringDbError,
    >)
        requires
            old(self).wf(),
        ensures
            final(self).wf(),
            field_modify_post(*old(self), *final(self), name@, key@, data@, r),
    {
        match self.find(name) {
            None => Ok(OpsOutcome::DocumentNotFound),
            Some(i) => {
                let ghost before = *self;
                assert(self.document(i as int).wf());
                let r = self.list[i].doc.modify(key, data);
                proof {
                    lemma_one_changed(before, *self, i as int);
                }
                r
            },
        }
    }

    /// Takes in a document that was opened from an existing store, unless
    /// the database has one of its name already. Returns whether it was
    /// taken in.
    pub(crate) fn adopt(&mut self, name: &str, doc: Document) -> (taken: bool)
        requires
            old(self).wf(),
            doc.wf(),
            plain_component(text_bytes(name@)),
        ensures
            final(self).wf(),
            taken == !old(self).has(name@),
            taken ==> final(self).names() == old(self).names().push(name@) && final(self).document(old(self).names().len() as int) == doc,
            !taken ==> *final(self) == *old(self),
            forall|i: int|
                0 <= i < old(self).names().len() ==> final(self).document(i) == old(self).document(
                    i,
                ),
    {
        if self.find(name).is_some() {
            return false;
        }
        self.take_in(name, doc);
        true
    }
}

/// Taking in a new document keeps the place of every document that was
/// there.
pub proof fn lemma_places_after_push(before: Tdb, after: Tdb, name: Seq<char>)
    requires
        before.wf(),
        after.wf(),
        !before.has(name),
        after.names() == before.names().push(name),
    ensures
        after.has(name),
        after.place(name) == before.names().len(),
        forall|other: Seq<char>| before.has(other) ==> after.has(other) && after.place(other)
            == before.place(other),
        forall|other: Seq<char>| after.has(other) ==> other == name || before.has(other),
{
    let n = before.names().len() as int;
    assert(after.names()[n] == name);
    let at = after.names().index_of(name);
    assert(after.names()[at] == name);
    assert forall|other: Seq<char>| before.has(other) implies after.has(other) && after.place(
        other,
    ) == before.place(other) by {
        let i = before.names().index_of(other);
        assert(after.names()[i] == other);
        let j = after.names().index_of(other);
        assert(after.names()[j] == other);
    }
    assert forall|other: Seq<char>| after.has(other) implies other == name || before.has(
        other,
    ) by {
        let j = after.names().index_of(other);
        if j < n {
            assert(before.names()[j] == other);
        }
    }
}

/// Only the empty name has an empty UTF-8 form.
pub proof fn lemma_empty_text(name: Seq<char>)
    ensures
        (text_bytes(name).len() == 0) == (name.len() == 0),
{
    if name.len() > 0 {
        vstd::utf8::encode_utf8_first_scalar(name);
    } else {
        assert(text_bytes(name) =~= Seq::<u8>::empty());
    }
}

/// Where one document of a well-formed database was replaced by a
/// well-formed one, the database is well formed and the same but for that
/// document.
proof fn lemma_one_changed(before: Tdb, after: Tdb, i: int)
    requires
        before.wf(),
        0 <= i < before.list@.len(),
        after.list@.len() == before.list@.len(),
        forall|k: int| 0 <= k < before.list@.len() && k != i ==> after.list@[k] == before.list@[k],
        after.list@[i].name == before.list@[i].name,
        after.list@[i].doc.wf(),
    ensures
        after.wf(),
        after.names() == before.names(),
        after.same_but(before, before.names()[i]),
        before.place(before.names()[i]) == i,
        after.named(before.names()[i]) == after.list@[i].doc,
        before.named(before.names()[i]) == before.list@[i].doc,
        after.list@[i].doc == before.list@[i].doc ==> after.same_as(before),
{
    assert(after.names() =~= before.names());
    assert forall|k: int| 0 <= k < after.names().len() implies (#[trigger] after.document(k)).wf() by {
        if k != i {
            assert(after.document(k) == before.document(k));
        }
    }
    let j = before.names().index_of(before.names()[i]);
    assert(before.names().contains(before.names()[i]));
}

/// Where nothing changed but one document, and that one stayed where it
/// is, every document is still in its own directory.
pub proof fn lemma_seated_kept(before: Tdb, after: Tdb, name: Seq<char>, root: Seq<char>, db: Seq<char>)
    requires
        before.seated(root, db),
        after.same_as(before) || (before.has(name) && after.same_but(before, name)
            && after.named(name).place() == before.named(name).place()),
    ensures
        after.seated(root, db),
{
    assert forall|i: int| 0 <= i < after.names().len() implies (#[trigger] after.document(
        i,
    )).place() == place_of(root, db, after.names()[i]) by {
        assert(before.document(i).place() == place_of(root, db, before.names()[i]));
        if !after.same_as(before) {
            let at = before.names().index_of(name);
            assert(before.names()[at] == name);
        }
    }
}

/// Where a document was created in its own directory, every document is
/// still in its own.
pub proof fn lemma_seated_created(
    before: Tdb,
    after: Tdb,
    root: Seq<char>,
    db: Seq<char>,
    name: Seq<char>,
    r: Result<OpsOutcome, TuringDbError>,
)
    requires
        before.seated(root, db),
        document_create_post(before, after, root, db, name, r),
    ensures
        after.seated(root, db),
{
    assert forall|i: int| 0 <= i < after.names().len() implies (#[trigger] after.document(
        i,
    )).place() == place_of(root, db, after.names()[i]) by {
        if i < before.names().len() {
            assert(before.document(i).place() == place_of(root, db, before.names()[i]));
        }
    }
}

/// Where a document was dropped, every other is still in its own
/// directory.
pub proof fn lemma_seated_dropped(
    before: Tdb,
    after: Tdb,
    root: Seq<char>,
    db: Seq<char>,
    name: Seq<char>,
    r: Result<OpsOutcome, TuringDbError>,
)
    requires
        before.seated(root, db),
        document_drop_post(before, after, name, r),
    ensures
        after.seated(root, db),
{
    assert forall|i: int| 0 <= i < after.names().len() implies (#[trigger] after.document(
        i,
    )).place() == place_of(root, db, after.names()[i]) by {
        if after.same_as(before) {
            assert(before.document(i).place() == place_of(root, db, before.names()[i]));
        } else {
            let at = before.place(name);
            let from = if i < at { i } else { i + 1 };
            assert(before.names().contains(name));
            assert(0 <= at < before.names().len());
            assert(before.document(from).place() == place_of(root, db, before.names()[from]));
            assert(after.names()[i] == before.names()[from]);
        }
    }
}

/// Double create: where a document was created, creating it again comes to
/// `DocumentAlreadyExists` and changes nothing.
pub proof fn lemma_document_create_twice(
    a: Tdb,
    b: Tdb,
    c: Tdb,
    repo: Seq<char>,
    db: Seq<char>,
    name: Seq<char>,
    r1: Result<OpsOutcome, TuringDbError>,
    r2: Result<OpsOutcome, TuringDbError>,
)
    requires
        document_create_post(a, b, repo, db, name, r1),
        gives(r1, OutcomeView::DocumentCreated),
        document_create_post(b, c, repo, db, name, r2),
    ensures
        gives(r2, OutcomeView::DocumentAlreadyExists),
        c.same_as(b),
{
    if !a.has(name) && name.len() > 0 && plain_component(text_bytes(name)) {
        assert(b.names()[a.names().len() as int] == name);
    }
}

/// Dropping a document that does not exist comes to `DocumentNotFound` and
/// changes nothing.
pub proof fn lemma_document_drop_absent(
    a: Tdb,
    b: Tdb,
    name: Seq<char>,
    r: Result<OpsOutcome, TuringDbError>,
)
    requires
        name.len() > 0,
        !a.has(name),
        document_drop_post(a, b, name, r),
    ensures
        gives(r, OutcomeView::DocumentNotFound),
        b.same_as(a),
{
}

} // verus!
