//! Request builders: they put together the payload of a request.

use crate::commands::{from_op, CommandView, TuringOp};
use crate::errors::TuringDbError;
use crate::wire::{command_bytes, put_field, put_text};
use vstd::prelude::*;
use vstd::slice::slice_to_vec;

verus! {

/// Requests on the repository.
#[derive(Debug, Clone)]
pub struct RepoQuery;

impl RepoQuery {
    /// The request to create the repository.
    pub fn create() -> (r: &'static [u8])
        ensures
            r@ == command_bytes(CommandView::RepoCreate),
    {
        let r = from_op(&TuringOp::RepoCreate);
        assert(r@ =~= command_bytes(CommandView::RepoCreate));
        r
    }

    /// The request to drop the repository.
    pub fn drop() -> (r: &'static [u8])
        ensures
            r@ == command_bytes(CommandView::RepoDrop),
    {
        let r = from_op(&TuringOp::RepoDrop);
        assert(r@ =~= command_bytes(CommandView::RepoDrop));
        r
    }
}

/// Requests on a database.
#[derive(Debug, Clone)]
pub struct DbQuery {
    db: String,
}

impl DbQuery {
    /// The name of the database.
    pub closed spec fn name(&self) -> Seq<char> {
        self.db@
    }

    /// A query without a name yet.
    pub fn new() -> (r: Self)
        ensures
            r.name() == Seq::<char>::empty(),
    {
        Self { db: String::new() }
    }

    /// Sets the name of the database.
    pub fn db(&mut self, name: &str) -> (r: &Self)
        ensures
            final(self).name() == name@,
            r.name() == name@,
    {
        self.db = name.to_owned();
        self
    }

    /// The request to create the database.
    pub fn create(&self) -> (packet: Vec<u8>)
        ensures
            packet@ == command_bytes(CommandView::DbCreate(self.name())),
    {
        let mut packet = slice_to_vec(from_op(&TuringOp::DbCreate));
        put_text(&mut packet, self.db.as_str());
        assert(packet@ =~= command_bytes(CommandView::DbCreate(self.name())));
        packet
    }

    /// The request to drop the database.
    pub fn drop(&self) -> (packet: Vec<u8>)
        ensures
            packet@ == command_bytes(CommandView::DbDrop(self.name())),
    {
        let mut packet = slice_to_vec(from_op(&TuringOp::DbDrop));
        put_text(&mut packet, self.db.as_str());
        assert(packet@ =~= command_bytes(CommandView::DbDrop(self.name())));
        packet
    }

    /// The request to list all databases of the repository.
    pub fn list(&self) -> (r: &'static [u8])
        ensures
            r@ == command_bytes(CommandView::DbList),
    {
        let r = from_op(&TuringOp::DbList);
        assert(r@ =~= command_bytes(CommandView::DbList));
        r
    }
}

/// Requests on a document.
#[derive(Debug, Clone)]
pub struct DocumentQuery {
    db: String,
    document: Option<String>,
}

impl DocumentQuery {
    /// The name of the database.
    pub closed spec fn db_name(&self) -> Seq<char> {
        self.db@
    }

    /// The name of the document, once it is set.
    pub closed spec fn document_name(&self) -> Option<Seq<char>> {
        match self.document {
            Some(name) => Some(name@),
            None => None,
        }
    }

    /// A query without names yet.
    pub fn new() -> (r: Self)
        ensures
            r.db_name() == Seq::<char>::empty(),
            r.document_name() is None,
    {
        Self { db: String::new(), document: None }
    }

    /// Sets the name of the database.
    pub fn db(&mut self, name: &str) -> (r: &Self)
        ensures
            final(self).db_name() == name@,
            final(self).document_name() == old(self).document_name(),
            *r == *final(self),
    {
        self.db = name.to_owned();
        self
    }

    /// Sets the name of the document.
    pub fn document(&mut self, name: &str) -> (r: &Self)
        ensures
            final(self).db_name() == old(self).db_name(),
            final(self).document_name() == Some(name@),
            *r == *final(self),
    {
        self.document = Some(name.to_owned());
        self
    }

    /// The request to create the document. Without the name of a document
    /// there is none: `EmptyDocumentName`.
    pub fn create(&self) -> (r: Result<Vec<u8>, TuringDbError>)
        ensures
            match self.document_name() {
                Some(document) => r matches Ok(packet) && packet@ == command_bytes(
                    CommandView::DocumentCreate { db: self.db_name(), document },
                ),
                None => r == Err::<Vec<u8>, TuringDbError>(TuringDbError::EmptyDocumentName),
            },
    {
        match &self.document {
            None => Err(TuringDbError::EmptyDocumentName),
            Some(document) => {
                let mut packet = slice_to_vec(from_op(&TuringOp::DocumentCreate));
                put_text(&mut packet, self.db.as_str());
                put_text(&mut packet, document.as_str());
                assert(packet@ =~= command_bytes(
                    CommandView::DocumentCreate { db: self.db_name(), document: document@ },
                ));
                Ok(packet)
            },
        }
    }

    /// The request to list the documents of the database.
    pub fn list(&self) -> (r: Result<Vec<u8>, TuringDbError>)
        ensures
            r matches Ok(packet) && packet@ == command_bytes(
                CommandView::DocumentList(self.db_name()),
            ),
    {
        let mut packet = slice_to_vec(from_op(&TuringOp::DocumentList));
        put_text(&mut packet, self.db.as_str());
        assert(packet@ =~= command_bytes(CommandView::DocumentList(self.db_name())));
        Ok(packet)
    }

    /// The request to drop the document. Without the name of a document
    /// there is none: `EmptyDocumentName`.
    pub fn drop(&self) -> (r: Result<Vec<u8>, TuringDbError>)
        ensures
            match self.document_name() {
                Some(document) => r matches Ok(packet) && packet@ == command_bytes(
                    CommandView::DocumentDrop { db: self.db_name(), document },
                ),
                None => r == Err::<Vec<u8>, TuringDbError>(TuringDbError::EmptyDocumentName),
            },
    {
        match &self.document {
            None => Err(TuringDbError::EmptyDocumentName),
            Some(document) => {
                let mut packet = slice_to_vec(from_op(&TuringOp::DocumentDrop));
                put_text(&mut packet, self.db.as_str());
                put_text(&mut packet, document.as_str());
                assert(packet@ =~= command_bytes(
                    CommandView::DocumentDrop { db: self.db_name(), document: document@ },
                ));
                Ok(packet)
            },
        }
    }
}

/// Requests on a field.
#[derive(Debug, Clone)]
pub struct FieldQuery {
    db: String,
    document: String,
    field: String,
    payload: Option<Vec<u8>>,
}

impl FieldQuery {
    /// The name of the database.
    pub closed spec fn db_name(&self) -> Seq<char> {
        self.db@
    }

    /// The name of the document.
    pub closed spec fn document_name(&self) -> Seq<char> {
        self.document@
    }

    /// The name of the field.
    pub closed spec fn field_name(&self) -> Seq<char> {
        self.field@
    }

    /// The payload, once it is set.
    pub closed spec fn data(&self) -> Option<Seq<u8>> {
        match self.payload {
            Some(data) => Some(data@),
            None => None,
        }
    }

    /// The names are those of `other`.
    pub open spec fn same_names(&self, other: FieldQuery) -> bool {
        &&& self.db_name() == other.db_name()
        &&& self.document_name() == other.document_name()
        &&& self.field_name() == other.field_name()
    }

    /// A query without names and without a payload yet.
    pub fn new() -> (r: Self)
        ensures
            r.db_name() == Seq::<char>::empty(),
            r.document_name() == Seq::<char>::empty(),
            r.field_name() == Seq::<char>::empty(),
            r.data() is None,
    {
        Self { db: String::new(), document: String::new(), field: String::new(), payload: None }
    }

    /// Sets the name of the database.
    pub fn db(&mut self, name: &str) -> (r: &Self)
        ensures
            final(self).db_name() == name@,
            final(self).document_name() == old(self).document_name(),
            final(self).field_name() == old(self).field_name(),
            final(self).data() == old(self).data(),
            *r == *final(self),
    {
        self.db = name.to_owned();
        self
    }

    /// Sets the name of the document.
    pub fn document(&mut self, name: &str) -> (r: &Self)
        ensures
            final(self).db_name() == old(self).db_name(),
            final(self).document_name() == name@,
            final(self).field_name() == old(self).field_name(),
            final(self).data() == old(self).data(),
            *r == *final(self),
    {
        self.document = name.to_owned();
        self
    }

    /// Sets the name of the field.
    pub fn field(&mut self, name: &str) -> (r: &Self)
        ensures
            final(self).db_name() == old(self).db_name(),
            final(self).document_name() == old(self).document_name(),
            final(self).field_name() == name@,
            final(self).data() == old(self).data(),
            *r == *final(self),
    {
        self.field = name.to_owned();
        self
    }

    /// Sets the payload.
    pub fn payload(&mut self, value: &[u8]) -> (r: &Self)
        ensures
            final(self).same_names(*old(self)),
            final(self).data() == Some(value@),
            *r == *final(self),
    {
        self.payload = Some(slice_to_vec(value));
        self
    }

    /// The request to insert the field with the payload. Without a payload
    /// there is none: `EmptyData`.
    pub fn set(&self) -> (r: Result<Vec<u8>, TuringDbError>)
        ensures
            match self.data() {
                Some(data) => r matches Ok(packet) && packet@ == command_bytes(
                    CommandView::FieldInsert {
                        db: self.db_name(),
                        document: self.document_name(),
                        field: self.field_name(),
                        data,
                    },
                ),
                None => r == Err::<Vec<u8>, TuringDbError>(TuringDbError::EmptyData),
            },
    {
        match &self.payload {
            None => Err(TuringDbError::EmptyData),
            Some(data) => {
                let mut packet = slice_to_vec(from_op(&TuringOp::FieldInsert));
                put_text(&mut packet, self.db.as_str());
                put_text(&mut packet, self.document.as_str());
                put_text(&mut packet, self.field.as_str());
                put_field(&mut packet, data.as_slice());
                assert(packet@ =~= command_bytes(
                    CommandView::FieldInsert {
                        db: self.db_name(),
                        document: self.document_name(),
                        field: self.field_name(),
                        data: data@,
                    },
                ));
                Ok(packet)
            },
        }
    }

    /// The request to replace the payload of the field. Without a payload
    /// there is none: `EmptyData`.
    pub fn modify(&self) -> (r: Result<Vec<u8>, TuringDbError>)
        ensures
            match self.data() {
                Some(data) => r matches Ok(packet) && packet@ == command_bytes(
                    CommandView::FieldModify {
                        db: self.db_name(),
                        document: self.document_name(),
                        field: self.field_name(),
                        data,
                    },
                ),
                None => r == Err::<Vec<u8>, TuringDbError>(TuringDbError::EmptyData),
            },
    {
        match &self.payload {
            None => Err(TuringDbError::EmptyData),
            Some(data) => {
                let mut packet = slice_to_vec(from_op(&TuringOp::FieldModify));
                put_text(&mut packet, self.db.as_str());
                put_text(&mut packet, self.document.as_str());
                put_text(&mut packet, self.field.as_str());
                put_field(&mut packet, data.as_slice());
                assert(packet@ =~= command_bytes(
                    CommandView::FieldModify {
                        db: self.db_name(),
                        document: self.document_name(),
                        field: self.field_name(),
                        data: data@,
                    },
                ));
                Ok(packet)
            },
        }
    }

    /// The request to read the field.
    pub fn get(&self) -> (r: Result<Vec<u8>, TuringDbError>)
        ensures
            r matches Ok(packet) && packet@ == command_bytes(
                CommandView::FieldRead {
                    db: self.db_name(),
                    document: self.document_name(),
                    field: self.field_name(),
                },
            ),
    {
        let mut packet = slice_to_vec(from_op(&TuringOp::FieldGet));
        put_text(&mut packet, self.db.as_str());
        put_text(&mut packet, self.document.as_str());
        put_text(&mut packet, self.field.as_str());
        assert(packet@ =~= command_bytes(
            CommandView::FieldRead {
                db: self.db_name(),
                document: self.document_name(),
                field: self.field_name(),
            },
        ));
        Ok(packet)
    }

    /// The request to drop the field.
    pub fn remove(&self) -> (r: Result<Vec<u8>, TuringDbError>)
        ensures
            r matches Ok(packet) && packet@ == command_bytes(
                CommandView::FieldRemove {
                    db: self.db_name(),
                    document: self.document_name(),
                    field: self.field_name(),
                },
            ),
    {
        let mut packet = slice_to_vec(from_op(&TuringOp::FieldRemove));
        put_text(&mut packet, self.db.as_str());
        put_text(&mut packet, self.document.as_str());
        put_text(&mut packet, self.field.as_str());
        assert(packet@ =~= command_bytes(
            CommandView::FieldRemove {
                db: self.db_name(),
                document: self.document_name(),
                field: self.field_name(),
            },
        ));
        Ok(packet)
    }

    /// The request to list the fields of the document.
    pub fn list(&self) -> (r: Result<Vec<u8>, TuringDbError>)
        ensures
            r matches Ok(packet) && packet@ == command_bytes(
                CommandView::FieldList { db: self.db_name(), document: self.document_name() },
            ),
    {
        let mut packet = slice_to_vec(from_op(&TuringOp::FieldList));
        put_text(&mut packet, self.db.as_str());
        put_text(&mut packet, self.document.as_str());
        assert(packet@ =~= command_bytes(
            CommandView::FieldList { db: self.db_name(), document: self.document_name() },
        ));
        Ok(packet)
    }
}

} // verus!
