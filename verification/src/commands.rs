//! The commands that a client sends, and the operation codes that tag them
//! on the wire.

use vstd::prelude::*;

verus! {

/// The operations of the protocol.
#[derive(Debug, Clone, Copy, PartialEq, Eq, Structural)]
pub enum TuringOp {
    /// Initialize the repository
    RepoCreate,
    /// Delete the repository
    RepoDrop,
    /// Create a database
    DbCreate,
    /// List all databases of the repository
    DbList,
    /// Delete a database
    DbDrop,
    /// Create a document
    DocumentCreate,
    /// List all documents of a database
    DocumentList,
    /// Delete a document and all its contents
    DocumentDrop,
    /// Insert a field into a document
    FieldInsert,
    /// Read the contents of a field
    FieldGet,
    /// Remove a field
    FieldRemove,
    /// Change the contents of a field
    FieldModify,
    /// List all fields of a document
    FieldList,
    /// The command is not supported
    NotSupported,
}

/// The code of an operation on the wire.
pub open spec fn op_code(op: TuringOp) -> u8 {
    match op {
        TuringOp::RepoCreate => 0x00,
        TuringOp::RepoDrop => 0x01,
        TuringOp::DbCreate => 0x02,
        TuringOp::DbList => 0x03,
        TuringOp::DbDrop => 0x04,
        TuringOp::DocumentCreate => 0x05,
        TuringOp::DocumentList => 0x06,
        TuringOp::DocumentDrop => 0x07,
        TuringOp::FieldInsert => 0x08,
        TuringOp::FieldGet => 0x09,
        TuringOp::FieldRemove => 0x0a,
        TuringOp::FieldModify => 0x0b,
        TuringOp::FieldList => 0x0c,
        TuringOp::NotSupported => 0xf1,
    }
}

/// The operation that a code stands for; a code that stands for none is
/// not supported.
pub open spec fn op_of_code(code: u8) -> TuringOp {
    if code == 0x00 {
        TuringOp::RepoCreate
    } else if code == 0x01 {
        TuringOp::RepoDrop
    } else if code == 0x02 {
        TuringOp::DbCreate
    } else if code == 0x03 {
        TuringOp::DbList
    } else if code == 0x04 {
        TuringOp::DbDrop
    } else if code == 0x05 {
        TuringOp::DocumentCreate
    } else if code == 0x06 {
        TuringOp::DocumentList
    } else if code == 0x07 {
        TuringOp::DocumentDrop
    } else if code == 0x08 {
        TuringOp::FieldInsert
    } else if code == 0x09 {
        TuringOp::FieldGet
    } else if code == 0x0a {
        TuringOp::FieldRemove
    } else if code == 0x0b {
        TuringOp::FieldModify
    } else if code == 0x0c {
        TuringOp::FieldList
    } else {
        TuringOp::NotSupported
    }
}

/// The operation that a header stands for: the header is one byte, the
/// code of the operation. Any other header is not supported.
pub open spec fn op_of(header: Seq<u8>) -> TuringOp {
    if header.len() == 1 {
        op_of_code(header[0])
    } else {
        TuringOp::NotSupported
    }
}

/// An operation is read back from its code.
pub proof fn lemma_op_round_trip(op: TuringOp)
    ensures
        op_of_code(op_code(op)) == op,
        op_of(seq![op_code(op)]) == op,
{
}

/// The header of an operation: one byte, its code.
pub fn from_op(value: &TuringOp) -> (r: &'static [u8])
    ensures
        r@ == seq![op_code(*value)],
{
    let r: &'static [u8] = match value {
        TuringOp::RepoCreate => &[0x00],
        TuringOp::RepoDrop => &[0x01],
        TuringOp::DbCreate => &[0x02],
        TuringOp::DbList => &[0x03],
        TuringOp::DbDrop => &[0x04],
        TuringOp::DocumentCreate => &[0x05],
        TuringOp::DocumentList => &[0x06],
        TuringOp::DocumentDrop => &[0x07],
        TuringOp::FieldInsert => &[0x08],
        TuringOp::FieldGet => &[0x09],
        TuringOp::FieldRemove => &[0x0a],
        TuringOp::FieldModify => &[0x0b],
        TuringOp::FieldList => &[0x0c],
        TuringOp::NotSupported => &[0xf1],
    };
    r
}

/// The operation that a header stands for.
pub fn to_op(value: &[u8]) -> (r: TuringOp)
    ensures
        r == op_of(value@),
{
    if value.len() != 1 {
        return TuringOp::NotSupported;
    }
    let code: u8 = value[0];
    if code == 0x00 {
        TuringOp::RepoCreate
    } else if code == 0x01 {
        TuringOp::RepoDrop
    } else if code == 0x02 {
        TuringOp::DbCreate
    } else if code == 0x03 {
        TuringOp::DbList
    } else if code == 0x04 {
        TuringOp::DbDrop
    } else if code == 0x05 {
        TuringOp::DocumentCreate
    } else if code == 0x06 {
        TuringOp::DocumentList
    } else if code == 0x07 {
        TuringOp::DocumentDrop
    } else if code == 0x08 {
        TuringOp::FieldInsert
    } else if code == 0x09 {
        TuringOp::FieldGet
    } else if code == 0x0a {
        TuringOp::FieldRemove
    } else if code == 0x0b {
        TuringOp::FieldModify
    } else if code == 0x0c {
        TuringOp::FieldList
    } else {
        TuringOp::NotSupported
    }
}

impl TuringOp {
    /// The name of the operation in diagnostics.
    pub open spec fn spec_name(self) -> Seq<char> {
        match self {
            TuringOp::RepoCreate => "RepoCreate"@,
            TuringOp::RepoDrop => "RepoDrop"@,
            TuringOp::DbCreate => "DbCreate"@,
            TuringOp::DbList => "DbList"@,
            TuringOp::DbDrop => "DbDrop"@,
            TuringOp::DocumentCreate => "DocumentCreate"@,
            TuringOp::DocumentList => "DocumentList"@,
            TuringOp::DocumentDrop => "DocumentDrop"@,
            TuringOp::FieldInsert => "FieldInsert"@,
            TuringOp::FieldGet => "FieldGet"@,
            TuringOp::FieldRemove => "FieldRemove"@,
            TuringOp::FieldModify => "FieldModify"@,
            TuringOp::FieldList => "FieldList"@,
            TuringOp::NotSupported => "NotSupported"@,
        }
    }

    pub fn name(&self) -> (r: &'static str)
        ensures
            r@ == self.spec_name(),
    {
        match self {
            TuringOp::RepoCreate => "RepoCreate",
            TuringOp::RepoDrop => "RepoDrop",
            TuringOp::DbCreate => "DbCreate",
            TuringOp::DbList => "DbList",
            TuringOp::DbDrop => "DbDrop",
            TuringOp::DocumentCreate => "DocumentCreate",
            TuringOp::DocumentList => "DocumentList",
            TuringOp::DocumentDrop => "DocumentDrop",
            TuringOp::FieldInsert => "FieldInsert",
            TuringOp::FieldGet => "FieldGet",
            TuringOp::FieldRemove => "FieldRemove",
            TuringOp::FieldModify => "FieldModify",
            TuringOp::FieldList => "FieldList",
            TuringOp::NotSupported => "NotSupported",
        }
    }
}

/// A document, by the names of its database and of itself.
#[derive(Debug, Clone, PartialEq, Eq)]
pub struct DocumentOnly {
    pub db: String,
    pub document: String,
}

/// A field, by the names of its database, of its document and of itself.
#[derive(Debug, Clone, PartialEq, Eq)]
pub struct FieldNoData {
    pub db: String,
    pub document: String,
    pub field: String,
}

/// A field and a payload for it.
#[derive(Debug, Clone, PartialEq, Eq)]
pub struct FieldWithData {
    pub db: String,
    pub document: String,
    pub field: String,
    pub data: Vec<u8>,
}

/// The commands of the protocol.
#[derive(Debug, Clone, PartialEq, Eq)]
pub enum TuringCommands {
    /// Initialize the repository
    RepoCreate,
    /// Delete the repository
    RepoDrop,
    /// Create a database
    DbCreate(String),
    /// List all databases of the repository
    DbList,
    /// Delete a database
    DbDrop(String),
    /// Create a document
    DocumentCreate(DocumentOnly),
    /// List all documents of a database
    DocumentList(String),
    /// Delete a document and all its contents
    DocumentDrop(DocumentOnly),
    /// Insert a field into a document
    FieldInsert(FieldWithData),
    /// Read the contents of a field
    FieldRead(FieldNoData),
    /// Remove a field
    FieldRemove(FieldNoData),
    /// Change the contents of a field
    FieldModify(FieldWithData),
    /// List all fields of a document
    FieldList(DocumentOnly),
}

/// A command as proofs see it: names as sequences of characters, payloads
/// as sequences of bytes.
pub enum CommandView {
    RepoCreate,
    RepoDrop,
    DbCreate(Seq<char>),
    DbList,
    DbDrop(Seq<char>),
    DocumentCreate { db: Seq<char>, document: Seq<char> },
    DocumentList(Seq<char>),
    DocumentDrop { db: Seq<char>, document: Seq<char> },
    FieldInsert { db: Seq<char>, document: Seq<char>, field: Seq<char>, data: Seq<u8> },
    FieldRead { db: Seq<char>, document: Seq<char>, field: Seq<char> },
    FieldRemove { db: Seq<char>, document: Seq<char>, field: Seq<char> },
    FieldModify { db: Seq<char>, document: Seq<char>, field: Seq<char>, data: Seq<u8> },
    FieldList { db: Seq<char>, document: Seq<char> },
}

impl View for TuringCommands {
    type V = CommandView;

    open spec fn view(&self) -> CommandView {
        match self {
            TuringCommands::RepoCreate => CommandView::RepoCreate,
            TuringCommands::RepoDrop => CommandView::RepoDrop,
            TuringCommands::DbCreate(db) => CommandView::DbCreate(db@),
            TuringCommands::DbList => CommandView::DbList,
            TuringCommands::DbDrop(db) => CommandView::DbDrop(db@),
            TuringCommands::DocumentCreate(d) => CommandView::DocumentCreate {
                db: d.db@,
                document: d.document@,
            },
            TuringCommands::DocumentList(db) => CommandView::DocumentList(db@),
            TuringCommands::DocumentDrop(d) => CommandView::DocumentDrop {
                db: d.db@,
                document: d.document@,
            },
            TuringCommands::FieldInsert(f) => CommandView::FieldInsert {
                db: f.db@,
                document: f.document@,
                field: f.field@,
                data: f.data@,
            },
            TuringCommands::FieldRead(f) => CommandView::FieldRead {
                db: f.db@,
                document: f.document@,
                field: f.field@,
            },
            TuringCommands::FieldRemove(f) => CommandView::FieldRemove {
                db: f.db@,
                document: f.document@,
                field: f.field@,
            },
            TuringCommands::FieldModify(f) => CommandView::FieldModify {
                db: f.db@,
                document: f.document@,
                field: f.field@,
                data: f.data@,
            },
            TuringCommands::FieldList(d) => CommandView::FieldList {
                db: d.db@,
                document: d.document@,
            },
        }
    }
}

impl CommandView {
    /// The operation that the command asks for.
    pub open spec fn op(self) -> TuringOp {
        match self {
            CommandView::RepoCreate => TuringOp::RepoCreate,
            CommandView::RepoDrop => TuringOp::RepoDrop,
            CommandView::DbCreate(_) => TuringOp::DbCreate,
            CommandView::DbList => TuringOp::DbList,
            CommandView::DbDrop(_) => TuringOp::DbDrop,
            CommandView::DocumentCreate { .. } => TuringOp::DocumentCreate,
            CommandView::DocumentList(_) => TuringOp::DocumentList,
            CommandView::DocumentDrop { .. } => TuringOp::DocumentDrop,
            CommandView::FieldInsert { .. } => TuringOp::FieldInsert,
            CommandView::FieldRead { .. } => TuringOp::FieldGet,
            CommandView::FieldRemove { .. } => TuringOp::FieldRemove,
            CommandView::FieldModify { .. } => TuringOp::FieldModify,
            CommandView::FieldList { .. } => TuringOp::FieldList,
        }
    }
}

impl TuringCommands {
    /// The operation that the command asks for.
    pub fn op(&self) -> (r: TuringOp)
        ensures
            r == self@.op(),
    {
        match self {
            TuringCommands::RepoCreate => TuringOp::RepoCreate,
            TuringCommands::RepoDrop => TuringOp::RepoDrop,
            TuringCommands::DbCreate(_) => TuringOp::DbCreate,
            TuringCommands::DbList => TuringOp::DbList,
            TuringCommands::DbDrop(_) => TuringOp::DbDrop,
            TuringCommands::DocumentCreate(_) => TuringOp::DocumentCreate,
            TuringCommands::DocumentList(_) => TuringOp::DocumentList,
            TuringCommands::DocumentDrop(_) => TuringOp::DocumentDrop,
            TuringCommands::FieldInsert(_) => TuringOp::FieldInsert,
            TuringCommands::FieldRead(_) => TuringOp::FieldGet,
            TuringCommands::FieldRemove(_) => TuringOp::FieldRemove,
            TuringCommands::FieldModify(_) => TuringOp::FieldModify,
            TuringCommands::FieldList(_) => TuringOp::FieldList,
        }
    }
}

} // verus!
