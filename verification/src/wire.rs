//! The wire format of commands.
//!
//! ```text
//! payload := code of the operation (one byte), then its arguments in order
//! argument := length as u64, little-endian, then that many bytes
//! ```
//!
//! Names travel as UTF-8. A payload stands for a command only where it holds
//! exactly the arguments of its operation and nothing after them.

use crate::commands::{
    op_code, op_of_code, CommandView, DocumentOnly, FieldNoData, FieldWithData, TuringCommands,
    TuringOp,
};
use crate::errors::OpsErrors;
use crate::names::text_bytes;
use vstd::bytes::{
    lemma_auto_spec_u64_to_from_le_bytes, spec_u64_from_le_bytes, spec_u64_to_le_bytes,
    u64_from_le_bytes, u64_to_le_bytes,
};
use vstd::prelude::*;
use vstd::slice::{slice_subrange, slice_to_vec};
use vstd::utf8::{decode_utf8, encode_utf8_decode_utf8, encode_utf8_valid_utf8, valid_utf8};

verus! {

/// An argument on the wire: its length, then its bytes.
pub open spec fn field_bytes(f: Seq<u8>) -> Seq<u8> {
    spec_u64_to_le_bytes(f.len() as u64) + f
}

/// A name on the wire: its UTF-8 form as an argument.
pub open spec fn text_field(s: Seq<char>) -> Seq<u8> {
    field_bytes(text_bytes(s))
}

/// The first argument that the bytes hold, and what follows it.
pub open spec fn parse_field(b: Seq<u8>) -> Option<(Seq<u8>, Seq<u8>)> {
    if b.len() < 8 {
        None
    } else {
        let n = spec_u64_from_le_bytes(b.subrange(0, 8));
        if n > b.len() - 8 {
            None
        } else {
            Some((b.subrange(8, 8 + n), b.subrange(8 + n, b.len() as int)))
        }
    }
}

/// The first argument that the bytes hold, read as a name, and what follows
/// it.
pub open spec fn parse_text(b: Seq<u8>) -> Option<(Seq<char>, Seq<u8>)> {
    match parse_field(b) {
        Some((f, rest)) => if valid_utf8(f) {
            Some((decode_utf8(f), rest))
        } else {
            None
        },
        None => None,
    }
}

/// The bytes are exactly one name.
pub open spec fn parse_one(b: Seq<u8>) -> Option<Seq<char>> {
    match parse_text(b) {
        Some((a, rest)) => if rest.len() == 0 {
            Some(a)
        } else {
            None
        },
        None => None,
    }
}

/// The bytes are exactly two names.
pub open spec fn parse_two(b: Seq<u8>) -> Option<(Seq<char>, Seq<char>)> {
    match parse_text(b) {
        Some((a, rest)) => match parse_one(rest) {
            Some(b) => Some((a, b)),
            None => None,
        },
        None => None,
    }
}

/// The bytes are exactly three names.
pub open spec fn parse_three(b: Seq<u8>) -> Option<(Seq<char>, Seq<char>, Seq<char>)> {
    match parse_text(b) {
        Some((a, rest)) => match parse_two(rest) {
            Some((b, c)) => Some((a, b, c)),
            None => None,
        },
        None => None,
    }
}

/// The bytes are exactly three names and a payload.
pub open spec fn parse_three_data(b: Seq<u8>) -> Option<
    (Seq<char>, Seq<char>, Seq<char>, Seq<u8>),
> {
    match parse_text(b) {
        Some((a, rest)) => match parse_text(rest) {
            Some((b, rest)) => match parse_text(rest) {
                Some((c, rest)) => match parse_field(rest) {
                    Some((data, rest)) => if rest.len() == 0 {
                        Some((a, b, c, data))
                    } else {
                        None
                    },
                    None => None,
                },
                None => None,
            },
            None => None,
        },
        None => None,
    }
}

/// The arguments of a command on the wire.
pub open spec fn argument_bytes(c: CommandView) -> Seq<u8> {
    match c {
        CommandView::RepoCreate => Seq::<u8>::empty(),
        CommandView::RepoDrop => Seq::<u8>::empty(),
        CommandView::DbCreate(db) => text_field(db),
        CommandView::DbList => Seq::<u8>::empty(),
        CommandView::DbDrop(db) => text_field(db),
        CommandView::DocumentCreate { db, document } => text_field(db) + text_field(document),
        CommandView::DocumentList(db) => text_field(db),
        CommandView::DocumentDrop { db, document } => text_field(db) + text_field(document),
        CommandView::FieldInsert { db, document, field, data } => text_field(db) + (text_field(
            document,
        ) + (text_field(field) + field_bytes(data))),
        CommandView::FieldRead { db, document, field } => text_field(db) + (text_field(document)
            + text_field(field)),
        CommandView::FieldRemove { db, document, field } => text_field(db) + (text_field(document)
            + text_field(field)),
        CommandView::FieldModify { db, document, field, data } => text_field(db) + (text_field(
            document,
        ) + (text_field(field) + field_bytes(data))),
        CommandView::FieldList { db, document } => text_field(db) + text_field(document),
    }
}

/// A command on the wire.
pub open spec fn command_bytes(c: CommandView) -> Seq<u8> {
    seq![op_code(c.op())] + argument_bytes(c)
}

/// The command that a payload stands for, if it stands for one.
pub open spec fn parse_command(b: Seq<u8>) -> Option<CommandView> {
    if b.len() == 0 {
        None
    } else {
        let rest = b.subrange(1, b.len() as int);
        match op_of_code(b[0]) {
            TuringOp::RepoCreate => if rest.len() == 0 {
                Some(CommandView::RepoCreate)
            } else {
                None
            },
            TuringOp::RepoDrop => if rest.len() == 0 {
                Some(CommandView::RepoDrop)
            } else {
                None
            },
            TuringOp::DbList => if rest.len() == 0 {
                Some(CommandView::DbList)
            } else {
                None
            },
            TuringOp::DbCreate => match parse_one(rest) {
                Some(db) => Some(CommandView::DbCreate(db)),
                None => None,
            },
            TuringOp::DbDrop => match parse_one(rest) {
                Some(db) => Some(CommandView::DbDrop(db)),
                None => None,
            },
            TuringOp::DocumentList => match parse_one(rest) {
                Some(db) => Some(CommandView::DocumentList(db)),
                None => None,
            },
            TuringOp::DocumentCreate => match parse_two(rest) {
                Some((db, document)) => Some(CommandView::DocumentCreate { db, document }),
                None => None,
            },
            TuringOp::DocumentDrop => match parse_two(rest) {
                Some((db, document)) => Some(CommandView::DocumentDrop { db, document }),
                None => None,
            },
            TuringOp::FieldList => match parse_two(rest) {
                Some((db, document)) => Some(CommandView::FieldList { db, document }),
                None => None,
            },
            TuringOp::FieldGet => match parse_three(rest) {
                Some((db, document, field)) => Some(CommandView::FieldRead { db, document, field }),
                None => None,
            },
            TuringOp::FieldRemove => match parse_three(rest) {
                Some((db, document, field)) => Some(
                    CommandView::FieldRemove { db, document, field },
                ),
                None => None,
            },
            TuringOp::FieldInsert => match parse_three_data(rest) {
                Some((db, document, field, data)) => Some(
                    CommandView::FieldInsert { db, document, field, data },
                ),
                None => None,
            },
            TuringOp::FieldModify => match parse_three_data(rest) {
                Some((db, document, field, data)) => Some(
                    CommandView::FieldModify { db, document, field, data },
                ),
                None => None,
            },
            TuringOp::NotSupported => None,
        }
    }
}

/// An argument is read back from the wire, whatever follows it.
pub proof fn lemma_field_round_trip(f: Seq<u8>, rest: Seq<u8>)
    requires
        f.len() <= u64::MAX,
    ensures
        parse_field(field_bytes(f) + rest) == Some((f, rest)),
{
    lemma_auto_spec_u64_to_from_le_bytes();
    let b = field_bytes(f) + rest;
    assert(b.subrange(0, 8) =~= spec_u64_to_le_bytes(f.len() as u64));
    assert(b.subrange(8, 8 + f.len() as int) =~= f);
    assert(b.subrange(8 + f.len() as int, b.len() as int) =~= rest);
}

/// A name is read back from the wire, whatever follows it.
pub proof fn lemma_text_round_trip(s: Seq<char>, rest: Seq<u8>)
    requires
        text_bytes(s).len() <= u64::MAX,
    ensures
        parse_text(text_field(s) + rest) == Some((s, rest)),
{
    lemma_field_round_trip(text_bytes(s), rest);
    encode_utf8_valid_utf8(s);
    encode_utf8_decode_utf8(s);
}

/// Every argument of the command has a length that fits the wire.
pub open spec fn fits(c: CommandView) -> bool {
    match c {
        CommandView::RepoCreate => true,
        CommandView::RepoDrop => true,
        CommandView::DbCreate(db) => text_bytes(db).len() <= u64::MAX,
        CommandView::DbList => true,
        CommandView::DbDrop(db) => text_bytes(db).len() <= u64::MAX,
        CommandView::DocumentCreate { db, document } => text_bytes(db).len() <= u64::MAX
            && text_bytes(document).len() <= u64::MAX,
        CommandView::DocumentList(db) => text_bytes(db).len() <= u64::MAX,
        CommandView::DocumentDrop { db, document } => text_bytes(db).len() <= u64::MAX
            && text_bytes(document).len() <= u64::MAX,
        CommandView::FieldInsert { db, document, field, data } => text_bytes(db).len() <= u64::MAX
            && text_bytes(document).len() <= u64::MAX && text_bytes(field).len() <= u64::MAX
            && data.len() <= u64::MAX,
        CommandView::FieldRead { db, document, field } => text_bytes(db).len() <= u64::MAX
            && text_bytes(document).len() <= u64::MAX && text_bytes(field).len() <= u64::MAX,
        CommandView::FieldRemove { db, document, field } => text_bytes(db).len() <= u64::MAX
            && text_bytes(document).len() <= u64::MAX && text_bytes(field).len() <= u64::MAX,
        CommandView::FieldModify { db, document, field, data } => text_bytes(db).len() <= u64::MAX
            && text_bytes(document).len() <= u64::MAX && text_bytes(field).len() <= u64::MAX
            && data.len() <= u64::MAX,
        CommandView::FieldList { db, document } => text_bytes(db).len() <= u64::MAX && text_bytes(
            document,
        ).len() <= u64::MAX,
    }
}

/// Exactly one name is read back.
pub proof fn lemma_one_round_trip(a: Seq<char>)
    requires
        text_bytes(a).len() <= u64::MAX,
    ensures
        parse_one(text_field(a)) == Some(a),
{
    let none = Seq::<u8>::empty();
    lemma_text_round_trip(a, none);
    assert(text_field(a) + none =~= text_field(a));
}

/// Exactly two names are read back.
pub proof fn lemma_two_round_trip(a: Seq<char>, b: Seq<char>)
    requires
        text_bytes(a).len() <= u64::MAX,
        text_bytes(b).len() <= u64::MAX,
    ensures
        parse_two(text_field(a) + text_field(b)) == Some((a, b)),
{
    lemma_text_round_trip(a, text_field(b));
    lemma_one_round_trip(b);
}

/// Exactly three names are read back.
pub proof fn lemma_three_round_trip(a: Seq<char>, b: Seq<char>, c: Seq<char>)
    requires
        text_bytes(a).len() <= u64::MAX,
        text_bytes(b).len() <= u64::MAX,
        text_bytes(c).len() <= u64::MAX,
    ensures
        parse_three(text_field(a) + (text_field(b) + text_field(c))) == Some((a, b, c)),
{
    lemma_text_round_trip(a, text_field(b) + text_field(c));
    lemma_two_round_trip(b, c);
}

/// Exactly three names and a payload are read back.
pub proof fn lemma_three_data_round_trip(a: Seq<char>, b: Seq<char>, c: Seq<char>, data: Seq<u8>)
    requires
        text_bytes(a).len() <= u64::MAX,
        text_bytes(b).len() <= u64::MAX,
        text_bytes(c).len() <= u64::MAX,
        data.len() <= u64::MAX,
    ensures
        parse_three_data(text_field(a) + (text_field(b) + (text_field(c) + field_bytes(data))))
            == Some((a, b, c, data)),
{
    let none = Seq::<u8>::empty();
    lemma_text_round_trip(a, text_field(b) + (text_field(c) + field_bytes(data)));
    lemma_text_round_trip(b, text_field(c) + field_bytes(data));
    lemma_text_round_trip(c, field_bytes(data));
    lemma_field_round_trip(data, none);
    assert(field_bytes(data) + none =~= field_bytes(data));
}

/// Round trip: a command is read back from the payload written for it.
pub proof fn lemma_command_round_trip(c: CommandView)
    requires
        fits(c),
    ensures
        parse_command(command_bytes(c)) == Some(c),
{
    let b = command_bytes(c);
    assert(b.subrange(1, b.len() as int) =~= argument_bytes(c));
    assert(b[0] == op_code(c.op()));
    crate::commands::lemma_op_round_trip(c.op());
    match c {
        CommandView::RepoCreate => {},
        CommandView::RepoDrop => {},
        CommandView::DbList => {},
        CommandView::DbCreate(db) => {
            lemma_one_round_trip(db);
        },
        CommandView::DbDrop(db) => {
            lemma_one_round_trip(db);
        },
        CommandView::DocumentList(db) => {
            lemma_one_round_trip(db);
        },
        CommandView::DocumentCreate { db, document } => {
            lemma_two_round_trip(db, document);
        },
        CommandView::DocumentDrop { db, document } => {
            lemma_two_round_trip(db, document);
        },
        CommandView::FieldList { db, document } => {
            lemma_two_round_trip(db, document);
        },
        CommandView::FieldRead { db, document, field } => {
            lemma_three_round_trip(db, document, field);
        },
        CommandView::FieldRemove { db, document, field } => {
            lemma_three_round_trip(db, document, field);
        },
        CommandView::FieldInsert { db, document, field, data } => {
            lemma_three_data_round_trip(db, document, field, data);
        },
        CommandView::FieldModify { db, document, field, data } => {
            lemma_three_data_round_trip(db, document, field, data);
        },
    }
}

/// `String::from_utf8`: the string that the bytes are the UTF-8 form of,
/// where they are one.
#[verifier::external_body]
pub(crate) fn text_from_utf8(bytes: Vec<u8>) -> (r: Option<String>)
    ensures
        r is Some == valid_utf8(bytes@),
        r matches Some(s) ==> s@ == decode_utf8(bytes@),
{
    String::from_utf8(bytes).ok()
}

/// Appends an argument.
pub fn put_field(out: &mut Vec<u8>, f: &[u8])
    ensures
        final(out)@ == old(out)@ + field_bytes(f@),
{
    let mut length = u64_to_le_bytes(f.len() as u64);
    out.append(&mut length);
    let mut bytes = slice_to_vec(f);
    out.append(&mut bytes);
    assert(out@ =~= old(out)@ + field_bytes(f@));
}

/// Appends a name.
pub fn put_text(out: &mut Vec<u8>, s: &str)
    ensures
        final(out)@ == old(out)@ + text_field(s@),
{
    put_field(out, s.as_bytes());
}

/// Takes the first argument off the bytes.
pub fn take_field(b: &[u8]) -> (r: Option<(&[u8], &[u8])>)
    ensures
        match r {
            Some((f, rest)) => parse_field(b@) == Some((f@, rest@)),
            None => parse_field(b@) is None,
        },
{
    if b.len() < 8 {
        return None;
    }
    let n = u64_from_le_bytes(slice_subrange(b, 0, 8));
    if n > (b.len() - 8) as u64 {
        return None;
    }
    let n: usize = n as usize;
    Some((slice_subrange(b, 8, 8 + n), slice_subrange(b, 8 + n, b.len())))
}

/// Takes the first argument off the bytes, as a name.
pub fn take_text(b: &[u8]) -> (r: Option<(String, &[u8])>)
    ensures
        match r {
            Some((s, rest)) => parse_text(b@) == Some((s@, rest@)),
            None => parse_text(b@) is None,
        },
{
    match take_field(b) {
        None => None,
        Some((f, rest)) => match text_from_utf8(slice_to_vec(f)) {
            Some(s) => Some((s, rest)),
            None => None,
        },
    }
}

fn take_one(b: &[u8]) -> (r: Option<String>)
    ensures
        match r {
            Some(a) => parse_one(b@) == Some(a@),
            None => parse_one(b@) is None,
        },
{
    match take_text(b) {
        Some((a, rest)) => if rest.len() == 0 {
            Some(a)
        } else {
            None
        },
        None => None,
    }
}

fn take_two(b: &[u8]) -> (r: Option<(String, String)>)
    ensures
        match r {
            Some((a, b2)) => parse_two(b@) == Some((a@, b2@)),
            None => parse_two(b@) is None,
        },
{
    match take_text(b) {
        Some((a, rest)) => match take_one(rest) {
            Some(b2) => Some((a, b2)),
            None => None,
        },
        None => None,
    }
}

fn take_three(b: &[u8]) -> (r: Option<(String, String, String)>)
    ensures
        match r {
            Some((a, b2, c)) => parse_three(b@) == Some((a@, b2@, c@)),
            None => parse_three(b@) is None,
        },
{
    match take_text(b) {
        Some((a, rest)) => match take_two(rest) {
            Some((b2, c)) => Some((a, b2, c)),
            None => None,
        },
        None => None,
    }
}

fn take_three_data(b: &[u8]) -> (r: Option<(String, String, String, Vec<u8>)>)
    ensures
        match r {
            Some((a, b2, c, data)) => parse_three_data(b@) == Some((a@, b2@, c@, data@)),
            None => parse_three_data(b@) is None,
        },
{
    let (a, rest) = match take_text(b) {
        Some(found) => found,
        None => {
            return None;
        },
    };
    let (b2, rest) = match take_text(rest) {
        Some(found) => found,
        None => {
            return None;
        },
    };
    let (c, rest) = match take_text(rest) {
        Some(found) => found,
        None => {
            return None;
        },
    };
    match take_field(rest) {
        Some((data, rest)) => if rest.len() == 0 {
            Some((a, b2, c, slice_to_vec(data)))
        } else {
            None
        },
        None => None,
    }
}

/// Writes a command as a payload.
pub fn encode_command(command: &TuringCommands) -> (out: Vec<u8>)
    ensures
        out@ == command_bytes(command@),
{
    let op = command.op();
    let mut out = slice_to_vec(crate::commands::from_op(&op));
    match command {
        TuringCommands::RepoCreate => {},
        TuringCommands::RepoDrop => {},
        TuringCommands::DbList => {},
        TuringCommands::DbCreate(db) => {
            put_text(&mut out, db.as_str());
        },
        TuringCommands::DbDrop(db) => {
            put_text(&mut out, db.as_str());
        },
        TuringCommands::DocumentList(db) => {
            put_text(&mut out, db.as_str());
        },
        TuringCommands::DocumentCreate(d) => {
            put_text(&mut out, d.db.as_str());
            put_text(&mut out, d.document.as_str());
        },
        TuringCommands::DocumentDrop(d) => {
            put_text(&mut out, d.db.as_str());
            put_text(&mut out, d.document.as_str());
        },
        TuringCommands::FieldList(d) => {
            put_text(&mut out, d.db.as_str());
            put_text(&mut out, d.document.as_str());
        },
        TuringCommands::FieldRead(f) => {
            put_text(&mut out, f.db.as_str());
            put_text(&mut out, f.document.as_str());
            put_text(&mut out, f.field.as_str());
        },
        TuringCommands::FieldRemove(f) => {
            put_text(&mut out, f.db.as_str());
            put_text(&mut out, f.document.as_str());
            put_text(&mut out, f.field.as_str());
        },
        TuringCommands::FieldInsert(f) => {
            put_text(&mut out, f.db.as_str());
            put_text(&mut out, f.document.as_str());
            put_text(&mut out, f.field.as_str());
            put_field(&mut out, f.data.as_slice());
        },
        TuringCommands::FieldModify(f) => {
            put_text(&mut out, f.db.as_str());
            put_text(&mut out, f.document.as_str());
            put_text(&mut out, f.field.as_str());
            put_field(&mut out, f.data.as_slice());
        },
    }
    assert(out@ =~= command_bytes(command@));
    out
}

/// Reads a command from a payload. A payload that stands for no command is
/// refused as `IntegrityCorrupted`.
pub fn decode_command(payload: &[u8]) -> (r: Result<TuringCommands, OpsErrors>)
    ensures
        match r {
            Ok(command) => parse_command(payload@) == Some(command@),
            Err(e) => parse_command(payload@) is None && e == OpsErrors::IntegrityCorrupted,
        },
{
    if payload.len() == 0 {
        return Err(OpsErrors::IntegrityCorrupted);
    }
    let op = crate::commands::to_op(slice_subrange(payload, 0, 1));
    assert(payload@.subrange(0, 1)[0] == payload@[0]);
    let rest = slice_subrange(payload, 1, payload.len());
    let found = match op {
        TuringOp::RepoCreate => if rest.len() == 0 {
            Some(TuringCommands::RepoCreate)
        } else {
            None
        },
        TuringOp::RepoDrop => if rest.len() == 0 {
            Some(TuringCommands::RepoDrop)
        } else {
            None
        },
        TuringOp::DbList => if rest.len() == 0 {
            Some(TuringCommands::DbList)
        } else {
            None
        },
        TuringOp::DbCreate => match take_one(rest) {
            Some(db) => Some(TuringCommands::DbCreate(db)),
            None => None,
        },
        TuringOp::DbDrop => match take_one(rest) {
            Some(db) => Some(TuringCommands::DbDrop(db)),
            None => None,
        },
        TuringOp::DocumentList => match take_one(rest) {
            Some(db) => Some(TuringCommands::DocumentList(db)),
            None => None,
        },
        TuringOp::DocumentCreate => match take_two(rest) {
            Some((db, document)) => Some(
                TuringCommands::DocumentCreate(DocumentOnly { db, document }),
            ),
            None => None,
        },
        TuringOp::DocumentDrop => match take_two(rest) {
            Some((db, document)) => Some(
                TuringCommands::DocumentDrop(DocumentOnly { db, document }),
            ),
            None => None,
        },
        TuringOp::FieldList => match take_two(rest) {
            Some((db, document)) => Some(TuringCommands::FieldList(DocumentOnly { db, document })),
            None => None,
        },
        TuringOp::FieldGet => match take_three(rest) {
            Some((db, document, field)) => Some(
                TuringCommands::FieldRead(FieldNoData { db, document, field }),
            ),
            None => None,
        },
        TuringOp::FieldRemove => match take_three(rest) {
            Some((db, document, field)) => Some(
                TuringCommands::FieldRemove(FieldNoData { db, document, field }),
            ),
            None => None,
        },
        TuringOp::FieldInsert => match take_three_data(rest) {
            Some((db, document, field, data)) => Some(
                TuringCommands::FieldInsert(FieldWithData { db, document, field, data }),
            ),
            None => None,
        },
        TuringOp::FieldModify => match take_three_data(rest) {
            Some((db, document, field, data)) => Some(
                TuringCommands::FieldModify(FieldWithData { db, document, field, data }),
            ),
            None => None,
        },
        TuringOp::NotSupported => None,
    };
    match found {
        Some(command) => Ok(command),
        None => Err(OpsErrors::IntegrityCorrupted),
    }
}

} // verus!
