//! The wire format of replies.
//!
//! ```text
//! payload := tag of the outcome (one byte), then what the outcome carries
//! list    := number of items as u64, little-endian, then each item as an
//!            argument
//! ```
//!
//! Payloads, keys and names are written as the arguments of commands are.

use crate::keys::key_views;
use crate::names::text_bytes;
use crate::outcome::{name_views, OpsOutcome, OutcomeView};
use crate::wire::{
    field_bytes, lemma_field_round_trip, parse_field, put_field, take_field, text_field,
    text_from_utf8,
};
use vstd::bytes::{
    lemma_auto_spec_u64_to_from_le_bytes, spec_u64_from_le_bytes, spec_u64_to_le_bytes,
    u64_from_le_bytes, u64_to_le_bytes,
};
use vstd::prelude::*;
use vstd::slice::{slice_subrange, slice_to_vec};
use vstd::utf8::{decode_utf8, encode_utf8_decode_utf8, encode_utf8_valid_utf8, valid_utf8};

verus! {

/// The tag of an outcome on the wire.
pub open spec fn outcome_tag(o: OutcomeView) -> u8 {
    match o {
        OutcomeView::RepoCreated => 0,
        OutcomeView::RepoAlreadyExists => 1,
        OutcomeView::RepoEmpty => 2,
        OutcomeView::RepoNotFound => 3,
        OutcomeView::RepoDropped => 4,
        OutcomeView::DbCreated => 5,
        OutcomeView::DbAlreadyExists => 6,
        OutcomeView::DbNotFound => 7,
        OutcomeView::DbEmpty => 8,
        OutcomeView::DbList(_) => 9,
        OutcomeView::DbDropped => 10,
        OutcomeView::DocumentCreated => 11,
        OutcomeView::DocumentAlreadyExists => 12,
        OutcomeView::DocumentNotFound => 13,
        OutcomeView::DocumentEmpty => 14,
        OutcomeView::DocumentList(_) => 15,
        OutcomeView::DocumentDropped => 16,
        OutcomeView::FieldInserted => 17,
        OutcomeView::FieldAlreadyExists => 18,
        OutcomeView::FieldNotFound => 19,
        OutcomeView::FieldContents(_) => 20,
        OutcomeView::FieldList(_) => 21,
        OutcomeView::FieldModified => 22,
        OutcomeView::FieldDropped => 23,
        OutcomeView::Committed => 24,
        OutcomeView::PermissionDenied => 25,
        OutcomeView::EncounteredErrors(_) => 26,
    }
}

/// The outcome without a content that a tag stands for.
pub open spec fn plain_outcome(tag: u8) -> Option<OutcomeView> {
    if tag == 0 {
        Some(OutcomeView::RepoCreated)
    } else if tag == 1 {
        Some(OutcomeView::RepoAlreadyExists)
    } else if tag == 2 {
        Some(OutcomeView::RepoEmpty)
    } else if tag == 3 {
        Some(OutcomeView::RepoNotFound)
    } else if tag == 4 {
        Some(OutcomeView::RepoDropped)
    } else if tag == 5 {
        Some(OutcomeView::DbCreated)
    } else if tag == 6 {
        Some(OutcomeView::DbAlreadyExists)
    } else if tag == 7 {
        Some(OutcomeView::DbNotFound)
    } else if tag == 8 {
        Some(OutcomeView::DbEmpty)
    } else if tag == 10 {
        Some(OutcomeView::DbDropped)
    } else if tag == 11 {
        Some(OutcomeView::DocumentCreated)
    } else if tag == 12 {
        Some(OutcomeView::DocumentAlreadyExists)
    } else if tag == 13 {
        Some(OutcomeView::DocumentNotFound)
    } else if tag == 14 {
        Some(OutcomeView::DocumentEmpty)
    } else if tag == 16 {
        Some(OutcomeView::DocumentDropped)
    } else if tag == 17 {
        Some(OutcomeView::FieldInserted)
    } else if tag == 18 {
        Some(OutcomeView::FieldAlreadyExists)
    } else if tag == 19 {
        Some(OutcomeView::FieldNotFound)
    } else if tag == 22 {
        Some(OutcomeView::FieldModified)
    } else if tag == 23 {
        Some(OutcomeView::FieldDropped)
    } else if tag == 24 {
        Some(OutcomeView::Committed)
    } else if tag == 25 {
        Some(OutcomeView::PermissionDenied)
    } else {
        None
    }
}

/// The items of a list on the wire, one argument after the other.
pub open spec fn items_bytes(items: Seq<Seq<u8>>) -> Seq<u8>
    decreases items.len(),
{
    if items.len() == 0 {
        Seq::<u8>::empty()
    } else {
        items_bytes(items.drop_last()) + field_bytes(items.last())
    }
}

/// A list on the wire: the number of its items, then the items.
pub open spec fn list_bytes(items: Seq<Seq<u8>>) -> Seq<u8> {
    spec_u64_to_le_bytes(items.len() as u64) + items_bytes(items)
}

/// The UTF-8 forms of names.
pub open spec fn texts(names: Seq<Seq<char>>) -> Seq<Seq<u8>> {
    Seq::new(names.len(), |i: int| text_bytes(names[i]))
}

/// What an outcome carries, on the wire.
pub open spec fn content_bytes(o: OutcomeView) -> Seq<u8> {
    match o {
        OutcomeView::DbList(names) => list_bytes(texts(names)),
        OutcomeView::DocumentList(names) => list_bytes(texts(names)),
        OutcomeView::FieldContents(data) => field_bytes(data),
        OutcomeView::FieldList(keys) => list_bytes(keys),
        OutcomeView::EncounteredErrors(message) => text_field(message),
        _ => Seq::<u8>::empty(),
    }
}

/// An outcome on the wire.
pub open spec fn outcome_bytes(o: OutcomeView) -> Seq<u8> {
    seq![outcome_tag(o)] + content_bytes(o)
}

/// The bytes are exactly `count` arguments.
pub open spec fn parse_items(b: Seq<u8>, count: nat) -> Option<Seq<Seq<u8>>>
    decreases count,
{
    if count == 0 {
        if b.len() == 0 {
            Some(Seq::<Seq<u8>>::empty())
        } else {
            None
        }
    } else {
        match parse_field(b) {
            Some((first, rest)) => match parse_items(rest, (count - 1) as nat) {
                Some(others) => Some(seq![first] + others),
                None => None,
            },
            None => None,
        }
    }
}

/// The bytes are exactly one list.
pub open spec fn parse_list(b: Seq<u8>) -> Option<Seq<Seq<u8>>> {
    if b.len() < 8 {
        None
    } else {
        parse_items(
            b.subrange(8, b.len() as int),
            spec_u64_from_le_bytes(b.subrange(0, 8)) as nat,
        )
    }
}

/// Every item is the UTF-8 form of a name.
pub open spec fn all_text(items: Seq<Seq<u8>>) -> bool {
    forall|i: int| 0 <= i < items.len() ==> valid_utf8(#[trigger] items[i])
}

/// The names that the items are the UTF-8 forms of.
pub open spec fn names_of(items: Seq<Seq<u8>>) -> Seq<Seq<char>> {
    Seq::new(items.len(), |i: int| decode_utf8(items[i]))
}

/// The bytes are exactly one list of names.
pub open spec fn parse_names(b: Seq<u8>) -> Option<Seq<Seq<char>>> {
    match parse_list(b) {
        Some(items) => if all_text(items) {
            Some(names_of(items))
        } else {
            None
        },
        None => None,
    }
}

/// The bytes are exactly one argument.
pub open spec fn parse_single(b: Seq<u8>) -> Option<Seq<u8>> {
    match parse_field(b) {
        Some((f, rest)) => if rest.len() == 0 {
            Some(f)
        } else {
            None
        },
        None => None,
    }
}

/// The outcome that a payload stands for, if it stands for one.
pub open spec fn parse_outcome(b: Seq<u8>) -> Option<OutcomeView> {
    if b.len() == 0 {
        None
    } else {
        let rest = b.subrange(1, b.len() as int);
        if b[0] == 9 {
            match parse_names(rest) {
                Some(names) => Some(OutcomeView::DbList(names)),
                None => None,
            }
        } else if b[0] == 15 {
            match parse_names(rest) {
                Some(names) => Some(OutcomeView::DocumentList(names)),
                None => None,
            }
        } else if b[0] == 20 {
            match parse_single(rest) {
                Some(data) => Some(OutcomeView::FieldContents(data)),
                None => None,
            }
        } else if b[0] == 21 {
            match parse_list(rest) {
                Some(keys) => Some(OutcomeView::FieldList(keys)),
                None => None,
            }
        } else if b[0] == 26 {
            match parse_single(rest) {
                Some(message) => if valid_utf8(message) {
                    Some(OutcomeView::EncounteredErrors(decode_utf8(message)))
                } else {
                    None
                },
                None => None,
            }
        } else if rest.len() == 0 {
            plain_outcome(b[0])
        } else {
            None
        }
    }
}

/// Every item has a length that fits the wire.
pub open spec fn items_fit(items: Seq<Seq<u8>>) -> bool {
    &&& items.len() <= u64::MAX
    &&& forall|i: int| 0 <= i < items.len() ==> (#[trigger] items[i]).len() <= u64::MAX
}

/// Everything the outcome carries has a length that fits the wire.
pub open spec fn outcome_fits(o: OutcomeView) -> bool {
    match o {
        OutcomeView::DbList(names) => items_fit(texts(names)),
        OutcomeView::DocumentList(names) => items_fit(texts(names)),
        OutcomeView::FieldContents(data) => data.len() <= u64::MAX,
        OutcomeView::FieldList(keys) => items_fit(keys),
        OutcomeView::EncounteredErrors(message) => text_bytes(message).len() <= u64::MAX,
        _ => true,
    }
}

/// The items of a list that begins with `first` begin with `first` as an
/// argument.
pub proof fn lemma_items_bytes_front(first: Seq<u8>, others: Seq<Seq<u8>>)
    ensures
        items_bytes(seq![first] + others) == field_bytes(first) + items_bytes(others),
    decreases others.len(),
{
    let all = seq![first] + others;
    if others.len() == 0 {
        assert(all.drop_last() =~= Seq::<Seq<u8>>::empty());
        assert(all.last() == first);
        assert(items_bytes(all.drop_last()) =~= Seq::<u8>::empty());
        assert(items_bytes(all) =~= field_bytes(first) + items_bytes(others));
    } else {
        assert(all.drop_last() =~= seq![first] + others.drop_last());
        assert(all.last() == others.last());
        lemma_items_bytes_front(first, others.drop_last());
        assert(items_bytes(all) =~= field_bytes(first) + items_bytes(others));
    }
}

/// The items of a list are read back.
pub proof fn lemma_items_round_trip(items: Seq<Seq<u8>>)
    requires
        items_fit(items),
    ensures
        parse_items(items_bytes(items), items.len()) == Some(items),
    decreases items.len(),
{
    if items.len() == 0 {
        assert(items =~= Seq::<Seq<u8>>::empty());
    } else {
        let first = items[0];
        let others = items.drop_first();
        assert(items =~= seq![first] + others);
        lemma_items_bytes_front(first, others);
        lemma_field_round_trip(first, items_bytes(others));
        assert forall|i: int| 0 <= i < others.len() implies (#[trigger] others[i]).len()
            <= u64::MAX by {
            assert(others[i] == items[i + 1]);
        }
        lemma_items_round_trip(others);
    }
}

/// A list is read back.
pub proof fn lemma_list_round_trip(items: Seq<Seq<u8>>)
    requires
        items_fit(items),
    ensures
        parse_list(list_bytes(items)) == Some(items),
{
    lemma_auto_spec_u64_to_from_le_bytes();
    lemma_items_round_trip(items);
    let b = list_bytes(items);
    assert(b.subrange(0, 8) =~= spec_u64_to_le_bytes(items.len() as u64));
    assert(b.subrange(8, b.len() as int) =~= items_bytes(items));
}

/// A list of names is read back.
pub proof fn lemma_names_round_trip(names: Seq<Seq<char>>)
    requires
        items_fit(texts(names)),
    ensures
        parse_names(list_bytes(texts(names))) == Some(names),
{
    lemma_list_round_trip(texts(names));
    assert forall|i: int| 0 <= i < names.len() implies valid_utf8(#[trigger] texts(names)[i])
        && decode_utf8(texts(names)[i]) == names[i] by {
        encode_utf8_valid_utf8(names[i]);
        encode_utf8_decode_utf8(names[i]);
    }
    assert(names_of(texts(names)) =~= names);
}

/// Round trip: an outcome is read back from the payload written for it.
pub proof fn lemma_outcome_round_trip(o: OutcomeView)
    requires
        outcome_fits(o),
    ensures
        parse_outcome(outcome_bytes(o)) == Some(o),
{
    let b = outcome_bytes(o);
    let none = Seq::<u8>::empty();
    assert(b.subrange(1, b.len() as int) =~= content_bytes(o));
    assert(b[0] == outcome_tag(o));
    match o {
        OutcomeView::DbList(names) => {
            lemma_names_round_trip(names);
        },
        OutcomeView::DocumentList(names) => {
            lemma_names_round_trip(names);
        },
        OutcomeView::FieldContents(data) => {
            lemma_field_round_trip(data, none);
            assert(field_bytes(data) + none =~= field_bytes(data));
        },
        OutcomeView::FieldList(keys) => {
            lemma_list_round_trip(keys);
        },
        OutcomeView::EncounteredErrors(message) => {
            lemma_field_round_trip(text_bytes(message), none);
            assert(text_field(message) + none =~= text_field(message));
            encode_utf8_valid_utf8(message);
            encode_utf8_decode_utf8(message);
        },
        _ => {},
    }
}

/// Appends a list of keys.
fn put_keys(out: &mut Vec<u8>, keys: &Vec<Vec<u8>>)
    ensures
        final(out)@ == old(out)@ + list_bytes(key_views(keys@)),
{
    let mut count = u64_to_le_bytes(keys.len() as u64);
    out.append(&mut count);
    let ghost head = out@;
    let mut i: usize = 0;
    assert(items_bytes(key_views(keys@).subrange(0, 0)) =~= Seq::<u8>::empty());
    while i < keys.len()
        invariant
            i <= keys.len(),
            out@ == head + items_bytes(key_views(keys@).subrange(0, i as int)),
        decreases keys.len() - i,
    {
        put_field(out, keys[i].as_slice());
        proof {
            let next = key_views(keys@).subrange(0, i + 1);
            assert(next.drop_last() =~= key_views(keys@).subrange(0, i as int));
            assert(next.last() == keys@[i as int]@);
        }
        i = i + 1;
    }
    assert(key_views(keys@).subrange(0, i as int) =~= key_views(keys@));
    assert(out@ =~= old(out)@ + list_bytes(key_views(keys@)));
}

/// Appends a list of names.
fn put_names(out: &mut Vec<u8>, names: &Vec<String>)
    ensures
        final(out)@ == old(out)@ + list_bytes(texts(name_views(names@))),
{
    let mut count = u64_to_le_bytes(names.len() as u64);
    out.append(&mut count);
    let ghost head = out@;
    let ghost all = texts(name_views(names@));
    let mut i: usize = 0;
    assert(items_bytes(all.subrange(0, 0)) =~= Seq::<u8>::empty());
    while i < names.len()
        invariant
            i <= names.len(),
            all == texts(name_views(names@)),
            out@ == head + items_bytes(all.subrange(0, i as int)),
        decreases names.len() - i,
    {
        put_field(out, names[i].as_str().as_bytes());
        proof {
            let next = all.subrange(0, i + 1);
            assert(next.drop_last() =~= all.subrange(0, i as int));
            assert(next.last() == text_bytes(names@[i as int]@));
        }
        i = i + 1;
    }
    assert(all.subrange(0, i as int) =~= all);
    assert(out@ =~= old(out)@ + list_bytes(all));
}

fn outcome_tag_of(outcome: &OpsOutcome) -> (tag: u8)
    ensures
        tag == outcome_tag(outcome@),
{
    match outcome {
        OpsOutcome::RepoCreated => 0,
        OpsOutcome::RepoAlreadyExists => 1,
        OpsOutcome::RepoEmpty => 2,
        OpsOutcome::RepoNotFound => 3,
        OpsOutcome::RepoDropped => 4,
        OpsOutcome::DbCreated => 5,
        OpsOutcome::DbAlreadyExists => 6,
        OpsOutcome::DbNotFound => 7,
        OpsOutcome::DbEmpty => 8,
        OpsOutcome::DbList(_) => 9,
        OpsOutcome::DbDropped => 10,
        OpsOutcome::DocumentCreated => 11,
        OpsOutcome::DocumentAlreadyExists => 12,
        OpsOutcome::DocumentNotFound => 13,
        OpsOutcome::DocumentEmpty => 14,
        OpsOutcome::DocumentList(_) => 15,
        OpsOutcome::DocumentDropped => 16,
        OpsOutcome::FieldInserted => 17,
        OpsOutcome::FieldAlreadyExists => 18,
        OpsOutcome::FieldNotFound => 19,
        OpsOutcome::FieldContents(_) => 20,
        OpsOutcome::FieldList(_) => 21,
        OpsOutcome::FieldModified => 22,
        OpsOutcome::FieldDropped => 23,
        OpsOutcome::Committed => 24,
        OpsOutcome::PermissionDenied => 25,
        OpsOutcome::EncounteredErrors(_) => 26,
    }
}

/// Writes an outcome as a payload.
pub fn encode_outcome(outcome: &OpsOutcome) -> (out: Vec<u8>)
    ensures
        out@ == outcome_bytes(outcome@),
{
    let mut out: Vec<u8> = Vec::new();
    out.push(outcome_tag_of(outcome));
    match outcome {
        OpsOutcome::DbList(names) => {
            put_names(&mut out, names);
        },
        OpsOutcome::DocumentList(names) => {
            put_names(&mut out, names);
        },
        OpsOutcome::FieldContents(data) => {
            put_field(&mut out, data.as_slice());
        },
        OpsOutcome::FieldList(keys) => {
            put_keys(&mut out, keys);
        },
        OpsOutcome::EncounteredErrors(message) => {
            put_field(&mut out, message.as_str().as_bytes());
        },
        _ => {},
    }
    assert(out@ =~= outcome_bytes(outcome@));
    out
}

/// Takes exactly one list off the bytes.
fn take_list(b: &[u8]) -> (r: Option<Vec<Vec<u8>>>)
    ensures
        match r {
            Some(items) => parse_list(b@) == Some(key_views(items@)),
            None => parse_list(b@) is None,
        },
{
    if b.len() < 8 {
        return None;
    }
    let count = u64_from_le_bytes(slice_subrange(b, 0, 8));
    let mut rest = slice_subrange(b, 8, b.len());
    let ghost all = rest@;
    let mut items: Vec<Vec<u8>> = Vec::new();
    let mut i: u64 = 0;
    assert(key_views(items@) + Seq::<Seq<u8>>::empty() =~= key_views(items@));
    while i < count
        invariant
            i <= count,
            items@.len() == i,
            parse_list(b@) == parse_items(all, count as nat),
            parse_items(all, count as nat) == match parse_items(rest@, (count - i) as nat) {
                Some(others) => Some(key_views(items@) + others),
                None => None,
            },
        decreases count - i,
    {
        match take_field(rest) {
            None => {
                return None;
            },
            Some((first, after)) => {
                let ghost before = key_views(items@);
                items.push(slice_to_vec(first));
                proof {
                    assert(key_views(items@) =~= before.push(first@));
                    match parse_items(after@, (count - i - 1) as nat) {
                        Some(others) => {
                            assert(before + (seq![first@] + others) =~= key_views(items@)
                                + others);
                        },
                        None => {},
                    }
                }
                rest = after;
            },
        }
        i = i + 1;
    }
    if rest.len() == 0 {
        assert(key_views(items@) + Seq::<Seq<u8>>::empty() =~= key_views(items@));
        Some(items)
    } else {
        None
    }
}

/// Takes exactly one list of names off the bytes.
fn take_names(b: &[u8]) -> (r: Option<Vec<String>>)
    ensures
        match r {
            Some(names) => parse_names(b@) == Some(name_views(names@)),
            None => parse_names(b@) is None,
        },
{
    let items = match take_list(b) {
        Some(items) => items,
        None => {
            return None;
        },
    };
    let ghost all = key_views(items@);
    let mut names: Vec<String> = Vec::new();
    let mut i: usize = 0;
    while i < items.len()
        invariant
            i <= items.len(),
            all == key_views(items@),
            parse_list(b@) == Some(all),
            names@.len() == i,
            forall|k: int| 0 <= k < i ==> valid_utf8(#[trigger] all[k]),
            forall|k: int| 0 <= k < i ==> names@[k]@ == decode_utf8(all[k]),
        decreases items.len() - i,
    {
        assert(all[i as int] == items@[i as int]@);
        match text_from_utf8(slice_to_vec(items[i].as_slice())) {
            Some(name) => {
                names.push(name);
            },
            None => {
                assert(!all_text(all));
                return None;
            },
        }
        i = i + 1;
    }
    assert(name_views(names@) =~= names_of(all));
    Some(names)
}

fn take_single(b: &[u8]) -> (r: Option<Vec<u8>>)
    ensures
        match r {
            Some(f) => parse_single(b@) == Some(f@),
            None => parse_single(b@) is None,
        },
{
    match take_field(b) {
        Some((f, rest)) => if rest.len() == 0 {
            Some(slice_to_vec(f))
        } else {
            None
        },
        None => None,
    }
}

fn plain_outcome_of(tag: u8) -> (r: Option<OpsOutcome>)
    ensures
        match r {
            Some(o) => plain_outcome(tag) == Some(o@),
            None => plain_outcome(tag) is None,
        },
{
    if tag == 0 {
        Some(OpsOutcome::RepoCreated)
    } else if tag == 1 {
        Some(OpsOutcome::RepoAlreadyExists)
    } else if tag == 2 {
        Some(OpsOutcome::RepoEmpty)
    } else if tag == 3 {
        Some(OpsOutcome::RepoNotFound)
    } else if tag == 4 {
        Some(OpsOutcome::RepoDropped)
    } else if tag == 5 {
        Some(OpsOutcome::DbCreated)
    } else if tag == 6 {
        Some(OpsOutcome::DbAlreadyExists)
    } else if tag == 7 {
        Some(OpsOutcome::DbNotFound)
    } else if tag == 8 {
        Some(OpsOutcome::DbEmpty)
    } else if tag == 10 {
        Some(OpsOutcome::DbDropped)
    } else if tag == 11 {
        Some(OpsOutcome::DocumentCreated)
    } else if tag == 12 {
        Some(OpsOutcome::DocumentAlreadyExists)
    } else if tag == 13 {
        Some(OpsOutcome::DocumentNotFound)
    } else if tag == 14 {
        Some(OpsOutcome::DocumentEmpty)
    } else if tag == 16 {
        Some(OpsOutcome::DocumentDropped)
    } else if tag == 17 {
        Some(OpsOutcome::FieldInserted)
    } else if tag == 18 {
        Some(OpsOutcome::FieldAlreadyExists)
    } else if tag == 19 {
        Some(OpsOutcome::FieldNotFound)
    } else if tag == 22 {
        Some(OpsOutcome::FieldModified)
    } else if tag == 23 {
        Some(OpsOutcome::FieldDropped)
    } else if tag == 24 {
        Some(OpsOutcome::Committed)
    } else if tag == 25 {
        Some(OpsOutcome::PermissionDenied)
    } else {
        None
    }
}

/// Reads an outcome from a payload, where the payload stands for one.
pub fn decode_outcome(payload: &[u8]) -> (r: Option<OpsOutcome>)
    ensures
        match r {
            Some(outcome) => parse_outcome(payload@) == Some(outcome@),
            None => parse_outcome(payload@) is None,
        },
{
    if payload.len() == 0 {
        return None;
    }
    let tag: u8 = payload[0];
    let rest = slice_subrange(payload, 1, payload.len());
    if tag == 9 {
        match take_names(rest) {
            Some(names) => Some(OpsOutcome::DbList(names)),
            None => None,
        }
    } else if tag == 15 {
        match take_names(rest) {
            Some(names) => Some(OpsOutcome::DocumentList(names)),
            None => None,
        }
    } else if tag == 20 {
        match take_single(rest) {
            Some(data) => Some(OpsOutcome::FieldContents(data)),
            None => None,
        }
    } else if tag == 21 {
        match take_list(rest) {
            Some(keys) => Some(OpsOutcome::FieldList(keys)),
            None => None,
        }
    } else if tag == 26 {
        match take_single(rest) {
            Some(message) => match text_from_utf8(message) {
                Some(message) => Some(OpsOutcome::EncounteredErrors(message)),
                None => None,
            },
            None => None,
        }
    } else if rest.len() == 0 {
        plain_outcome_of(tag)
    } else {
        None
    }
}

} // verus!
