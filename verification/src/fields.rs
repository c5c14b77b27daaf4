//! The field record: a payload with the times of its creation and of its
//! last change, and the bytes under which a document's store keeps it.
//!
//! ```text
//! record := length(data) as u64, little-endian
//!           data
//!           created   (12 bytes, TAI64N external format)
//!           modified  (12 bytes, TAI64N external format)
//! ```

use crate::errors::TuringDbError;
use vstd::bytes::{
    lemma_auto_spec_u32_to_from_le_bytes, lemma_auto_spec_u64_to_from_le_bytes,
    spec_u32_from_le_bytes, spec_u32_to_le_bytes, spec_u64_from_le_bytes, spec_u64_to_le_bytes,
    u64_from_le_bytes, u64_to_le_bytes,
};
use vstd::prelude::*;
use vstd::slice::{slice_subrange, slice_to_vec};

verus! {

/// One second in nanoseconds.
pub const NANOS_PER_SECOND: u32 = 1_000_000_000;

/// The length of a timestamp in its external format.
pub const STAMP_SIZE: usize = 12;

/// A TAI64N timestamp: a TAI64 label of seconds and the nanoseconds within
/// that second.
#[derive(Debug, Clone, Copy, PartialEq, Eq, Structural)]
pub struct Timestamp {
    pub secs: u64,
    pub nanos: u32,
}

/// The bytes of `x`, most significant first.
pub open spec fn be_bytes_u64(x: u64) -> Seq<u8> {
    spec_u64_to_le_bytes(x).reverse()
}

/// The bytes of `x`, most significant first.
pub open spec fn be_bytes_u32(x: u32) -> Seq<u8> {
    spec_u32_to_le_bytes(x).reverse()
}

/// The external format of a timestamp: the label in eight bytes, then the
/// nanoseconds in four, both big-endian.
pub open spec fn stamp_bytes(t: Timestamp) -> Seq<u8> {
    be_bytes_u64(t.secs) + be_bytes_u32(t.nanos)
}

/// The timestamp that twelve bytes stand for, if they stand for one.
pub open spec fn parse_stamp(b: Seq<u8>) -> Option<Timestamp> {
    if b.len() != 12 {
        None
    } else {
        let secs = spec_u64_from_le_bytes(b.subrange(0, 8).reverse());
        let nanos = spec_u32_from_le_bytes(b.subrange(8, 12).reverse());
        if nanos < NANOS_PER_SECOND {
            Some(Timestamp { secs, nanos })
        } else {
            None
        }
    }
}

/// `Tai64N::now`: the system clock's time. Whatever the clock says, the
/// nanosecond part is below one second.
#[verifier::external_body]
fn clock_now() -> (t: Timestamp)
    ensures
        t.nanos < NANOS_PER_SECOND,
{
    let t = tai64::Tai64N::now();
    Timestamp { secs: (t.0).0, nanos: t.1 }
}

/// `Tai64N::to_bytes`: the twelve bytes of the external format.
#[verifier::external_body]
fn stamp_to_bytes(t: Timestamp) -> (out: Vec<u8>)
    ensures
        out@ == stamp_bytes(t),
{
    tai64::Tai64N(tai64::Tai64(t.secs), t.nanos).to_bytes().to_vec()
}

/// `Tai64N::from_slice`: parses the external format. It refuses a slice that
/// is not twelve bytes long and a nanosecond part of a second or more.
#[verifier::external_body]
fn stamp_from_slice(bytes: &[u8]) -> (r: Option<Timestamp>)
    ensures
        r == parse_stamp(bytes@),
{
    match tai64::Tai64N::from_slice(bytes) {
        Ok(t) => Some(Timestamp { secs: (t.0).0, nanos: t.1 }),
        Err(_) => None,
    }
}

impl Timestamp {
    /// The nanosecond part lies within one second.
    pub open spec fn wf(self) -> bool {
        self.nanos < NANOS_PER_SECOND
    }

    /// `self` is no earlier than `other`.
    pub open spec fn at_or_after(self, other: Timestamp) -> bool {
        self.secs > other.secs || (self.secs == other.secs && self.nanos >= other.nanos)
    }

    /// The time by the system clock.
    pub fn now() -> (t: Timestamp)
        ensures
            t.wf(),
    {
        clock_now()
    }

    /// Whether `self` is no earlier than `other`.
    pub fn is_at_or_after(&self, other: &Timestamp) -> (r: bool)
        ensures
            r == self.at_or_after(*other),
    {
        self.secs > other.secs || (self.secs == other.secs && self.nanos >= other.nanos)
    }

    /// The later of two times.
    pub fn latest(self, other: Timestamp) -> (r: Timestamp)
        ensures
            r == if self.at_or_after(other) { self } else { other },
            r.at_or_after(self),
            r.at_or_after(other),
    {
        if self.is_at_or_after(&other) {
            self
        } else {
            other
        }
    }

    /// The twelve bytes of the external format.
    pub fn to_bytes(&self) -> (out: Vec<u8>)
        ensures
            out@ == stamp_bytes(*self),
            out@.len() == 12,
    {
        proof {
            lemma_stamp_bytes_len(*self);
        }
        stamp_to_bytes(*self)
    }

    /// Reads a timestamp from its external format.
    pub fn from_slice(bytes: &[u8]) -> (r: Option<Timestamp>)
        ensures
            r == parse_stamp(bytes@),
            r matches Some(t) ==> t.wf(),
    {
        stamp_from_slice(bytes)
    }
}

pub proof fn lemma_stamp_bytes_len(t: Timestamp)
    ensures
        stamp_bytes(t).len() == 12,
        be_bytes_u64(t.secs).len() == 8,
        be_bytes_u32(t.nanos).len() == 4,
{
    lemma_auto_spec_u64_to_from_le_bytes();
    lemma_auto_spec_u32_to_from_le_bytes();
}

/// A timestamp is read back from its external format.
pub proof fn lemma_stamp_round_trip(t: Timestamp)
    requires
        t.wf(),
    ensures
        parse_stamp(stamp_bytes(t)) == Some(t),
{
    lemma_auto_spec_u64_to_from_le_bytes();
    lemma_auto_spec_u32_to_from_le_bytes();
    let hi = spec_u64_to_le_bytes(t.secs);
    let lo = spec_u32_to_le_bytes(t.nanos);
    let b = stamp_bytes(t);
    assert(b.subrange(0, 8) =~= hi.reverse());
    assert(b.subrange(8, 12) =~= lo.reverse());
    assert(hi.reverse().reverse() =~= hi);
    assert(lo.reverse().reverse() =~= lo);
}

/// The external format determines the timestamp: what parses is what was
/// written.
pub proof fn lemma_stamp_parse_bytes(b: Seq<u8>)
    requires
        parse_stamp(b) is Some,
    ensures
        stamp_bytes(parse_stamp(b)->0) == b,
{
    lemma_auto_spec_u64_to_from_le_bytes();
    lemma_auto_spec_u32_to_from_le_bytes();
    let hi = b.subrange(0, 8).reverse();
    let lo = b.subrange(8, 12).reverse();
    let t = parse_stamp(b)->0;
    assert(spec_u64_to_le_bytes(spec_u64_from_le_bytes(hi)) == hi);
    assert(spec_u32_to_le_bytes(spec_u32_from_le_bytes(lo)) == lo);
    assert(hi.reverse() =~= b.subrange(0, 8));
    assert(lo.reverse() =~= b.subrange(8, 12));
    assert(stamp_bytes(t) =~= b);
}

/// What a field record holds.
pub struct RecordView {
    pub data: Seq<u8>,
    pub created: Timestamp,
    pub modified: Timestamp,
}

impl RecordView {
    /// Both times are timestamps, and the record was not changed before it
    /// was made.
    pub open spec fn wf(self) -> bool {
        &&& self.created.wf()
        &&& self.modified.wf()
        &&& self.modified.at_or_after(self.created)
    }
}

/// The bytes under which a record is stored.
pub open spec fn record_bytes(r: RecordView) -> Seq<u8> {
    spec_u64_to_le_bytes(r.data.len() as u64) + r.data + stamp_bytes(r.created) + stamp_bytes(
        r.modified,
    )
}

/// The record that stored bytes stand for. Bytes that are cut short, that
/// run on after the record, whose timestamps are malformed or whose time of
/// change lies before the time of creation stand for none.
pub open spec fn parse_record(b: Seq<u8>) -> Option<RecordView> {
    if b.len() < 32 {
        None
    } else {
        let n = spec_u64_from_le_bytes(b.subrange(0, 8));
        if n != b.len() - 32 {
            None
        } else {
            let data = b.subrange(8, 8 + n);
            let created = parse_stamp(b.subrange(8 + n, 20 + n));
            let modified = parse_stamp(b.subrange(20 + n, 32 + n));
            if created is Some && modified is Some && modified->0.at_or_after(created->0) {
                Some(RecordView { data, created: created->0, modified: modified->0 })
            } else {
                None
            }
        }
    }
}

/// Round trip: a record is read back from the bytes written for it.
pub proof fn lemma_record_round_trip(r: RecordView)
    requires
        r.wf(),
        r.data.len() <= u64::MAX,
    ensures
        parse_record(record_bytes(r)) == Some(r),
{
    lemma_auto_spec_u64_to_from_le_bytes();
    lemma_stamp_bytes_len(r.created);
    lemma_stamp_bytes_len(r.modified);
    lemma_stamp_round_trip(r.created);
    lemma_stamp_round_trip(r.modified);
    let b = record_bytes(r);
    let n = r.data.len() as int;
    assert(b.len() == 32 + n);
    assert(b.subrange(0, 8) =~= spec_u64_to_le_bytes(r.data.len() as u64));
    assert(b.subrange(8, 8 + n) =~= r.data);
    assert(b.subrange(8 + n, 20 + n) =~= stamp_bytes(r.created));
    assert(b.subrange(20 + n, 32 + n) =~= stamp_bytes(r.modified));
}

/// The stored form determines the record: the bytes that parse are the bytes
/// written for what they parse to.
pub proof fn lemma_record_parse_bytes(b: Seq<u8>)
    requires
        parse_record(b) is Some,
    ensures
        record_bytes(parse_record(b)->0) == b,
        parse_record(b)->0.wf(),
{
    lemma_auto_spec_u64_to_from_le_bytes();
    let n = spec_u64_from_le_bytes(b.subrange(0, 8));
    let r = parse_record(b)->0;
    lemma_stamp_parse_bytes(b.subrange(8 + n, 20 + n));
    lemma_stamp_parse_bytes(b.subrange(20 + n, 32 + n));
    assert(spec_u64_to_le_bytes(spec_u64_from_le_bytes(b.subrange(0, 8))) == b.subrange(0, 8));
    assert(r.data.len() == n);
    assert(record_bytes(r) =~= b);
}

/// The value stored under a field's key: the payload and the times of its
/// creation and last change.
#[derive(Debug, Clone, PartialEq, Eq)]
pub struct FieldData {
    data: Vec<u8>,
    created: Timestamp,
    modified: Timestamp,
}

impl View for FieldData {
    type V = RecordView;

    closed spec fn view(&self) -> RecordView {
        RecordView { data: self.data@, created: self.created, modified: self.modified }
    }
}

impl FieldData {
    pub open spec fn wf(&self) -> bool {
        self@.wf()
    }

    /// A record of `value`, made at the time `now`.
    pub fn new_at(value: &[u8], now: Timestamp) -> (r: FieldData)
        requires
            now.wf(),
        ensures
            r.wf(),
            r@ == (RecordView { data: value@, created: now, modified: now }),
    {
        FieldData { data: slice_to_vec(value), created: now, modified: now }
    }

    /// A record of `value`, made now: both times are the clock's.
    pub fn new(value: &[u8]) -> (r: FieldData)
        ensures
            r.wf(),
            r@.data == value@,
            r@.created == r@.modified,
    {
        FieldData::new_at(value, Timestamp::now())
    }

    /// Replaces the payload at the time `now`. The time of creation stays.
    /// The time of change moves to `now`, unless the clock has fallen behind
    /// the record's last change: then it stays where it was, so that it
    /// never goes back.
    pub fn update_at(&mut self, value: &[u8], now: Timestamp)
        requires
            old(self).wf(),
            now.wf(),
        ensures
            final(self).wf(),
            final(self)@.data == value@,
            final(self)@.created == old(self)@.created,
            final(self)@.modified == if now.at_or_after(old(self)@.modified) {
                now
            } else {
                old(self)@.modified
            },
            final(self)@.modified.at_or_after(old(self)@.modified),
    {
        self.data = slice_to_vec(value);
        self.modified = now.latest(self.modified);
    }

    /// Replaces the payload now. The time of creation stays, and the time of
    /// change does not go back.
    pub fn update(&mut self, value: &[u8])
        requires
            old(self).wf(),
        ensures
            final(self).wf(),
            final(self)@.data == value@,
            final(self)@.created == old(self)@.created,
            final(self)@.modified.at_or_after(old(self)@.modified),
    {
        self.update_at(value, Timestamp::now());
    }

    /// The payload.
    pub fn data(&self) -> (r: &Vec<u8>)
        ensures
            r@ == self@.data,
    {
        &self.data
    }

    /// The payload, leaving the record behind.
    pub fn into_data(self) -> (r: Vec<u8>)
        ensures
            r@ == self@.data,
    {
        self.data
    }

    /// When the field was created.
    pub fn created(&self) -> (r: Timestamp)
        ensures
            r == self@.created,
    {
        self.created
    }

    /// When the field was last changed.
    pub fn modified(&self) -> (r: Timestamp)
        ensures
            r == self@.modified,
    {
        self.modified
    }

    /// The bytes under which the record is stored.
    pub fn encode(&self) -> (out: Vec<u8>)
        ensures
            out@ == record_bytes(self@),
    {
        let mut out = u64_to_le_bytes(self.data.len() as u64);
        let mut data = slice_to_vec(self.data.as_slice());
        out.append(&mut data);
        let mut created = self.created.to_bytes();
        out.append(&mut created);
        let mut modified = self.modified.to_bytes();
        out.append(&mut modified);
        out
    }

    /// Reads a record from stored bytes.
    pub fn decode(bytes: &[u8]) -> (r: Result<FieldData, TuringDbError>)
        ensures
            match r {
                Ok(record) => parse_record(bytes@) == Some(record@) && record.wf(),
                Err(e) => parse_record(bytes@) is None && e == TuringDbError::CorruptRecord,
            },
    {
        if bytes.len() < 32 {
            return Err(TuringDbError::CorruptRecord);
        }
        let n = u64_from_le_bytes(slice_subrange(bytes, 0, 8));
        if n != (bytes.len() - 32) as u64 {
            return Err(TuringDbError::CorruptRecord);
        }
        let n: usize = bytes.len() - 32;
        let created = Timestamp::from_slice(slice_subrange(bytes, 8 + n, 20 + n));
        let modified = Timestamp::from_slice(slice_subrange(bytes, 20 + n, 32 + n));
        match (created, modified) {
            (Some(created), Some(modified)) => {
                if modified.is_at_or_after(&created) {
                    let data = slice_to_vec(slice_subrange(bytes, 8, 8 + n));
                    Ok(FieldData { data, created, modified })
                } else {
                    Err(TuringDbError::CorruptRecord)
                }
            },
            _ => Err(TuringDbError::CorruptRecord),
        }
    }
}

} // verus!
