use turingdb::errors::TuringDbError;
use turingdb::fields::{FieldData, Timestamp};

fn stamp(secs: u64, nanos: u32) -> Timestamp {
    Timestamp { secs, nanos }
}

#[test]
fn timestamp_bytes_are_big_endian() {
    let t = stamp(0x4000_0000_5f5e_1000, 0x0102_0304);
    assert_eq!(
        t.to_bytes(),
        vec![0x40, 0x00, 0x00, 0x00, 0x5f, 0x5e, 0x10, 0x00, 0x01, 0x02, 0x03, 0x04]
    );
}

#[test]
fn timestamp_bytes_agree_with_tai64() {
    let t = stamp(4611686018427387941, 999_999_999);
    let theirs = tai64::Tai64N(tai64::Tai64(4611686018427387941), 999_999_999).to_bytes();
    assert_eq!(t.to_bytes(), theirs.to_vec());
}

#[test]
fn timestamp_round_trip() {
    let t = stamp(4611686018427387941, 123_456_789);
    assert_eq!(Timestamp::from_slice(&t.to_bytes()), Some(t));
}

#[test]
fn timestamp_of_wrong_length_is_refused() {
    assert_eq!(Timestamp::from_slice(&[0u8; 11]), None);
    assert_eq!(Timestamp::from_slice(&[0u8; 13]), None);
    assert_eq!(Timestamp::from_slice(&[]), None);
}

#[test]
fn timestamp_with_a_whole_second_of_nanos_is_refused() {
    let mut bytes = vec![0u8; 8];
    bytes.extend_from_slice(&1_000_000_000u32.to_be_bytes());
    assert_eq!(Timestamp::from_slice(&bytes), None);
    let mut bytes = vec![0u8; 8];
    bytes.extend_from_slice(&999_999_999u32.to_be_bytes());
    assert_eq!(Timestamp::from_slice(&bytes), Some(stamp(0, 999_999_999)));
}

#[test]
fn now_is_a_timestamp_and_does_not_run_back_much() {
    let a = Timestamp::now();
    let b = Timestamp::now();
    assert!(a.nanos < 1_000_000_000);
    assert!(b.nanos < 1_000_000_000);
    // TAI64 labels of this century lie just above 2^62.
    assert!(a.secs > (1u64 << 62));
    assert!(b.secs >= a.secs - 1);
}

#[test]
fn timestamp_order() {
    assert!(stamp(5, 0).is_at_or_after(&stamp(4, 999_999_999)));
    assert!(stamp(5, 7).is_at_or_after(&stamp(5, 7)));
    assert!(stamp(5, 8).is_at_or_after(&stamp(5, 7)));
    assert!(!stamp(5, 6).is_at_or_after(&stamp(5, 7)));
    assert!(!stamp(4, 999).is_at_or_after(&stamp(5, 0)));
    assert_eq!(stamp(1, 2).latest(stamp(1, 3)), stamp(1, 3));
    assert_eq!(stamp(2, 0).latest(stamp(1, 3)), stamp(2, 0));
}

#[test]
fn record_layout() {
    let record = FieldData::new_at(b"hello", stamp(1, 2));
    let mut expected = vec![5, 0, 0, 0, 0, 0, 0, 0];
    expected.extend_from_slice(b"hello");
    expected.extend_from_slice(&[0, 0, 0, 0, 0, 0, 0, 1, 0, 0, 0, 2]);
    expected.extend_from_slice(&[0, 0, 0, 0, 0, 0, 0, 1, 0, 0, 0, 2]);
    assert_eq!(record.encode(), expected);
    assert_eq!(record.encode().len(), 8 + 5 + 24);
}

#[test]
fn record_layout_agrees_with_bincode() {
    let created = stamp(4611686018427387941, 17);
    let mut record = FieldData::new_at(b"some payload", created);
    record.update_at(b"another payload", stamp(4611686018427387950, 3));
    let created_bytes: [u8; 12] = tai64::Tai64N(tai64::Tai64(created.secs), created.nanos).to_bytes();
    let modified_bytes: [u8; 12] = tai64::Tai64N(tai64::Tai64(4611686018427387950), 3).to_bytes();
    let theirs =
        bincode::serialize(&(b"another payload".to_vec(), created_bytes, modified_bytes)).unwrap();
    assert_eq!(record.encode(), theirs);
}

#[test]
fn record_round_trip() {
    let mut record = FieldData::new_at(b"hello", stamp(10, 5));
    record.update_at(b"world!", stamp(11, 0));
    let back = FieldData::decode(&record.encode()).unwrap();
    assert_eq!(back, record);
    assert_eq!(back.data(), &b"world!".to_vec());
    assert_eq!(back.created(), stamp(10, 5));
    assert_eq!(back.modified(), stamp(11, 0));
}

#[test]
fn record_with_empty_payload_round_trips() {
    let record = FieldData::new_at(b"", stamp(10, 5));
    assert_eq!(record.encode().len(), 32);
    assert_eq!(FieldData::decode(&record.encode()).unwrap(), record);
}

#[test]
fn new_record_has_equal_times() {
    let record = FieldData::new(b"abc");
    assert_eq!(record.created(), record.modified());
    assert_eq!(record.data(), &b"abc".to_vec());
}

#[test]
fn update_keeps_creation_and_moves_change() {
    let mut record = FieldData::new_at(b"one", stamp(100, 1));
    record.update_at(b"two", stamp(100, 2));
    assert_eq!(record.created(), stamp(100, 1));
    assert_eq!(record.modified(), stamp(100, 2));
    assert_eq!(record.data(), &b"two".to_vec());
}

#[test]
fn update_with_a_clock_that_fell_back_keeps_the_time_of_change() {
    let mut record = FieldData::new_at(b"one", stamp(100, 1));
    record.update_at(b"two", stamp(200, 0));
    record.update_at(b"three", stamp(150, 0));
    assert_eq!(record.created(), stamp(100, 1));
    assert_eq!(record.modified(), stamp(200, 0));
    assert_eq!(record.data(), &b"three".to_vec());
    record.update_at(b"four", stamp(50, 0));
    assert_eq!(record.modified(), stamp(200, 0));
    assert!(record.modified().is_at_or_after(&record.created()));
}

#[test]
fn update_by_the_clock_does_not_go_back() {
    let mut record = FieldData::new(b"one");
    let before = record.modified();
    record.update(b"two");
    assert!(record.modified().is_at_or_after(&before));
    assert_eq!(record.created().secs, before.secs);
    assert_eq!(record.data(), &b"two".to_vec());
}

#[test]
fn truncated_record_is_corrupt() {
    let bytes = FieldData::new_at(b"hello", stamp(1, 2)).encode();
    for cut in 0..bytes.len() {
        assert_eq!(FieldData::decode(&bytes[..cut]), Err(TuringDbError::CorruptRecord));
    }
}

#[test]
fn record_with_trailing_bytes_is_corrupt() {
    let mut bytes = FieldData::new_at(b"hello", stamp(1, 2)).encode();
    bytes.push(0);
    assert_eq!(FieldData::decode(&bytes), Err(TuringDbError::CorruptRecord));
}

#[test]
fn record_with_a_wrong_length_is_corrupt() {
    let mut bytes = FieldData::new_at(b"hello", stamp(1, 2)).encode();
    bytes[0] = 6;
    assert_eq!(FieldData::decode(&bytes), Err(TuringDbError::CorruptRecord));
    bytes[0] = 5;
    bytes[7] = 0xff;
    assert_eq!(FieldData::decode(&bytes), Err(TuringDbError::CorruptRecord));
}

#[test]
fn record_with_a_malformed_timestamp_is_corrupt() {
    let mut bytes = FieldData::new_at(b"hello", stamp(1, 2)).encode();
    let at = 8 + 5 + 8;
    bytes[at..at + 4].copy_from_slice(&1_000_000_000u32.to_be_bytes());
    assert_eq!(FieldData::decode(&bytes), Err(TuringDbError::CorruptRecord));
}

#[test]
fn record_changed_before_it_was_made_is_corrupt() {
    let mut bytes = vec![1, 0, 0, 0, 0, 0, 0, 0, b'x'];
    bytes.extend_from_slice(&stamp(9, 0).to_bytes());
    bytes.extend_from_slice(&stamp(8, 999_999_999).to_bytes());
    assert_eq!(FieldData::decode(&bytes), Err(TuringDbError::CorruptRecord));
}
