//! Journal framing: stamps, keys and entries.

use hydrozoa_tools::bytes::{be_decode, be_encode, key_less};
use hydrozoa_tools::store::cf::{Cf, PeerId};
use hydrozoa_tools::store::error::StoreError;
use hydrozoa_tools::store::journal::{
    decode_key, encode_key, read_entry, unframe, ArrivalStamp, STAMP_WIDTH,
};

#[test]
fn a_stamp_round_trips_through_its_bytes() {
    let s = ArrivalStamp {
        generation: 7,
        monotonic_nanos: 1_234_567_890_123,
    };
    assert_eq!(ArrivalStamp::from_bytes(&s.to_bytes()).unwrap(), s);
}

/// A merge orders entries by comparing the raw prefix, so `Ord` on the decoded stamp and `Ord` on
/// its bytes have to agree.
#[test]
fn stamp_byte_order_matches_stamp_order() {
    let mut stamps = [
        ArrivalStamp {
            generation: 2,
            monotonic_nanos: 1,
        },
        ArrivalStamp {
            generation: 1,
            monotonic_nanos: u64::MAX,
        },
        ArrivalStamp {
            generation: 1,
            monotonic_nanos: 5,
        },
    ];
    stamps.sort();
    let mut bytes: Vec<_> = stamps.iter().map(|s| s.to_bytes()).collect();
    let sorted_by_value = bytes.clone();
    bytes.sort();
    assert_eq!(bytes, sorted_by_value);
}

#[test]
fn a_value_shorter_than_a_stamp_is_rejected() {
    assert!(ArrivalStamp::from_bytes(&[0u8; STAMP_WIDTH - 1]).is_err());
    assert!(unframe(&[0u8; 3]).is_err());
}

#[test]
fn an_empty_payload_is_not_a_short_value() {
    let (stamp, payload) = unframe(&[0u8; STAMP_WIDTH]).unwrap();
    assert_eq!(stamp, ArrivalStamp::default());
    assert!(payload.is_empty());
}

#[test]
fn request_keys_are_eight_bytes_and_every_other_journal_four() {
    assert_eq!(encode_key(Cf::Request(0), 1).unwrap().len(), 8);
    assert_eq!(encode_key(Cf::Block, 1).unwrap().len(), 4);
    assert_eq!(
        encode_key(Cf::HardAck(PeerId::Coil(0)), 1).unwrap().len(),
        4
    );
}

#[test]
fn keys_round_trip_and_sort_in_index_order() {
    for cf in [Cf::Block, Cf::Request(1)] {
        let mut keys: Vec<_> = [9u64, 1, 300, 2]
            .iter()
            .map(|i| encode_key(cf, *i).unwrap())
            .collect();
        keys.sort();
        let indices: Vec<_> = keys.iter().map(|k| decode_key(cf, k).unwrap()).collect();
        assert_eq!(indices, vec![1, 2, 9, 300], "{}", cf.name());
    }
}

#[test]
fn a_non_journal_family_has_no_index_key() {
    assert!(encode_key(Cf::Meta, 0).is_err());
    assert!(decode_key(Cf::Meta, &[0, 0, 0, 0]).is_err());
}

#[test]
fn a_block_index_past_u32_is_refused_rather_than_truncated() {
    assert!(encode_key(Cf::Block, u64::from(u32::MAX) + 1).is_err());
}

#[test]
fn a_key_is_the_index_big_endian() {
    assert_eq!(encode_key(Cf::Block, 0x0102_0304).unwrap(), vec![1, 2, 3, 4]);
    assert_eq!(
        encode_key(Cf::Request(0), u64::MAX).unwrap(),
        vec![0xff; 8]
    );
    assert_eq!(be_encode(258, 4), vec![0, 0, 1, 2]);
    assert_eq!(be_decode(&[1, 0]), 256);
}

#[test]
fn a_stamp_is_the_generation_then_the_nanoseconds() {
    let stamp = ArrivalStamp {
        generation: 0x0a0b_0c0d,
        monotonic_nanos: 0x0102_0304_0506_0708,
    };
    assert_eq!(
        stamp.to_bytes(),
        [0x0a, 0x0b, 0x0c, 0x0d, 1, 2, 3, 4, 5, 6, 7, 8]
    );
}

#[test]
fn key_order_is_byte_order() {
    assert!(key_less(&[1, 2], &[1, 3]));
    assert!(key_less(&[1], &[1, 0]));
    assert!(!key_less(&[1, 0], &[1]));
    assert!(!key_less(&[2], &[2]));
}

#[test]
fn an_entry_is_stored_as_it_was_read() {
    let key = [0, 0, 0, 9];
    let value = [0, 0, 0, 1, 0, 0, 0, 0, 0, 0, 0, 2, b'x', b'y'];
    let entry = read_entry(Cf::Stack, &key, &value).unwrap();
    assert_eq!(entry.index, 9);
    assert_eq!(entry.stamp.generation, 1);
    assert_eq!(entry.stamp.monotonic_nanos, 2);
    assert_eq!(entry.payload, b"xy".to_vec());
    assert_eq!(entry.framed(), value.to_vec());
}

#[test]
fn each_refusal_says_what_is_wrong() {
    let text = |e: StoreError| e.message();
    assert_eq!(
        text(encode_key(Cf::Meta, 0).unwrap_err()),
        "Meta is not a journal; it has no index key"
    );
    assert_eq!(
        text(encode_key(Cf::Block, 4_294_967_296).unwrap_err()),
        "Block counts in u32; 4294967296 does not fit"
    );
    assert!(matches!(
        decode_key(Cf::Block, &[1, 2, 3]),
        Err(StoreError::KeyWidth { found: 3, expected: 4, .. })
    ));
    assert!(matches!(
        unframe(&[0; 11]),
        Err(StoreError::ShortValue { found: 11 })
    ));
    assert!(matches!(
        read_entry(Cf::Block, &[0, 0, 0, 5], &[1]),
        Err(StoreError::UnreadableEntry { index: 5, found: 1, .. })
    ));
}
