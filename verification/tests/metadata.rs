//! The `Meta` family: schema version and identity stamp.

use hydrozoa_tools::store::cf::PeerId;
use hydrozoa_tools::store::error::StoreError;
use hydrozoa_tools::store::meta::{
    assemble, decode_own_peer_id, decode_version, StoreMeta, SUPPORTED_STORE_VERSION,
};

#[test]
fn a_version_round_trips_through_its_bytes() {
    assert_eq!(decode_version(&3u32.to_be_bytes()).unwrap(), 3);
    assert!(decode_version(&[0, 0, 3]).is_err());
}

#[test]
fn own_peer_id_decodes_the_packed_kind_tag() {
    assert_eq!(
        decode_own_peer_id(&5u32.to_be_bytes()).unwrap(),
        PeerId::Head(2)
    );
    assert_eq!(
        decode_own_peer_id(&4u32.to_be_bytes()).unwrap(),
        PeerId::Coil(2)
    );
}

#[test]
fn a_store_with_no_version_row_is_not_a_hydrozoa_store() {
    assert!(assemble(None, None, None, None, None).is_err());
}

#[test]
fn an_unstamped_store_reads_as_no_identity() {
    let meta = assemble(Some(&3u32.to_be_bytes()), None, None, None, None).unwrap();
    assert_eq!(meta.version, 3);
    assert_eq!(meta.identity, None);
}

#[test]
fn a_partially_stamped_store_is_an_error_not_an_unstamped_one() {
    let err = assemble(
        Some(&3u32.to_be_bytes()),
        Some(b"abcd"),
        Some(b"beef"),
        None,
        None,
    )
    .unwrap_err();
    let text = err.message();
    assert!(text.contains("partially written"), "{text}");
}

#[test]
fn a_fully_stamped_store_reads_all_four_fields() {
    let meta = assemble(
        Some(&3u32.to_be_bytes()),
        Some(b"deadbeef"),
        Some(b"cafe"),
        Some(b"addr_test1..."),
        Some(&1u32.to_be_bytes()),
    )
    .unwrap()
    .identity
    .unwrap();
    assert_eq!(meta.head_params_hash, "deadbeef");
    assert_eq!(meta.own_peer_id, PeerId::Head(0));
}

#[test]
fn every_field_of_a_stamp_lands_in_its_place() {
    let meta = assemble(
        Some(&9u32.to_be_bytes()),
        Some(b"hash"),
        Some("té".as_bytes()),
        Some(b"addr"),
        Some(&6u32.to_be_bytes()),
    )
    .unwrap();
    assert_eq!(meta.version, 9);
    let identity = meta.identity.unwrap();
    assert_eq!(identity.head_params_hash, "hash");
    assert_eq!(identity.head_id, "té");
    assert_eq!(identity.head_address, "addr");
    assert_eq!(identity.own_peer_id, PeerId::Coil(3));
}

#[test]
fn text_that_is_no_utf8_is_read_as_far_as_it_goes() {
    let meta = assemble(
        Some(&3u32.to_be_bytes()),
        Some(&[b'a', 0xff, b'b']),
        Some(b""),
        Some(b""),
        Some(&0u32.to_be_bytes()),
    )
    .unwrap();
    assert_eq!(meta.identity.unwrap().head_params_hash, "a\u{fffd}b");
}

#[test]
fn a_stamp_of_the_wrong_width_is_refused() {
    let stamped = |peer: &[u8]| {
        assemble(
            Some(&3u32.to_be_bytes()),
            Some(b"h"),
            Some(b"i"),
            Some(b"a"),
            Some(peer),
        )
    };
    assert!(matches!(
        stamped(&[0, 0, 1]),
        Err(StoreError::PeerIdWidth { found: 3 })
    ));
    assert!(matches!(
        assemble(Some(&[3]), None, None, None, None),
        Err(StoreError::VersionWidth { found: 1 })
    ));
    assert!(matches!(
        assemble(None, Some(b"h"), None, None, None),
        Err(StoreError::NoVersion)
    ));
    assert!(matches!(
        assemble(Some(&3u32.to_be_bytes()), Some(b"h"), None, None, None),
        Err(StoreError::PartialIdentity { present: 1 })
    ));
}

#[test]
fn another_schema_version_is_refused_rather_than_misread() {
    let of = |version| StoreMeta {
        version,
        identity: None,
    };
    assert_eq!(SUPPORTED_STORE_VERSION, 3);
    assert!(of(3).check_version().is_ok());
    for version in [0, 2, 4] {
        let e = of(version).check_version().unwrap_err();
        assert_eq!(
            e.message(),
            format!("store schema version {version} is not 3")
        );
    }
}
