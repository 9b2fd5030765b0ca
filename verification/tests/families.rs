//! Column families, their names and their keys.

use hydrozoa_tools::store::cf::{char_vec, Cf, PeerId, FIXED};

#[test]
fn every_fixed_family_round_trips_through_its_name() {
    for cf in FIXED {
        assert_eq!(Cf::parse(&cf.name()), Some(cf), "{}", cf.name());
    }
}

#[test]
fn satellite_families_round_trip_through_their_name() {
    let cases = [
        Cf::Request(3),
        Cf::SoftAck(0),
        Cf::HardAck(PeerId::Head(2)),
        Cf::HardAck(PeerId::Coil(41)),
        Cf::HubHardAck(1),
    ];
    for cf in cases {
        assert_eq!(Cf::parse(&cf.name()), Some(cf), "{}", cf.name());
    }
}

/// The low bit tags the kind, so a head peer's and a coil peer's journals never collide on the
/// same number -- the whole point of packing the id rather than naming the number.
#[test]
fn head_and_coil_peers_with_the_same_number_get_different_families() {
    assert_ne!(
        Cf::HardAck(PeerId::Head(7)).name(),
        Cf::HardAck(PeerId::Coil(7)).name()
    );
    assert_eq!(Cf::HardAck(PeerId::Head(7)).name(), "HardAck:15");
    assert_eq!(Cf::HardAck(PeerId::Coil(7)).name(), "HardAck:14");
}

#[test]
fn an_unknown_family_name_is_reported_not_guessed() {
    assert_eq!(Cf::parse("Bogus"), None);
    assert_eq!(Cf::parse("Bogus:1"), None);
    assert_eq!(Cf::parse("Request:notanumber"), None);
}

#[test]
fn only_journals_have_a_key_width() {
    assert_eq!(Cf::Request(0).key_width(), Some(8));
    assert_eq!(Cf::Block.key_width(), Some(4));
    assert_eq!(Cf::HardAck(PeerId::Coil(0)).key_width(), Some(4));
    assert_eq!(Cf::Meta.key_width(), None);
    assert_eq!(Cf::DepositMap.key_width(), None);
}

#[test]
fn a_number_is_read_as_an_unsigned_decimal() {
    assert_eq!(Cf::parse("Request:+5"), Some(Cf::Request(5)));
    assert_eq!(Cf::parse("Request:007"), Some(Cf::Request(7)));
    assert_eq!(Cf::parse("Request:4294967295"), Some(Cf::Request(u32::MAX)));
    assert_eq!(Cf::parse("Request:4294967296"), None);
    assert_eq!(Cf::parse("Request:"), None);
    assert_eq!(Cf::parse("Request:+"), None);
    assert_eq!(Cf::parse("Request:-1"), None);
    assert_eq!(Cf::parse("Request:1 "), None);
    assert_eq!(Cf::parse("Request:٣"), None);
    assert_eq!(Cf::parse("default"), None);
    assert_eq!(Cf::parse("block"), None);
}

#[test]
fn the_packed_peer_id_tags_the_kind() {
    assert_eq!(PeerId::Head(2).to_wire_int(), 5);
    assert_eq!(PeerId::Coil(2).to_wire_int(), 4);
    for i in [0, 1, 2, 3, 77, u32::MAX - 1, u32::MAX] {
        assert_eq!(PeerId::from_wire_int(i).to_wire_int(), i);
    }
    // The packed form has no room for a number's top bit.
    assert_eq!(PeerId::Head(0x8000_0001).to_wire_int(), 3);
    assert!(PeerId::Coil(1).is_coil());
    assert!(!PeerId::Head(1).is_coil());
    assert_eq!(PeerId::Head(12).display(), "head peer 12");
    assert_eq!(PeerId::Coil(0).display(), "coil peer 0");
}

#[test]
fn the_author_is_the_family() {
    assert_eq!(Cf::Request(3).author(), Some(PeerId::Head(3)));
    assert_eq!(Cf::SoftAck(1).author(), Some(PeerId::Head(1)));
    assert_eq!(Cf::HubHardAck(4).author(), Some(PeerId::Head(4)));
    assert_eq!(
        Cf::HardAck(PeerId::Coil(9)).author(),
        Some(PeerId::Coil(9))
    );
    assert_eq!(Cf::Block.author(), None);
}

#[test]
fn the_declared_order_is_the_derived_one() {
    let mut all: Vec<Cf> = FIXED.to_vec();
    all.extend([
        Cf::HubHardAck(0),
        Cf::HardAck(PeerId::Coil(0)),
        Cf::HardAck(PeerId::Head(9)),
        Cf::HardAck(PeerId::Head(1)),
        Cf::SoftAck(2),
        Cf::Request(7),
        Cf::Request(1),
    ]);
    for a in &all {
        for b in &all {
            assert_eq!(a.comes_before(*b), a < b, "{} {}", a.name(), b.name());
        }
    }
}

#[test]
fn text_splits_into_characters() {
    assert_eq!(char_vec("aé—"), vec!['a', 'é', '—']);
}
