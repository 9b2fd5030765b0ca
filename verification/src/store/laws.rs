//! What the families, their keys and a store's stamp are, whatever the store.

use crate::bytes::{
    be_bytes, be_value, law_number_round_trips, lemma_be_bytes_len, lemma_be_limits,
    lemma_be_value_bound,
};
use crate::store::cf::{
    all_digits, digits_value, is_digit, law_family_round_trips_through_its_name,
    law_wire_int_round_trips, numeral, without_plus, Cf, PeerId,
};
use crate::store::error::StoreError;
use crate::store::head_store::{
    floor_of, journals_of, known_families, stored_rows, tip_of, unknown_names, MetaRows,
};
use crate::store::journal::{
    decoded_key, encoded_key, entry_fault, law_key_round_trips, ArrivalStamp, Entry,
};
use crate::store::meta::{meta_fault, StoreIdentity, StoreMeta};
use crate::store::table::{families_view, law_a_value_is_its_row, sorted, value_of, Family};
use crate::text::decimal;
use vstd::prelude::*;
use vstd::utf8::{decode_utf8, encode_utf8, valid_utf8};

verus! {

/// The journals are the two spines and the four kinds of satellite, whoever their author is; no
/// other family is one.
pub proof fn law_spines_and_satellites_are_the_journals(cf: Cf, number: u32, peer: PeerId)
    ensures
        Cf::Block.journal(),
        Cf::Stack.journal(),
        Cf::Request(number).journal(),
        Cf::SoftAck(number).journal(),
        Cf::HardAck(peer).journal(),
        Cf::HubHardAck(number).journal(),
        cf.journal() ==> cf == Cf::Block || cf == Cf::Stack || cf is Request || cf is SoftAck
            || cf is HardAck || cf is HubHardAck,
        cf.journal() <==> cf == Cf::Block || cf == Cf::Stack || cf.written_by() is Some,
        cf.journal() <==> cf.width() is Some,
{
}

/// A satellite's author is the peer in its family: of a request lane, a soft-ack journal and a
/// hub journal the head peer of that number, of a hard-ack journal the peer itself. Neither a
/// spine nor any other fixed family has one.
pub proof fn law_satellites_have_their_own_author(cf: Cf, number: u32, peer: PeerId)
    ensures
        Cf::Request(number).written_by() == Some(PeerId::Head(number)),
        Cf::SoftAck(number).written_by() == Some(PeerId::Head(number)),
        Cf::HubHardAck(number).written_by() == Some(PeerId::Head(number)),
        Cf::HardAck(peer).written_by() == Some(peer),
        cf.written_by() is Some <==> cf is Request || cf is SoftAck || cf is HardAck
            || cf is HubHardAck,
        cf is HardAck || cf.written_by() is None || cf.written_by()->0 is Head,
{
}

/// A request lane's keys are eight bytes wide, every other journal's four, and nothing else has
/// index keys.
pub proof fn law_request_lanes_alone_have_wide_keys(cf: Cf)
    ensures
        cf.width() == Some(8usize) <==> cf is Request,
        cf.width() == Some(4usize) <==> cf == Cf::Block || cf == Cf::Stack || cf is SoftAck
            || cf is HardAck || cf is HubHardAck,
        cf.width() is None || cf.width() == Some(8usize) || cf.width() == Some(4usize),
{
}

/// A satellite's name is its kind, a colon and the number of its author, a hard-ack author's being
/// the packed one: twice the peer's number, and one more for a head peer.
pub proof fn law_satellite_names_spell_their_author(number: u32, peer: PeerId)
    requires
        number < 0x8000_0000,
    ensures
        Cf::Request(number).name_chars() == "Request:"@ + decimal(number as nat),
        Cf::SoftAck(number).name_chars() == "SoftAck:"@ + decimal(number as nat),
        Cf::HubHardAck(number).name_chars() == "HubHardAck:"@ + decimal(number as nat),
        Cf::HardAck(PeerId::Head(number)).name_chars() == "HardAck:"@ + decimal(
            (2 * number + 1) as nat,
        ),
        Cf::HardAck(PeerId::Coil(number)).name_chars() == "HardAck:"@ + decimal(
            (2 * number) as nat,
        ),
{
}

/// A number behind a satellite's prefix is read back as that satellite of that author, whatever
/// its spelling (a plus sign, leading zeros).
pub proof fn law_satellite_names_are_read(name: Seq<char>, digits: Seq<char>)
    requires
        numeral(digits) is Some,
    ensures
        name == "Request:"@ + digits ==> Cf::named(name) == Some(Cf::Request(numeral(digits)->0)),
        name == "SoftAck:"@ + digits ==> Cf::named(name) == Some(Cf::SoftAck(numeral(digits)->0)),
        name == "HubHardAck:"@ + digits ==> Cf::named(name) == Some(
            Cf::HubHardAck(numeral(digits)->0),
        ),
        name == "HardAck:"@ + digits ==> ({
            let packed = numeral(digits)->0;
            &&& Cf::named(name) matches Some(Cf::HardAck(peer))
            &&& peer.number() == packed / 2
            &&& peer is Head <==> packed % 2 == 1
        }),
{
    reveal_strlit("Request:");
    reveal_strlit("SoftAck:");
    reveal_strlit("HardAck:");
    reveal_strlit("HubHardAck:");
    lemma_no_fixed_name_has_a_colon(name);
    if name == "Request:"@ + digits {
        assert(name[7] == ':');
        assert("Request:"@ =~= name.take(8));
        assert(name.skip(8) =~= digits);
    }
    if name == "SoftAck:"@ + digits {
        assert(name[7] == ':');
        assert(name[0] == 'S');
        assert("SoftAck:"@ =~= name.take(8));
        assert(name.skip(8) =~= digits);
    }
    if name == "HardAck:"@ + digits {
        assert(name[7] == ':');
        assert(name[0] == 'H');
        assert("HardAck:"@ =~= name.take(8));
        assert(name.skip(8) =~= digits);
    }
    if name == "HubHardAck:"@ + digits {
        assert(name[10] == ':');
        assert(name[0] == 'H' && name[1] == 'u');
        assert("HardAck:"@[1] == 'a');
        assert("HubHardAck:"@ =~= name.take(11));
        assert(name.skip(11) =~= digits);
    }
}

proof fn lemma_no_fixed_name_has_a_colon(name: Seq<char>)
    ensures
        (exists|i: int| 0 <= i < name.len() && #[trigger] name[i] == ':') ==> Cf::fixed_named(name)
            is None,
{
    reveal_strlit("Block");
    reveal_strlit("Stack");
    reveal_strlit("BlockResult");
    reveal_strlit("SoftConfirmation");
    reveal_strlit("HardConfirmation");
    reveal_strlit("RequestHighWater");
    reveal_strlit("CoilStampMark");
    reveal_strlit("L2CommandNumber");
    reveal_strlit("UnsignedStack");
    reveal_strlit("DepositMap");
    reveal_strlit("Treasury");
    reveal_strlit("EvacuationMap");
    reveal_strlit("RequestBlockIndex");
    reveal_strlit("DepositDecisionIndex");
    reveal_strlit("WithdrawalEffectIndex");
    reveal_strlit("BlockStackIndex");
    reveal_strlit("EffectStackIndex");
    reveal_strlit("Meta");
}

/// A fixed family's name is its own, and no satellite's name is a fixed one's.
pub proof fn law_fixed_families_have_their_own_names(number: u32, peer: PeerId)
    requires
        peer.packable(),
    ensures
        Cf::Block.name_chars() == "Block"@,
        Cf::Stack.name_chars() == "Stack"@,
        Cf::BlockResult.name_chars() == "BlockResult"@,
        Cf::SoftConfirmation.name_chars() == "SoftConfirmation"@,
        Cf::HardConfirmation.name_chars() == "HardConfirmation"@,
        Cf::RequestHighWater.name_chars() == "RequestHighWater"@,
        Cf::CoilStampMark.name_chars() == "CoilStampMark"@,
        Cf::L2CommandNumber.name_chars() == "L2CommandNumber"@,
        Cf::UnsignedStack.name_chars() == "UnsignedStack"@,
        Cf::DepositMap.name_chars() == "DepositMap"@,
        Cf::Treasury.name_chars() == "Treasury"@,
        Cf::EvacuationMap.name_chars() == "EvacuationMap"@,
        Cf::RequestBlockIndex.name_chars() == "RequestBlockIndex"@,
        Cf::DepositDecisionIndex.name_chars() == "DepositDecisionIndex"@,
        Cf::WithdrawalEffectIndex.name_chars() == "WithdrawalEffectIndex"@,
        Cf::BlockStackIndex.name_chars() == "BlockStackIndex"@,
        Cf::EffectStackIndex.name_chars() == "EffectStackIndex"@,
        Cf::Meta.name_chars() == "Meta"@,
        Cf::fixed_named(Cf::Request(number).name_chars()) is None,
        Cf::fixed_named(Cf::SoftAck(number).name_chars()) is None,
        Cf::fixed_named(Cf::HardAck(peer).name_chars()) is None,
        Cf::fixed_named(Cf::HubHardAck(number).name_chars()) is None,
{
    reveal_strlit("Request:");
    reveal_strlit("SoftAck:");
    reveal_strlit("HardAck:");
    reveal_strlit("HubHardAck:");
    lemma_no_fixed_name_has_a_colon(Cf::Request(number).name_chars());
    lemma_no_fixed_name_has_a_colon(Cf::SoftAck(number).name_chars());
    lemma_no_fixed_name_has_a_colon(Cf::HardAck(peer).name_chars());
    lemma_no_fixed_name_has_a_colon(Cf::HubHardAck(number).name_chars());
    assert(Cf::Request(number).name_chars()[7] == ':');
    assert(Cf::SoftAck(number).name_chars()[7] == ':');
    assert(Cf::HardAck(peer).name_chars()[7] == ':');
    assert(Cf::HubHardAck(number).name_chars()[10] == ':');
}

/// The declared order: the fixed families from the spines to the stamp, then the request lanes, the
/// soft-ack journals, the hard-ack journals with the head peers' before the coil peers', and the
/// hub journals; within one kind the lower number comes first.
pub proof fn law_families_stand_in_the_declared_order(a: u32, b: u32)
    ensures
        Cf::Block.position() < Cf::Stack.position() < Cf::BlockResult.position()
            < Cf::SoftConfirmation.position() < Cf::HardConfirmation.position()
            < Cf::RequestHighWater.position() < Cf::CoilStampMark.position()
            < Cf::L2CommandNumber.position() < Cf::UnsignedStack.position(),
        Cf::UnsignedStack.position() < Cf::DepositMap.position() < Cf::Treasury.position()
            < Cf::EvacuationMap.position() < Cf::RequestBlockIndex.position()
            < Cf::DepositDecisionIndex.position() < Cf::WithdrawalEffectIndex.position()
            < Cf::BlockStackIndex.position() < Cf::EffectStackIndex.position()
            < Cf::Meta.position(),
        Cf::Meta.position() < Cf::Request(a).position(),
        Cf::Request(a).position() < Cf::SoftAck(b).position(),
        Cf::SoftAck(a).position() < Cf::HardAck(PeerId::Head(b)).position(),
        Cf::HardAck(PeerId::Head(a)).position() < Cf::HardAck(PeerId::Coil(b)).position(),
        Cf::HardAck(PeerId::Coil(a)).position() < Cf::HubHardAck(b).position(),
        a < b <==> Cf::Request(a).position() < Cf::Request(b).position(),
        a < b <==> Cf::SoftAck(a).position() < Cf::SoftAck(b).position(),
        a < b <==> Cf::HardAck(PeerId::Head(a)).position() < Cf::HardAck(
            PeerId::Head(b),
        ).position(),
        a < b <==> Cf::HardAck(PeerId::Coil(a)).position() < Cf::HardAck(
            PeerId::Coil(b),
        ).position(),
        a < b <==> Cf::HubHardAck(a).position() < Cf::HubHardAck(b).position(),
{
}

/// A journal's key is its index, big-endian: any index in the eight bytes of a request lane, one
/// that fits in 32 bits in the four of every other journal, and none elsewhere.
pub proof fn law_keys_are_indices(cf: Cf, index: u64)
    ensures
        match encoded_key(cf, index) {
            Ok(key) => {
                &&& be_value(key) == index
                &&& cf is Request ==> key.len() == 8
                &&& !(cf is Request) ==> key.len() == 4 && index <= u32::MAX
                &&& cf == Cf::Block || cf == Cf::Stack || cf.written_by() is Some
            },
            Err(StoreError::IndexTooLarge { cf: family, index: refused }) => {
                &&& family == cf && refused == index
                &&& !(cf is Request) && index > u32::MAX
                &&& cf == Cf::Block || cf == Cf::Stack || cf.written_by() is Some
            },
            Err(StoreError::NoIndexKey { cf: family }) => {
                &&& family == cf
                &&& cf != Cf::Block && cf != Cf::Stack && cf.written_by() is None
            },
            Err(_) => false,
        },
{
    lemma_be_limits();
    if encoded_key(cf, index) is Ok {
        law_number_round_trips(index as nat, cf.width()->0 as nat);
        lemma_be_bytes_len(index as nat, cf.width()->0 as nat);
    }
}

/// A key of the right width is read as its index, one of another width is refused with both
/// widths, and a family without indices is refused by name.
pub proof fn law_keys_are_read_as_indices(cf: Cf, key: Seq<u8>)
    requires
        key.len() <= usize::MAX,
    ensures
        match decoded_key(cf, key) {
            Ok(index) => {
                &&& index == be_value(key)
                &&& key.len() == 8 && cf is Request || key.len() == 4 && !(cf is Request)
                &&& cf == Cf::Block || cf == Cf::Stack || cf.written_by() is Some
            },
            Err(StoreError::KeyWidth { cf: family, found, expected }) => {
                &&& family == cf && found == key.len() && found != expected
                &&& cf is Request && expected == 8 || !(cf is Request) && expected == 4
                &&& cf == Cf::Block || cf == Cf::Stack || cf.written_by() is Some
            },
            Err(StoreError::NoIndexKey { cf: family }) => {
                &&& family == cf
                &&& cf != Cf::Block && cf != Cf::Stack && cf.written_by() is None
            },
            Err(_) => false,
        },
{
    lemma_be_limits();
    lemma_be_value_bound(key);
}

/// An arrival stamp is twelve bytes: the generation in the first four, then the clock reading in
/// eight, both big-endian.
pub proof fn law_stamp_layout(stamp: ArrivalStamp)
    ensures
        stamp.encoded().len() == 12,
        be_value(stamp.encoded().take(4)) == stamp.generation,
        be_value(stamp.encoded().skip(4)) == stamp.monotonic_nanos,
{
    lemma_be_limits();
    law_number_round_trips(stamp.generation as nat, 4);
    law_number_round_trips(stamp.monotonic_nanos as nat, 8);
    lemma_be_bytes_len(stamp.generation as nat, 4);
    lemma_be_bytes_len(stamp.monotonic_nanos as nat, 8);
    assert(stamp.encoded().take(4) =~= be_bytes(stamp.generation as nat, 4));
    assert(stamp.encoded().skip(4) =~= be_bytes(stamp.monotonic_nanos as nat, 8));
}

/// What a journal's row is read as: its index is the number in the key, its generation the number
/// in the value's first four bytes, its clock reading that of the next eight, and the payload is
/// all that follows.
pub proof fn law_entry_layout(entry: Entry, cf: Cf, key: Seq<u8>, value: Seq<u8>)
    requires
        entry_fault(cf, key, value) is None,
        entry.reads(cf, key, value),
    ensures
        entry.cf == cf,
        entry.index == be_value(key),
        value.len() >= 12,
        entry.stamp.generation == be_value(value.take(4)),
        entry.stamp.monotonic_nanos == be_value(value.subrange(4, 12)),
        entry.payload@.len() == value.len() - 12,
        forall|i: int|
            0 <= i < entry.payload@.len() ==> #[trigger] entry.payload@[i] == value[i + 12],
{
    lemma_be_limits();
    assert(value.take(4) =~= value.subrange(0, 4));
    lemma_be_value_bound(value.subrange(0, 4));
    lemma_be_value_bound(value.subrange(4, 12));
}

/// A row is refused exactly where its key has no index or its value cannot hold a stamp, and the
/// refusal of a short value names the journal, the index and the length found.
pub proof fn law_short_values_are_refused(cf: Cf, key: Seq<u8>, value: Seq<u8>)
    requires
        value.len() <= usize::MAX,
        decoded_key(cf, key) is Ok,
    ensures
        entry_fault(cf, key, value) is None <==> value.len() >= 12,
        entry_fault(cf, key, value) matches Some(e) ==> e == (StoreError::UnreadableEntry {
            cf,
            index: be_value(key) as u64,
            found: value.len() as usize,
        }),
{
}

/// The tip and the floor of a journal are the indices of its last and its first row.
pub proof fn law_tip_is_last_and_floor_first(cf: Cf, rows: Seq<(Seq<u8>, Seq<u8>)>)
    ensures
        tip_of(cf, rows) == Ok::<Option<u64>, StoreError>(None) <==> rows.len() == 0,
        floor_of(cf, rows) == Ok::<Option<u64>, StoreError>(None) <==> rows.len() == 0,
        tip_of(cf, rows) matches Ok(Some(tip)) ==> be_value(rows[rows.len() - 1].0) == tip,
        floor_of(cf, rows) matches Ok(Some(floor)) ==> be_value(rows[0].0) == floor,
{
    if rows.len() > 0 {
        lemma_be_limits();
        lemma_be_value_bound(rows[0].0);
        lemma_be_value_bound(rows.last().0);
    }
}

/// A pass copies as journals exactly the families that are: those of a store that are a spine or
/// have an author.
pub proof fn law_journals_of_a_store(families: Seq<Cf>, cf: Cf)
    ensures
        journals_of(families).contains(cf) <==> families.contains(cf) && (cf == Cf::Block || cf
            == Cf::Stack || cf is Request || cf is SoftAck || cf is HardAck || cf is HubHardAck),
        journals_of(families).len() <= families.len(),
    decreases families.len(),
{
    if families.len() > 0 {
        let before = families.drop_last();
        law_journals_of_a_store(before, cf);
        assert(families =~= before.push(families.last()));
        assert(families.contains(cf) <==> before.contains(cf) || cf == families.last()) by {
            if before.contains(cf) {
                let i = choose|i: int| 0 <= i < before.len() && before[i] == cf;
                assert(families[i] == cf);
            }
            if cf == families.last() {
                assert(families[families.len() - 1] == cf);
            }
        }
        if families.last().journal() {
            let list = journals_of(before).push(families.last());
            assert(list.contains(cf) <==> journals_of(before).contains(cf) || cf
                == families.last()) by {
                if journals_of(before).contains(cf) {
                    let i = choose|i: int|
                        0 <= i < journals_of(before).len() && journals_of(before)[i] == cf;
                    assert(list[i] == cf);
                }
                if cf == families.last() {
                    assert(list[list.len() - 1] == cf);
                }
            }
        }
    }
}

/// Whether one of the names is `name`.
pub open spec fn reported(names: Seq<String>, name: Seq<char>) -> bool {
    exists|i: int| 0 <= i < names.len() && (#[trigger] names[i])@ == name
}

proof fn lemma_reported_last(names: Seq<String>, name: Seq<char>)
    requires
        names.len() > 0,
    ensures
        reported(names, name) <==> reported(names.drop_last(), name) || names.last()@ == name,
{
    let before = names.drop_last();
    if reported(before, name) {
        let i = choose|i: int| 0 <= i < before.len() && (#[trigger] before[i])@ == name;
        assert(names[i]@ == name);
    }
    if reported(names, name) && names.last()@ != name {
        let i = choose|i: int| 0 <= i < names.len() && (#[trigger] names[i])@ == name;
        assert(before[i]@ == name);
    }
    if names.last()@ == name {
        assert(names[names.len() - 1]@ == name);
    }
}

proof fn lemma_contains_push<T>(s: Seq<T>, last: T, x: T)
    ensures
        s.push(last).contains(x) <==> s.contains(x) || x == last,
{
    if s.contains(x) {
        let i = choose|i: int| 0 <= i < s.len() && s[i] == x;
        assert(s.push(last)[i] == x);
    }
    if x == last {
        assert(s.push(last)[s.len() as int] == x);
    }
}

/// Every nameable family is known as soon as a store reports its name.
pub proof fn law_reported_families_are_known(names: Seq<String>, cf: Cf)
    requires
        cf.nameable(),
    ensures
        reported(names, cf.name_chars()) ==> known_families(names).contains(cf),
    decreases names.len(),
{
    if names.len() > 0 {
        law_reported_families_are_known(names.drop_last(), cf);
        lemma_reported_last(names, cf.name_chars());
        law_family_round_trips_through_its_name(cf);
        let before = known_families(names.drop_last());
        match Cf::named(names.last()@) {
            Some(last) => lemma_contains_push(before, last, cf),
            None => {},
        }
        lemma_no_family_is_the_default(cf);
    }
}

/// Whether one of the names is read as the family.
pub open spec fn spelled(names: Seq<String>, cf: Cf) -> bool {
    exists|i: int| 0 <= i < names.len() && Cf::named((#[trigger] names[i])@) == Some(cf)
}

/// No family is known that no reported name is read as.
pub proof fn law_known_families_are_reported(names: Seq<String>, cf: Cf)
    ensures
        known_families(names).contains(cf) ==> spelled(names, cf),
        known_families(names).len() + unknown_names(names).len() <= names.len(),
    decreases names.len(),
{
    if names.len() > 0 {
        let before = names.drop_last();
        law_known_families_are_reported(before, cf);
        if spelled(before, cf) {
            let i = choose|i: int|
                0 <= i < before.len() && Cf::named((#[trigger] before[i])@) == Some(cf);
            assert(names[i] == before[i]);
        }
        match Cf::named(names.last()@) {
            Some(last) => {
                lemma_contains_push(known_families(before), last, cf);
                assert(names[names.len() - 1] == names.last());
            },
            None => {},
        }
    }
}

/// A name is read as a fixed family only where it is that family's own, and as a satellite only
/// where it is the satellite's prefix and a number.
pub proof fn law_only_own_names_are_read(name: Seq<char>)
    ensures
        Cf::named(name) matches Some(cf) ==> {
            &&& cf.written_by() is None ==> name == cf.name_chars()
            &&& cf matches Cf::Request(n) ==> "Request:"@.is_prefix_of(name) && numeral(name.skip(8))
                == Some(n)
            &&& cf matches Cf::SoftAck(n) ==> "SoftAck:"@.is_prefix_of(name) && numeral(name.skip(8))
                == Some(n)
            &&& cf matches Cf::HubHardAck(n) ==> "HubHardAck:"@.is_prefix_of(name) && numeral(
                name.skip(11),
            ) == Some(n)
            &&& cf matches Cf::HardAck(p) ==> "HardAck:"@.is_prefix_of(name) && numeral(
                name.skip(8),
            ) == Some(p.wire_int())
        },
{
    reveal_strlit("Request:");
    reveal_strlit("SoftAck:");
    reveal_strlit("HardAck:");
    reveal_strlit("HubHardAck:");
    if let Some(Cf::HardAck(p)) = Cf::named(name) {
        law_wire_int_round_trips(numeral(name.skip(8))->0);
    }
}

/// A number may carry one plus sign and leading zeros, which change nothing, and holds digits
/// alone otherwise; what comes with another character, or with none at all, is no number.
pub proof fn law_numbers_are_digits(digits: Seq<char>)
    ensures
        numeral(Seq::empty()) is None,
        numeral(seq!['+']) is None,
        numeral(digits) is Some && digits[0] != '+' ==> numeral(seq!['+'] + digits) == numeral(
            digits,
        ),
        numeral(digits) is Some && digits[0] != '+' ==> numeral(seq!['0'] + digits) == numeral(
            digits,
        ),
        forall|i: int|
            0 < i < digits.len() && !('0' <= #[trigger] digits[i] <= '9') ==> numeral(digits)
                is None,
        digits.len() > 0 && digits[0] != '+' && !('0' <= digits[0] <= '9') ==> numeral(digits)
            is None,
{
    assert(without_plus(seq!['+']) =~= Seq::empty());
    if digits.len() > 0 && digits[0] != '+' {
        assert((seq!['+'] + digits).skip(1) =~= digits);
        let padded = seq!['0'] + digits;
        lemma_leading_zero(digits);
        if all_digits(digits) {
            assert forall|i: int| 0 <= i < padded.len() implies is_digit(#[trigger] padded[i]) by {
                if i > 0 {
                    assert(padded[i] == digits[i - 1]);
                }
            }
        }
    }
    assert forall|i: int| 0 < i < digits.len() && !('0' <= #[trigger] digits[i] <= '9') implies numeral(
        digits,
    ) is None by {
        if digits[0] == '+' {
            assert(digits.skip(1)[i - 1] == digits[i]);
        }
    }
}

proof fn lemma_leading_zero(digits: Seq<char>)
    ensures
        digits_value(seq!['0'] + digits) == digits_value(digits),
    decreases digits.len(),
{
    let padded = seq!['0'] + digits;
    if digits.len() == 0 {
        assert(padded.drop_last() =~= Seq::empty());
        assert(padded.last() == '0');
        assert(digits_value(padded) == digits_value(padded.drop_last()) * 10);
    } else {
        lemma_leading_zero(digits.drop_last());
        assert(padded.drop_last() =~= seq!['0'] + digits.drop_last());
        assert(padded.last() == digits.last());
    }
}

proof fn lemma_no_family_is_the_default(cf: Cf)
    ensures
        cf.name_chars() != "default"@,
{
    reveal_strlit("default");
    reveal_strlit("Block");
    reveal_strlit("Stack");
    reveal_strlit("BlockResult");
    reveal_strlit("SoftConfirmation");
    reveal_strlit("HardConfirmation");
    reveal_strlit("RequestHighWater");
    reveal_strlit("CoilStampMark");
    reveal_strlit("L2CommandNumber");
    reveal_strlit("UnsignedStack");
    reveal_strlit("DepositMap");
    reveal_strlit("Treasury");
    reveal_strlit("EvacuationMap");
    reveal_strlit("RequestBlockIndex");
    reveal_strlit("DepositDecisionIndex");
    reveal_strlit("WithdrawalEffectIndex");
    reveal_strlit("BlockStackIndex");
    reveal_strlit("EffectStackIndex");
    reveal_strlit("Meta");
    reveal_strlit("Request:");
    reveal_strlit("SoftAck:");
    reveal_strlit("HardAck:");
    reveal_strlit("HubHardAck:");
    let name = cf.name_chars();
    assert("default"@[0] == 'd');
    assert(name[0] != 'd');
}

/// Every name that a store reports is the engine's own, that of a known family, or listed as
/// unknown; and only reported names that no known family carries are listed.
pub proof fn law_unknown_families_are_listed(names: Seq<String>, name: Seq<char>)
    ensures
        unknown_names(names).contains(name) <==> {
            &&& reported(names, name)
            &&& name != "default"@
            &&& Cf::named(name) is None
        },
    decreases names.len(),
{
    if names.len() > 0 {
        law_unknown_families_are_listed(names.drop_last(), name);
        lemma_reported_last(names, name);
        lemma_contains_push(unknown_names(names.drop_last()), names.last()@, name);
    }
}

/// The five rows of the stamp: a schema version in four bytes is always there; the rest of the
/// stamp is there as a whole, its peer in four bytes, or not at all.
pub proof fn law_stamp_is_whole_or_absent(
    version: Option<Seq<u8>>,
    hash: Option<Seq<u8>>,
    id: Option<Seq<u8>>,
    address: Option<Seq<u8>>,
    peer: Option<Seq<u8>>,
)
    ensures
        meta_fault(version, hash, id, address, peer) is None <==> {
            &&& version matches Some(v) && v.len() == 4
            &&& {
                ||| hash is None && id is None && address is None && peer is None
                ||| {
                    &&& hash is Some && id is Some && address is Some
                    &&& peer matches Some(p) && p.len() == 4
                }
            }
        },
        meta_fault(version, hash, id, address, peer) == Some(StoreError::NoVersion) <==> version
            is None,
        meta_fault(version, hash, id, address, peer) matches Some(
            StoreError::VersionWidth { found },
        ) ==> version matches Some(v) && v.len() != 4 && found == v.len() as usize,
        meta_fault(version, hash, id, address, peer) matches Some(
            StoreError::PeerIdWidth { found },
        ) ==> peer matches Some(p) && p.len() != 4 && found == p.len() as usize,
        meta_fault(version, hash, id, address, peer) matches Some(
            StoreError::PartialIdentity { present },
        ) ==> {
            &&& 0 < present < 4
            &&& present == (if hash is Some { 1int } else { 0 }) + (if id is Some { 1int } else {
                0
            }) + (if address is Some { 1int } else { 0 }) + (if peer is Some { 1int } else { 0 })
        },
        meta_fault(version, hash, id, address, peer) matches Some(e) ==> e is NoVersion
            || e is VersionWidth || e is PartialIdentity || e is PeerIdWidth,
{
}

/// What a stamp's rows are read as. Each part comes from the row that carries its name: the schema
/// version from `store_version`, the parameters' hash from `head_params_hash`, and so on. The
/// peer's row holds the packed form, whose low bit tells a head peer from a coil peer.
pub proof fn law_stamp_is_read_by_name(rows: Seq<(Seq<u8>, Seq<u8>)>, meta: StoreMeta)
    requires
        MetaRows::of(rows).fault() is None,
        MetaRows::of(rows).assemble_to(meta),
    ensures
        value_of(rows, encode_utf8("store_version"@)) matches Some(v) && be_value(v)
            == meta.version,
        meta.identity is None <==> value_of(rows, encode_utf8("head_id"@)) is None,
        meta.identity matches Some(identity) ==> {
            &&& value_of(rows, encode_utf8("head_params_hash"@)) matches Some(hash)
            &&& value_of(rows, encode_utf8("head_id"@)) matches Some(id)
            &&& value_of(rows, encode_utf8("head_address"@)) matches Some(address)
            &&& value_of(rows, encode_utf8("own_peer_id"@)) matches Some(peer)
            &&& valid_utf8(hash) ==> identity.head_params_hash@ == decode_utf8(hash)
            &&& valid_utf8(id) ==> identity.head_id@ == decode_utf8(id)
            &&& valid_utf8(address) ==> identity.head_address@ == decode_utf8(address)
            &&& identity.own_peer_id.number() == be_value(peer) / 2
            &&& identity.own_peer_id is Head <==> be_value(peer) % 2 == 1
        },
{
    lemma_be_limits();
    match MetaRows::of(rows).own_peer_id {
        Some(peer) => lemma_be_value_bound(peer),
        None => {},
    }
}

/// A peer is shown by its kind and its number.
pub proof fn law_peers_are_shown_by_kind_and_number(number: u32)
    ensures
        PeerId::Head(number).shown() == "head peer "@ + decimal(number as nat),
        PeerId::Coil(number).shown() == "coil peer "@ + decimal(number as nat),
        PeerId::Head(number).number() == number && PeerId::Coil(number).number() == number,
{
}

/// What a refusal tells of a journal's rows: whose they are, then what was found, then what was
/// expected of it.
pub proof fn law_refusals_of_rows_tell_what_was_found(
    cf: Cf,
    index: u64,
    found: usize,
    expected: usize,
)
    ensures
        (StoreError::KeyWidth { cf, found, expected }).text() == cf.name_chars() + " key is "@
            + decimal(found as nat) + " bytes; expected "@ + decimal(expected as nat),
        (StoreError::IndexTooLarge { cf, index }).text() == cf.name_chars() + " counts in u32; "@
            + decimal(index as nat) + " does not fit"@,
        (StoreError::ShortValue { found }).text() == "journal value is "@ + decimal(found as nat)
            + " bytes, too short for a "@ + decimal(12) + "-byte arrival stamp"@,
        (StoreError::UnreadableEntry { cf, index, found }).text() == "reading "@ + cf.name_chars()
            + " entry "@ + decimal(index as nat) + ": "@ + (StoreError::ShortValue { found }).text(),
{
}

/// What a refusal tells of a family that is no journal, or is not there.
pub proof fn law_refusals_of_families_name_them(cf: Cf)
    ensures
        (StoreError::NoIndexKey { cf }).text() == cf.name_chars()
            + " is not a journal; it has no index key"@,
        (StoreError::NotScannable { cf }).text() == cf.name_chars()
            + " is not a journal; it cannot be scanned in arrival order"@,
        (StoreError::NoIndexedEntries { cf }).text() == cf.name_chars()
            + " is not a journal; it has no indexed entries"@,
        (StoreError::NoTip { cf }).text() == cf.name_chars()
            + " is not a journal; it has no tip to resume from"@,
        (StoreError::MissingFromStore { cf }).text() == cf.name_chars()
            + " is not present in this store"@,
        (StoreError::MissingFromArchive { cf }).text() == cf.name_chars()
            + " is not present in this archive"@,
{
}

/// What a refusal tells of a stamp: the archive's and the store's each behind its own word, with the
/// head, the peer and the parameters' hash.
pub proof fn law_refusals_of_stamps_tell_both(
    archive: StoreIdentity,
    store: StoreIdentity,
    found: usize,
    version: u32,
)
    ensures
        (StoreError::DifferentIdentity { archive, store }).text()
            == "this archive belongs to a different head, configuration or peer than the store being archived.\n  archive: "@
            + ("head "@ + archive.head_id@ + " peer "@ + archive.own_peer_id.shown() + " ("@
            + archive.head_params_hash@ + ")"@) + "\n  store:   "@ + ("head "@ + store.head_id@
            + " peer "@ + store.own_peer_id.shown() + " ("@ + store.head_params_hash@ + ")"@),
        (StoreError::UnsupportedVersion { version }).text() == "store schema version "@ + decimal(
            version as nat,
        ) + " is not "@ + decimal(3),
        (StoreError::PartialIdentity { present: found }).text() == "the store's identity stamp has "@
            + decimal(found as nat) + " of its 4 fields; it is partially written"@,
        (StoreError::VersionWidth { found }).text() == "store version: expected 4 bytes, got "@
            + decimal(found as nat),
        (StoreError::PeerIdWidth { found }).text() == "own peer id: expected 4 bytes, got "@
            + decimal(found as nat),
        StoreError::NoVersion.text() == "Meta"@
            + " has no store_version row; it is not a hydrozoa store"@,
{
}

/// What a store's families hold is what stands under their names, the first where one stands twice.
pub proof fn law_families_are_found_by_name(list: Seq<Family>, i: int)
    requires
        0 <= i < list.len(),
        forall|j: int| 0 <= j < i ==> (#[trigger] list[j]).name@ != list[i].name@,
    ensures
        families_view(list).dom().contains(list[i].name@),
        families_view(list)[list[i].name@] == list[i].table@,
    decreases list.len(),
{
    let front = list.drop_last();
    if i < front.len() {
        assert(front[i] == list[i]);
        assert forall|j: int| 0 <= j < i implies (#[trigger] front[j]).name@ != front[i].name@ by {
            assert(front[j] == list[j]);
        }
        law_families_are_found_by_name(front, i);
    } else {
        lemma_only_listed(front, list[i].name@);
        assert forall|j: int| 0 <= j < front.len() implies (#[trigger] front[j]).name@
            != list[i].name@ by {
            assert(front[j] == list[j]);
        }
    }
}

proof fn lemma_only_listed(list: Seq<Family>, name: Seq<char>)
    ensures
        families_view(list).dom().contains(name) <==> exists|j: int|
            0 <= j < list.len() && (#[trigger] list[j]).name@ == name,
    decreases list.len(),
{
    if list.len() > 0 {
        let front = list.drop_last();
        lemma_only_listed(front, name);
        assert forall|j: int| 0 <= j < front.len() implies front[j] == #[trigger] list[j] by {}
        assert(list[list.len() - 1] == list.last());
        if families_view(front).dom().contains(name) {
            let j = choose|j: int| 0 <= j < front.len() && (#[trigger] front[j]).name@ == name;
            assert(list[j].name@ == name);
        }
        if exists|j: int| 0 <= j < list.len() && (#[trigger] list[j]).name@ == name {
            let j = choose|j: int| 0 <= j < list.len() && (#[trigger] list[j]).name@ == name;
            if j < front.len() {
                assert(front[j].name@ == name);
            }
        }
    }
}

/// Journals keep the order of the families.
pub proof fn law_journals_keep_the_order(front: Seq<Cf>, back: Seq<Cf>)
    ensures
        journals_of(front + back) == journals_of(front) + journals_of(back),
    decreases back.len(),
{
    if back.len() == 0 {
        assert(front + back =~= front);
        assert(journals_of(front) + journals_of(back) =~= journals_of(front));
    } else {
        law_journals_keep_the_order(front, back.drop_last());
        assert((front + back).drop_last() =~= front + back.drop_last());
        assert(journals_of(front + back) =~= journals_of(front) + journals_of(back));
    }
}

/// What is looked up under an index is the value of the row that holds the index.
pub proof fn law_index_finds_its_row(cf: Cf, rows: Seq<(Seq<u8>, Seq<u8>)>, i: int)
    requires
        sorted(rows),
        0 <= i < rows.len(),
        decoded_key(cf, rows[i].0) is Ok,
    ensures
        encoded_key(cf, be_value(rows[i].0) as u64) is Ok,
        value_of(rows, encoded_key(cf, be_value(rows[i].0) as u64)->Ok_0) == Some(rows[i].1),
{
    law_key_round_trips(cf, rows[i].0);
    law_a_value_is_its_row(rows, rows[i].0, rows[i].1);
    assert(rows.contains((rows[i].0, rows[i].1)));
}

/// A family that is not there is refused by name, as the store's own.
pub proof fn law_missing_families_are_refused(
    store: Map<Seq<char>, Seq<(Seq<u8>, Seq<u8>)>>,
    cf: Cf,
)
    ensures
        stored_rows(store, cf) is Ok <==> store.dom().contains(cf.name_chars()),
        stored_rows(store, cf) matches Ok(rows) ==> rows == store[cf.name_chars()],
        stored_rows(store, cf) matches Err(e) ==> e == (StoreError::MissingFromStore { cf }),
{
}

} // verus!
