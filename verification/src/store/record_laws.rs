//! How a request record lies in its bytes.

use crate::store::request_record::{
    blank_record, bytes_field, record_with, BodyView, RecordView,
};
use crate::store::wire::{field_key, varint, varint_bytes, varint_from, wire_name};
use vstd::prelude::*;

verus! {

/// The number that bytes spell by their lower seven bits, the lowest group first.
pub open spec fn groups_value(s: Seq<u8>) -> nat
    decreases s.len(),
{
    if s.len() == 0 {
        0
    } else {
        s[0] as nat % 128 + 128 * groups_value(s.drop_first())
    }
}

/// Whether the high bit is set on every byte but the last.
pub open spec fn chained(s: Seq<u8>) -> bool {
    &&& s.len() > 0
    &&& s.last() < 128
    &&& forall|i: int| 0 <= i < s.len() - 1 ==> #[trigger] s[i] >= 128
}

proof fn lemma_chain_longer(first: u8, s: Seq<u8>)
    requires
        first >= 128,
        chained(s),
    ensures
        chained(seq![first] + s),
        groups_value(seq![first] + s) == first as nat % 128 + 128 * groups_value(s),
{
    let all = seq![first] + s;
    assert(all.drop_first() =~= s);
    assert(all.last() == s.last());
    assert forall|i: int| 0 <= i < all.len() - 1 implies #[trigger] all[i] >= 128 by {
        if i > 0 {
            assert(all[i] == s[i - 1]);
        }
    }
}

/// A variable-length integer is written in groups of seven bits, the lowest first, with the high bit
/// set on all but the last.
pub proof fn law_varint_is_written_low_group_first(v: nat)
    ensures
        chained(varint_bytes(v)),
        groups_value(varint_bytes(v)) == v,
        varint_bytes(v).len() == 1 <==> v < 128,
    decreases v,
{
    if v < 128 {
        let one = seq![v as u8];
        assert(varint_bytes(v) =~= one);
        assert(one.drop_first() =~= Seq::empty());
        assert(groups_value(one.drop_first()) == 0);
    } else {
        law_varint_is_written_low_group_first(v / 128);
        lemma_chain_longer((v % 128 + 128) as u8, varint_bytes(v / 128));
    }
}

proof fn lemma_varint_read(s: Seq<u8>, k: nat)
    requires
        k <= 10,
    ensures
        varint_from(s, k) matches Some((v, n)) ==> {
            &&& 0 < n <= s.len()
            &&& k + n <= 10
            &&& chained(s.take(n as int))
            &&& groups_value(s.take(n as int)) == v
        },
    decreases s.len(),
{
    if let Some((v, n)) = varint_from(s, k) {
        if s[0] < 0x80 {
            let one = s.take(1);
            assert(one.drop_first() =~= Seq::empty());
            assert(groups_value(one.drop_first()) == 0);
            assert(one.last() == s[0]);
        } else {
            lemma_varint_read(s.drop_first(), k + 1);
            let rest = s.drop_first().take(n - 1);
            lemma_chain_longer(s[0], rest);
            assert(seq![s[0]] + rest =~= s.take(n as int));
        }
    }
}

/// A variable-length integer is read from at most ten bytes, up to the first without the high bit, as
/// the number that their groups spell.
pub proof fn law_varint_is_read_low_group_first(s: Seq<u8>)
    ensures
        varint(s) matches Some((v, n)) ==> {
            &&& 0 < n <= 10 && n <= s.len()
            &&& chained(s.take(n as int))
            &&& groups_value(s.take(n as int)) == v
        },
{
    lemma_varint_read(s, 0);
}

proof fn lemma_one_byte(v: nat)
    requires
        v < 128,
    ensures
        varint_bytes(v) == seq![v as u8],
{
}

/// A record's bytes. The author's number stands behind the byte 8 and the request's behind 16. A
/// deposit stands behind 26 and a length, its first payload behind 10 and its second behind 18; a
/// transaction behind 34, its payload behind 10; each payload behind its length. What is zero or
/// empty is left out.
pub proof fn law_record_layout(record: RecordView)
    ensures
        ({
            let author = if record.head_peer_number == 0 {
                Seq::empty()
            } else {
                seq![8u8] + varint_bytes(record.head_peer_number as nat)
            };
            let number = if record.request_number == 0 {
                Seq::empty()
            } else {
                seq![16u8] + varint_bytes(record.request_number as nat)
            };
            let body = match record.body {
                None => Seq::empty(),
                Some(BodyView::Deposit { l1, l2 }) => {
                    let inner = payload_behind(10, l1) + payload_behind(18, l2);
                    seq![26u8] + varint_bytes(inner.len()) + inner
                },
                Some(BodyView::Transaction { l2 }) => {
                    let inner = payload_behind(10, l2);
                    seq![34u8] + varint_bytes(inner.len()) + inner
                },
            };
            record.encoded() == author + number + body
        }),
{
    lemma_one_byte(8);
    lemma_one_byte(16);
    lemma_one_byte(10);
    lemma_one_byte(18);
    lemma_one_byte(26);
    lemma_one_byte(34);
    match record.body {
        Some(BodyView::Deposit { l1, l2 }) => {
            assert(bytes_field(1, l1) =~= payload_behind(10, l1));
            assert(bytes_field(2, l2) =~= payload_behind(18, l2));
        },
        Some(BodyView::Transaction { l2 }) => {
            assert(bytes_field(1, l2) =~= payload_behind(10, l2));
        },
        None => {},
    }
}

/// A payload behind a byte and its length, or nothing where it is empty.
pub open spec fn payload_behind(first: u8, payload: Seq<u8>) -> Seq<u8> {
    if payload.len() == 0 {
        Seq::empty()
    } else {
        seq![first] + varint_bytes(payload.len()) + payload
    }
}

/// A number in another form than its own, or a body that is no length and bytes, is refused with the
/// field's name and both forms.
pub proof fn law_wrong_form_is_refused(record: RecordView, s: Seq<u8>)
    requires
        s.len() > 0,
        field_key(s) is Ok,
    ensures
        ({
            let (tag, wire, _) = field_key(s)->Ok_0;
            let refused = record_with(record, s);
            &&& tag == 1 && wire != 0 ==> refused is Err && refused->Err_0.shown()
                == "failed to decode Protobuf message: "@ + ("RequestRecord.head_peer_number"@
                + ": "@) + ("invalid wire type: "@ + wire_name(wire) + " (expected "@ + "Varint"@
                + ")"@)
            &&& tag == 2 && wire != 0 ==> refused is Err && refused->Err_0.shown()
                == "failed to decode Protobuf message: "@ + ("RequestRecord.request_number"@ + ": "@)
                + ("invalid wire type: "@ + wire_name(wire) + " (expected "@ + "Varint"@ + ")"@)
            &&& (tag == 3 || tag == 4) && wire != 2 ==> refused is Err && refused->Err_0.shown()
                == "failed to decode Protobuf message: "@ + ("RequestRecord.body"@ + ": "@) + (
            "invalid wire type: "@ + wire_name(wire) + " (expected "@ + "LengthDelimited"@ + ")"@)
        }),
{
    let nothing = Seq::<char>::empty();
    assert(nothing + "RequestRecord.head_peer_number"@ + ": "@ =~= "RequestRecord.head_peer_number"@
        + ": "@);
    assert(nothing + "RequestRecord.request_number"@ + ": "@ =~= "RequestRecord.request_number"@
        + ": "@);
    assert(nothing + "RequestRecord.body"@ + ": "@ =~= "RequestRecord.body"@ + ": "@);
}

/// A record of no bytes is blank: no author, no number and no body.
pub proof fn law_nothing_is_a_blank_record()
    ensures
        ({
            let read = record_with(blank_record(), Seq::empty());
            &&& read matches Ok(record)
            &&& record.head_peer_number == 0
            &&& record.request_number == 0
            &&& record.body is None
        }),
{
}

} // verus!
