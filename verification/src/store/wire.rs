//! The protobuf wire format, as far as a request record needs it.
//!
//! `prost` reads and writes the variable-length integers and skips the fields a build does not
//! know. What those calls do is stated here, over the bytes that are left to read. What is wrong
//! with bytes that are refused is told in `prost`'s own words.

use crate::bytes::push_bytes;
use crate::text::{decimal, push_decimal};
use vstd::prelude::*;
use vstd::slice::slice_subrange;

verus! {

/// What every account of a failure begins with.
pub const FAILED: &'static str = "failed to decode Protobuf message: ";

/// What is wrong with bytes that are refused, and in which fields, the innermost first.
pub struct Fault {
    pub location: String,
    pub description: String,
}

/// What a [`Fault`] says.
pub struct FaultView {
    pub location: Seq<char>,
    pub description: Seq<char>,
}

impl View for Fault {
    type V = FaultView;

    open spec fn view(&self) -> FaultView {
        FaultView { location: self.location@, description: self.description@ }
    }
}

impl FaultView {
    /// The account that is given of it.
    pub open spec fn shown(self) -> Seq<char> {
        FAILED@ + self.location + self.description
    }

    /// The fault, once it is known to lie in a field.
    pub open spec fn within(self, field: Seq<char>) -> FaultView {
        FaultView { location: self.location + field + ": "@, description: self.description }
    }
}

/// A fault in no particular field.
pub open spec fn fault_of(description: Seq<char>) -> FaultView {
    FaultView { location: Seq::empty(), description }
}

impl Fault {
    pub(crate) fn new(description: &str) -> (r: Fault)
        ensures
            r@ == fault_of(description@),
    {
        let r = Fault { location: String::new(), description: description.to_owned() };
        assert(r.location@ =~= Seq::<char>::empty());
        r
    }

    /// The fault, once it is known to lie in a field.
    pub(crate) fn within(self, field: &str) -> (r: Fault)
        ensures
            r@ == self@.within(field@),
    {
        let mut location = self.location;
        location.append(field);
        location.append(": ");
        Fault { location, description: self.description }
    }

    /// The account that is given of it.
    pub fn message(&self) -> (r: String)
        ensures
            r@ == self@.shown(),
    {
        let mut out = FAILED.to_owned();
        out.append(self.location.as_str());
        out.append(self.description.as_str());
        out
    }

    /// The fault that an account without a location gives.
    fn told(account: String, Ghost(description): Ghost<Seq<char>>) -> (r: Fault)
        requires
            account@ == FAILED@ + description,
        ensures
            r@ == fault_of(description),
    {
        let start = FAILED.unicode_len();
        let len = account.as_str().unicode_len();
        let r = Fault::new(account.as_str().substring_char(start, len));
        assert(r.description@ =~= description);
        r
    }
}

/// The rest of a variable-length integer whose first `k` groups of seven bits have been read: its
/// value and how many bytes it takes. An integer takes ten bytes at most, and the tenth holds one
/// bit.
pub open spec fn varint_from(s: Seq<u8>, k: nat) -> Option<(nat, nat)>
    decreases s.len(),
{
    if s.len() == 0 || k > 9 {
        None
    } else if s[0] < 0x80 {
        if k == 9 && s[0] > 1 {
            None
        } else {
            Some((s[0] as nat, 1))
        }
    } else {
        match varint_from(s.drop_first(), k + 1) {
            None => None,
            Some((value, len)) => Some(((s[0] - 0x80) as nat + 128 * value, len + 1)),
        }
    }
}

/// The variable-length integer at the front of `s`: its value and how many bytes it takes.
pub open spec fn varint(s: Seq<u8>) -> Option<(nat, nat)> {
    varint_from(s, 0)
}

/// The bytes of a variable-length integer, low groups of seven bits first.
pub open spec fn varint_bytes(v: nat) -> Seq<u8>
    decreases v,
{
    if v < 128 {
        seq![v as u8]
    } else {
        seq![(v % 128 + 128) as u8] + varint_bytes(v / 128)
    }
}

/// How many bytes of `s` a group takes that was opened with field number `tag`, its end marker
/// among them, or what is wrong with it where it is malformed or nested too deep.
pub uninterp spec fn group_skip(tag: u32, s: Seq<u8>) -> Result<nat, Seq<char>>;

/// A number of bytes, where so many are there.
pub open spec fn as_far_as(n: nat, s: Seq<u8>) -> Result<nat, Seq<char>> {
    if n <= s.len() {
        Ok(n)
    } else {
        Err("buffer underflow"@)
    }
}

/// How many bytes of `s` a field takes whose key has been read, or what is wrong with it.
pub open spec fn field_skip(wire: u8, tag: u32, s: Seq<u8>) -> Result<nat, Seq<char>> {
    if wire == 0 {
        match varint(s) {
            Some((_, n)) => Ok(n),
            None => Err("invalid varint"@),
        }
    } else if wire == 1 {
        as_far_as(8, s)
    } else if wire == 2 {
        match varint(s) {
            Some((len, n)) => as_far_as(n + len, s),
            None => Err("invalid varint"@),
        }
    } else if wire == 3 {
        match group_skip(tag, s) {
            Ok(n) => as_far_as(n, s),
            Err(why) => Err(why),
        }
    } else if wire == 5 {
        as_far_as(4, s)
    } else {
        Err("unexpected end group tag"@)
    }
}

/// A group of field number `tag` that holds `s`, up to its end marker.
pub open spec fn group_with(tag: u32, s: Seq<u8>) -> Seq<u8> {
    varint_bytes((tag * 8 + 3) as nat) + s
}

/// A group of field number `tag` that holds `s` and ends.
pub open spec fn group_of(tag: u32, s: Seq<u8>) -> Seq<u8> {
    group_with(tag, s) + varint_bytes((tag * 8 + 4) as nat)
}

/// How many bytes of `s` a field takes that stands in the body of a record and whose key has been
/// read, or what is wrong with it. What stands in a body stands one level deeper than what stands
/// in the record, so a group there is held to what a group within a group of the record is.
pub open spec fn nested_field_skip(wire: u8, tag: u32, s: Seq<u8>) -> Result<nat, Seq<char>> {
    match field_skip(wire, tag, s) {
        Ok(n) => if wire == 3 {
            match field_skip(3, tag, group_of(tag, s.take(n as int))) {
                Ok(_) => Ok(n),
                Err(why) => Err(why),
            }
        } else {
            Ok(n)
        },
        Err(why) => if wire == 3 {
            match field_skip(3, tag, group_with(tag, s)) {
                Ok(_) => Err(why),
                Err(deeper) => Err(deeper),
            }
        } else {
            Err(why)
        },
    }
}

/// The field key at the front of `s`: field number, wire type, and how many bytes it takes; or what
/// is wrong with it.
pub open spec fn field_key(s: Seq<u8>) -> Result<(u32, u8, nat), Seq<char>> {
    match varint(s) {
        None => Err("invalid varint"@),
        Some((key, n)) => if key > u32::MAX {
            Err("invalid key value: "@ + decimal(key))
        } else if key % 8 > 5 {
            Err("invalid wire type value: "@ + decimal(key % 8))
        } else if key / 8 == 0 {
            Err("invalid tag value: 0"@)
        } else {
            Ok(((key / 8) as u32, (key % 8) as u8, n))
        },
    }
}

/// The name of a wire type.
pub open spec fn wire_name(wire: u8) -> Seq<char> {
    if wire == 0 {
        "Varint"@
    } else if wire == 1 {
        "SixtyFourBit"@
    } else if wire == 2 {
        "LengthDelimited"@
    } else if wire == 3 {
        "StartGroup"@
    } else if wire == 4 {
        "EndGroup"@
    } else {
        "ThirtyTwoBit"@
    }
}

/// What is wrong with a field of another wire type than its own.
pub open spec fn wrong_wire(wire: u8, expected: u8) -> Seq<char> {
    "invalid wire type: "@ + wire_name(wire) + " (expected "@ + wire_name(expected) + ")"@
}

/// The integer of a field whose key has been read, and how many bytes it takes; or what is wrong
/// with it.
pub open spec fn integer_at(wire: u8, s: Seq<u8>) -> Result<(nat, nat), Seq<char>> {
    if wire != 0 {
        Err(wrong_wire(wire, 0))
    } else {
        match varint(s) {
            Some((value, n)) => Ok((value, n)),
            None => Err("invalid varint"@),
        }
    }
}

/// The length of a length-delimited field whose key has been read, and how many bytes the length
/// takes; or what is wrong with it.
pub open spec fn length_at(wire: u8, s: Seq<u8>) -> Result<(nat, nat), Seq<char>> {
    if wire != 2 {
        Err(wrong_wire(wire, 2))
    } else {
        match varint(s) {
            Some((len, n)) => if n + len <= s.len() {
                Ok((len, n))
            } else {
                Err("buffer underflow"@)
            },
            None => Err("invalid varint"@),
        }
    }
}

/// Calls `prost::encoding::decode_varint`: reads the variable-length integer at the front of the
/// buffer and moves the buffer past it, or fails where there is none. The account is what its
/// `DecodeError` shows, which is the same for every way to fail.
#[verifier::external_body]
pub(crate) fn decode_varint(buf: &mut &[u8]) -> (r: Result<u64, String>)
    ensures
        match r {
            Ok(v) => {
                &&& varint((*old(buf))@) matches Some((value, n))
                &&& v == value
                &&& (*final(buf))@ == (*old(buf))@.skip(n as int)
            },
            Err(account) => {
                &&& varint((*old(buf))@) is None
                &&& account@ == FAILED@ + "invalid varint"@
            },
        },
{
    match prost::encoding::decode_varint(buf) {
        Ok(v) => Ok(v),
        Err(e) => Err(e.to_string()),
    }
}

/// Calls `prost::encoding::skip_field`: moves the buffer past a field whose key has been read, or
/// fails where the field is malformed. The account is what its `DecodeError` shows. What comes of a
/// group has no more than a name: it nests, and `prost` bounds how deep.
#[verifier::external_body]
pub(crate) fn skip_field(wire: u8, tag: u32, buf: &mut &[u8]) -> (r: Result<(), String>)
    requires
        wire <= 5,
    ensures
        match r {
            Ok(_) => {
                &&& field_skip(wire, tag, (*old(buf))@) matches Ok(n)
                &&& (*final(buf))@ == (*old(buf))@.skip(n as int)
            },
            Err(account) => {
                &&& field_skip(wire, tag, (*old(buf))@) matches Err(why)
                &&& account@ == FAILED@ + why
            },
        },
        wire == 3 && r is Ok ==> group_skip(tag, (*old(buf))@) is Ok,
{
    let context = prost::encoding::DecodeContext::default();
    let wire_type = match prost::encoding::WireType::try_from(u64::from(wire)) {
        Ok(wire_type) => wire_type,
        Err(e) => return Err(e.to_string()),
    };
    match prost::encoding::skip_field(wire_type, tag, buf, context) {
        Ok(()) => Ok(()),
        Err(e) => Err(e.to_string()),
    }
}

/// Calls `prost::encoding::encode_varint`: appends a variable-length integer to the buffer.
#[verifier::external_body]
pub(crate) fn encode_varint(v: u64, buf: &mut Vec<u8>)
    ensures
        final(buf)@ == old(buf)@ + varint_bytes(v as nat),
{
    prost::encoding::encode_varint(v, buf)
}

/// Read a variable-length integer.
fn read_varint(buf: &mut &[u8]) -> (r: Result<u64, Fault>)
    ensures
        match r {
            Ok(v) => {
                &&& varint((*old(buf))@) matches Some((value, n))
                &&& v == value
                &&& (*final(buf))@ == (*old(buf))@.skip(n as int)
            },
            Err(fault) => {
                &&& varint((*old(buf))@) is None
                &&& fault@ == fault_of("invalid varint"@)
            },
        },
{
    match decode_varint(buf) {
        Ok(v) => Ok(v),
        Err(account) => Err(Fault::told(account, Ghost("invalid varint"@))),
    }
}

/// Move the buffer past a field of a record whose key has been read.
pub(crate) fn skip_record_field(wire: u8, tag: u32, buf: &mut &[u8]) -> (r: Result<(), Fault>)
    requires
        wire <= 5,
    ensures
        match r {
            Ok(_) => {
                &&& field_skip(wire, tag, (*old(buf))@) matches Ok(n)
                &&& (*final(buf))@ == (*old(buf))@.skip(n as int)
            },
            Err(fault) => {
                &&& field_skip(wire, tag, (*old(buf))@) matches Err(why)
                &&& fault@ == fault_of(why)
            },
        },
{
    let ghost skipped = field_skip(wire, tag, (*buf)@);
    match skip_field(wire, tag, buf) {
        Ok(_) => Ok(()),
        Err(account) => Err(Fault::told(account, Ghost(skipped->Err_0))),
    }
}

/// Move the buffer past a field of a record's body whose key has been read.
pub(crate) fn skip_nested_field(wire: u8, tag: u32, buf: &mut &[u8]) -> (r: Result<(), Fault>)
    requires
        wire <= 5,
    ensures
        match r {
            Ok(_) => {
                &&& nested_field_skip(wire, tag, (*old(buf))@) matches Ok(n)
                &&& (*final(buf))@ == (*old(buf))@.skip(n as int)
            },
            Err(fault) => {
                &&& nested_field_skip(wire, tag, (*old(buf))@) matches Err(why)
                &&& fault@ == fault_of(why)
            },
        },
{
    let all: &[u8] = *buf;
    let skipped = skip_record_field(wire, tag, buf);
    if wire != 3 {
        return skipped;
    }
    let mut group: Vec<u8> = Vec::new();
    encode_varint(tag as u64 * 8 + 3, &mut group);
    if skipped.is_ok() {
        let len = all.len() - (*buf).len();
        push_bytes(&mut group, slice_subrange(all, 0, len));
        encode_varint(tag as u64 * 8 + 4, &mut group);
        assert(group@ =~= group_of(tag, all@.take(len as int)));
    } else {
        push_bytes(&mut group, all);
        assert(group@ =~= group_with(tag, all@));
    }
    let mut outer: &[u8] = group.as_slice();
    match skip_record_field(3, tag, &mut outer) {
        Ok(_) => skipped,
        Err(deeper) => Err(deeper),
    }
}

/// Read a field key.
pub(crate) fn read_key(buf: &mut &[u8]) -> (r: Result<(u32, u8), Fault>)
    ensures
        match r {
            Ok((tag, wire)) => {
                &&& field_key((*old(buf))@) matches Ok((t, w, n))
                &&& tag == t
                &&& wire == w
                &&& wire <= 5
                &&& (*final(buf))@ == (*old(buf))@.skip(n as int)
            },
            Err(fault) => {
                &&& field_key((*old(buf))@) matches Err(why)
                &&& fault@ == fault_of(why)
            },
        },
{
    match read_varint(buf) {
        Err(fault) => Err(fault),
        Ok(key) => if key > u32::MAX as u64 {
            Err(numbered("invalid key value: ", key))
        } else if key % 8 > 5 {
            Err(numbered("invalid wire type value: ", key % 8))
        } else if key / 8 == 0 {
            Err(Fault::new("invalid tag value: 0"))
        } else {
            Ok(((key / 8) as u32, (key % 8) as u8))
        },
    }
}

fn numbered(what: &str, n: u64) -> (r: Fault)
    ensures
        r@ == fault_of(what@ + decimal(n as nat)),
{
    let mut description = what.to_owned();
    push_decimal(&mut description, n);
    Fault::new(description.as_str())
}

fn wire_text(wire: u8) -> (r: &'static str)
    ensures
        r@ == wire_name(wire),
{
    match wire {
        0 => "Varint",
        1 => "SixtyFourBit",
        2 => "LengthDelimited",
        3 => "StartGroup",
        4 => "EndGroup",
        _ => "ThirtyTwoBit",
    }
}

fn other_wire(wire: u8, expected: u8) -> (r: Fault)
    ensures
        r@ == fault_of(wrong_wire(wire, expected)),
{
    let mut description = "invalid wire type: ".to_owned();
    description.append(wire_text(wire));
    description.append(" (expected ");
    description.append(wire_text(expected));
    description.append(")");
    Fault::new(description.as_str())
}

/// Read the integer of a field whose key has been read.
pub(crate) fn read_integer(wire: u8, buf: &mut &[u8]) -> (r: Result<u64, Fault>)
    ensures
        match r {
            Ok(v) => {
                &&& integer_at(wire, (*old(buf))@) matches Ok((value, n))
                &&& v == value
                &&& (*final(buf))@ == (*old(buf))@.skip(n as int)
            },
            Err(fault) => {
                &&& integer_at(wire, (*old(buf))@) matches Err(why)
                &&& fault@ == fault_of(why)
            },
        },
{
    if wire != 0 {
        return Err(other_wire(wire, 0));
    }
    read_varint(buf)
}

/// Read the length of a length-delimited field whose key has been read.
pub(crate) fn read_length(wire: u8, buf: &mut &[u8]) -> (r: Result<usize, Fault>)
    ensures
        match r {
            Ok(v) => {
                &&& length_at(wire, (*old(buf))@) matches Ok((len, n))
                &&& v == len
                &&& (*final(buf))@ == (*old(buf))@.skip(n as int)
                &&& v <= (*final(buf))@.len()
            },
            Err(fault) => {
                &&& length_at(wire, (*old(buf))@) matches Err(why)
                &&& fault@ == fault_of(why)
            },
        },
{
    if wire != 2 {
        return Err(other_wire(wire, 2));
    }
    proof {
        lemma_varint_len((*buf)@, 0);
    }
    match read_varint(buf) {
        Err(fault) => Err(fault),
        Ok(len) => if len > (*buf).len() as u64 {
            Err(Fault::new("buffer underflow"))
        } else {
            Ok(len as usize)
        },
    }
}

/// Read the payload of a length-delimited field whose key has been read.
pub(crate) fn read_payload<'a>(wire: u8, buf: &mut &'a [u8]) -> (r: Result<&'a [u8], Fault>)
    ensures
        match r {
            Ok(payload) => {
                &&& length_at(wire, (*old(buf))@) matches Ok((len, n))
                &&& payload@ == (*old(buf))@.subrange(n as int, (n + len) as int)
                &&& (*final(buf))@ == (*old(buf))@.skip((n + len) as int)
            },
            Err(fault) => {
                &&& length_at(wire, (*old(buf))@) matches Err(why)
                &&& fault@ == fault_of(why)
            },
        },
{
    let ghost s = (*buf)@;
    match read_length(wire, buf) {
        Err(fault) => Err(fault),
        Ok(len) => {
            let rest: &'a [u8] = *buf;
            let payload = slice_subrange(rest, 0, len);
            *buf = slice_subrange(rest, len, rest.len());
            proof {
                let (_, n) = length_at(wire, s)->Ok_0;
                assert(payload@ =~= s.subrange(n as int, (n + len) as int));
                assert((*buf)@ =~= s.skip((n + len) as int));
            }
            Ok(payload)
        },
    }
}

/// A variable-length integer takes at least one byte, and none that is not there.
pub proof fn lemma_varint_len(s: Seq<u8>, k: nat)
    ensures
        varint_from(s, k) matches Some((_, n)) ==> 0 < n <= s.len(),
    decreases s.len(),
{
    if s.len() > 0 && k <= 9 && s[0] >= 0x80 {
        lemma_varint_len(s.drop_first(), k + 1);
    }
}

/// How many values the groups of seven bits from the `k`-th on can hold.
pub open spec fn group_limit(k: nat) -> nat
    decreases 9 - k,
{
    if k >= 9 {
        2
    } else {
        128 * group_limit(k + 1)
    }
}

proof fn lemma_varint_round_trip(v: nat, rest: Seq<u8>, k: nat)
    requires
        k <= 9,
        v < group_limit(k),
    ensures
        varint_bytes(v).len() > 0,
        varint_from(varint_bytes(v) + rest, k) == Some((v, varint_bytes(v).len())),
    decreases v,
{
    let s = varint_bytes(v) + rest;
    if v >= 128 {
        assert(group_limit(k) == 128 * group_limit(k + 1) && k < 9);
        lemma_varint_round_trip(v / 128, rest, k + 1);
        assert(s.drop_first() =~= varint_bytes(v / 128) + rest);
    }
}

/// A variable-length integer is read back as it was written, whatever follows it.
pub proof fn law_varint_round_trips(v: u64, rest: Seq<u8>)
    ensures
        varint(varint_bytes(v as nat) + rest) == Some((v as nat, varint_bytes(v as nat).len())),
{
    assert(group_limit(0) == 0x1_0000_0000_0000_0000) by {
        reveal_with_fuel(group_limit, 10);
    }
    lemma_varint_round_trip(v as nat, rest, 0);
}

} // verus!
