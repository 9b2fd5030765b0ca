//! The column families a hydrozoa store holds, and how their names encode an author.
//!
//! A reader has no head configuration, so [`Cf::parse`] recovers the set of families from the
//! names that a store on disk reports.

use crate::text::{decimal, push_decimal, same_text};
use vstd::prelude::*;

verus! {

/// Which peer authored a satellite journal.
///
/// The packed form is one integer: the peer number shifted left a bit, with the low bit tagging
/// the kind. Head is 1, coil is 0.
#[derive(Clone, Copy, PartialEq, Eq, PartialOrd, Ord, Debug, Hash, Structural)]
pub enum PeerId {
    Head(u32),
    Coil(u32),
}

impl PeerId {
    /// The peer's number within its kind.
    pub open spec fn number(self) -> u32 {
        match self {
            PeerId::Head(n) => n,
            PeerId::Coil(n) => n,
        }
    }

    /// Whether the packed form keeps every bit of the peer number.
    pub open spec fn packable(self) -> bool {
        self.number() < 0x8000_0000
    }

    /// The packed form. The shift drops the number's top bit.
    pub open spec fn wire_int(self) -> u32 {
        match self {
            PeerId::Head(n) => (n as nat % 0x8000_0000 * 2 + 1) as u32,
            PeerId::Coil(n) => (n as nat % 0x8000_0000 * 2) as u32,
        }
    }

    /// The peer that a packed form names.
    pub open spec fn of_wire_int(i: u32) -> PeerId {
        if i % 2 == 1 {
            PeerId::Head(i / 2)
        } else {
            PeerId::Coil(i / 2)
        }
    }

    /// Decode the packed form that a hard-ack family names itself with.
    pub fn from_wire_int(i: u32) -> (r: PeerId)
        ensures
            r == PeerId::of_wire_int(i),
            r.packable(),
    {
        assert(i & 1 == i % 2) by (bit_vector);
        assert(i >> 1 == i / 2) by (bit_vector);
        if i & 1 == 1 {
            PeerId::Head(i >> 1)
        } else {
            PeerId::Coil(i >> 1)
        }
    }

    /// The packed form, as the family name spells it.
    pub fn to_wire_int(self) -> (r: u32)
        ensures
            r == self.wire_int(),
    {
        match self {
            PeerId::Head(n) => {
                assert((n << 1u32) | 1 == (n % 0x8000_0000) * 2 + 1) by (bit_vector);
                (n << 1) | 1
            },
            PeerId::Coil(n) => {
                assert(n << 1u32 == (n % 0x8000_0000) * 2) by (bit_vector);
                n << 1
            },
        }
    }

    pub fn is_coil(self) -> (r: bool)
        ensures
            r == (self is Coil),
    {
        matches!(self, PeerId::Coil(_))
    }

    /// The peer as an operator reads it.
    pub open spec fn shown(self) -> Seq<char> {
        match self {
            PeerId::Head(n) => "head peer "@ + decimal(n as nat),
            PeerId::Coil(n) => "coil peer "@ + decimal(n as nat),
        }
    }

    pub fn display(self) -> (r: String)
        ensures
            r@ == self.shown(),
    {
        match self {
            PeerId::Head(n) => {
                let mut out = "head peer ".to_owned();
                push_decimal(&mut out, n as u64);
                out
            },
            PeerId::Coil(n) => {
                let mut out = "coil peer ".to_owned();
                push_decimal(&mut out, n as u64);
                out
            },
        }
    }
}

/// One column family in a hydrozoa store.
///
/// The fixed families are present on every store. The satellite families are one per author, and
/// the family *is* the author discriminant, which is why the keys inside carry no author prefix.
#[derive(Clone, Copy, PartialEq, Eq, PartialOrd, Ord, Debug, Hash, Structural)]
pub enum Cf {
    // Fixed: one each.
    Block,
    Stack,
    BlockResult,
    SoftConfirmation,
    HardConfirmation,
    RequestHighWater,
    CoilStampMark,
    L2CommandNumber,
    UnsignedStack,
    DepositMap,
    Treasury,
    EvacuationMap,
    RequestBlockIndex,
    DepositDecisionIndex,
    WithdrawalEffectIndex,
    BlockStackIndex,
    EffectStackIndex,
    Meta,
    // Per-author satellites.
    Request(u32),
    SoftAck(u32),
    HardAck(PeerId),
    HubHardAck(u32),
}

/// The fixed families, in the order a store lists them.
pub const FIXED: [Cf; 18] = [
    Cf::Block,
    Cf::Stack,
    Cf::BlockResult,
    Cf::SoftConfirmation,
    Cf::HardConfirmation,
    Cf::RequestHighWater,
    Cf::CoilStampMark,
    Cf::L2CommandNumber,
    Cf::UnsignedStack,
    Cf::DepositMap,
    Cf::Treasury,
    Cf::EvacuationMap,
    Cf::RequestBlockIndex,
    Cf::DepositDecisionIndex,
    Cf::WithdrawalEffectIndex,
    Cf::BlockStackIndex,
    Cf::EffectStackIndex,
    Cf::Meta,
];

/// The number that a string of decimal digits spells.
pub open spec fn digits_value(s: Seq<char>) -> nat
    decreases s.len(),
{
    if s.len() == 0 {
        0
    } else {
        digits_value(s.drop_last()) * 10 + (s.last() as nat - 48) as nat
    }
}

pub open spec fn is_digit(c: char) -> bool {
    '0' <= c <= '9'
}

/// What a family name's number parses to: an optional plus sign, then digits alone, at least one,
/// and a value that fits in 32 bits.
pub open spec fn numeral(s: Seq<char>) -> Option<u32> {
    let digits = without_plus(s);
    if digits.len() > 0 && all_digits(digits) && digits_value(digits) <= u32::MAX {
        Some(digits_value(digits) as u32)
    } else {
        None
    }
}

pub open spec fn without_plus(s: Seq<char>) -> Seq<char> {
    if s.len() > 0 && s[0] == '+' {
        s.skip(1)
    } else {
        s
    }
}

pub open spec fn all_digits(s: Seq<char>) -> bool {
    forall|i: int| 0 <= i < s.len() ==> is_digit(#[trigger] s[i])
}

/// The number that follows `prefix` in a family name.
pub open spec fn suffix_number(name: Seq<char>, prefix: Seq<char>) -> Option<u32> {
    if prefix.is_prefix_of(name) {
        numeral(name.skip(prefix.len() as int))
    } else {
        None
    }
}

impl Cf {
    /// The on-disk family name.
    pub open spec fn name_chars(self) -> Seq<char> {
        match self {
            Cf::Block => "Block"@,
            Cf::Stack => "Stack"@,
            Cf::BlockResult => "BlockResult"@,
            Cf::SoftConfirmation => "SoftConfirmation"@,
            Cf::HardConfirmation => "HardConfirmation"@,
            Cf::RequestHighWater => "RequestHighWater"@,
            Cf::CoilStampMark => "CoilStampMark"@,
            Cf::L2CommandNumber => "L2CommandNumber"@,
            Cf::UnsignedStack => "UnsignedStack"@,
            Cf::DepositMap => "DepositMap"@,
            Cf::Treasury => "Treasury"@,
            Cf::EvacuationMap => "EvacuationMap"@,
            Cf::RequestBlockIndex => "RequestBlockIndex"@,
            Cf::DepositDecisionIndex => "DepositDecisionIndex"@,
            Cf::WithdrawalEffectIndex => "WithdrawalEffectIndex"@,
            Cf::BlockStackIndex => "BlockStackIndex"@,
            Cf::EffectStackIndex => "EffectStackIndex"@,
            Cf::Meta => "Meta"@,
            Cf::Request(p) => "Request:"@ + decimal(p as nat),
            Cf::SoftAck(p) => "SoftAck:"@ + decimal(p as nat),
            Cf::HardAck(p) => "HardAck:"@ + decimal(p.wire_int() as nat),
            Cf::HubHardAck(h) => "HubHardAck:"@ + decimal(h as nat),
        }
    }

    /// The fixed family that carries a name.
    pub open spec fn fixed_named(name: Seq<char>) -> Option<Cf> {
        if name == "Block"@ {
            Some(Cf::Block)
        } else if name == "Stack"@ {
            Some(Cf::Stack)
        } else if name == "BlockResult"@ {
            Some(Cf::BlockResult)
        } else if name == "SoftConfirmation"@ {
            Some(Cf::SoftConfirmation)
        } else if name == "HardConfirmation"@ {
            Some(Cf::HardConfirmation)
        } else if name == "RequestHighWater"@ {
            Some(Cf::RequestHighWater)
        } else if name == "CoilStampMark"@ {
            Some(Cf::CoilStampMark)
        } else if name == "L2CommandNumber"@ {
            Some(Cf::L2CommandNumber)
        } else if name == "UnsignedStack"@ {
            Some(Cf::UnsignedStack)
        } else if name == "DepositMap"@ {
            Some(Cf::DepositMap)
        } else if name == "Treasury"@ {
            Some(Cf::Treasury)
        } else if name == "EvacuationMap"@ {
            Some(Cf::EvacuationMap)
        } else if name == "RequestBlockIndex"@ {
            Some(Cf::RequestBlockIndex)
        } else if name == "DepositDecisionIndex"@ {
            Some(Cf::DepositDecisionIndex)
        } else if name == "WithdrawalEffectIndex"@ {
            Some(Cf::WithdrawalEffectIndex)
        } else if name == "BlockStackIndex"@ {
            Some(Cf::BlockStackIndex)
        } else if name == "EffectStackIndex"@ {
            Some(Cf::EffectStackIndex)
        } else if name == "Meta"@ {
            Some(Cf::Meta)
        } else {
            None
        }
    }

    /// The satellite family that carries a name.
    pub open spec fn satellite_named(name: Seq<char>) -> Option<Cf> {
        if let Some(n) = suffix_number(name, "Request:"@) {
            Some(Cf::Request(n))
        } else if let Some(n) = suffix_number(name, "SoftAck:"@) {
            Some(Cf::SoftAck(n))
        } else if let Some(n) = suffix_number(name, "HardAck:"@) {
            Some(Cf::HardAck(PeerId::of_wire_int(n)))
        } else if let Some(n) = suffix_number(name, "HubHardAck:"@) {
            Some(Cf::HubHardAck(n))
        } else {
            None
        }
    }

    /// The family that carries a name, if this build knows one.
    pub open spec fn named(name: Seq<char>) -> Option<Cf> {
        match Cf::fixed_named(name) {
            Some(cf) => Some(cf),
            None => Cf::satellite_named(name),
        }
    }

    /// Whether the family's name keeps every bit of its author. Every family that was recovered
    /// from a name does.
    pub open spec fn nameable(self) -> bool {
        self matches Cf::HardAck(p) ==> p.packable()
    }

    pub open spec fn journal(self) -> bool {
        match self {
            Cf::Block | Cf::Stack | Cf::Request(_) | Cf::SoftAck(_) | Cf::HardAck(_)
            | Cf::HubHardAck(_) => true,
            _ => false,
        }
    }

    /// The peer whose entries the family holds, where it holds one peer's.
    pub open spec fn written_by(self) -> Option<PeerId> {
        match self {
            Cf::Request(p) | Cf::SoftAck(p) | Cf::HubHardAck(p) => Some(PeerId::Head(p)),
            Cf::HardAck(p) => Some(p),
            _ => None,
        }
    }

    /// The width of a journal's key.
    pub open spec fn width(self) -> Option<usize> {
        if !self.journal() {
            None
        } else if self is Request {
            Some(8)
        } else {
            Some(4)
        }
    }

    /// Where the family stands in the declared order: first the variant, then a hard-ack author's
    /// kind, then the number.
    pub open spec fn position(self) -> nat {
        let (variant, kind, number): (nat, nat, nat) = match self {
            Cf::Request(p) => (18, 0, p as nat),
            Cf::SoftAck(p) => (19, 0, p as nat),
            Cf::HardAck(PeerId::Head(p)) => (20, 0, p as nat),
            Cf::HardAck(PeerId::Coil(p)) => (20, 1, p as nat),
            Cf::HubHardAck(p) => (21, 0, p as nat),
            _ => (self.fixed_position(), 0, 0),
        };
        (variant * 2 + kind) * 0x1_0000_0000 + number
    }

    pub open spec fn fixed_position(self) -> nat {
        match self {
            Cf::Block => 0,
            Cf::Stack => 1,
            Cf::BlockResult => 2,
            Cf::SoftConfirmation => 3,
            Cf::HardConfirmation => 4,
            Cf::RequestHighWater => 5,
            Cf::CoilStampMark => 6,
            Cf::L2CommandNumber => 7,
            Cf::UnsignedStack => 8,
            Cf::DepositMap => 9,
            Cf::Treasury => 10,
            Cf::EvacuationMap => 11,
            Cf::RequestBlockIndex => 12,
            Cf::DepositDecisionIndex => 13,
            Cf::WithdrawalEffectIndex => 14,
            Cf::BlockStackIndex => 15,
            Cf::EffectStackIndex => 16,
            Cf::Meta => 17,
            _ => 18,
        }
    }

    /// The on-disk family name.
    pub fn name(self) -> (r: String)
        ensures
            r@ == self.name_chars(),
    {
        match self {
            Cf::Block => "Block".to_owned(),
            Cf::Stack => "Stack".to_owned(),
            Cf::BlockResult => "BlockResult".to_owned(),
            Cf::SoftConfirmation => "SoftConfirmation".to_owned(),
            Cf::HardConfirmation => "HardConfirmation".to_owned(),
            Cf::RequestHighWater => "RequestHighWater".to_owned(),
            Cf::CoilStampMark => "CoilStampMark".to_owned(),
            Cf::L2CommandNumber => "L2CommandNumber".to_owned(),
            Cf::UnsignedStack => "UnsignedStack".to_owned(),
            Cf::DepositMap => "DepositMap".to_owned(),
            Cf::Treasury => "Treasury".to_owned(),
            Cf::EvacuationMap => "EvacuationMap".to_owned(),
            Cf::RequestBlockIndex => "RequestBlockIndex".to_owned(),
            Cf::DepositDecisionIndex => "DepositDecisionIndex".to_owned(),
            Cf::WithdrawalEffectIndex => "WithdrawalEffectIndex".to_owned(),
            Cf::BlockStackIndex => "BlockStackIndex".to_owned(),
            Cf::EffectStackIndex => "EffectStackIndex".to_owned(),
            Cf::Meta => "Meta".to_owned(),
            Cf::Request(p) => numbered("Request:", p),
            Cf::SoftAck(p) => numbered("SoftAck:", p),
            Cf::HardAck(p) => numbered("HardAck:", p.to_wire_int()),
            Cf::HubHardAck(h) => numbered("HubHardAck:", h),
        }
    }

    /// Recover a family from its name. `None` for a name this build does not know: a store
    /// written by a newer hydrozoa, which the caller reports rather than silently skips.
    pub fn parse(name: &str) -> (r: Option<Cf>)
        ensures
            r == Cf::named(name@),
            r matches Some(cf) ==> cf.nameable(),
    {
        let fixed = fixed_from(name);
        if fixed.is_some() {
            return fixed;
        }
        let chars = char_vec(name);
        if let Some(n) = number_after(&chars, "Request:") {
            Some(Cf::Request(n))
        } else if let Some(n) = number_after(&chars, "SoftAck:") {
            Some(Cf::SoftAck(n))
        } else if let Some(n) = number_after(&chars, "HardAck:") {
            Some(Cf::HardAck(PeerId::from_wire_int(n)))
        } else if let Some(n) = number_after(&chars, "HubHardAck:") {
            Some(Cf::HubHardAck(n))
        } else {
            None
        }
    }

    /// Whether this family is a *journal*: an arrival-stamped, index-ordered append stream.
    ///
    /// Only journals carry the 12-byte stamp prefix and only journals are replayable. The snapshot
    /// and reverse-index families are plain key-value and are read by point lookup instead.
    pub fn is_journal(self) -> (r: bool)
        ensures
            r == self.journal(),
    {
        matches!(
            self,
            Cf::Block
                | Cf::Stack
                | Cf::Request(_)
                | Cf::SoftAck(_)
                | Cf::HardAck(_)
                | Cf::HubHardAck(_)
        )
    }

    /// Width of the key in this journal, in bytes. `Request` counts in `u64`; every other journal
    /// counts in `u32`. Both are big-endian, so byte order matches numeric order.
    pub fn key_width(self) -> (r: Option<usize>)
        ensures
            r == self.width(),
    {
        match self {
            Cf::Request(_) => Some(8),
            c => if c.is_journal() {
                Some(4)
            } else {
                None
            },
        }
    }

    /// The author, for a satellite journal. `None` for the spines, which every head peer
    /// round-robin-authors, and for the fixed families.
    pub fn author(self) -> (r: Option<PeerId>)
        ensures
            r == (match self {
                Cf::Request(p) => Some(PeerId::Head(p)),
                Cf::SoftAck(p) => Some(PeerId::Head(p)),
                Cf::HubHardAck(p) => Some(PeerId::Head(p)),
                Cf::HardAck(p) => Some(p),
                _ => None,
            }),
            r == self.written_by(),
    {
        match self {
            Cf::Request(p) | Cf::SoftAck(p) | Cf::HubHardAck(p) => Some(PeerId::Head(p)),
            Cf::HardAck(p) => Some(p),
            _ => None,
        }
    }

    /// Whether this family comes before `other` in the declared order.
    pub fn comes_before(self, other: Cf) -> (r: bool)
        ensures
            r == (self.position() < other.position()),
    {
        self.order_code() < other.order_code()
    }

    fn order_code(self) -> (r: u64)
        ensures
            r == self.position(),
    {
        let (slot, number): (u64, u32) = match self {
            Cf::Request(p) => (36, p),
            Cf::SoftAck(p) => (38, p),
            Cf::HardAck(PeerId::Head(p)) => (40, p),
            Cf::HardAck(PeerId::Coil(p)) => (41, p),
            Cf::HubHardAck(p) => (42, p),
            c => (c.fixed_slot() * 2, 0),
        };
        slot * 0x1_0000_0000 + number as u64
    }

    fn fixed_slot(self) -> (r: u64)
        ensures
            r == self.fixed_position(),
            r <= 18,
    {
        match self {
            Cf::Block => 0,
            Cf::Stack => 1,
            Cf::BlockResult => 2,
            Cf::SoftConfirmation => 3,
            Cf::HardConfirmation => 4,
            Cf::RequestHighWater => 5,
            Cf::CoilStampMark => 6,
            Cf::L2CommandNumber => 7,
            Cf::UnsignedStack => 8,
            Cf::DepositMap => 9,
            Cf::Treasury => 10,
            Cf::EvacuationMap => 11,
            Cf::RequestBlockIndex => 12,
            Cf::DepositDecisionIndex => 13,
            Cf::WithdrawalEffectIndex => 14,
            Cf::BlockStackIndex => 15,
            Cf::EffectStackIndex => 16,
            Cf::Meta => 17,
            _ => 18,
        }
    }
}

fn fixed_from(name: &str) -> (r: Option<Cf>)
    ensures
        r == Cf::fixed_named(name@),
{
    if same_text(name, "Block") {
        Some(Cf::Block)
    } else if same_text(name, "Stack") {
        Some(Cf::Stack)
    } else if same_text(name, "BlockResult") {
        Some(Cf::BlockResult)
    } else if same_text(name, "SoftConfirmation") {
        Some(Cf::SoftConfirmation)
    } else if same_text(name, "HardConfirmation") {
        Some(Cf::HardConfirmation)
    } else if same_text(name, "RequestHighWater") {
        Some(Cf::RequestHighWater)
    } else if same_text(name, "CoilStampMark") {
        Some(Cf::CoilStampMark)
    } else if same_text(name, "L2CommandNumber") {
        Some(Cf::L2CommandNumber)
    } else if same_text(name, "UnsignedStack") {
        Some(Cf::UnsignedStack)
    } else if same_text(name, "DepositMap") {
        Some(Cf::DepositMap)
    } else if same_text(name, "Treasury") {
        Some(Cf::Treasury)
    } else if same_text(name, "EvacuationMap") {
        Some(Cf::EvacuationMap)
    } else if same_text(name, "RequestBlockIndex") {
        Some(Cf::RequestBlockIndex)
    } else if same_text(name, "DepositDecisionIndex") {
        Some(Cf::DepositDecisionIndex)
    } else if same_text(name, "WithdrawalEffectIndex") {
        Some(Cf::WithdrawalEffectIndex)
    } else if same_text(name, "BlockStackIndex") {
        Some(Cf::BlockStackIndex)
    } else if same_text(name, "EffectStackIndex") {
        Some(Cf::EffectStackIndex)
    } else if same_text(name, "Meta") {
        Some(Cf::Meta)
    } else {
        None
    }
}

fn numbered(prefix: &str, n: u32) -> (r: String)
    ensures
        r@ == prefix@ + decimal(n as nat),
{
    let mut out = prefix.to_owned();
    push_decimal(&mut out, n as u64);
    out
}

/// The characters of a string.
pub fn char_vec(s: &str) -> (r: Vec<char>)
    ensures
        r@ == s@,
{
    let mut out: Vec<char> = Vec::new();
    for c in it: s.chars()
        invariant
            out@ == it.seq().take(it.index()),
            it.seq() == s@,
    {
        out.push(c);
        proof {
            assert(it.seq().take(it.index()).push(c) =~= it.seq().take(it.index() + 1));
        }
    }
    proof {
        assert(s@.take(s@.len() as int) =~= s@);
    }
    out
}

/// Parse the number that follows `prefix`, if the characters start with it.
fn number_after(chars: &Vec<char>, prefix: &str) -> (r: Option<u32>)
    ensures
        r == suffix_number(chars@, prefix@),
{
    let p = char_vec(prefix);
    if chars.len() < p.len() {
        return None;
    }
    let mut i: usize = 0;
    while i < p.len()
        invariant
            p@ == prefix@,
            i <= p@.len() <= chars@.len(),
            forall|j: int| 0 <= j < i ==> p@[j] == chars@[j],
        decreases p@.len() - i,
    {
        if chars[i] != p[i] {
            return None;
        }
        i = i + 1;
    }
    proof {
        assert(prefix@ =~= chars@.take(prefix@.len() as int));
    }
    parse_number(chars, p.len())
}

/// Parse the number that starts at `from`.
fn parse_number(chars: &Vec<char>, from: usize) -> (r: Option<u32>)
    requires
        from <= chars@.len(),
    ensures
        r == numeral(chars@.skip(from as int)),
{
    let ghost s = chars@.skip(from as int);
    let start: usize = if from < chars.len() && chars[from] == '+' {
        from + 1
    } else {
        from
    };
    let ghost digits = chars@.skip(start as int);
    proof {
        if start == from + 1 {
            assert(digits =~= s.skip(1));
        }
    }
    if start == chars.len() {
        return None;
    }
    let mut i: usize = start;
    let mut value: u64 = 0;
    let mut fits: bool = true;
    proof {
        assert(digits.take(0) =~= Seq::empty());
    }
    while i < chars.len()
        invariant
            start <= i <= chars@.len(),
            start == from || start == from + 1,
            s == chars@.skip(from as int),
            digits == chars@.skip(start as int),
            digits == without_plus(s),
            forall|j: int| 0 <= j < i - start ==> is_digit(digits[j]),
            fits ==> value == digits_value(digits.take(i - start)) && value <= u32::MAX,
            !fits ==> digits_value(digits.take(i - start)) > u32::MAX,
        decreases chars@.len() - i,
    {
        let c = chars[i];
        if !('0' <= c && c <= '9') {
            proof {
                let k = i - start;
                assert(0 <= k < digits.len() && digits[k] == c && !is_digit(digits[k]));
            }
            return None;
        }
        proof {
            assert(digits.take(i - start + 1).drop_last() =~= digits.take(i - start));
            assert(digits[i - start] == c);
        }
        if fits {
            value = value * 10 + (c as u32 - 48) as u64;
            if value > u32::MAX as u64 {
                fits = false;
            }
        }
        i = i + 1;
    }
    proof {
        assert(digits.take(chars@.len() - start) =~= digits);
    }
    if fits {
        Some(value as u32)
    } else {
        None
    }
}

/// A decimal numeral spells its number, in digits alone.
pub proof fn lemma_decimal_value(n: nat)
    ensures
        decimal(n).len() > 0,
        digits_value(decimal(n)) == n,
        forall|i: int| 0 <= i < decimal(n).len() ==> is_digit(#[trigger] decimal(n)[i]),
    decreases n,
{
    if n < 10 {
        assert(decimal(n).drop_last() =~= Seq::empty());
        assert(digits_value(decimal(n).drop_last()) == 0);
    } else {
        lemma_decimal_value(n / 10);
        assert(decimal(n).drop_last() =~= decimal(n / 10));
    }
}

proof fn lemma_numeral_of_decimal(n: u32)
    ensures
        numeral(decimal(n as nat)) == Some(n),
{
    lemma_decimal_value(n as nat);
    assert(is_digit(decimal(n as nat)[0]));
}

/// The fixed family's name names it and no other.
proof fn lemma_fixed_round_trip(cf: Cf)
    requires
        cf.fixed_position() < 18,
    ensures
        Cf::fixed_named(cf.name_chars()) == Some(cf),
{
    // Length and first letter tell the fixed names apart.
    reveal_strlit("Block");
    assert("Block"@.len() == 5 && "Block"@[0] == 'B');
    reveal_strlit("Stack");
    assert("Stack"@.len() == 5 && "Stack"@[0] == 'S');
    reveal_strlit("BlockResult");
    assert("BlockResult"@.len() == 11 && "BlockResult"@[0] == 'B');
    reveal_strlit("SoftConfirmation");
    assert("SoftConfirmation"@.len() == 16 && "SoftConfirmation"@[0] == 'S');
    reveal_strlit("HardConfirmation");
    assert("HardConfirmation"@.len() == 16 && "HardConfirmation"@[0] == 'H');
    reveal_strlit("RequestHighWater");
    assert("RequestHighWater"@.len() == 16 && "RequestHighWater"@[0] == 'R');
    reveal_strlit("CoilStampMark");
    assert("CoilStampMark"@.len() == 13 && "CoilStampMark"@[0] == 'C');
    reveal_strlit("L2CommandNumber");
    assert("L2CommandNumber"@.len() == 15 && "L2CommandNumber"@[0] == 'L');
    reveal_strlit("UnsignedStack");
    assert("UnsignedStack"@.len() == 13 && "UnsignedStack"@[0] == 'U');
    reveal_strlit("DepositMap");
    assert("DepositMap"@.len() == 10 && "DepositMap"@[0] == 'D');
    reveal_strlit("Treasury");
    assert("Treasury"@.len() == 8 && "Treasury"@[0] == 'T');
    reveal_strlit("EvacuationMap");
    assert("EvacuationMap"@.len() == 13 && "EvacuationMap"@[0] == 'E');
    reveal_strlit("RequestBlockIndex");
    assert("RequestBlockIndex"@.len() == 17 && "RequestBlockIndex"@[0] == 'R');
    reveal_strlit("DepositDecisionIndex");
    assert("DepositDecisionIndex"@.len() == 20 && "DepositDecisionIndex"@[0] == 'D');
    reveal_strlit("WithdrawalEffectIndex");
    assert("WithdrawalEffectIndex"@.len() == 21 && "WithdrawalEffectIndex"@[0] == 'W');
    reveal_strlit("BlockStackIndex");
    assert("BlockStackIndex"@.len() == 15 && "BlockStackIndex"@[0] == 'B');
    reveal_strlit("EffectStackIndex");
    assert("EffectStackIndex"@.len() == 16 && "EffectStackIndex"@[0] == 'E');
    reveal_strlit("Meta");
    assert("Meta"@.len() == 4 && "Meta"@[0] == 'M');
}

/// A name with a colon is no fixed family's.
proof fn lemma_colon_is_not_fixed(name: Seq<char>, k: int)
    requires
        0 <= k < name.len(),
        name[k] == ':',
    ensures
        Cf::fixed_named(name) is None,
{
    reveal_strlit("Block");
    reveal_strlit("Stack");
    reveal_strlit("BlockResult");
    reveal_strlit("SoftConfirmation");
    reveal_strlit("HardConfirmation");
    reveal_strlit("RequestHighWater");
    reveal_strlit("CoilStampMark");
    reveal_strlit("L2CommandNumber");
    reveal_strlit("UnsignedStack");
    reveal_strlit("DepositMap");
    reveal_strlit("Treasury");
    reveal_strlit("EvacuationMap");
    reveal_strlit("RequestBlockIndex");
    reveal_strlit("DepositDecisionIndex");
    reveal_strlit("WithdrawalEffectIndex");
    reveal_strlit("BlockStackIndex");
    reveal_strlit("EffectStackIndex");
    reveal_strlit("Meta");
}

proof fn lemma_satellite_round_trip(name: Seq<char>, prefix: Seq<char>, n: u32)
    requires
        name == prefix + decimal(n as nat),
    ensures
        suffix_number(name, prefix) == Some(n),
{
    lemma_numeral_of_decimal(n);
    assert(name.skip(prefix.len() as int) =~= decimal(n as nat));
    assert(prefix =~= name.take(prefix.len() as int));
}

/// Packing keeps a peer's kind and number, as long as the number fits in the bits it is given.
pub proof fn law_peer_round_trips(p: PeerId)
    requires
        p.packable(),
    ensures
        PeerId::of_wire_int(p.wire_int()) == p,
{
}

/// Unpacking and packing again gives the same integer.
pub proof fn law_wire_int_round_trips(i: u32)
    ensures
        PeerId::of_wire_int(i).packable(),
        PeerId::of_wire_int(i).wire_int() == i,
{
}

/// A family is recovered from its own name.
pub proof fn law_family_round_trips_through_its_name(cf: Cf)
    requires
        cf.nameable(),
    ensures
        Cf::named(cf.name_chars()) == Some(cf),
{
    reveal_strlit("Request:");
    reveal_strlit("SoftAck:");
    reveal_strlit("HardAck:");
    reveal_strlit("HubHardAck:");
    let name = cf.name_chars();
    match cf {
        Cf::Request(n) => {
            lemma_satellite_round_trip(name, "Request:"@, n);
            lemma_colon_is_not_fixed(name, 7);
        },
        Cf::SoftAck(n) => {
            lemma_satellite_round_trip(name, "SoftAck:"@, n);
            lemma_colon_is_not_fixed(name, 7);
            assert(name[0] != "Request:"@[0]);
        },
        Cf::HardAck(p) => {
            lemma_satellite_round_trip(name, "HardAck:"@, p.wire_int());
            lemma_colon_is_not_fixed(name, 7);
            law_peer_round_trips(p);
            assert(name[0] != "Request:"@[0]);
            assert(name[0] != "SoftAck:"@[0]);
        },
        Cf::HubHardAck(n) => {
            lemma_satellite_round_trip(name, "HubHardAck:"@, n);
            lemma_colon_is_not_fixed(name, 10);
            assert(name[0] != "Request:"@[0]);
            assert(name[0] != "SoftAck:"@[0]);
            assert(name[1] != "HardAck:"@[1]);
        },
        _ => {
            lemma_fixed_round_trip(cf);
        },
    }
}

/// No two families share a name: in particular a head peer's and a coil peer's journals never
/// collide on the same number.
pub proof fn law_names_are_distinct(a: Cf, b: Cf)
    requires
        a.nameable(),
        b.nameable(),
        a.name_chars() == b.name_chars(),
    ensures
        a == b,
{
    law_family_round_trips_through_its_name(a);
    law_family_round_trips_through_its_name(b);
}

/// A family that was recovered from a name can be named again.
pub proof fn law_parsed_families_are_nameable(name: Seq<char>)
    ensures
        Cf::named(name) matches Some(cf) ==> cf.nameable(),
{
}

/// The declared order tells every two families apart.
pub proof fn law_order_is_strict(a: Cf, b: Cf)
    requires
        a.position() == b.position(),
    ensures
        a == b,
{
}

} // verus!
