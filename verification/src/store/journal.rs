//! Journal framing: the arrival stamp every journal value carries, and the index its key encodes.

use crate::bytes::{
    be_bytes, be_decode, be_encode, be_limit, be_value, copy_bytes, law_byte_order_is_numeric_order,
    law_bytes_round_trip, law_number_round_trips, lemma_be_bytes_len, lemma_be_limits,
    lemma_be_value_bound, lemma_be_value_concat, lex_less, push_bytes,
};
use crate::store::cf::Cf;
use crate::store::error::StoreError;
use vstd::prelude::*;
use vstd::slice::slice_subrange;

verus! {

/// Width of the arrival-stamp prefix on every journal value, in bytes.
pub const STAMP_WIDTH: usize = 12;

/// The durable `(generation, monotonic_nanos)` pair that orders entries across journals.
///
/// `generation` is a per-process boot counter held in the store and bumped at startup, so the
/// order survives a restart that resets the process clock. `monotonic_nanos` is strictly
/// increasing within one process. Encoded big-endian as `[generation:4][monotonic_nanos:8]`, so
/// raw byte order already is `(generation, monotonic_nanos)` order.
#[derive(Clone, Copy, PartialEq, Eq, PartialOrd, Ord, Debug, Default, Structural)]
pub struct ArrivalStamp {
    pub generation: u32,
    pub monotonic_nanos: u64,
}

impl ArrivalStamp {
    /// The stamp's bytes.
    pub open spec fn encoded(self) -> Seq<u8> {
        be_bytes(self.generation as nat, 4) + be_bytes(self.monotonic_nanos as nat, 8)
    }

    /// The stamp that the first bytes of a value hold.
    pub open spec fn decoded(s: Seq<u8>) -> ArrivalStamp {
        ArrivalStamp {
            generation: be_value(s.subrange(0, 4)) as u32,
            monotonic_nanos: be_value(s.subrange(4, 12)) as u64,
        }
    }

    /// Whether this stamp arrived before another.
    pub open spec fn before(self, other: ArrivalStamp) -> bool {
        self.generation < other.generation || self.generation == other.generation
            && self.monotonic_nanos < other.monotonic_nanos
    }

    /// Read a stamp from the first [`STAMP_WIDTH`] bytes.
    ///
    /// A value too short to hold one is store corruption, not an empty payload: every journal
    /// write is framed, so there is no such thing as an unstamped journal value.
    pub fn from_bytes(bytes: &[u8]) -> (r: Result<ArrivalStamp, StoreError>)
        ensures
            r == (if bytes@.len() < STAMP_WIDTH {
                Err::<ArrivalStamp, StoreError>(StoreError::ShortValue { found: bytes@.len() as usize })
            } else {
                Ok(ArrivalStamp::decoded(bytes@))
            }),
    {
        if bytes.len() < STAMP_WIDTH {
            return Err(StoreError::ShortValue { found: bytes.len() });
        }
        proof {
            lemma_be_limits();
            lemma_be_value_bound(bytes@.subrange(0, 4));
            lemma_be_value_bound(bytes@.subrange(4, 12));
        }
        Ok(
            ArrivalStamp {
                generation: be_decode(slice_subrange(bytes, 0, 4)) as u32,
                monotonic_nanos: be_decode(slice_subrange(bytes, 4, 12)),
            },
        )
    }

    pub fn to_bytes(self) -> (r: [u8; STAMP_WIDTH])
        ensures
            r@ == self.encoded(),
    {
        let g = be_encode(self.generation as u64, 4);
        let n = be_encode(self.monotonic_nanos, 8);
        proof {
            lemma_be_bytes_len(self.generation as nat, 4);
            lemma_be_bytes_len(self.monotonic_nanos as nat, 8);
        }
        let out: [u8; STAMP_WIDTH] = [
            g[0],
            g[1],
            g[2],
            g[3],
            n[0],
            n[1],
            n[2],
            n[3],
            n[4],
            n[5],
            n[6],
            n[7],
        ];
        assert(out@ =~= self.encoded());
        out
    }
}

/// One entry read out of a journal: where it sits in its own stream, when it arrived, and the
/// payload bytes with the stamp prefix stripped.
///
/// The payload is handed back **encoded**. An archiver copies it verbatim and never needs to
/// understand it; a reader that does want the typed form decodes it with the codec for that
/// journal (only the Request lane has one here).
#[derive(Clone, Debug)]
pub struct Entry {
    /// The column family, which is also the journal's identity and its author.
    pub cf: Cf,
    /// The within-journal index.
    pub index: u64,
    pub stamp: ArrivalStamp,
    /// The wire payload, stamp prefix removed.
    pub payload: Vec<u8>,
}

impl Entry {
    /// The value as the node stored it.
    pub open spec fn stored(self) -> Seq<u8> {
        self.stamp.encoded() + self.payload@
    }

    /// Whether the entry is what a journal's row holds: its index from the key, its stamp and its
    /// payload from the value.
    pub open spec fn reads(self, cf: Cf, key: Seq<u8>, value: Seq<u8>) -> bool {
        &&& self.cf == cf
        &&& self.index == be_value(key)
        &&& self.stamp == ArrivalStamp::decoded(value)
        &&& self.payload@ == value.skip(STAMP_WIDTH as int)
    }

    /// Re-frame the entry as the node stored it: `[stamp:12][payload...]`.
    ///
    /// An archive that keeps the framed bytes keeps the arrival order with them, so a restored
    /// store sorts the same way the node's did.
    pub fn framed(&self) -> (r: Vec<u8>)
        ensures
            r@ == self.stored(),
    {
        let stamp = self.stamp.to_bytes();
        let mut out = copy_bytes(stamp.as_slice());
        push_bytes(&mut out, self.payload.as_slice());
        out
    }
}

/// The key bytes of a journal index, or why it has none.
pub open spec fn encoded_key(cf: Cf, index: u64) -> Result<Seq<u8>, StoreError> {
    match cf.width() {
        None => Err(StoreError::NoIndexKey { cf }),
        Some(width) => if index >= be_limit(width as nat) {
            Err(StoreError::IndexTooLarge { cf, index })
        } else {
            Ok(be_bytes(index as nat, width as nat))
        },
    }
}

/// The index a journal key holds, or why it holds none.
pub open spec fn decoded_key(cf: Cf, key: Seq<u8>) -> Result<u64, StoreError> {
    match cf.width() {
        None => Err(StoreError::NoIndexKey { cf }),
        Some(width) => if key.len() != width {
            Err(StoreError::KeyWidth { cf, found: key.len() as usize, expected: width })
        } else {
            Ok(be_value(key) as u64)
        },
    }
}

/// Why a journal's row holds no entry, if it holds none.
pub open spec fn entry_fault(cf: Cf, key: Seq<u8>, value: Seq<u8>) -> Option<StoreError> {
    match decoded_key(cf, key) {
        Err(e) => Some(e),
        Ok(index) => if value.len() < STAMP_WIDTH {
            Some(StoreError::UnreadableEntry { cf, index, found: value.len() as usize })
        } else {
            None
        },
    }
}

/// Encode a journal index as the key bytes for `cf`: 4 or 8 bytes, big-endian.
///
/// Big-endian fixed width is what makes a lexicographic range scan a numeric range scan, which is
/// the property both replay and a prefix-trim rely on.
pub fn encode_key(cf: Cf, index: u64) -> (r: Result<Vec<u8>, StoreError>)
    ensures
        match r {
            Ok(key) => encoded_key(cf, index) == Ok::<Seq<u8>, StoreError>(key@),
            Err(e) => encoded_key(cf, index) == Err::<Seq<u8>, StoreError>(e),
        },
{
    proof {
        lemma_be_limits();
    }
    match cf.key_width() {
        None => Err(StoreError::NoIndexKey { cf }),
        Some(width) => if width == 4 && index > u32::MAX as u64 {
            Err(StoreError::IndexTooLarge { cf, index })
        } else {
            Ok(be_encode(index, width))
        },
    }
}

/// Decode a journal key back to its index, given the family it came from.
pub fn decode_key(cf: Cf, bytes: &[u8]) -> (r: Result<u64, StoreError>)
    ensures
        r == decoded_key(cf, bytes@),
{
    let width = match cf.key_width() {
        Some(w) => w,
        None => {
            return Err(StoreError::NoIndexKey { cf });
        },
    };
    if bytes.len() != width {
        return Err(StoreError::KeyWidth { cf, found: bytes.len(), expected: width });
    }
    Ok(be_decode(bytes))
}

/// Split a stored journal value into its stamp and its payload.
pub fn unframe(framed: &[u8]) -> (r: Result<(ArrivalStamp, &[u8]), StoreError>)
    ensures
        match r {
            Ok((stamp, payload)) => {
                &&& framed@.len() >= STAMP_WIDTH
                &&& stamp == ArrivalStamp::decoded(framed@)
                &&& payload@ == framed@.skip(STAMP_WIDTH as int)
            },
            Err(e) => {
                &&& framed@.len() < STAMP_WIDTH
                &&& e == (StoreError::ShortValue { found: framed@.len() as usize })
            },
        },
{
    match ArrivalStamp::from_bytes(framed) {
        Ok(stamp) => {
            let payload = slice_subrange(framed, STAMP_WIDTH, framed.len());
            assert(payload@ =~= framed@.skip(STAMP_WIDTH as int));
            Ok((stamp, payload))
        },
        Err(e) => Err(e),
    }
}

/// Read one row of a journal as an entry.
pub fn read_entry(cf: Cf, key: &[u8], value: &[u8]) -> (r: Result<Entry, StoreError>)
    ensures
        match r {
            Ok(entry) => entry_fault(cf, key@, value@) is None && entry.reads(cf, key@, value@),
            Err(e) => entry_fault(cf, key@, value@) == Some(e),
        },
{
    let index = match decode_key(cf, key) {
        Ok(index) => index,
        Err(e) => {
            return Err(e);
        },
    };
    proof {
        lemma_be_value_bound(key@);
        lemma_be_limits();
    }
    match unframe(value) {
        Ok((stamp, payload)) => Ok(Entry { cf, index, stamp, payload: copy_bytes(payload) }),
        Err(_) => Err(StoreError::UnreadableEntry { cf, index, found: value.len() }),
    }
}

/// A stamp survives being written and read back.
pub proof fn law_stamp_round_trips(stamp: ArrivalStamp)
    ensures
        stamp.encoded().len() == STAMP_WIDTH,
        ArrivalStamp::decoded(stamp.encoded()) == stamp,
{
    lemma_be_limits();
    law_number_round_trips(stamp.generation as nat, 4);
    law_number_round_trips(stamp.monotonic_nanos as nat, 8);
    assert(stamp.encoded().subrange(0, 4) =~= be_bytes(stamp.generation as nat, 4));
    assert(stamp.encoded().subrange(4, 12) =~= be_bytes(stamp.monotonic_nanos as nat, 8));
}

/// Comparing the raw bytes of two stamps compares the stamps, so a merge of journals may order
/// entries by their value's prefix.
pub proof fn law_stamp_byte_order_is_stamp_order(a: ArrivalStamp, b: ArrivalStamp)
    ensures
        lex_less(a.encoded(), b.encoded()) <==> a.before(b),
{
    lemma_be_limits();
    law_stamp_round_trips(a);
    law_stamp_round_trips(b);
    law_number_round_trips(a.generation as nat, 4);
    law_number_round_trips(a.monotonic_nanos as nat, 8);
    law_number_round_trips(b.generation as nat, 4);
    law_number_round_trips(b.monotonic_nanos as nat, 8);
    lemma_be_value_concat(be_bytes(a.generation as nat, 4), be_bytes(a.monotonic_nanos as nat, 8));
    lemma_be_value_concat(be_bytes(b.generation as nat, 4), be_bytes(b.monotonic_nanos as nat, 8));
    law_byte_order_is_numeric_order(a.encoded(), b.encoded());
}

/// An index survives being written as a key and read back.
pub proof fn law_index_round_trips(cf: Cf, index: u64)
    requires
        encoded_key(cf, index) is Ok,
    ensures
        decoded_key(cf, encoded_key(cf, index)->Ok_0) == Ok::<u64, StoreError>(index),
{
    law_number_round_trips(index as nat, cf.width()->0 as nat);
}

/// A key that holds an index is the key that the index is written as.
pub proof fn law_key_round_trips(cf: Cf, key: Seq<u8>)
    requires
        decoded_key(cf, key) is Ok,
    ensures
        encoded_key(cf, decoded_key(cf, key)->Ok_0) == Ok::<Seq<u8>, StoreError>(key),
        be_value(key) <= u64::MAX,
{
    lemma_be_limits();
    lemma_be_value_bound(key);
    law_bytes_round_trip(key);
}

/// Keys of one journal sort the way their indices do.
pub proof fn law_key_order_is_index_order(cf: Cf, a: u64, b: u64)
    requires
        encoded_key(cf, a) is Ok,
        encoded_key(cf, b) is Ok,
    ensures
        lex_less(encoded_key(cf, a)->Ok_0, encoded_key(cf, b)->Ok_0) <==> a < b,
{
    let width = cf.width()->0 as nat;
    law_number_round_trips(a as nat, width);
    law_number_round_trips(b as nat, width);
    law_byte_order_is_numeric_order(be_bytes(a as nat, width), be_bytes(b as nat, width));
}

/// Splitting a stored value and framing it again gives the stored bytes.
pub proof fn law_framing_round_trips(value: Seq<u8>)
    requires
        value.len() >= STAMP_WIDTH,
    ensures
        ArrivalStamp::decoded(value).encoded() + value.skip(STAMP_WIDTH as int) == value,
{
    lemma_be_limits();
    let g = value.subrange(0, 4);
    let n = value.subrange(4, 12);
    lemma_be_value_bound(g);
    lemma_be_value_bound(n);
    law_bytes_round_trip(g);
    law_bytes_round_trip(n);
    assert(g + n + value.skip(STAMP_WIDTH as int) =~= value);
}

/// Framing an entry and splitting it again gives its stamp and its payload.
pub proof fn law_unframing_round_trips(stamp: ArrivalStamp, payload: Seq<u8>)
    ensures
        (stamp.encoded() + payload).len() >= STAMP_WIDTH,
        ArrivalStamp::decoded(stamp.encoded() + payload) == stamp,
        (stamp.encoded() + payload).skip(STAMP_WIDTH as int) == payload,
{
    law_stamp_round_trips(stamp);
    let value = stamp.encoded() + payload;
    assert(value.subrange(0, 4) =~= stamp.encoded().subrange(0, 4));
    assert(value.subrange(4, 12) =~= stamp.encoded().subrange(4, 12));
    assert(value.skip(STAMP_WIDTH as int) =~= payload);
}

/// What an entry is stored as is the row it was read from, byte for byte.
pub proof fn law_entry_is_stored_as_it_was_read(entry: Entry, cf: Cf, key: Seq<u8>, value: Seq<u8>)
    requires
        entry_fault(cf, key, value) is None,
        entry.reads(cf, key, value),
    ensures
        encoded_key(cf, entry.index) == Ok::<Seq<u8>, StoreError>(key),
        entry.stored() == value,
{
    law_key_round_trips(cf, key);
    law_framing_round_trips(value);
}

} // verus!
