//! The `Meta` family: what schema a store is written in, and what it belongs to.
//!
//! Both are name-keyed UTF-8 point lookups.

use crate::bytes::{be_decode, be_value, lemma_be_limits, lemma_be_value_bound};
use crate::store::cf::PeerId;
use crate::store::error::StoreError;
use vstd::prelude::*;
use vstd::utf8::{decode_utf8, valid_utf8};

verus! {

/// The schema version this build was written against.
///
/// The format still churns during development, a change rebuilds the store rather than migrating
/// it, and the bump is what stops an old store being misread instead of rejected.
pub const SUPPORTED_STORE_VERSION: u32 = 3;

pub const VERSION_KEY: &'static str = "store_version";

pub const HEAD_PARAMS_HASH_KEY: &'static str = "head_params_hash";

pub const HEAD_ID_KEY: &'static str = "head_id";

pub const HEAD_ADDRESS_KEY: &'static str = "head_address";

pub const OWN_PEER_ID_KEY: &'static str = "own_peer_id";

/// What a store belongs to: one head, under one configuration, written by one peer.
///
/// Stamped when a fresh store is initialized. An archiver checks it because pointing at the wrong
/// store does not otherwise fail, it just proceeds on data that means something else, and records
/// it so an archive says which head it came from without needing that head's config alongside.
///
/// `head_id` and `head_address` are stored in their readable forms (hex and bech32), because a
/// store dump has no config to decode them against.
#[derive(PartialEq, Eq, Debug)]
pub struct StoreIdentity {
    pub head_params_hash: String,
    pub head_id: String,
    pub head_address: String,
    pub own_peer_id: PeerId,
}

impl Clone for StoreIdentity {
    fn clone(&self) -> (r: StoreIdentity)
        ensures
            r == *self,
    {
        StoreIdentity {
            head_params_hash: self.head_params_hash.clone(),
            head_id: self.head_id.clone(),
            head_address: self.head_address.clone(),
            own_peer_id: self.own_peer_id,
        }
    }
}

impl StoreIdentity {
    /// Whether two stamps name the same head, configuration and peer.
    pub open spec fn same(self, other: StoreIdentity) -> bool {
        &&& self.head_params_hash@ == other.head_params_hash@
        &&& self.head_id@ == other.head_id@
        &&& self.head_address@ == other.head_address@
        &&& self.own_peer_id == other.own_peer_id
    }

    /// Whether the stamp is what the four rows hold.
    pub open spec fn reads(
        self,
        head_params_hash: Seq<u8>,
        head_id: Seq<u8>,
        head_address: Seq<u8>,
        own_peer_id: Seq<u8>,
    ) -> bool {
        &&& text_reads(self.head_params_hash@, head_params_hash)
        &&& text_reads(self.head_id@, head_id)
        &&& text_reads(self.head_address@, head_address)
        &&& self.own_peer_id == PeerId::of_wire_int(be_value(own_peer_id) as u32)
    }

    pub fn is_same(&self, other: &StoreIdentity) -> (r: bool)
        ensures
            r == self.same(*other),
    {
        self.head_params_hash == other.head_params_hash && self.head_id == other.head_id
            && self.head_address == other.head_address && self.own_peer_id == other.own_peer_id
    }
}

/// A store's `Meta` family, as far as a reader cares.
#[derive(PartialEq, Eq, Debug)]
pub struct StoreMeta {
    pub version: u32,
    /// `None` for a store predating the identity stamp, or one never initialized.
    pub identity: Option<StoreIdentity>,
}

impl Clone for StoreMeta {
    fn clone(&self) -> (r: StoreMeta)
        ensures
            r == *self,
    {
        let identity = match &self.identity {
            Some(identity) => Some(identity.clone()),
            None => None,
        };
        StoreMeta { version: self.version, identity }
    }
}

impl StoreMeta {
    /// Whether this build reads the store's schema, refusing rather than misreading another.
    pub fn check_version(&self) -> (r: Result<(), StoreError>)
        ensures
            r == (if self.version == SUPPORTED_STORE_VERSION {
                Ok::<(), StoreError>(())
            } else {
                Err(StoreError::UnsupportedVersion { version: self.version })
            }),
            r is Ok <==> self.version == 3,
    {
        if self.version == SUPPORTED_STORE_VERSION {
            Ok(())
        } else {
            Err(StoreError::UnsupportedVersion { version: self.version })
        }
    }

    /// Whether this is what the rows of a `Meta` family assemble to.
    pub open spec fn reads(
        self,
        version: Option<Seq<u8>>,
        head_params_hash: Option<Seq<u8>>,
        head_id: Option<Seq<u8>>,
        head_address: Option<Seq<u8>>,
        own_peer_id: Option<Seq<u8>>,
    ) -> bool {
        &&& version matches Some(v) && self.version == be_value(v)
        &&& match self.identity {
            None => {
                &&& head_params_hash is None
                &&& head_id is None
                &&& head_address is None
                &&& own_peer_id is None
            },
            Some(identity) => {
                &&& head_params_hash matches Some(hash)
                &&& head_id matches Some(id)
                &&& head_address matches Some(address)
                &&& own_peer_id matches Some(peer)
                &&& identity.reads(hash, id, address, peer)
            },
        }
    }
}

/// The text that bytes hold, with what is no UTF-8 in them replaced.
pub uninterp spec fn utf8_lossy(bytes: Seq<u8>) -> Seq<char>;

/// Whether text is what a row's bytes hold: UTF-8 as it stands, anything else as far as it can be
/// read.
pub open spec fn text_reads(text: Seq<char>, bytes: Seq<u8>) -> bool {
    &&& text == utf8_lossy(bytes)
    &&& valid_utf8(bytes) ==> text == decode_utf8(bytes)
}

/// Calls `String::from_utf8_lossy`. Bytes that are UTF-8 come back as the text they encode; of
/// other bytes nothing is claimed but that the same bytes give the same text.
#[verifier::external_body]
fn lossy_text(bytes: &[u8]) -> (r: String)
    ensures
        r@ == utf8_lossy(bytes@),
        valid_utf8(bytes@) ==> r@ == decode_utf8(bytes@),
{
    String::from_utf8_lossy(bytes).into_owned()
}

/// The bytes of a row that may be absent.
pub open spec fn row_bytes(row: Option<&[u8]>) -> Option<Seq<u8>> {
    match row {
        Some(bytes) => Some(bytes@),
        None => None,
    }
}

pub open spec fn present(row: Option<Seq<u8>>) -> nat {
    if row is Some {
        1
    } else {
        0
    }
}

/// Why the rows of a `Meta` family do not assemble, if they do not.
pub open spec fn meta_fault(
    version: Option<Seq<u8>>,
    head_params_hash: Option<Seq<u8>>,
    head_id: Option<Seq<u8>>,
    head_address: Option<Seq<u8>>,
    own_peer_id: Option<Seq<u8>>,
) -> Option<StoreError> {
    let fields = present(head_params_hash) + present(head_id) + present(head_address) + present(
        own_peer_id,
    );
    match version {
        None => Some(StoreError::NoVersion),
        Some(v) => if v.len() != 4 {
            Some(StoreError::VersionWidth { found: v.len() as usize })
        } else if fields == 0 {
            None
        } else if fields < 4 {
            Some(StoreError::PartialIdentity { present: fields as usize })
        } else if own_peer_id->0.len() != 4 {
            Some(StoreError::PeerIdWidth { found: own_peer_id->0.len() as usize })
        } else {
            None
        },
    }
}

/// Decode `store_version` from its 4-byte big-endian form.
pub fn decode_version(bytes: &[u8]) -> (r: Result<u32, StoreError>)
    ensures
        r == (if bytes@.len() != 4 {
            Err::<u32, StoreError>(StoreError::VersionWidth { found: bytes@.len() as usize })
        } else {
            Ok(be_value(bytes@) as u32)
        }),
        bytes@.len() == 4 ==> be_value(bytes@) <= u32::MAX,
{
    if bytes.len() != 4 {
        return Err(StoreError::VersionWidth { found: bytes.len() });
    }
    proof {
        lemma_be_limits();
        lemma_be_value_bound(bytes@);
    }
    Ok(be_decode(bytes) as u32)
}

/// Decode `own_peer_id` from the 4-byte big-endian packed peer id.
pub fn decode_own_peer_id(bytes: &[u8]) -> (r: Result<PeerId, StoreError>)
    ensures
        r == (if bytes@.len() != 4 {
            Err::<PeerId, StoreError>(StoreError::PeerIdWidth { found: bytes@.len() as usize })
        } else {
            Ok(PeerId::of_wire_int(be_value(bytes@) as u32))
        }),
{
    if bytes.len() != 4 {
        return Err(StoreError::PeerIdWidth { found: bytes.len() });
    }
    proof {
        lemma_be_limits();
        lemma_be_value_bound(bytes@);
    }
    Ok(PeerId::from_wire_int(be_decode(bytes) as u32))
}

/// Assemble a [`StoreMeta`] from the raw `Meta` rows.
///
/// A partially written identity stamp is an error rather than `None`. All four fields are written
/// in one step on a fresh open, so a store holding some of them is one this build does not
/// understand, and treating it as unstamped would bless whatever store the caller happened to
/// point at, which is the mistake the stamp exists to catch.
pub fn assemble(
    version: Option<&[u8]>,
    head_params_hash: Option<&[u8]>,
    head_id: Option<&[u8]>,
    head_address: Option<&[u8]>,
    own_peer_id: Option<&[u8]>,
) -> (r: Result<StoreMeta, StoreError>)
    ensures
        match r {
            Ok(meta) => {
                &&& meta_fault(
                    row_bytes(version),
                    row_bytes(head_params_hash),
                    row_bytes(head_id),
                    row_bytes(head_address),
                    row_bytes(own_peer_id),
                ) is None
                &&& meta.reads(
                    row_bytes(version),
                    row_bytes(head_params_hash),
                    row_bytes(head_id),
                    row_bytes(head_address),
                    row_bytes(own_peer_id),
                )
            },
            Err(e) => meta_fault(
                row_bytes(version),
                row_bytes(head_params_hash),
                row_bytes(head_id),
                row_bytes(head_address),
                row_bytes(own_peer_id),
            ) == Some(e),
        },
{
    let version = match version {
        Some(v) => match decode_version(v) {
            Ok(v) => v,
            Err(e) => {
                return Err(e);
            },
        },
        None => {
            return Err(StoreError::NoVersion);
        },
    };
    let fields = count(head_params_hash) + count(head_id) + count(head_address) + count(
        own_peer_id,
    );
    if fields == 0 {
        return Ok(StoreMeta { version, identity: None });
    }
    match (head_params_hash, head_id, head_address, own_peer_id) {
        (Some(hash), Some(id), Some(address), Some(peer)) => match decode_own_peer_id(peer) {
            Ok(own_peer_id) => Ok(
                StoreMeta {
                    version,
                    identity: Some(
                        StoreIdentity {
                            head_params_hash: lossy_text(hash),
                            head_id: lossy_text(id),
                            head_address: lossy_text(address),
                            own_peer_id,
                        },
                    ),
                },
            ),
            Err(e) => Err(e),
        },
        _ => Err(StoreError::PartialIdentity { present: fields }),
    }
}

fn count(row: Option<&[u8]>) -> (r: usize)
    ensures
        r == present(row_bytes(row)),
{
    if row.is_some() {
        1
    } else {
        0
    }
}

/// A store that holds some but not all fields of an identity stamp is never read as unstamped,
/// nor as stamped: it does not assemble at all.
pub proof fn law_partial_stamp_is_refused(
    version: Option<Seq<u8>>,
    head_params_hash: Option<Seq<u8>>,
    head_id: Option<Seq<u8>>,
    head_address: Option<Seq<u8>>,
    own_peer_id: Option<Seq<u8>>,
)
    requires
        head_params_hash is Some || head_id is Some || head_address is Some || own_peer_id is Some,
        head_params_hash is None || head_id is None || head_address is None || own_peer_id is None,
    ensures
        meta_fault(version, head_params_hash, head_id, head_address, own_peer_id) is Some,
{
}

} // verus!
