//! Why a store, an archive or one of their rows is refused.

use crate::store::cf::Cf;
use crate::store::journal::STAMP_WIDTH;
use crate::store::meta::{StoreIdentity, SUPPORTED_STORE_VERSION};
use crate::text::{decimal, push_decimal};
use vstd::prelude::*;

verus! {

/// A refusal, with what an operator needs to act on it.
#[derive(Debug, Clone)]
pub enum StoreError {
    /// The family is no journal, so an index names no key in it.
    NoIndexKey { cf: Cf },
    /// The family is no journal, so it has no arrival order.
    NotScannable { cf: Cf },
    /// The family is no journal, so it has no entry to read by index.
    NoIndexedEntries { cf: Cf },
    /// The family is no journal, so an archive has no resume point in it.
    NoTip { cf: Cf },
    /// The index is past what the journal counts in.
    IndexTooLarge { cf: Cf, index: u64 },
    /// The key is not of the journal's width.
    KeyWidth { cf: Cf, found: usize, expected: usize },
    /// The value is too short to hold an arrival stamp.
    ShortValue { found: usize },
    /// The entry's value is too short to hold an arrival stamp.
    UnreadableEntry { cf: Cf, index: u64, found: usize },
    /// The schema version is not four bytes.
    VersionWidth { found: usize },
    /// The packed peer id is not four bytes.
    PeerIdWidth { found: usize },
    /// There is no schema version at all.
    NoVersion,
    /// Some but not all fields of the identity stamp are there.
    PartialIdentity { present: usize },
    /// The schema version is another than this build reads.
    UnsupportedVersion { version: u32 },
    /// The store to archive carries no identity stamp.
    NoIdentity,
    /// The archive is stamped with another identity than the store to archive.
    DifferentIdentity { archive: StoreIdentity, store: StoreIdentity },
    /// The store does not hold the family.
    MissingFromStore { cf: Cf },
    /// The archive does not hold the family.
    MissingFromArchive { cf: Cf },
    /// The archive holds a family that was not asked for.
    NotAskedFor { name: String },
    /// The payload is no request record; the account says what is wrong with it.
    UndecodableRecord { account: String },
}

impl StoreError {
    /// The message an operator reads.
    pub open spec fn text(self) -> Seq<char> {
        match self {
            StoreError::NoIndexKey { cf } => cf.name_chars()
                + " is not a journal; it has no index key"@,
            StoreError::NotScannable { cf } => cf.name_chars()
                + " is not a journal; it cannot be scanned in arrival order"@,
            StoreError::NoIndexedEntries { cf } => cf.name_chars()
                + " is not a journal; it has no indexed entries"@,
            StoreError::NoTip { cf } => cf.name_chars()
                + " is not a journal; it has no tip to resume from"@,
            StoreError::IndexTooLarge { cf, index } => cf.name_chars() + " counts in u32; "@
                + decimal(index as nat) + " does not fit"@,
            StoreError::KeyWidth { cf, found, expected } => cf.name_chars() + " key is "@
                + decimal(found as nat) + " bytes; expected "@ + decimal(expected as nat),
            StoreError::ShortValue { found } => short_value(found),
            StoreError::UnreadableEntry { cf, index, found } => "reading "@ + cf.name_chars()
                + " entry "@ + decimal(index as nat) + ": "@ + short_value(found),
            StoreError::VersionWidth { found } => "store version: expected 4 bytes, got "@
                + decimal(found as nat),
            StoreError::PeerIdWidth { found } => "own peer id: expected 4 bytes, got "@
                + decimal(found as nat),
            StoreError::NoVersion => Cf::Meta.name_chars()
                + " has no store_version row; it is not a hydrozoa store"@,
            StoreError::PartialIdentity { present } => "the store's identity stamp has "@
                + decimal(present as nat) + " of its 4 fields; it is partially written"@,
            StoreError::UnsupportedVersion { version } => "store schema version "@
                + decimal(version as nat) + " is not "@ + decimal(SUPPORTED_STORE_VERSION as nat),
            StoreError::NoIdentity =>
                "the node's store carries no identity stamp; refusing to archive a store whose head and peer cannot be established"@,
            StoreError::DifferentIdentity { archive, store } =>
                "this archive belongs to a different head, configuration or peer than the store being archived.\n  archive: "@
                + whose(archive) + "\n  store:   "@ + whose(store),
            StoreError::MissingFromStore { cf } => cf.name_chars()
                + " is not present in this store"@,
            StoreError::MissingFromArchive { cf } => cf.name_chars()
                + " is not present in this archive"@,
            StoreError::NotAskedFor { name } => name@
                + " is present in this archive but not among the families to open"@,
            StoreError::UndecodableRecord { account } => account@,
        }
    }

    /// The message an operator reads.
    pub fn message(&self) -> (r: String)
        ensures
            r@ == self.text(),
    {
        match self {
            StoreError::NoIndexKey { cf } => about(*cf, " is not a journal; it has no index key"),
            StoreError::NotScannable { cf } => about(
                *cf,
                " is not a journal; it cannot be scanned in arrival order",
            ),
            StoreError::NoIndexedEntries { cf } => about(
                *cf,
                " is not a journal; it has no indexed entries",
            ),
            StoreError::NoTip { cf } => about(
                *cf,
                " is not a journal; it has no tip to resume from",
            ),
            StoreError::IndexTooLarge { cf, index } => {
                let mut out = about(*cf, " counts in u32; ");
                push_decimal(&mut out, *index);
                out.append(" does not fit");
                out
            },
            StoreError::KeyWidth { cf, found, expected } => {
                let mut out = about(*cf, " key is ");
                push_decimal(&mut out, *found as u64);
                out.append(" bytes; expected ");
                push_decimal(&mut out, *expected as u64);
                out
            },
            StoreError::ShortValue { found } => short_value_text(*found),
            StoreError::UnreadableEntry { cf, index, found } => {
                let mut out = "reading ".to_owned();
                out.append(cf.name().as_str());
                out.append(" entry ");
                push_decimal(&mut out, *index);
                out.append(": ");
                out.append(short_value_text(*found).as_str());
                out
            },
            StoreError::VersionWidth { found } => {
                let mut out = "store version: expected 4 bytes, got ".to_owned();
                push_decimal(&mut out, *found as u64);
                out
            },
            StoreError::PeerIdWidth { found } => {
                let mut out = "own peer id: expected 4 bytes, got ".to_owned();
                push_decimal(&mut out, *found as u64);
                out
            },
            StoreError::NoVersion => about(
                Cf::Meta,
                " has no store_version row; it is not a hydrozoa store",
            ),
            StoreError::PartialIdentity { present } => counted(
                "the store's identity stamp has ",
                *present as u64,
                " of its 4 fields; it is partially written",
            ),
            StoreError::UnsupportedVersion { version } => {
                let mut out = counted("store schema version ", *version as u64, " is not ");
                push_decimal(&mut out, SUPPORTED_STORE_VERSION as u64);
                out
            },
            StoreError::NoIdentity =>
                "the node's store carries no identity stamp; refusing to archive a store whose head and peer cannot be established".to_owned(),
            StoreError::DifferentIdentity { archive, store } => {
                let mut out =
                    "this archive belongs to a different head, configuration or peer than the store being archived.\n  archive: ".to_owned();
                out.append(whose_text(archive).as_str());
                out.append("\n  store:   ");
                out.append(whose_text(store).as_str());
                out
            },
            StoreError::MissingFromStore { cf } => about(*cf, " is not present in this store"),
            StoreError::MissingFromArchive { cf } => about(*cf, " is not present in this archive"),
            StoreError::NotAskedFor { name } => {
                let mut out = name.clone();
                out.append(" is present in this archive but not among the families to open");
                out
            },
            StoreError::UndecodableRecord { account } => account.clone(),
        }
    }
}

/// What is wrong with a value too short for an arrival stamp.
pub open spec fn short_value(found: usize) -> Seq<char> {
    "journal value is "@ + decimal(found as nat) + " bytes, too short for a "@
        + decimal(STAMP_WIDTH as nat) + "-byte arrival stamp"@
}

/// Which head, peer and configuration an identity stamp names.
pub open spec fn whose(identity: StoreIdentity) -> Seq<char> {
    "head "@ + identity.head_id@ + " peer "@ + identity.own_peer_id.shown() + " ("@
        + identity.head_params_hash@ + ")"@
}

fn about(cf: Cf, what: &str) -> (r: String)
    ensures
        r@ == cf.name_chars() + what@,
{
    let mut out = cf.name();
    out.append(what);
    out
}

fn counted(before: &str, n: u64, after: &str) -> (r: String)
    ensures
        r@ == before@ + decimal(n as nat) + after@,
{
    let mut out = before.to_owned();
    push_decimal(&mut out, n);
    out.append(after);
    out
}

fn short_value_text(found: usize) -> (r: String)
    ensures
        r@ == short_value(found),
{
    let mut out = counted("journal value is ", found as u64, " bytes, too short for a ");
    push_decimal(&mut out, STAMP_WIDTH as u64);
    out.append("-byte arrival stamp");
    out
}

fn whose_text(identity: &StoreIdentity) -> (r: String)
    ensures
        r@ == whose(*identity),
{
    let mut out = "head ".to_owned();
    out.append(identity.head_id.as_str());
    out.append(" peer ");
    out.append(identity.own_peer_id.display().as_str());
    out.append(" (");
    out.append(identity.head_params_hash.as_str());
    out.append(")");
    out
}

} // verus!
