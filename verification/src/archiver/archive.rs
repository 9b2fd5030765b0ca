//! The archive: a second store carrying the same column families as the node's.
//!
//! Keeping the node's own layout is what makes a restore a copy rather than a conversion: a node
//! can be pointed at a restored archive and open it. It also means values are written **exactly as
//! they were stored**, arrival-stamp prefix and all, so a restored journal sorts the way the
//! node's did.

use crate::bytes::{
    be_bytes, be_encode, be_value, copy_bytes, law_number_round_trips, lemma_be_bytes_len,
    lemma_be_limits, lemma_be_value_bound,
};
use crate::store::cf::{law_peer_round_trips, Cf};
use crate::store::error::StoreError;
use crate::store::head_store::{last_index, read_meta, tip_of, MetaRows};
use crate::store::meta::{
    StoreIdentity, StoreMeta, HEAD_ADDRESS_KEY, HEAD_ID_KEY, HEAD_PARAMS_HASH_KEY,
    OWN_PEER_ID_KEY, VERSION_KEY,
};
use crate::store::table::{
    families_view, law_written_value_is_read, lemma_with_row_sorted, ordered, rows_view, sorted,
    value_of, with_row, with_rows, Families, Family, Row, Table,
};
use crate::text::same_text;
use vstd::prelude::*;
use vstd::utf8::{encode_utf8, encode_utf8_decode_utf8, encode_utf8_valid_utf8};

verus! {

/// What opening an archive does about its identity stamp.
#[derive(Clone, Copy, PartialEq, Eq, Debug, Structural)]
pub enum Stamp {
    /// A fresh archive is stamped with the source's identity.
    Write,
    /// The archive carries the source's identity already.
    Keep,
}

/// Check the stamp an archive carries against the store to archive.
///
/// Archives are per-node, so a directory of them all look alike, and without the stamp nothing
/// stops an archiver appending peer 1's journals into peer 0's archive: producing a file that
/// looks whole, restores onto a node, and means something else.
pub fn check_stamp(found: Option<&StoreIdentity>, expected: &StoreIdentity) -> (r: Result<
    Stamp,
    StoreError,
>)
    ensures
        r == (match found {
            None => Ok::<Stamp, StoreError>(Stamp::Write),
            Some(archive) => if archive.same(*expected) {
                Ok(Stamp::Keep)
            } else {
                Err(StoreError::DifferentIdentity { archive: *archive, store: *expected })
            },
        }),
{
    match found {
        None => Ok(Stamp::Write),
        Some(archive) => if archive.is_same(expected) {
            Ok(Stamp::Keep)
        } else {
            Err(StoreError::DifferentIdentity { archive: archive.clone(), store: expected.clone() })
        },
    }
}

/// The stamp that an archive's rows carry, if any. No `store_version` row at all is a brand new
/// archive, not a broken one.
pub fn stamp_found(assembled: Result<StoreMeta, StoreError>) -> (r: Result<
    Option<StoreIdentity>,
    StoreError,
>)
    ensures
        r == (match assembled {
            Ok(meta) => Ok(meta.identity),
            Err(StoreError::NoVersion) => Ok(None),
            Err(e) => Err(e),
        }),
{
    match assembled {
        Ok(meta) => Ok(meta.identity),
        Err(StoreError::NoVersion) => Ok(None),
        Err(e) => Err(e),
    }
}

/// The rows that stamp a fresh archive.
pub open spec fn stamp_rows(version: u32, identity: StoreIdentity) -> Seq<(Seq<u8>, Seq<u8>)> {
    seq![
        (encode_utf8(VERSION_KEY@), be_bytes(version as nat, 4)),
        (encode_utf8(HEAD_PARAMS_HASH_KEY@), encode_utf8(identity.head_params_hash@)),
        (encode_utf8(HEAD_ID_KEY@), encode_utf8(identity.head_id@)),
        (encode_utf8(HEAD_ADDRESS_KEY@), encode_utf8(identity.head_address@)),
        (encode_utf8(OWN_PEER_ID_KEY@), be_bytes(identity.own_peer_id.wire_int() as nat, 4)),
    ]
}

fn text_row(key: &str, value: &str) -> (r: Row)
    ensures
        r@ == (encode_utf8(key@), encode_utf8(value@)),
{
    Row { key: copy_bytes(key.as_bytes()), value: copy_bytes(value.as_bytes()) }
}

fn number_row(key: &str, value: u32) -> (r: Row)
    ensures
        r@ == (encode_utf8(key@), be_bytes(value as nat, 4)),
{
    proof {
        lemma_be_limits();
    }
    Row { key: copy_bytes(key.as_bytes()), value: be_encode(value as u64, 4) }
}

/// The rows that stamp a fresh archive, to be written in one step.
pub fn identity_rows(version: u32, identity: &StoreIdentity) -> (r: Vec<Row>)
    ensures
        rows_view(r@) == stamp_rows(version, *identity),
{
    let mut rows: Vec<Row> = Vec::new();
    rows.push(number_row(VERSION_KEY, version));
    rows.push(text_row(HEAD_PARAMS_HASH_KEY, identity.head_params_hash.as_str()));
    rows.push(text_row(HEAD_ID_KEY, identity.head_id.as_str()));
    rows.push(text_row(HEAD_ADDRESS_KEY, identity.head_address.as_str()));
    rows.push(number_row(OWN_PEER_ID_KEY, identity.own_peer_id.to_wire_int()));
    assert(rows_view(rows@) =~= stamp_rows(version, *identity));
    rows
}

/// The rows to write into an archive that is opened for a store, given the stamp that was read: those
/// of the store's stamp where the archive is fresh, none where it carries that stamp already.
pub fn rows_to_stamp(
    source: &StoreMeta,
    stamp: Result<Option<StoreIdentity>, StoreError>,
) -> (r: Result<Option<Vec<Row>>, StoreError>)
    ensures
        match r {
            Ok(Some(rows)) => {
                &&& stamping(stamp, *source) == Ok::<Stamp, StoreError>(Stamp::Write)
                &&& rows_view(rows@) == stamp_rows(source.version, source.identity->0)
            },
            Ok(None) => stamping(stamp, *source) == Ok::<Stamp, StoreError>(Stamp::Keep),
            Err(e) => stamping(stamp, *source) == Err::<Stamp, StoreError>(e),
        },
{
    let expected = match &source.identity {
        Some(expected) => expected,
        None => {
            return Err(StoreError::NoIdentity);
        },
    };
    let found = match stamp {
        Ok(found) => found,
        Err(e) => {
            return Err(e);
        },
    };
    match check_stamp(found.as_ref(), expected) {
        Ok(Stamp::Write) => Ok(Some(identity_rows(source.version, expected))),
        Ok(Stamp::Keep) => Ok(None),
        Err(e) => Err(e),
    }
}

/// The families of an archive once each of `families` is there, those that were missing empty.
pub open spec fn with_families(
    found: Map<Seq<char>, Seq<(Seq<u8>, Seq<u8>)>>,
    families: Seq<Cf>,
) -> Map<Seq<char>, Seq<(Seq<u8>, Seq<u8>)>>
    decreases families.len(),
{
    if families.len() == 0 {
        found
    } else {
        let before = with_families(found, families.drop_last());
        let name = families.last().name_chars();
        if before.dom().contains(name) {
            before
        } else {
            before.insert(name, Seq::empty())
        }
    }
}

/// Whether a family found in an archive is one that may be there: one of `families`, or the
/// engine's own default.
pub open spec fn asked_for(name: Seq<char>, families: Seq<Cf>) -> bool {
    name == "default"@ || exists|i: int|
        0 <= i < families.len() && (#[trigger] families[i]).name_chars() == name
}

/// The first family found that was not asked for.
pub open spec fn first_not_asked_for(found: Seq<Family>, families: Seq<Cf>) -> Option<String>
    decreases found.len(),
{
    if found.len() == 0 {
        None
    } else {
        match first_not_asked_for(found.drop_last(), families) {
            Some(name) => Some(name),
            None => if asked_for(found.last().name@, families) {
                None
            } else {
                Some(found.last().name)
            },
        }
    }
}

/// Whether a family may be in an archive.
fn is_asked_for(name: &str, families: &Vec<Cf>) -> (r: bool)
    ensures
        r == asked_for(name@, families@),
{
    if same_text(name, "default") {
        return true;
    }
    let mut i: usize = 0;
    while i < families.len()
        invariant
            i <= families@.len(),
            name@ != "default"@,
            forall|j: int| 0 <= j < i ==> (#[trigger] families@[j]).name_chars() != name@,
        decreases families@.len() - i,
    {
        let expected = families[i].name();
        if same_text(expected.as_str(), name) {
            return true;
        }
        i = i + 1;
    }
    false
}

/// The first family found that was not asked for.
fn not_asked_for(found: &Vec<Family>, families: &Vec<Cf>) -> (r: Option<String>)
    ensures
        r == first_not_asked_for(found@, families@),
{
    let mut i: usize = 0;
    assert(found@.take(0) =~= Seq::<Family>::empty());
    while i < found.len()
        invariant
            i <= found@.len(),
            first_not_asked_for(found@.take(i as int), families@) is None,
        decreases found@.len() - i,
    {
        assert(found@.take(i + 1).drop_last() =~= found@.take(i as int));
        if !is_asked_for(found[i].name.as_str(), families) {
            proof {
                lemma_first_stays_first(found@, families@, i + 1);
            }
            return Some(found[i].name.clone());
        }
        i = i + 1;
    }
    assert(found@.take(i as int) =~= found@);
    None
}

proof fn lemma_first_stays_first(found: Seq<Family>, families: Seq<Cf>, n: int)
    requires
        0 <= n <= found.len(),
        first_not_asked_for(found.take(n), families) is Some,
    ensures
        first_not_asked_for(found, families) == first_not_asked_for(found.take(n), families),
    decreases found.len(),
{
    if n == found.len() {
        assert(found.take(n) =~= found);
    } else {
        assert(found.drop_last().take(n) =~= found.take(n));
        lemma_first_stays_first(found.drop_last(), families, n);
    }
}

/// A writable archive.
pub struct ArchiveStore {
    content: Families,
}

impl View for ArchiveStore {
    type V = Map<Seq<char>, Seq<(Seq<u8>, Seq<u8>)>>;

    closed spec fn view(&self) -> Map<Seq<char>, Seq<(Seq<u8>, Seq<u8>)>> {
        self.content@
    }
}

/// The rows of an archive's family, or the refusal of one that is not there.
pub open spec fn archived_rows(
    archive: Map<Seq<char>, Seq<(Seq<u8>, Seq<u8>)>>,
    cf: Cf,
) -> Result<Seq<(Seq<u8>, Seq<u8>)>, StoreError> {
    if archive.dom().contains(cf.name_chars()) {
        Ok(archive[cf.name_chars()])
    } else {
        Err(StoreError::MissingFromArchive { cf })
    }
}

/// The highest index that an archive holds for a journal.
pub open spec fn archived_tip(
    archive: Map<Seq<char>, Seq<(Seq<u8>, Seq<u8>)>>,
    cf: Cf,
) -> Result<Option<u64>, StoreError> {
    if !cf.journal() {
        Err(StoreError::NoTip { cf })
    } else {
        match archived_rows(archive, cf) {
            Ok(rows) => tip_of(cf, rows),
            Err(e) => Err(e),
        }
    }
}

/// Whether `stamp` is what reading an archive's stamp gives: its own, none where it is brand new,
/// or the refusal of one that cannot be read.
pub open spec fn stamp_reads(
    archive: Map<Seq<char>, Seq<(Seq<u8>, Seq<u8>)>>,
    stamp: Result<Option<StoreIdentity>, StoreError>,
) -> bool {
    match archived_rows(archive, Cf::Meta) {
        Err(e) => stamp == Err::<Option<StoreIdentity>, StoreError>(e),
        Ok(rows) => match MetaRows::of(rows).fault() {
            Some(StoreError::NoVersion) => stamp == Ok::<Option<StoreIdentity>, StoreError>(None),
            Some(e) => stamp == Err::<Option<StoreIdentity>, StoreError>(e),
            None => stamp matches Ok(identity) && exists|version: u32|
                #[trigger] MetaRows::of(rows).assemble_to(StoreMeta { version, identity }),
        },
    }
}

impl ArchiveStore {
    #[verifier::type_invariant]
    pub open spec fn in_key_order(self) -> bool {
        ordered(self@)
    }

    /// Open the archive that `found` holds, with one family per entry in `families`.
    ///
    /// An archive is opened whole: one that holds a family not among `families` is refused, as it
    /// stands. `source` is the node store's metadata. On a fresh archive it is stamped in; on an
    /// existing one it is **checked**, and a mismatch refuses the open.
    pub fn open(found: Vec<Family>, families: &Vec<Cf>, source: &StoreMeta) -> (r: Result<
        ArchiveStore,
        StoreError,
    >)
        ensures
            r matches Ok(archive) ==> ordered(archive@),
            match first_not_asked_for(found@, families@) {
                Some(name) => r == Err::<ArchiveStore, StoreError>(
                    StoreError::NotAskedFor { name },
                ),
                None => exists|stamp: Result<Option<StoreIdentity>, StoreError>|
                    {
                        &&& #[trigger] stamp_reads(
                            with_families(families_view(found@), families@),
                            stamp,
                        )
                        &&& match r {
                            Ok(archive) => {
                                &&& stamping(stamp, *source) is Ok
                                &&& archive@ == stamped(
                                    with_families(families_view(found@), families@),
                                    stamp,
                                    *source,
                                )
                            },
                            Err(e) => stamping(stamp, *source) == Err::<Stamp, StoreError>(e),
                        }
                    },
            },
    {
        if let Some(name) = not_asked_for(&found, families) {
            return Err(StoreError::NotAskedFor { name });
        }
        let mut content = Families::of(found);
        let ghost start = content@;
        let mut i: usize = 0;
        assert(families@.take(0) =~= Seq::<Cf>::empty());
        while i < families.len()
            invariant
                i <= families@.len(),
                content@ == with_families(start, families@.take(i as int)),
            decreases families@.len() - i,
        {
            let name = families[i].name();
            assert(families@.take(i + 1).drop_last() =~= families@.take(i as int));
            content.create(name.as_str());
            i = i + 1;
        }
        assert(families@.take(i as int) =~= families@);
        proof {
            use_type_invariant(&content);
        }
        let mut archive = ArchiveStore { content };
        match archive.stamp_or_check(source) {
            Ok(_) => {
                proof {
                    use_type_invariant(&archive);
                }
                Ok(archive)
            },
            Err(e) => Err(e),
        }
    }

    /// Stamp a fresh archive with the source's identity, or verify an existing one matches. A
    /// refused archive is left as it was.
    pub fn stamp_or_check(&mut self, source: &StoreMeta) -> (r: Result<(), StoreError>)
        ensures
            exists|stamp: Result<Option<StoreIdentity>, StoreError>|
                {
                    &&& #[trigger] stamp_reads(old(self)@, stamp)
                    &&& match r {
                        Ok(_) => {
                            &&& stamping(stamp, *source) is Ok
                            &&& final(self)@ == stamped(old(self)@, stamp, *source)
                        },
                        Err(e) => {
                            &&& stamping(stamp, *source) == Err::<Stamp, StoreError>(e)
                            &&& final(self)@ == old(self)@
                        },
                    }
                },
    {
        let stamp = self.identity();
        assert(stamp_reads(old(self)@, stamp));
        match rows_to_stamp(source, stamp) {
            Ok(Some(rows)) => {
                let name = Cf::Meta.name();
                if self.put_all(name.as_str(), &rows) {
                    Ok(())
                } else {
                    Err(StoreError::MissingFromArchive { cf: Cf::Meta })
                }
            },
            Ok(None) => Ok(()),
            Err(e) => Err(e),
        }
    }

    /// Write rows into a family. `false` where there is no such family, and nothing is written.
    fn put_all(&mut self, name: &str, written: &Vec<Row>) -> (r: bool)
        ensures
            r == old(self)@.dom().contains(name@),
            final(self)@ == (if r {
                old(self)@.insert(name@, with_rows(old(self)@[name@], rows_view(written@)))
            } else {
                old(self)@
            }),
    {
        let mut content = Families::of(Vec::new());
        std::mem::swap(&mut content, &mut self.content);
        let r = content.put_all(name, written);
        proof {
            use_type_invariant(&content);
        }
        self.content = content;
        r
    }

    fn table(&self, cf: Cf) -> (r: Result<&Table, StoreError>)
        ensures
            match r {
                Ok(table) => archived_rows(self@, cf) == Ok::<_, StoreError>(table@),
                Err(e) => archived_rows(self@, cf) == Err::<
                    Seq<(Seq<u8>, Seq<u8>)>,
                    StoreError,
                >(e),
            },
    {
        let name = cf.name();
        match self.content.get(name.as_str()) {
            Some(table) => Ok(table),
            None => Err(StoreError::MissingFromArchive { cf }),
        }
    }

    /// Every row the archive holds for `cf`, in key order.
    pub fn rows(&self, cf: Cf) -> (r: Result<&Vec<Row>, StoreError>)
        ensures
            match r {
                Ok(rows) => archived_rows(self@, cf) == Ok::<_, StoreError>(rows_view(rows@))
                    && sorted(rows_view(rows@)),
                Err(e) => archived_rows(self@, cf) == Err::<
                    Seq<(Seq<u8>, Seq<u8>)>,
                    StoreError,
                >(e),
            },
    {
        match self.table(cf) {
            Ok(table) => Ok(table.rows()),
            Err(e) => Err(e),
        }
    }

    /// The archive's own identity stamp, if it has one.
    pub fn identity(&self) -> (r: Result<Option<StoreIdentity>, StoreError>)
        ensures
            stamp_reads(self@, r),
    {
        match self.table(Cf::Meta) {
            Ok(table) => {
                let assembled = read_meta(table);
                proof {
                    if assembled is Ok {
                        let StoreMeta { version, identity } = assembled->Ok_0;
                        assert(MetaRows::of(table@).assemble_to(StoreMeta { version, identity }));
                    }
                }
                stamp_found(assembled)
            },
            Err(e) => Err(e),
        }
    }

    /// The highest journal index this archive holds for `cf`, or `None` if it holds none.
    ///
    /// This is the archiver's resume point, and the reason it keeps no state file of its own: the
    /// archive already knows how far it got, so a crashed pass costs a little re-copying and
    /// nothing else.
    pub fn tip(&self, cf: Cf) -> (r: Result<Option<u64>, StoreError>)
        ensures
            r == archived_tip(self@, cf),
    {
        if !cf.is_journal() {
            return Err(StoreError::NoTip { cf });
        }
        match self.table(cf) {
            Ok(table) => last_index(cf, table),
            Err(e) => Err(e),
        }
    }

    /// Write a batch of raw rows into `cf`, committed atomically.
    pub fn put_raw(&mut self, cf: Cf, entries: &Vec<Row>) -> (r: Result<(), StoreError>)
        ensures
            match r {
                Ok(_) => if entries@.len() == 0 {
                    final(self)@ == old(self)@
                } else {
                    &&& archived_rows(old(self)@, cf) matches Ok(rows)
                    &&& final(self)@ == old(self)@.insert(
                        cf.name_chars(),
                        with_rows(rows, rows_view(entries@)),
                    )
                },
                Err(e) => {
                    &&& entries@.len() > 0
                    &&& archived_rows(old(self)@, cf) == Err::<
                        Seq<(Seq<u8>, Seq<u8>)>,
                        StoreError,
                    >(e)
                    &&& final(self)@ == old(self)@
                },
            },
    {
        if entries.len() == 0 {
            return Ok(());
        }
        let name = cf.name();
        if self.put_all(name.as_str(), entries) {
            Ok(())
        } else {
            Err(StoreError::MissingFromArchive { cf })
        }
    }
}

/// What opening does, given the stamp that was read: refuse a source without an identity, then an
/// archive whose stamp cannot be read, then one that carries another stamp.
pub open spec fn stamping(
    stamp: Result<Option<StoreIdentity>, StoreError>,
    source: StoreMeta,
) -> Result<Stamp, StoreError> {
    match source.identity {
        None => Err(StoreError::NoIdentity),
        Some(expected) => match stamp {
            Err(e) => Err(e),
            Ok(None) => Ok(Stamp::Write),
            Ok(Some(archive)) => if archive.same(expected) {
                Ok(Stamp::Keep)
            } else {
                Err(StoreError::DifferentIdentity { archive, store: expected })
            },
        },
    }
}

/// An archive once it has been stamped, where it was fresh.
pub open spec fn stamped(
    archive: Map<Seq<char>, Seq<(Seq<u8>, Seq<u8>)>>,
    stamp: Result<Option<StoreIdentity>, StoreError>,
    source: StoreMeta,
) -> Map<Seq<char>, Seq<(Seq<u8>, Seq<u8>)>> {
    if stamping(stamp, source) == Ok::<Stamp, StoreError>(Stamp::Write) {
        let meta = Cf::Meta.name_chars();
        archive.insert(
            meta,
            with_rows(archive[meta], stamp_rows(source.version, source.identity->0)),
        )
    } else {
        archive
    }
}

/// The five keys of a stamp tell each other apart.
proof fn lemma_stamp_keys_differ()
    ensures
        encode_utf8(VERSION_KEY@) != encode_utf8(HEAD_PARAMS_HASH_KEY@),
        encode_utf8(VERSION_KEY@) != encode_utf8(HEAD_ID_KEY@),
        encode_utf8(VERSION_KEY@) != encode_utf8(HEAD_ADDRESS_KEY@),
        encode_utf8(VERSION_KEY@) != encode_utf8(OWN_PEER_ID_KEY@),
        encode_utf8(HEAD_PARAMS_HASH_KEY@) != encode_utf8(HEAD_ID_KEY@),
        encode_utf8(HEAD_PARAMS_HASH_KEY@) != encode_utf8(HEAD_ADDRESS_KEY@),
        encode_utf8(HEAD_PARAMS_HASH_KEY@) != encode_utf8(OWN_PEER_ID_KEY@),
        encode_utf8(HEAD_ID_KEY@) != encode_utf8(HEAD_ADDRESS_KEY@),
        encode_utf8(HEAD_ID_KEY@) != encode_utf8(OWN_PEER_ID_KEY@),
        encode_utf8(HEAD_ADDRESS_KEY@) != encode_utf8(OWN_PEER_ID_KEY@),
{
    encode_utf8_decode_utf8(VERSION_KEY@);
    encode_utf8_decode_utf8(HEAD_PARAMS_HASH_KEY@);
    encode_utf8_decode_utf8(HEAD_ID_KEY@);
    encode_utf8_decode_utf8(HEAD_ADDRESS_KEY@);
    encode_utf8_decode_utf8(OWN_PEER_ID_KEY@);
    reveal_strlit("store_version");
    reveal_strlit("head_params_hash");
    reveal_strlit("head_id");
    reveal_strlit("head_address");
    reveal_strlit("own_peer_id");
    assert(VERSION_KEY@.len() == 13);
    assert(HEAD_PARAMS_HASH_KEY@.len() == 16);
    assert(HEAD_ID_KEY@.len() == 7);
    assert(HEAD_ADDRESS_KEY@.len() == 12);
    assert(OWN_PEER_ID_KEY@.len() == 11);
}

/// The rows of a stamp, once written, are there.
proof fn lemma_stamp_written(
    rows: Seq<(Seq<u8>, Seq<u8>)>,
    version: u32,
    identity: StoreIdentity,
)
    requires
        sorted(rows),
    ensures
        MetaRows::of(with_rows(rows, stamp_rows(version, identity))) == (MetaRows {
            version: Some(be_bytes(version as nat, 4)),
            head_params_hash: Some(encode_utf8(identity.head_params_hash@)),
            head_id: Some(encode_utf8(identity.head_id@)),
            head_address: Some(encode_utf8(identity.head_address@)),
            own_peer_id: Some(be_bytes(identity.own_peer_id.wire_int() as nat, 4)),
        }),
{
    let w = stamp_rows(version, identity);
    let r1 = with_row(rows, w[0]);
    let r2 = with_row(r1, w[1]);
    let r3 = with_row(r2, w[2]);
    let r4 = with_row(r3, w[3]);
    let r5 = with_row(r4, w[4]);
    assert(with_rows(rows, w) == r5) by {
        reveal_with_fuel(with_rows, 6);
        assert(w.drop_last().drop_last().drop_last().drop_last().drop_last().len() == 0);
    }
    lemma_with_row_sorted(rows, w[0]);
    lemma_with_row_sorted(r1, w[1]);
    lemma_with_row_sorted(r2, w[2]);
    lemma_with_row_sorted(r3, w[3]);
    lemma_stamp_keys_differ();
    assert forall|key: Seq<u8>| #[trigger] value_of(r5, key) == (if key == w[4].0 {
        Some(w[4].1)
    } else if key == w[3].0 {
        Some(w[3].1)
    } else if key == w[2].0 {
        Some(w[2].1)
    } else if key == w[1].0 {
        Some(w[1].1)
    } else if key == w[0].0 {
        Some(w[0].1)
    } else {
        value_of(rows, key)
    }) by {
        law_written_value_is_read(rows, w[0], key);
        law_written_value_is_read(r1, w[1], key);
        law_written_value_is_read(r2, w[2], key);
        law_written_value_is_read(r3, w[3], key);
        law_written_value_is_read(r4, w[4], key);
    }
}

/// Reading a stamp gives back what was written, for every peer whose number the packed form keeps.
pub proof fn law_stamp_is_read_back(
    rows: Seq<(Seq<u8>, Seq<u8>)>,
    version: u32,
    identity: StoreIdentity,
    meta: StoreMeta,
)
    requires
        sorted(rows),
        identity.own_peer_id.packable(),
        MetaRows::of(with_rows(rows, stamp_rows(version, identity))).assemble_to(meta),
    ensures
        MetaRows::of(with_rows(rows, stamp_rows(version, identity))).fault() is None,
        meta.version == version,
        meta.identity matches Some(found) && found.same(identity),
{
    lemma_stamp_written(rows, version, identity);
    lemma_be_limits();
    law_number_round_trips(version as nat, 4);
    law_number_round_trips(identity.own_peer_id.wire_int() as nat, 4);
    law_peer_round_trips(identity.own_peer_id);
    encode_utf8_decode_utf8(identity.head_params_hash@);
    encode_utf8_decode_utf8(identity.head_id@);
    encode_utf8_decode_utf8(identity.head_address@);
    encode_utf8_valid_utf8(identity.head_params_hash@);
    encode_utf8_valid_utf8(identity.head_id@);
    encode_utf8_valid_utf8(identity.head_address@);
}

/// An archive stamped from a store reopens against that store unchanged, and refuses every store
/// of another head, configuration or peer.
pub proof fn law_archive_belongs_to_one_store(
    archive: Map<Seq<char>, Seq<(Seq<u8>, Seq<u8>)>>,
    source: StoreMeta,
    stamp: Result<Option<StoreIdentity>, StoreError>,
    again: Result<Option<StoreIdentity>, StoreError>,
    other: StoreMeta,
)
    requires
        archived_rows(archive, Cf::Meta) matches Ok(rows) && sorted(rows),
        source.identity matches Some(identity) && identity.own_peer_id.packable(),
        stamp == Ok::<Option<StoreIdentity>, StoreError>(None),
        stamp_reads(archive, stamp),
        stamp_reads(stamped(archive, stamp, source), again),
    ensures
        stamping(again, source) == Ok::<Stamp, StoreError>(Stamp::Keep),
        stamped(stamped(archive, stamp, source), again, source) == stamped(archive, stamp, source),
        other.identity matches Some(identity) && !identity.same(source.identity->0) ==> {
            &&& stamping(again, other) matches Err(e)
            &&& e is DifferentIdentity
        },
{
    let rows = archived_rows(archive, Cf::Meta)->Ok_0;
    let identity = source.identity->0;
    lemma_stamp_written(rows, source.version, identity);
    lemma_be_limits();
    lemma_be_bytes_len(source.version as nat, 4);
    lemma_be_bytes_len(identity.own_peer_id.wire_int() as nat, 4);
    let after = MetaRows::of(with_rows(rows, stamp_rows(source.version, identity)));
    assert(after.fault() is None);
    let found = again->Ok_0;
    let version = choose|version: u32|
        #[trigger] after.assemble_to(StoreMeta { version, identity: found });
    law_stamp_is_read_back(
        rows,
        source.version,
        identity,
        StoreMeta { version, identity: found },
    );
}

/// An archive that carries a stamp is opened exactly for the store whose parameters' hash, head,
/// address and peer, its kind and its number, are the stamp's own; nothing is written then. For any
/// other store it is refused with both stamps.
pub proof fn law_stamp_is_of_one_store(found: StoreIdentity, source: StoreMeta)
    ensures
        stamping(Ok(Some(found)), source) is Ok <==> {
            &&& source.identity matches Some(own)
            &&& found.head_params_hash@ == own.head_params_hash@
            &&& found.head_id@ == own.head_id@
            &&& found.head_address@ == own.head_address@
            &&& found.own_peer_id == own.own_peer_id
        },
        stamping(Ok(Some(found)), source) matches Ok(stamp) ==> stamp == Stamp::Keep,
        stamping(Ok(Some(found)), source) matches Ok(_) ==> (found.own_peer_id is Head
            <==> source.identity->0.own_peer_id is Head) && found.own_peer_id.number()
            == source.identity->0.own_peer_id.number(),
        stamping(Ok(Some(found)), source) matches Err(e) ==> match source.identity {
            None => e == StoreError::NoIdentity,
            Some(own) => e == (StoreError::DifferentIdentity { archive: found, store: own }),
        },
{
}

/// An archive without a stamp is stamped with the store's where the store has one, and refused
/// otherwise; one whose stamp cannot be read is refused.
pub proof fn law_fresh_archive_is_stamped(fault: StoreError, source: StoreMeta)
    ensures
        stamping(Ok(None), source) == (match source.identity {
            Some(_) => Ok::<Stamp, StoreError>(Stamp::Write),
            None => Err(StoreError::NoIdentity),
        }),
        source.identity is Some ==> stamping(Err(fault), source) == Err::<Stamp, StoreError>(fault),
        stamping(Err(fault), source) is Err,
{
}

/// What stamping writes: into the row of each part's name that part of the store's stamp, the texts
/// in UTF-8, the version in four bytes, and in four bytes the peer, twice its number and one more
/// for a head peer. No other family is touched.
pub proof fn law_stamp_is_written_by_name(
    archive: Map<Seq<char>, Seq<(Seq<u8>, Seq<u8>)>>,
    source: StoreMeta,
    name: Seq<char>,
)
    requires
        archived_rows(archive, Cf::Meta) matches Ok(rows) && sorted(rows),
        source.identity matches Some(own) && own.own_peer_id.packable(),
    ensures
        ({
            let rows = stamped(archive, Ok(None), source)["Meta"@];
            let own = source.identity->0;
            &&& value_of(rows, encode_utf8("store_version"@)) matches Some(version)
            &&& version.len() == 4 && be_value(version) == source.version
            &&& value_of(rows, encode_utf8("head_params_hash"@)) == Some(
                encode_utf8(own.head_params_hash@),
            )
            &&& value_of(rows, encode_utf8("head_id"@)) == Some(encode_utf8(own.head_id@))
            &&& value_of(rows, encode_utf8("head_address"@)) == Some(encode_utf8(own.head_address@))
            &&& value_of(rows, encode_utf8("own_peer_id"@)) matches Some(peer)
            &&& peer.len() == 4
            &&& be_value(peer) == 2 * own.own_peer_id.number() + (if own.own_peer_id is Head {
                1int
            } else {
                0
            })
        }),
        name != "Meta"@ ==> stamped(archive, Ok(None), source)[name] == archive[name],
        stamped(archive, Ok(None), source).dom() == archive.dom(),
        stamped(archive, Ok(source.identity), source) == archive,
{
    let rows = archived_rows(archive, Cf::Meta)->Ok_0;
    let own = source.identity->0;
    lemma_stamp_written(rows, source.version, own);
    lemma_be_limits();
    lemma_be_bytes_len(source.version as nat, 4);
    lemma_be_bytes_len(own.own_peer_id.wire_int() as nat, 4);
    law_number_round_trips(source.version as nat, 4);
    law_number_round_trips(own.own_peer_id.wire_int() as nat, 4);
    let after = MetaRows::of(with_rows(rows, stamp_rows(source.version, own)));
    assert(after.own_peer_id == value_of(
        with_rows(rows, stamp_rows(source.version, own)),
        encode_utf8("own_peer_id"@),
    ));
    assert(stamped(archive, Ok(None), source).dom() =~= archive.dom());
}

/// Opening an archive keeps every family that it holds as it stands, and adds each family asked for
/// that it lacks, empty; it adds no other.
pub proof fn law_opened_archive_has_every_family(
    found: Map<Seq<char>, Seq<(Seq<u8>, Seq<u8>)>>,
    families: Seq<Cf>,
    name: Seq<char>,
)
    ensures
        with_families(found, families).dom().contains(name) <==> found.dom().contains(name)
            || exists|i: int| 0 <= i < families.len() && (#[trigger] families[i]).name_chars() == name,
        found.dom().contains(name) ==> with_families(found, families)[name] == found[name],
        with_families(found, families).dom().contains(name) && !found.dom().contains(name)
            ==> with_families(found, families)[name].len() == 0,
    decreases families.len(),
{
    if families.len() > 0 {
        let front = families.drop_last();
        law_opened_archive_has_every_family(found, front, name);
        assert(families[families.len() - 1] == families.last());
        if exists|i: int| 0 <= i < front.len() && (#[trigger] front[i]).name_chars() == name {
            let i = choose|i: int| 0 <= i < front.len() && (#[trigger] front[i]).name_chars() == name;
            assert(families[i].name_chars() == name);
        }
        if exists|i: int| 0 <= i < families.len() && (#[trigger] families[i]).name_chars() == name {
            let i = choose|i: int|
                0 <= i < families.len() && (#[trigger] families[i]).name_chars() == name;
            if i < front.len() {
                assert(front[i].name_chars() == name);
            }
        }
    }
}

/// An archive is refused as soon as it holds one family that was not asked for, other than the
/// engine's own, and the refusal names such a one.
pub proof fn law_strange_family_is_refused(found: Seq<Family>, families: Seq<Cf>)
    ensures
        first_not_asked_for(found, families) is None <==> forall|i: int|
            0 <= i < found.len() ==> (#[trigger] found[i]).name@ == "default"@ || exists|k: int|
                0 <= k < families.len() && (#[trigger] families[k]).name_chars() == found[i].name@,
        first_not_asked_for(found, families) matches Some(name) ==> exists|i: int|
            0 <= i < found.len() && (#[trigger] found[i]).name == name,
        first_not_asked_for(found, families) matches Some(name) ==> name@ != "default"@ && forall|
            k: int,
        |
            0 <= k < families.len() ==> (#[trigger] families[k]).name_chars() != name@,
    decreases found.len(),
{
    if found.len() > 0 {
        let front = found.drop_last();
        law_strange_family_is_refused(front, families);
        assert(found[found.len() - 1] == found.last());
        assert forall|i: int| 0 <= i < front.len() implies front[i] == #[trigger] found[i] by {}
        match first_not_asked_for(front, families) {
            Some(name) => {
                let i = choose|i: int| 0 <= i < front.len() && (#[trigger] front[i]).name == name;
                assert(found[i].name == name);
            },
            None => {
                assert forall|i: int| 0 <= i < front.len() implies asked_for(
                    (#[trigger] found[i]).name@,
                    families,
                ) by {
                    assert(asked_for(front[i].name@, families));
                }
            },
        }
    }
}

/// Only an archive without a schema version counts as fresh. One whose stamp is broken is refused with
/// what is wrong with it, and so is one that lacks the family of the stamp.
pub proof fn law_only_a_blank_archive_is_fresh(
    archive: Map<Seq<char>, Seq<(Seq<u8>, Seq<u8>)>>,
    stamp: Result<Option<StoreIdentity>, StoreError>,
)
    requires
        stamp_reads(archive, stamp),
    ensures
        !archive.dom().contains("Meta"@) ==> stamp == Err::<Option<StoreIdentity>, StoreError>(
            StoreError::MissingFromArchive { cf: Cf::Meta },
        ),
        archive.dom().contains("Meta"@) ==> ({
            let rows = archive["Meta"@];
            let fault = MetaRows::of(rows).fault();
            &&& value_of(rows, encode_utf8("store_version"@)) is None ==> stamp == Ok::<
                Option<StoreIdentity>,
                StoreError,
            >(None)
            &&& value_of(rows, encode_utf8("store_version"@)) is Some && fault is Some ==> stamp
                == Err::<Option<StoreIdentity>, StoreError>(fault->0)
            &&& fault is None ==> stamp is Ok
            &&& fault is None ==> (stamp->Ok_0 is None <==> value_of(rows, encode_utf8("head_id"@))
                is None)
        }),
{
}

/// A family that is not there is refused by name, as the archive's own; what is no journal has no tip;
/// and the tip of a journal is the index of its last row.
pub proof fn law_archive_tips(
    archive: Map<Seq<char>, Seq<(Seq<u8>, Seq<u8>)>>,
    cf: Cf,
)
    ensures
        archived_rows(archive, cf) is Ok <==> archive.dom().contains(cf.name_chars()),
        archived_rows(archive, cf) matches Ok(rows) ==> rows == archive[cf.name_chars()],
        archived_rows(archive, cf) matches Err(e) ==> e == (StoreError::MissingFromArchive { cf }),
        !cf.journal() ==> archived_tip(archive, cf) == Err::<Option<u64>, StoreError>(
            StoreError::NoTip { cf },
        ),
        cf.journal() && !archive.dom().contains(cf.name_chars()) ==> archived_tip(archive, cf)
            == Err::<Option<u64>, StoreError>(StoreError::MissingFromArchive { cf }),
        archived_tip(archive, cf) matches Ok(None) ==> archive[cf.name_chars()].len() == 0,
        archived_tip(archive, cf) matches Ok(Some(tip)) ==> archive[cf.name_chars()].len() > 0
            && be_value(archive[cf.name_chars()].last().0) == tip,
{
    lemma_be_limits();
    let rows = archive[cf.name_chars()];
    if rows.len() > 0 {
        lemma_be_value_bound(rows.last().0);
    }
}

} // verus!
