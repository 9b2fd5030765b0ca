//! One head peer's store, as a reader sees it at one moment.
//!
//! [`Catalog`] sorts out the family names that a store reports. [`HeadStore::journals`] lists the
//! append streams, [`HeadStore::scan`] walks one from any index, and [`HeadStore::tip`] gives the
//! highest index in one: together, enough to copy a range out and record where the copy reached.
//! [`HeadStore::meta`] reads the schema version and the identity stamp.

use crate::bytes::{copy_bytes, law_byte_order_is_numeric_order};
use crate::store::cf::Cf;
use crate::store::error::StoreError;
use crate::store::journal::{
    decode_key, decoded_key, encode_key, encoded_key, entry_fault, law_key_order_is_index_order,
    law_key_round_trips, read_entry, unframe, ArrivalStamp, Entry, STAMP_WIDTH,
};
use crate::store::meta::{
    assemble, meta_fault, row_bytes, StoreMeta, HEAD_ADDRESS_KEY, HEAD_ID_KEY,
    HEAD_PARAMS_HASH_KEY, OWN_PEER_ID_KEY, VERSION_KEY,
};
use crate::store::table::{
    families_view, lemma_rows_from, ordered, rows_from, rows_view, sorted, value_of, Families,
    Family, Row, Table,
};
use crate::text::same_text;
use vstd::prelude::*;
use vstd::utf8::encode_utf8;

verus! {

broadcast use vstd::seq_lib::group_to_multiset_ensures;

/// The families among names that a store reports, in the order reported. The engine's own default
/// family holds nothing and is left out.
pub open spec fn known_families(names: Seq<String>) -> Seq<Cf>
    decreases names.len(),
{
    if names.len() == 0 {
        Seq::empty()
    } else {
        let before = known_families(names.drop_last());
        let name = names.last()@;
        if name == "default"@ {
            before
        } else {
            match Cf::named(name) {
                Some(cf) => before.push(cf),
                None => before,
            }
        }
    }
}

/// The names that this build does not know, in the order reported.
pub open spec fn unknown_names(names: Seq<String>) -> Seq<Seq<char>>
    decreases names.len(),
{
    if names.len() == 0 {
        Seq::empty()
    } else {
        let before = unknown_names(names.drop_last());
        let name = names.last()@;
        if name == "default"@ || Cf::named(name) is Some {
            before
        } else {
            before.push(name)
        }
    }
}

/// Whether families stand in the declared order.
pub open spec fn in_order(families: Seq<Cf>) -> bool {
    forall|i: int, j: int|
        0 <= i < j < families.len() ==> (#[trigger] families[i]).position() <= (
        #[trigger] families[j]).position()
}

/// Whether every family keeps its author in its name, as every family found in a store does.
pub open spec fn all_nameable(families: Seq<Cf>) -> bool {
    forall|i: int| 0 <= i < families.len() ==> (#[trigger] families[i]).nameable()
}

/// The journals among families.
pub open spec fn journals_of(families: Seq<Cf>) -> Seq<Cf>
    decreases families.len(),
{
    if families.len() == 0 {
        Seq::empty()
    } else if families.last().journal() {
        journals_of(families.drop_last()).push(families.last())
    } else {
        journals_of(families.drop_last())
    }
}

pub open spec fn texts(s: Seq<String>) -> Seq<Seq<char>> {
    Seq::new(s.len(), |i: int| s[i]@)
}

/// The families a store holds: those this build knows, and the names of the others. The others
/// are reported, never skipped silently, because an unknown family is data that an archiver would
/// otherwise drop.
pub struct Catalog {
    pub families: Vec<Cf>,
    pub unknown_families: Vec<String>,
}

impl Catalog {
    /// Sort out the names that a store reports.
    pub fn of(names: &Vec<String>) -> (r: Catalog)
        ensures
            in_order(r.families@),
            all_nameable(r.families@),
            r.families@.to_multiset() == known_families(names@).to_multiset(),
            texts(r.unknown_families@) == unknown_names(names@),
    {
        let mut families: Vec<Cf> = Vec::new();
        let mut unknown_families: Vec<String> = Vec::new();
        let mut i: usize = 0;
        assert(names@.take(0) =~= Seq::<String>::empty());
        assert(families@ =~= known_families(names@.take(0)));
        assert(texts(unknown_families@) =~= Seq::<Seq<char>>::empty());
        while i < names.len()
            invariant
                i <= names@.len(),
                in_order(families@),
                all_nameable(families@),
                families@.to_multiset() == known_families(names@.take(i as int)).to_multiset(),
                texts(unknown_families@) == unknown_names(names@.take(i as int)),
            decreases names@.len() - i,
        {
            let name = &names[i];
            assert(names@.take(i + 1).drop_last() =~= names@.take(i as int));
            if !same_text(name.as_str(), "default") {
                match Cf::parse(name.as_str()) {
                    Some(cf) => place(&mut families, cf),
                    None => {
                        let ghost before = unknown_families@;
                        unknown_families.push(name.clone());
                        assert(texts(unknown_families@) =~= texts(before).push(name@));
                    },
                }
            }
            i = i + 1;
        }
        assert(names@.take(i as int) =~= names@);
        Catalog { families, unknown_families }
    }
}

/// Put a family in its place.
fn place(families: &mut Vec<Cf>, cf: Cf)
    requires
        in_order(old(families)@),
        all_nameable(old(families)@),
        cf.nameable(),
    ensures
        in_order(final(families)@),
        all_nameable(final(families)@),
        final(families)@.to_multiset() == old(families)@.to_multiset().insert(cf),
{
    let mut at: usize = families.len();
    while at > 0 && cf.comes_before(families[at - 1])
        invariant
            at <= families@.len(),
            families@ == old(families)@,
            in_order(families@),
            forall|j: int| at <= j < families@.len() ==> cf.position() < (
            #[trigger] families@[j]).position(),
        decreases at,
    {
        at = at - 1;
    }
    let ghost before = families@;
    families.insert(at, cf);
    proof {
        assert(families@.remove(at as int) =~= before);
        assert(families@[at as int] == cf);
        assert(families@.contains(cf));
        assert forall|i: int| 0 <= i < families@.len() implies (
        #[trigger] families@[i]).nameable() by {
            assert(families@[i] == if i < at {
                before[i]
            } else if i == at {
                cf
            } else {
                before[i - 1]
            });
        }
        assert(families@.to_multiset() =~= before.to_multiset().insert(cf));
        assert forall|i: int, j: int| 0 <= i < j < families@.len() implies (
        #[trigger] families@[i]).position() <= (#[trigger] families@[j]).position() by {
            let x = if i < at { i } else { i - 1 };
            let y = if j < at { j } else { j - 1 };
            if i != at && j != at {
                assert(families@[i] == before[x] && families@[j] == before[y]);
            } else if i == at {
                assert(families@[j] == before[y]);
            } else {
                assert(families@[i] == before[x]);
                assert(before[at - 1].position() <= cf.position());
                assert(before[x].position() <= before[at - 1].position());
            }
        }
    }
}

/// The rows of a store's family, or the refusal of one that is not there.
pub open spec fn stored_rows(
    store: Map<Seq<char>, Seq<(Seq<u8>, Seq<u8>)>>,
    cf: Cf,
) -> Result<Seq<(Seq<u8>, Seq<u8>)>, StoreError> {
    if store.dom().contains(cf.name_chars()) {
        Ok(store[cf.name_chars()])
    } else {
        Err(StoreError::MissingFromStore { cf })
    }
}

/// The highest index that a journal's rows hold.
pub open spec fn tip_of(cf: Cf, rows: Seq<(Seq<u8>, Seq<u8>)>) -> Result<Option<u64>, StoreError> {
    if rows.len() == 0 {
        Ok(None)
    } else {
        match decoded_key(cf, rows.last().0) {
            Ok(index) => Ok(Some(index)),
            Err(e) => Err(e),
        }
    }
}

/// The lowest index that a journal's rows hold.
pub open spec fn floor_of(cf: Cf, rows: Seq<(Seq<u8>, Seq<u8>)>) -> Result<
    Option<u64>,
    StoreError,
> {
    if rows.len() == 0 {
        Ok(None)
    } else {
        match decoded_key(cf, rows[0].0) {
            Ok(index) => Ok(Some(index)),
            Err(e) => Err(e),
        }
    }
}

/// The key of the last row, read as an index.
pub(crate) fn last_index(cf: Cf, table: &Table) -> (r: Result<Option<u64>, StoreError>)
    ensures
        r == tip_of(cf, table@),
{
    let rows = table.rows();
    if rows.len() == 0 {
        return Ok(None);
    }
    assert(rows_view(rows@).last() == rows@[rows@.len() - 1]@);
    match decode_key(cf, rows[rows.len() - 1].key.as_slice()) {
        Ok(index) => Ok(Some(index)),
        Err(e) => Err(e),
    }
}

/// What the five rows of a `Meta` family hold.
pub struct MetaRows {
    pub version: Option<Seq<u8>>,
    pub head_params_hash: Option<Seq<u8>>,
    pub head_id: Option<Seq<u8>>,
    pub head_address: Option<Seq<u8>>,
    pub own_peer_id: Option<Seq<u8>>,
}

impl MetaRows {
    pub open spec fn of(rows: Seq<(Seq<u8>, Seq<u8>)>) -> MetaRows {
        MetaRows {
            version: value_of(rows, encode_utf8(VERSION_KEY@)),
            head_params_hash: value_of(rows, encode_utf8(HEAD_PARAMS_HASH_KEY@)),
            head_id: value_of(rows, encode_utf8(HEAD_ID_KEY@)),
            head_address: value_of(rows, encode_utf8(HEAD_ADDRESS_KEY@)),
            own_peer_id: value_of(rows, encode_utf8(OWN_PEER_ID_KEY@)),
        }
    }

    /// Why the rows do not assemble, if they do not.
    pub open spec fn fault(self) -> Option<StoreError> {
        meta_fault(
            self.version,
            self.head_params_hash,
            self.head_id,
            self.head_address,
            self.own_peer_id,
        )
    }

    /// Whether `meta` is what the rows assemble to.
    pub open spec fn assemble_to(self, meta: StoreMeta) -> bool {
        meta.reads(
            self.version,
            self.head_params_hash,
            self.head_id,
            self.head_address,
            self.own_peer_id,
        )
    }
}

fn row<'a>(table: &'a Table, key: &str) -> (r: Option<&'a [u8]>)
    ensures
        row_bytes(r) == value_of(table@, encode_utf8(key@)),
{
    match table.get(key.as_bytes()) {
        Some(value) => Some(value.as_slice()),
        None => None,
    }
}

/// Read a `Meta` family.
pub(crate) fn read_meta(table: &Table) -> (r: Result<StoreMeta, StoreError>)
    ensures
        match r {
            Ok(meta) => {
                &&& MetaRows::of(table@).fault() is None
                &&& MetaRows::of(table@).assemble_to(meta)
            },
            Err(e) => MetaRows::of(table@).fault() == Some(e),
        },
{
    assemble(
        row(table, VERSION_KEY),
        row(table, HEAD_PARAMS_HASH_KEY),
        row(table, HEAD_ID_KEY),
        row(table, HEAD_ADDRESS_KEY),
        row(table, OWN_PEER_ID_KEY),
    )
}

/// A walk over a journal, entry by entry in index order.
///
/// The walk is lazy: an entry is decoded as it is asked for, so a caller that stops early pays
/// only for what it read.
pub struct Scan<'a> {
    cf: Cf,
    rows: &'a Vec<Row>,
    at: usize,
}

impl<'a> Scan<'a> {
    /// The journal.
    pub closed spec fn journal(&self) -> Cf {
        self.cf
    }

    /// The rows still to walk.
    pub closed spec fn rest(&self) -> Seq<(Seq<u8>, Seq<u8>)> {
        rows_view(self.rows@).skip(self.at as int)
    }

    #[verifier::type_invariant]
    spec fn within(self) -> bool {
        self.at <= self.rows@.len()
    }

    pub fn next(&mut self) -> (r: Option<Result<Entry, StoreError>>)
        ensures
            final(self).journal() == old(self).journal(),
            r is None <==> old(self).rest().len() == 0,
            r is None ==> final(self).rest() == old(self).rest(),
            r matches Some(Ok(entry)) ==> {
                let (key, value) = old(self).rest()[0];
                &&& final(self).rest() == old(self).rest().drop_first()
                &&& entry_fault(old(self).journal(), key, value) is None
                &&& entry.reads(old(self).journal(), key, value)
            },
            r matches Some(Err(e)) ==> {
                let (key, value) = old(self).rest()[0];
                &&& final(self).rest() == old(self).rest().drop_first()
                &&& entry_fault(old(self).journal(), key, value) == Some(e)
            },
    {
        proof {
            use_type_invariant(&*self);
        }
        let at: usize = self.at;
        if at >= self.rows.len() {
            return None;
        }
        let row = &self.rows[at];
        self.at = at + 1;
        assert(self.rest() =~= old(self).rest().drop_first());
        assert(old(self).rest()[0] == row@);
        Some(read_entry(self.cf, row.key.as_slice(), row.value.as_slice()))
    }
}

/// A read-only view of one head peer's store.
pub struct HeadStore {
    catalog: Catalog,
    content: Families,
}

impl View for HeadStore {
    type V = Map<Seq<char>, Seq<(Seq<u8>, Seq<u8>)>>;

    closed spec fn view(&self) -> Map<Seq<char>, Seq<(Seq<u8>, Seq<u8>)>> {
        self.content@
    }
}

pub open spec fn names_of(found: Seq<Family>) -> Seq<String> {
    Seq::new(found.len(), |i: int| found[i].name)
}

impl HeadStore {
    /// The families this build knows, in the declared order.
    pub closed spec fn known(&self) -> Seq<Cf> {
        self.catalog.families@
    }

    /// The names this build does not know.
    pub closed spec fn unknown(&self) -> Seq<Seq<char>> {
        texts(self.catalog.unknown_families@)
    }

    #[verifier::type_invariant]
    pub open spec fn sorted_out(self) -> bool {
        &&& in_order(self.known())
        &&& all_nameable(self.known())
        &&& ordered(self@)
    }

    /// Read a store off the families found in it.
    ///
    /// A family this build does not know is still held, otherwise its data would be invisible, and
    /// listed in [`HeadStore::unknown_families`].
    pub fn open(found: Vec<Family>) -> (r: HeadStore)
        ensures
            r@ == families_view(found@),
            ordered(r@),
            in_order(r.known()),
            all_nameable(r.known()),
            r.known().to_multiset() == known_families(names_of(found@)).to_multiset(),
            r.unknown() == unknown_names(names_of(found@)),
    {
        let mut names: Vec<String> = Vec::new();
        let mut i: usize = 0;
        while i < found.len()
            invariant
                i <= found@.len(),
                names@ == names_of(found@).take(i as int),
            decreases found@.len() - i,
        {
            names.push(found[i].name.clone());
            assert(names@ =~= names_of(found@).take(i + 1));
            i = i + 1;
        }
        assert(names@ =~= names_of(found@));
        let catalog = Catalog::of(&names);
        HeadStore { catalog, content: Families::of(found) }
    }

    /// Every family the store holds, known to this build.
    pub fn families(&self) -> (r: &Vec<Cf>)
        ensures
            r@ == self.known(),
            in_order(self.known()),
            all_nameable(self.known()),
    {
        proof {
            use_type_invariant(self);
        }
        &self.catalog.families
    }

    /// Family names this build does not recognise: a store written by a newer hydrozoa.
    pub fn unknown_families(&self) -> (r: &Vec<String>)
        ensures
            texts(r@) == self.unknown(),
    {
        &self.catalog.unknown_families
    }

    /// The journals: the append streams that carry arrival stamps and can be scanned in order.
    pub fn journals(&self) -> (r: Vec<Cf>)
        ensures
            r@ == journals_of(self.known()),
    {
        let families = &self.catalog.families;
        let mut out: Vec<Cf> = Vec::new();
        let mut i: usize = 0;
        assert(families@.take(0) =~= Seq::<Cf>::empty());
        while i < families.len()
            invariant
                i <= families@.len(),
                out@ == journals_of(families@.take(i as int)),
            decreases families@.len() - i,
        {
            let cf = families[i];
            assert(families@.take(i + 1).drop_last() =~= families@.take(i as int));
            if cf.is_journal() {
                out.push(cf);
            }
            i = i + 1;
        }
        assert(families@.take(i as int) =~= families@);
        out
    }

    /// The rows of a family, or the refusal of one that is not there.
    pub open spec fn rows_of(&self, cf: Cf) -> Result<Seq<(Seq<u8>, Seq<u8>)>, StoreError> {
        stored_rows(self@, cf)
    }

    fn table(&self, cf: Cf) -> (r: Result<&Table, StoreError>)
        ensures
            match r {
                Ok(table) => self.rows_of(cf) == Ok::<_, StoreError>(table@),
                Err(e) => self.rows_of(cf) == Err::<Seq<(Seq<u8>, Seq<u8>)>, StoreError>(e),
            },
    {
        let name = cf.name();
        match self.content.get(name.as_str()) {
            Some(table) => Ok(table),
            None => Err(StoreError::MissingFromStore { cf }),
        }
    }

    /// The highest index present in `cf`, or `None` if the journal is empty.
    pub fn tip(&self, cf: Cf) -> (r: Result<Option<u64>, StoreError>)
        ensures
            r == (match self.rows_of(cf) {
                Ok(rows) => tip_of(cf, rows),
                Err(e) => Err(e),
            }),
    {
        match self.table(cf) {
            Ok(table) => last_index(cf, table),
            Err(e) => Err(e),
        }
    }

    /// The lowest index present in `cf`, or `None` if the journal is empty.
    ///
    /// On a store that has been trimmed this is the retention floor: the oldest entry still
    /// servable from the journal.
    pub fn floor(&self, cf: Cf) -> (r: Result<Option<u64>, StoreError>)
        ensures
            r == (match self.rows_of(cf) {
                Ok(rows) => floor_of(cf, rows),
                Err(e) => Err(e),
            }),
    {
        match self.table(cf) {
            Ok(table) => {
                let rows = table.rows();
                if rows.len() == 0 {
                    return Ok(None);
                }
                assert(rows_view(rows@)[0] == rows@[0]@);
                match decode_key(cf, rows[0].key.as_slice()) {
                    Ok(index) => Ok(Some(index)),
                    Err(e) => Err(e),
                }
            },
            Err(e) => Err(e),
        }
    }

    /// Every row in `cf`, in key order.
    ///
    /// Works for any family, journal or not, which is what the fixed families need, since most of
    /// them have no journal index to resume from. A value comes back exactly as stored: for a
    /// journal that takes in the arrival-stamp prefix, because a copy that keeps the framed bytes
    /// keeps the ordering with them.
    pub fn scan_raw(&self, cf: Cf) -> (r: Result<&Vec<Row>, StoreError>)
        ensures
            match r {
                Ok(rows) => self.rows_of(cf) == Ok::<_, StoreError>(rows_view(rows@)) && sorted(
                    rows_view(rows@),
                ),
                Err(e) => self.rows_of(cf) == Err::<Seq<(Seq<u8>, Seq<u8>)>, StoreError>(e),
            },
    {
        match self.table(cf) {
            Ok(table) => Ok(table.rows()),
            Err(e) => Err(e),
        }
    }

    /// Every row in `cf`, as it stands, and the place of the first whose key is not below `key`.
    pub fn seek_raw(&self, cf: Cf, key: &[u8]) -> (r: Result<(&Vec<Row>, usize), StoreError>)
        ensures
            match r {
                Ok((rows, first)) => {
                    &&& self.rows_of(cf) == Ok::<_, StoreError>(rows_view(rows@))
                    &&& first <= rows@.len()
                    &&& rows_view(rows@).skip(first as int) == rows_from(rows_view(rows@), key@)
                },
                Err(e) => self.rows_of(cf) == Err::<Seq<(Seq<u8>, Seq<u8>)>, StoreError>(e),
            },
    {
        match self.table(cf) {
            Ok(table) => Ok((table.rows(), table.seek(key))),
            Err(e) => Err(e),
        }
    }

    /// Walk `cf` from `from` (inclusive) to the end, in index order.
    ///
    /// Index order is byte order here, which is what makes a seek to `from` a seek and not a
    /// filter.
    pub fn scan(&self, cf: Cf, from: u64) -> (r: Result<Scan<'_>, StoreError>)
        ensures
            match r {
                Ok(scan) => {
                    &&& cf.journal()
                    &&& self.rows_of(cf) is Ok
                    &&& encoded_key(cf, from) is Ok
                    &&& scan.journal() == cf
                    &&& scan.rest() == rows_from(self.rows_of(cf)->Ok_0, encoded_key(cf, from)->Ok_0)
                    &&& scan.rest().len() <= usize::MAX
                },
                Err(e) => if !cf.journal() {
                    e == (StoreError::NotScannable { cf })
                } else if self.rows_of(cf) is Err {
                    e == self.rows_of(cf)->Err_0
                } else {
                    encoded_key(cf, from) == Err::<Seq<u8>, StoreError>(e)
                },
            },
    {
        if !cf.is_journal() {
            return Err(StoreError::NotScannable { cf });
        }
        let table = match self.table(cf) {
            Ok(table) => table,
            Err(e) => {
                return Err(e);
            },
        };
        match encode_key(cf, from) {
            Ok(start) => {
                let at = table.seek(start.as_slice());
                let rows = table.rows();
                assert(rows_view(rows@).len() == rows.len());
                Ok(Scan { cf, rows, at })
            },
            Err(e) => Err(e),
        }
    }

    /// Read one journal entry by index.
    pub fn get(&self, cf: Cf, index: u64) -> (r: Result<Option<Entry>, StoreError>)
        ensures
            match r {
                Ok(found) => {
                    &&& cf.journal()
                    &&& self.rows_of(cf) is Ok
                    &&& encoded_key(cf, index) is Ok
                    &&& match found {
                        None => value_of(self.rows_of(cf)->Ok_0, encoded_key(cf, index)->Ok_0) is None,
                        Some(entry) => {
                            &&& value_of(
                                self.rows_of(cf)->Ok_0,
                                encoded_key(cf, index)->Ok_0,
                            ) matches Some(value)
                            &&& value.len() >= STAMP_WIDTH
                            &&& entry.cf == cf
                            &&& entry.index == index
                            &&& entry.stamp == ArrivalStamp::decoded(value)
                            &&& entry.payload@ == value.skip(STAMP_WIDTH as int)
                        },
                    }
                },
                Err(e) => if !cf.journal() {
                    e == (StoreError::NoIndexedEntries { cf })
                } else if self.rows_of(cf) is Err {
                    e == self.rows_of(cf)->Err_0
                } else if encoded_key(cf, index) is Err {
                    e == encoded_key(cf, index)->Err_0
                } else {
                    &&& value_of(
                        self.rows_of(cf)->Ok_0,
                        encoded_key(cf, index)->Ok_0,
                    ) matches Some(value)
                    &&& value.len() < STAMP_WIDTH
                    &&& e == (StoreError::UnreadableEntry { cf, index, found: value.len() as usize })
                },
            },
    {
        if !cf.is_journal() {
            return Err(StoreError::NoIndexedEntries { cf });
        }
        let table = match self.table(cf) {
            Ok(table) => table,
            Err(e) => {
                return Err(e);
            },
        };
        let key = match encode_key(cf, index) {
            Ok(key) => key,
            Err(e) => {
                return Err(e);
            },
        };
        match table.get(key.as_slice()) {
            None => Ok(None),
            Some(value) => match unframe(value.as_slice()) {
                Ok((stamp, payload)) => Ok(
                    Some(Entry { cf, index, stamp, payload: copy_bytes(payload) }),
                ),
                Err(_) => Err(StoreError::UnreadableEntry { cf, index, found: value.len() }),
            },
        }
    }

    /// The store's schema version and identity stamp.
    ///
    /// Reads but does not enforce: the caller knows whether reading an unfamiliar store is worth
    /// attempting.
    pub fn meta(&self) -> (r: Result<StoreMeta, StoreError>)
        ensures
            match r {
                Ok(meta) => {
                    &&& self.rows_of(Cf::Meta) matches Ok(rows)
                    &&& MetaRows::of(rows).fault() is None
                    &&& MetaRows::of(rows).assemble_to(meta)
                },
                Err(e) => match self.rows_of(Cf::Meta) {
                    Ok(rows) => MetaRows::of(rows).fault() == Some(e),
                    Err(missing) => e == missing,
                },
            },
    {
        match self.table(Cf::Meta) {
            Ok(table) => read_meta(table),
            Err(e) => Err(e),
        }
    }
}

/// How many of the names a store reports are its engine's own default family.
pub open spec fn default_names(names: Seq<String>) -> nat
    decreases names.len(),
{
    if names.len() == 0 {
        0
    } else {
        default_names(names.drop_last()) + if names.last()@ == "default"@ {
            1nat
        } else {
            0nat
        }
    }
}

/// No family is dropped in silence: every name a store reports is that of a family this build
/// knows, or is reported as unknown, or is the engine's own default family.
pub proof fn law_every_family_is_accounted_for(names: Seq<String>)
    ensures
        known_families(names).len() + unknown_names(names).len() + default_names(names)
            == names.len(),
    decreases names.len(),
{
    if names.len() > 0 {
        law_every_family_is_accounted_for(names.drop_last());
    }
}

/// Whether every key of a journal's rows holds an index.
pub open spec fn indexed(cf: Cf, rows: Seq<(Seq<u8>, Seq<u8>)>) -> bool {
    forall|i: int| 0 <= i < rows.len() ==> decoded_key(cf, (#[trigger] rows[i]).0) is Ok
}

/// A journal's tip is its highest index and its floor the lowest.
pub proof fn law_tip_and_floor_bound_the_journal(
    cf: Cf,
    rows: Seq<(Seq<u8>, Seq<u8>)>,
    i: int,
)
    requires
        sorted(rows),
        indexed(cf, rows),
        0 <= i < rows.len(),
    ensures
        tip_of(cf, rows) matches Ok(Some(tip)) && decoded_key(cf, rows[i].0)->Ok_0 <= tip,
        floor_of(cf, rows) matches Ok(Some(floor)) && floor <= decoded_key(cf, rows[i].0)->Ok_0,
{
    let first = rows[0].0;
    let last = rows[rows.len() - 1].0;
    let key = rows[i].0;
    law_key_round_trips(cf, first);
    law_key_round_trips(cf, last);
    law_key_round_trips(cf, key);
    law_byte_order_is_numeric_order(first, key);
    law_byte_order_is_numeric_order(key, last);
    assert(rows.last() == rows[rows.len() - 1]);
}

/// A scan from an index walks exactly the entries at or past that index.
pub proof fn law_scan_is_what_lies_at_or_past_the_index(
    cf: Cf,
    rows: Seq<(Seq<u8>, Seq<u8>)>,
    from: u64,
    i: int,
)
    requires
        sorted(rows),
        indexed(cf, rows),
        encoded_key(cf, from) is Ok,
        0 <= i < rows.len(),
    ensures
        ({
            let walked = rows_from(rows, encoded_key(cf, from)->Ok_0);
            &&& walked == rows.skip(rows.len() - walked.len())
            &&& decoded_key(cf, rows[i].0)->Ok_0 >= from <==> i >= rows.len() - walked.len()
        }),
{
    let start = encoded_key(cf, from)->Ok_0;
    lemma_rows_from(rows, start);
    law_key_round_trips(cf, rows[i].0);
    law_key_order_is_index_order(cf, decoded_key(cf, rows[i].0)->Ok_0, from);
}

} // verus!
