//! A store's rows at one moment: each family's keys and values in key order.

use crate::bytes::{
    copy_bytes, key_less, lemma_lex_asymmetric, lemma_lex_irreflexive, lemma_lex_total,
    lemma_lex_transitive, lex_less, same_bytes,
};
use crate::text::same_text;
use vstd::prelude::*;

verus! {

/// One key and its value.
#[derive(Clone, PartialEq, Eq, Debug)]
pub struct Row {
    pub key: Vec<u8>,
    pub value: Vec<u8>,
}

impl View for Row {
    type V = (Seq<u8>, Seq<u8>);

    open spec fn view(&self) -> (Seq<u8>, Seq<u8>) {
        (self.key@, self.value@)
    }
}

impl Row {
    pub fn copy(&self) -> (r: Row)
        ensures
            r@ == self@,
    {
        Row { key: copy_bytes(self.key.as_slice()), value: copy_bytes(self.value.as_slice()) }
    }
}

/// What rows say.
pub open spec fn rows_view(rows: Seq<Row>) -> Seq<(Seq<u8>, Seq<u8>)> {
    Seq::new(rows.len(), |i: int| rows[i]@)
}

/// Whether rows stand in key order, no key twice.
pub open spec fn sorted(rows: Seq<(Seq<u8>, Seq<u8>)>) -> bool {
    forall|i: int, j: int|
        0 <= i < j < rows.len() ==> lex_less((#[trigger] rows[i]).0, (#[trigger] rows[j]).0)
}

/// The rows from the first whose key is not below `start`.
pub open spec fn rows_from(rows: Seq<(Seq<u8>, Seq<u8>)>, start: Seq<u8>) -> Seq<
    (Seq<u8>, Seq<u8>),
>
    decreases rows.len(),
{
    if rows.len() == 0 || !lex_less(rows[0].0, start) {
        rows
    } else {
        rows_from(rows.drop_first(), start)
    }
}

/// The value that a key has.
pub open spec fn value_of(rows: Seq<(Seq<u8>, Seq<u8>)>, key: Seq<u8>) -> Option<Seq<u8>>
    decreases rows.len(),
{
    if rows.len() == 0 {
        None
    } else if rows.last().0 == key {
        Some(rows.last().1)
    } else {
        value_of(rows.drop_last(), key)
    }
}

/// The rows once a key has been given a value: in its place in key order, or over the value that
/// the key had.
pub open spec fn with_row(rows: Seq<(Seq<u8>, Seq<u8>)>, row: (Seq<u8>, Seq<u8>)) -> Seq<
    (Seq<u8>, Seq<u8>),
>
    decreases rows.len(),
{
    if rows.len() == 0 || lex_less(rows.last().0, row.0) {
        rows.push(row)
    } else if rows.last().0 == row.0 {
        rows.drop_last().push(row)
    } else {
        with_row(rows.drop_last(), row).push(rows.last())
    }
}

/// The rows once others have been written over them, one after the other.
pub open spec fn with_rows(
    rows: Seq<(Seq<u8>, Seq<u8>)>,
    written: Seq<(Seq<u8>, Seq<u8>)>,
) -> Seq<(Seq<u8>, Seq<u8>)>
    decreases written.len(),
{
    if written.len() == 0 {
        rows
    } else {
        with_row(with_rows(rows, written.drop_last()), written.last())
    }
}

/// The rows of one family.
pub struct Table {
    rows: Vec<Row>,
}

impl View for Table {
    type V = Seq<(Seq<u8>, Seq<u8>)>;

    closed spec fn view(&self) -> Seq<(Seq<u8>, Seq<u8>)> {
        rows_view(self.rows@)
    }
}

impl Table {
    #[verifier::type_invariant]
    spec fn in_key_order(self) -> bool {
        sorted(rows_view(self.rows@))
    }

    pub fn new() -> (r: Table)
        ensures
            r@ == Seq::<(Seq<u8>, Seq<u8>)>::empty(),
    {
        let r = Table { rows: Vec::new() };
        assert(r@ =~= Seq::<(Seq<u8>, Seq<u8>)>::empty());
        r
    }

    /// Every table's rows stand in key order.
    pub fn rows(&self) -> (r: &Vec<Row>)
        ensures
            rows_view(r@) == self@,
            sorted(self@),
    {
        proof {
            use_type_invariant(self);
        }
        &self.rows
    }

    pub fn get(&self, key: &[u8]) -> (r: Option<&Vec<u8>>)
        ensures
            match r {
                Some(value) => value_of(self@, key@) == Some(value@),
                None => value_of(self@, key@) is None,
            },
    {
        let mut i: usize = self.rows.len();
        assert(self@.take(i as int) =~= self@);
        while i > 0
            invariant
                i <= self.rows@.len(),
                value_of(self@, key@) == value_of(self@.take(i as int), key@),
            decreases i,
        {
            let row = &self.rows[i - 1];
            assert(self@.take(i as int).drop_last() =~= self@.take(i - 1));
            if same_bytes(row.key.as_slice(), key) {
                return Some(&row.value);
            }
            i = i - 1;
        }
        None
    }

    /// Where the rows begin whose keys are not below `start`.
    pub fn seek(&self, start: &[u8]) -> (r: usize)
        ensures
            r <= self@.len(),
            self@.skip(r as int) == rows_from(self@, start@),
    {
        let mut i: usize = 0;
        assert(self@.skip(0) =~= self@);
        while i < self.rows.len()
            invariant
                i <= self.rows@.len(),
                rows_from(self@, start@) == rows_from(self@.skip(i as int), start@),
            decreases self.rows@.len() - i,
        {
            if !key_less(self.rows[i].key.as_slice(), start) {
                return i;
            }
            assert(self@.skip(i as int).drop_first() =~= self@.skip(i + 1));
            i = i + 1;
        }
        i
    }

    pub fn put(&mut self, row: Row)
        ensures
            final(self)@ == with_row(old(self)@, row@),
    {
        proof {
            use_type_invariant(&*self);
            lemma_with_row_sorted(self@, row@);
        }
        let ghost before = self@;
        let mut rows: Vec<Row> = Vec::new();
        std::mem::swap(&mut rows, &mut self.rows);
        let mut at: usize = rows.len();
        assert(before.take(at as int) =~= before);
        assert(before.skip(at as int) =~= Seq::<(Seq<u8>, Seq<u8>)>::empty());
        assert(with_row(before, row@) =~= with_row(before.take(at as int), row@) + before.skip(
            at as int,
        ));
        while at > 0 && key_less(row.key.as_slice(), rows[at - 1].key.as_slice())
            invariant
                at <= rows@.len(),
                before == rows_view(rows@),
                with_row(before, row@) == with_row(before.take(at as int), row@) + before.skip(
                    at as int,
                ),
            decreases at,
        {
            let ghost front = before.take(at as int);
            proof {
                lemma_lex_asymmetric(row@.0, front.last().0);
                assert(front.drop_last() =~= before.take(at - 1));
                assert(with_row(front.drop_last(), row@).push(front.last()) + before.skip(at as int)
                    =~= with_row(front.drop_last(), row@) + before.skip(at - 1));
            }
            at = at - 1;
        }
        if at > 0 && same_bytes(rows[at - 1].key.as_slice(), row.key.as_slice()) {
            let ghost view = row@;
            proof {
                lemma_lex_irreflexive(view.0);
            }
            rows.set(at - 1, row);
            assert(rows_view(rows@) =~= before.take(at as int).drop_last().push(view) + before.skip(
                at as int,
            ));
        } else {
            let ghost view = row@;
            proof {
                if at > 0 {
                    lemma_lex_total(before[at - 1].0, view.0);
                }
            }
            rows.insert(at, row);
            assert(rows_view(rows@) =~= before.take(at as int).push(view) + before.skip(at as int));
        }
        self.rows = rows;
    }

    /// Write rows, one after the other.
    pub fn put_all(&mut self, written: &Vec<Row>)
        ensures
            final(self)@ == with_rows(old(self)@, rows_view(written@)),
    {
        let ghost before = self@;
        let mut i: usize = 0;
        assert(rows_view(written@).take(0) =~= Seq::<(Seq<u8>, Seq<u8>)>::empty());
        while i < written.len()
            invariant
                i <= written@.len(),
                self@ == with_rows(before, rows_view(written@).take(i as int)),
            decreases written@.len() - i,
        {
            self.put(written[i].copy());
            assert(rows_view(written@).take(i + 1).drop_last() =~= rows_view(written@).take(
                i as int,
            ));
            i = i + 1;
        }
        assert(rows_view(written@).take(i as int) =~= rows_view(written@));
    }
}

/// What named families hold. Where a name stands twice, the first counts.
pub open spec fn families_view(list: Seq<Family>) -> Map<Seq<char>, Seq<(Seq<u8>, Seq<u8>)>>
    decreases list.len(),
{
    if list.len() == 0 {
        Map::empty()
    } else {
        let before = families_view(list.drop_last());
        if before.dom().contains(list.last().name@) {
            before
        } else {
            before.insert(list.last().name@, list.last().table@)
        }
    }
}

/// Whether every family's rows stand in key order, as a store keeps them.
pub open spec fn ordered(content: Map<Seq<char>, Seq<(Seq<u8>, Seq<u8>)>>) -> bool {
    forall|name: Seq<char>| content.dom().contains(name) ==> sorted(#[trigger] content[name])
}

/// One named family.
pub struct Family {
    pub name: String,
    pub table: Table,
}

/// The families of one store, by name.
pub struct Families {
    list: Vec<Family>,
}

impl View for Families {
    type V = Map<Seq<char>, Seq<(Seq<u8>, Seq<u8>)>>;

    closed spec fn view(&self) -> Map<Seq<char>, Seq<(Seq<u8>, Seq<u8>)>> {
        families_view(self.list@)
    }
}

impl Families {
    #[verifier::type_invariant]
    pub open spec fn in_key_order(self) -> bool {
        ordered(self@)
    }

    pub fn of(list: Vec<Family>) -> (r: Families)
        ensures
            r@ == families_view(list@),
            ordered(r@),
    {
        let mut i: usize = 0;
        while i < list.len()
            invariant
                i <= list@.len(),
                forall|j: int| 0 <= j < i ==> sorted((#[trigger] list@[j]).table@),
            decreases list@.len() - i,
        {
            let table = &list[i].table;
            proof {
                use_type_invariant(table);
            }
            i = i + 1;
        }
        proof {
            lemma_families_ordered(list@);
        }
        Families { list }
    }

    /// Where a name first stands.
    fn position(&self, name: &str) -> (r: Option<usize>)
        ensures
            match r {
                Some(i) => {
                    &&& i < self.list@.len()
                    &&& self.list@[i as int].name@ == name@
                    &&& forall|j: int| 0 <= j < i ==> (#[trigger] self.list@[j]).name@ != name@
                    &&& self@.dom().contains(name@)
                    &&& self@[name@] == self.list@[i as int].table@
                },
                None => !self@.dom().contains(name@),
            },
    {
        let mut i: usize = 0;
        while i < self.list.len()
            invariant
                i <= self.list@.len(),
                forall|j: int| 0 <= j < i ==> (#[trigger] self.list@[j]).name@ != name@,
            decreases self.list@.len() - i,
        {
            if same_text(self.list[i].name.as_str(), name) {
                proof {
                    lemma_first_counts(self.list@, i as int);
                }
                return Some(i);
            }
            i = i + 1;
        }
        proof {
            lemma_no_such_family(self.list@, name@);
        }
        None
    }

    pub fn get(&self, name: &str) -> (r: Option<&Table>)
        ensures
            match r {
                Some(table) => self@.dom().contains(name@) && table@ == self@[name@],
                None => !self@.dom().contains(name@),
            },
    {
        match self.position(name) {
            Some(i) => Some(&self.list[i].table),
            None => None,
        }
    }

    /// Write rows into a family. `false` where there is no such family, and nothing is written.
    pub fn put_all(&mut self, name: &str, written: &Vec<Row>) -> (r: bool)
        ensures
            r == old(self)@.dom().contains(name@),
            final(self)@ == (if r {
                old(self)@.insert(name@, with_rows(old(self)@[name@], rows_view(written@)))
            } else {
                old(self)@
            }),
    {
        match self.position(name) {
            Some(i) => {
                proof {
                    use_type_invariant(&*self);
                }
                let ghost before = self.list@;
                let mut list: Vec<Family> = Vec::new();
                std::mem::swap(&mut list, &mut self.list);
                let mut family = list.remove(i);
                family.table.put_all(written);
                let table = &family.table;
                proof {
                    use_type_invariant(table);
                }
                list.insert(i, family);
                proof {
                    assert(list@ =~= before.update(i as int, list@[i as int]));
                    lemma_family_replaced(before, i as int, list@[i as int]);
                }
                self.list = list;
                true
            },
            None => false,
        }
    }

    /// Add an empty family, where there is none of that name.
    pub fn create(&mut self, name: &str)
        ensures
            final(self)@ == (if old(self)@.dom().contains(name@) {
                old(self)@
            } else {
                old(self)@.insert(name@, Seq::<(Seq<u8>, Seq<u8>)>::empty())
            }),
    {
        if self.position(name).is_none() {
            proof {
                use_type_invariant(&*self);
            }
            let ghost before = self.list@;
            let mut list: Vec<Family> = Vec::new();
            std::mem::swap(&mut list, &mut self.list);
            list.push(Family { name: name.to_owned(), table: Table::new() });
            assert(list@.drop_last() =~= before);
            self.list = list;
        }
    }
}

proof fn lemma_families_ordered(list: Seq<Family>)
    requires
        forall|j: int| 0 <= j < list.len() ==> sorted((#[trigger] list[j]).table@),
    ensures
        ordered(families_view(list)),
    decreases list.len(),
{
    if list.len() > 0 {
        let front = list.drop_last();
        assert forall|j: int| 0 <= j < front.len() implies sorted((#[trigger] front[j]).table@) by {
            assert(front[j] == list[j]);
        }
        lemma_families_ordered(front);
    }
}

proof fn lemma_no_such_family(list: Seq<Family>, name: Seq<char>)
    requires
        forall|j: int| 0 <= j < list.len() ==> (#[trigger] list[j]).name@ != name,
    ensures
        !families_view(list).dom().contains(name),
    decreases list.len(),
{
    if list.len() > 0 {
        assert forall|j: int| 0 <= j < list.drop_last().len() implies (#[trigger] list.drop_last()[j]).name@ != name by {
            assert(list.drop_last()[j] == list[j]);
        }
        lemma_no_such_family(list.drop_last(), name);
    }
}

proof fn lemma_first_counts(list: Seq<Family>, i: int)
    requires
        0 <= i < list.len(),
        forall|j: int| 0 <= j < i ==> (#[trigger] list[j]).name@ != list[i].name@,
    ensures
        families_view(list).dom().contains(list[i].name@),
        families_view(list)[list[i].name@] == list[i].table@,
    decreases list.len(),
{
    let front = list.drop_last();
    if i == list.len() - 1 {
        assert forall|j: int| 0 <= j < front.len() implies (#[trigger] front[j]).name@
            != list[i].name@ by {
            assert(front[j] == list[j]);
        }
        lemma_no_such_family(front, list[i].name@);
    } else {
        assert forall|j: int| 0 <= j < i implies (#[trigger] front[j]).name@ != front[i].name@ by {
            assert(front[j] == list[j]);
        }
        lemma_first_counts(front, i);
    }
}

proof fn lemma_family_replaced(list: Seq<Family>, i: int, family: Family)
    requires
        0 <= i < list.len(),
        family.name@ == list[i].name@,
        forall|j: int| 0 <= j < i ==> (#[trigger] list[j]).name@ != list[i].name@,
    ensures
        families_view(list.update(i, family)) == families_view(list).insert(
            family.name@,
            family.table@,
        ),
    decreases list.len(),
{
    let front = list.drop_last();
    let after = list.update(i, family);
    if i == list.len() - 1 {
        assert forall|j: int| 0 <= j < front.len() implies (#[trigger] front[j]).name@
            != list[i].name@ by {
            assert(front[j] == list[j]);
        }
        lemma_no_such_family(front, list[i].name@);
        assert(after.drop_last() =~= front);
        assert(families_view(after) =~= families_view(list).insert(family.name@, family.table@));
    } else {
        assert forall|j: int| 0 <= j < i implies (#[trigger] front[j]).name@ != front[i].name@ by {
            assert(front[j] == list[j]);
        }
        lemma_family_replaced(front, i, family);
        assert(after.drop_last() =~= front.update(i, family));
        lemma_first_counts(front, i);
        assert(families_view(after) =~= families_view(list).insert(family.name@, family.table@));
    }
}

/// Writing a row keeps the rows in key order, and adds no key but its own.
pub proof fn lemma_with_row_sorted(rows: Seq<(Seq<u8>, Seq<u8>)>, row: (Seq<u8>, Seq<u8>))
    requires
        sorted(rows),
    ensures
        sorted(with_row(rows, row)),
        forall|i: int|
            0 <= i < with_row(rows, row).len() ==> {
                let r = #[trigger] with_row(rows, row)[i];
                r == row || rows.contains(r)
            },
    decreases rows.len(),
{
    let after = with_row(rows, row);
    if rows.len() == 0 {
    } else if lex_less(rows.last().0, row.0) {
        assert forall|i: int, j: int| 0 <= i < j < after.len() implies lex_less(
            (#[trigger] after[i]).0,
            (#[trigger] after[j]).0,
        ) by {
            if j == rows.len() && i < rows.len() - 1 {
                lemma_lex_transitive(rows[i].0, rows.last().0, row.0);
            }
        }
        assert forall|i: int| 0 <= i < after.len() implies {
            let r = #[trigger] after[i];
            r == row || rows.contains(r)
        } by {
            if i < rows.len() {
                assert(after[i] == rows[i]);
            }
        }
    } else if rows.last().0 == row.0 {
        assert forall|i: int| 0 <= i < after.len() implies {
            let r = #[trigger] after[i];
            r == row || rows.contains(r)
        } by {
            if i < rows.len() - 1 {
                assert(after[i] == rows[i]);
            }
        }
    } else {
        let front = rows.drop_last();
        lemma_with_row_sorted(front, row);
        lemma_lex_total(rows.last().0, row.0);
        let inner = with_row(front, row);
        assert forall|i: int| 0 <= i < after.len() implies {
            let r = #[trigger] after[i];
            r == row || rows.contains(r)
        } by {
            if i < inner.len() {
                assert(after[i] == inner[i]);
                if inner[i] != row {
                    let k = choose|k: int| 0 <= k < front.len() && front[k] == inner[i];
                    assert(rows[k] == inner[i]);
                }
            } else {
                assert(rows[rows.len() - 1] == after[i]);
            }
        }
        assert forall|i: int, j: int| 0 <= i < j < after.len() implies lex_less(
            (#[trigger] after[i]).0,
            (#[trigger] after[j]).0,
        ) by {
            if j == inner.len() {
                assert(after[i] == inner[i]);
                if inner[i] != row {
                    let k = choose|k: int| 0 <= k < front.len() && front[k] == inner[i];
                    assert(rows[k] == inner[i]);
                }
            } else {
                assert(after[i] == inner[i] && after[j] == inner[j]);
            }
        }
    }
}

/// The value a key was given is the value it has, and every other key keeps the value it had.
pub proof fn law_written_value_is_read(
    rows: Seq<(Seq<u8>, Seq<u8>)>,
    row: (Seq<u8>, Seq<u8>),
    key: Seq<u8>,
)
    requires
        sorted(rows),
    ensures
        value_of(with_row(rows, row), key) == (if key == row.0 {
            Some(row.1)
        } else {
            value_of(rows, key)
        }),
    decreases rows.len(),
{
    let after = with_row(rows, row);
    if rows.len() == 0 || lex_less(rows.last().0, row.0) {
        assert(after.drop_last() =~= rows);
    } else if rows.last().0 == row.0 {
        assert(after.drop_last() =~= rows.drop_last());
    } else {
        law_written_value_is_read(rows.drop_last(), row, key);
        assert(after.drop_last() =~= with_row(rows.drop_last(), row));
    }
}

/// Writing a family's own rows over it changes nothing.
pub proof fn law_rewriting_is_idempotent(
    rows: Seq<(Seq<u8>, Seq<u8>)>,
    written: Seq<(Seq<u8>, Seq<u8>)>,
)
    requires
        sorted(rows),
        forall|i: int| 0 <= i < written.len() ==> rows.contains(#[trigger] written[i]),
    ensures
        with_rows(rows, written) == rows,
    decreases written.len(),
{
    if written.len() > 0 {
        let front = written.drop_last();
        assert forall|i: int| 0 <= i < front.len() implies rows.contains(#[trigger] front[i]) by {
            assert(front[i] == written[i]);
        }
        law_rewriting_is_idempotent(rows, front);
        assert(written[written.len() - 1] == written.last());
        lemma_row_rewritten(rows, written.last());
    }
}

proof fn lemma_row_rewritten(rows: Seq<(Seq<u8>, Seq<u8>)>, row: (Seq<u8>, Seq<u8>))
    requires
        sorted(rows),
        rows.contains(row),
    ensures
        with_row(rows, row) == rows,
    decreases rows.len(),
{
    let k = choose|k: int| 0 <= k < rows.len() && rows[k] == row;
    if k == rows.len() - 1 {
        lemma_lex_irreflexive(row.0);
        assert(rows.drop_last().push(row) =~= rows);
    } else {
        lemma_lex_asymmetric(row.0, rows.last().0);
        assert(rows.drop_last()[k] == row);
        lemma_row_rewritten(rows.drop_last(), row);
        assert(rows.drop_last().push(rows.last()) =~= rows);
    }
}

/// Rows whose keys all lie past the last are written behind it.
pub proof fn lemma_appended(
    rows: Seq<(Seq<u8>, Seq<u8>)>,
    written: Seq<(Seq<u8>, Seq<u8>)>,
)
    requires
        sorted(written),
        rows.len() > 0 && written.len() > 0 ==> lex_less(rows.last().0, written[0].0),
    ensures
        with_rows(rows, written) == rows + written,
    decreases written.len(),
{
    if written.len() == 0 {
        assert(rows + written =~= rows);
    } else {
        let front = written.drop_last();
        lemma_appended(rows, front);
        assert((rows + front).push(written.last()) =~= rows + written);
        if rows.len() + front.len() > 0 {
            if front.len() > 0 {
                assert((rows + front).last() == written[front.len() - 1]);
            } else {
                assert((rows + front).last() == rows.last());
            }
        }
    }
}

/// The rows from a key on: which they are, in rows that stand in key order.
pub proof fn lemma_rows_from(rows: Seq<(Seq<u8>, Seq<u8>)>, start: Seq<u8>)
    requires
        sorted(rows),
    ensures
        sorted(rows_from(rows, start)),
        rows_from(rows, start).len() <= rows.len(),
        rows_from(rows, start) == rows.skip(rows.len() - rows_from(rows, start).len()),
        forall|i: int|
            0 <= i < rows.len() ==> (lex_less((#[trigger] rows[i]).0, start) <==> i < rows.len()
                - rows_from(rows, start).len()),
    decreases rows.len(),
{
    let from = rows_from(rows, start);
    if rows.len() == 0 {
        assert(rows.skip(0) =~= rows);
    } else if !lex_less(rows[0].0, start) {
        assert(rows.skip(0) =~= rows);
        assert forall|i: int| 0 <= i < rows.len() implies !lex_less((#[trigger] rows[i]).0, start) by {
            if i > 0 && lex_less(rows[i].0, start) {
                lemma_lex_transitive(rows[0].0, rows[i].0, start);
            }
        }
    } else {
        let rest = rows.drop_first();
        assert forall|i: int, j: int| 0 <= i < j < rest.len() implies lex_less(
            (#[trigger] rest[i]).0,
            (#[trigger] rest[j]).0,
        ) by {
            assert(rest[i] == rows[i + 1] && rest[j] == rows[j + 1]);
        }
        lemma_rows_from(rest, start);
        assert(rest.skip(rest.len() - from.len()) =~= rows.skip(rows.len() - from.len()));
        assert forall|i: int| 0 <= i < rows.len() implies (lex_less((#[trigger] rows[i]).0, start)
            <==> i < rows.len() - from.len()) by {
            if i > 0 {
                assert(rows[i] == rest[i - 1]);
            }
        }
    }
}

/// A key has a value exactly where a row holds that key and that value.
pub proof fn law_a_value_is_its_row(
    rows: Seq<(Seq<u8>, Seq<u8>)>,
    key: Seq<u8>,
    value: Seq<u8>,
)
    requires
        sorted(rows),
    ensures
        value_of(rows, key) == Some(value) <==> rows.contains((key, value)),
    decreases rows.len(),
{
    if rows.len() > 0 {
        let front = rows.drop_last();
        law_a_value_is_its_row(front, key, value);
        if front.contains((key, value)) {
            let i = choose|i: int| 0 <= i < front.len() && front[i] == (key, value);
            assert(rows[i] == (key, value));
            lemma_lex_asymmetric(rows[i].0, rows.last().0);
        }
        if rows.contains((key, value)) {
            let i = choose|i: int| 0 <= i < rows.len() && rows[i] == (key, value);
            if i < front.len() {
                assert(front[i] == (key, value));
            }
        }
        if rows.last() == (key, value) {
            assert(rows[rows.len() - 1] == (key, value));
        }
    }
}

} // verus!
