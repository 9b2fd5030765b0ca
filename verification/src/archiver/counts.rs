//! One number per column family, or per name.

use crate::bytes::{
    key_less, lemma_lex_irreflexive, lemma_lex_total, lemma_lex_transitive, lex_less,
};
use crate::store::cf::{law_order_is_strict, Cf};
use crate::text::same_text;
use vstd::prelude::*;
use vstd::utf8::{encode_utf8, encode_utf8_decode_utf8};

verus! {

/// Whether entries stand in the families' declared order, no family twice.
pub open spec fn strictly_ordered(entries: Seq<(Cf, u64)>) -> bool {
    forall|i: int, j: int|
        0 <= i < j < entries.len() ==> (#[trigger] entries[i]).0.position() < (
        #[trigger] entries[j]).0.position()
}

/// Whether a family stands among entries.
pub open spec fn stands(entries: Seq<(Cf, u64)>, cf: Cf) -> bool {
    exists|i: int| 0 <= i < entries.len() && (#[trigger] entries[i]).0 == cf
}

/// Where a family stands among entries.
pub open spec fn place_of(entries: Seq<(Cf, u64)>, cf: Cf) -> int {
    choose|i: int| 0 <= i < entries.len() && (#[trigger] entries[i]).0 == cf
}

/// The number each family has among entries.
pub open spec fn numbers(entries: Seq<(Cf, u64)>) -> Map<Cf, u64> {
    Map::new(|cf: Cf| stands(entries, cf), |cf: Cf| entries[place_of(entries, cf)].1)
}

/// The sum of the entries' numbers.
pub open spec fn sum_of(entries: Seq<(Cf, u64)>) -> nat
    decreases entries.len(),
{
    if entries.len() == 0 {
        0
    } else {
        sum_of(entries.drop_last()) + entries.last().1 as nat
    }
}

/// A number per family, in the families' declared order.
pub struct FamilyCounts {
    entries: Vec<(Cf, u64)>,
}

impl View for FamilyCounts {
    type V = Map<Cf, u64>;

    closed spec fn view(&self) -> Map<Cf, u64> {
        numbers(self.entries@)
    }
}

impl FamilyCounts {
    /// The families and their numbers, in the declared order.
    pub closed spec fn listed(&self) -> Seq<(Cf, u64)> {
        self.entries@
    }

    #[verifier::type_invariant]
    spec fn ordered(self) -> bool {
        strictly_ordered(self.entries@)
    }

    pub fn new() -> (r: FamilyCounts)
        ensures
            r@ == Map::<Cf, u64>::empty(),
            r.listed() == Seq::<(Cf, u64)>::empty(),
    {
        let r = FamilyCounts { entries: Vec::new() };
        assert(r@ =~= Map::<Cf, u64>::empty());
        r
    }

    pub fn entries(&self) -> (r: &Vec<(Cf, u64)>)
        ensures
            r@ == self.listed(),
            strictly_ordered(r@),
            self@ == numbers(r@),
    {
        proof {
            use_type_invariant(self);
        }
        &self.entries
    }

    pub fn len(&self) -> (r: usize)
        ensures
            r == self.listed().len(),
    {
        self.entries.len()
    }

    pub fn is_empty(&self) -> (r: bool)
        ensures
            r == (self.listed().len() == 0),
            r == (self@ == Map::<Cf, u64>::empty()),
    {
        proof {
            if self.entries@.len() == 0 {
                assert(self@ =~= Map::<Cf, u64>::empty());
            } else {
                let cf = self.entries@[0].0;
                assert(stands(self.entries@, cf));
                assert(self@.dom().contains(cf));
            }
        }
        self.entries.len() == 0
    }

    /// The number a family has.
    pub fn get(&self, cf: &Cf) -> (r: Option<&u64>)
        ensures
            match r {
                Some(n) => self@.dom().contains(*cf) && self@[*cf] == *n,
                None => !self@.dom().contains(*cf),
            },
    {
        proof {
            use_type_invariant(self);
        }
        let mut i: usize = 0;
        while i < self.entries.len()
            invariant
                i <= self.entries@.len(),
                strictly_ordered(self.entries@),
                forall|j: int| 0 <= j < i ==> (#[trigger] self.entries@[j]).0 != *cf,
            decreases self.entries@.len() - i,
        {
            if self.entries[i].0 == *cf {
                proof {
                    assert(self.entries@[i as int].0 == *cf);
                    assert(stands(self.entries@, *cf));
                    assert(place_of(self.entries@, *cf) == i);
                }
                return Some(&self.entries[i].1);
            }
            i = i + 1;
        }
        None
    }

    /// Give a family a number, over the one it had.
    pub fn insert(&mut self, cf: Cf, n: u64)
        ensures
            final(self)@ == old(self)@.insert(cf, n),
    {
        proof {
            use_type_invariant(&*self);
        }
        let ghost before = self.entries@;
        let mut entries: Vec<(Cf, u64)> = Vec::new();
        std::mem::swap(&mut entries, &mut self.entries);
        let mut at: usize = entries.len();
        while at > 0 && cf.comes_before(entries[at - 1].0)
            invariant
                at <= entries@.len(),
                entries@ == before,
                forall|j: int| at <= j < before.len() ==> cf.position() < (
                #[trigger] before[j]).0.position(),
            decreases at,
        {
            at = at - 1;
        }
        if at > 0 && entries[at - 1].0 == cf {
            entries.set(at - 1, (cf, n));
            proof {
                lemma_number_replaced(before, at - 1, n);
            }
        } else {
            entries.insert(at, (cf, n));
            proof {
                if at > 0 && before[at - 1].0.position() == cf.position() {
                    law_order_is_strict(before[at - 1].0, cf);
                }
                lemma_number_added(before, at as int, cf, n);
            }
        }
        self.entries = entries;
    }

    /// The sum of the numbers.
    pub fn sum(&self) -> (r: u64)
        requires
            sum_of(self.listed()) <= u64::MAX,
        ensures
            r == sum_of(self.listed()),
    {
        let mut total: u64 = 0;
        let mut i: usize = 0;
        assert(self.entries@.take(0) =~= Seq::<(Cf, u64)>::empty());
        while i < self.entries.len()
            invariant
                i <= self.entries@.len(),
                total == sum_of(self.entries@.take(i as int)),
                sum_of(self.entries@) <= u64::MAX,
            decreases self.entries@.len() - i,
        {
            proof {
                assert(self.entries@.take(i + 1).drop_last() =~= self.entries@.take(i as int));
                lemma_sum_grows(self.entries@, i + 1);
            }
            total = total + self.entries[i].1;
            i = i + 1;
        }
        assert(self.entries@.take(i as int) =~= self.entries@);
        total
    }
}

proof fn lemma_sum_grows(entries: Seq<(Cf, u64)>, i: int)
    requires
        0 <= i <= entries.len(),
    ensures
        sum_of(entries.take(i)) <= sum_of(entries),
    decreases entries.len() - i,
{
    if i < entries.len() {
        lemma_sum_grows(entries, i + 1);
        assert(entries.take(i + 1).drop_last() =~= entries.take(i));
    } else {
        assert(entries.take(i) =~= entries);
    }
}

proof fn lemma_number_replaced(before: Seq<(Cf, u64)>, at: int, n: u64)
    requires
        strictly_ordered(before),
        0 <= at < before.len(),
    ensures
        strictly_ordered(before.update(at, (before[at].0, n))),
        numbers(before.update(at, (before[at].0, n))) == numbers(before).insert(before[at].0, n),
{
    let cf = before[at].0;
    let after = before.update(at, (cf, n));
    assert forall|i: int, j: int| 0 <= i < j < after.len() implies (
    #[trigger] after[i]).0.position() < (#[trigger] after[j]).0.position() by {
        assert(after[i].0 == before[i].0 && after[j].0 == before[j].0);
    }
    assert forall|x: Cf| stands(after, x) <==> stands(before, x) by {
        if stands(after, x) {
            assert(before[place_of(after, x)].0 == x);
        }
        if stands(before, x) {
            assert(after[place_of(before, x)].0 == x);
        }
    }
    assert(after[at].0 == cf);
    assert forall|x: Cf| #[trigger] stands(after, x) implies numbers(after)[x] == numbers(
        before,
    ).insert(cf, n)[x] by {
        let i = place_of(after, x);
        let j = place_of(before, x);
        assert(stands(before, x));
        assert(after[i].0 == x && before[j].0 == x);
        assert(before[i].0 == x && after[j].0 == x);
        if i < j {
            assert(before[i].0.position() < before[j].0.position());
        } else if j < i {
            assert(before[j].0.position() < before[i].0.position());
        }
        if x == cf {
            if i < at {
                assert(before[i].0.position() < before[at].0.position());
            } else if at < i {
                assert(before[at].0.position() < before[i].0.position());
            }
        }
    }
    assert(numbers(after) =~= numbers(before).insert(cf, n));
}

proof fn lemma_number_added(before: Seq<(Cf, u64)>, at: int, cf: Cf, n: u64)
    requires
        strictly_ordered(before),
        0 <= at <= before.len(),
        at > 0 ==> before[at - 1].0.position() < cf.position(),
        forall|j: int| at <= j < before.len() ==> cf.position() < (
        #[trigger] before[j]).0.position(),
    ensures
        strictly_ordered(before.insert(at, (cf, n))),
        numbers(before.insert(at, (cf, n))) == numbers(before).insert(cf, n),
{
    let after = before.insert(at, (cf, n));
    assert forall|i: int, j: int| 0 <= i < j < after.len() implies (
    #[trigger] after[i]).0.position() < (#[trigger] after[j]).0.position() by {
        let x = if i < at {
            i
        } else {
            i - 1
        };
        let y = if j < at {
            j
        } else {
            j - 1
        };
        if i == at {
            assert(after[j] == before[y]);
        } else if j == at {
            assert(after[i] == before[x]);
            if x < at - 1 {
                assert(before[x].0.position() < before[at - 1].0.position());
            }
        } else {
            assert(after[i] == before[x] && after[j] == before[y]);
        }
    }
    assert(after[at].0 == cf);
    assert(stands(after, cf));
    assert forall|x: Cf| x != cf implies (stands(after, x) <==> stands(before, x)) by {
        if stands(after, x) {
            let i = place_of(after, x);
            let k = if i < at {
                i
            } else {
                i - 1
            };
            assert(before[k].0 == x);
        }
        if stands(before, x) {
            let k = place_of(before, x);
            let i = if k < at {
                k
            } else {
                k + 1
            };
            assert(after[i].0 == x);
        }
    }
    assert forall|x: Cf| #[trigger] stands(after, x) implies numbers(after)[x] == numbers(
        before,
    ).insert(cf, n)[x] by {
        let i = place_of(after, x);
        assert(after[i].0 == x);
        if x == cf {
            if i < at {
                assert(after[i].0.position() < after[at].0.position());
            } else if at < i {
                assert(after[at].0.position() < after[i].0.position());
            }
        } else {
            assert(stands(before, x));
            let k = place_of(before, x);
            assert(before[k].0 == x);
            let j = if k < at {
                k
            } else {
                k + 1
            };
            assert(after[j] == before[k]);
            if i < j {
                assert(after[i].0.position() < after[j].0.position());
            } else if j < i {
                assert(after[j].0.position() < after[i].0.position());
            }
        }
    }
    assert(numbers(after) =~= numbers(before).insert(cf, n));
}

/// The number each name has among entries that were entered one after the other.
pub open spec fn by_name(entries: Seq<(String, u64)>) -> Map<Seq<char>, u64>
    decreases entries.len(),
{
    if entries.len() == 0 {
        Map::empty()
    } else {
        by_name(entries.drop_last()).insert(entries.last().0@, entries.last().1)
    }
}

/// Whether a name comes before another: byte for byte, as texts are ordered.
pub open spec fn name_less(a: Seq<char>, b: Seq<char>) -> bool {
    lex_less(encode_utf8(a), encode_utf8(b))
}

/// Whether entries stand in the order of their names, no name twice.
pub open spec fn in_name_order(entries: Seq<(String, u64)>) -> bool {
    forall|i: int, j: int|
        0 <= i < j < entries.len() ==> name_less(
            (#[trigger] entries[i]).0@,
            (#[trigger] entries[j]).0@,
        )
}

/// A number per name, in the order of the names.
pub struct NameCounts {
    entries: Vec<(String, u64)>,
}

impl View for NameCounts {
    type V = Map<Seq<char>, u64>;

    closed spec fn view(&self) -> Map<Seq<char>, u64> {
        by_name(self.entries@)
    }
}

impl NameCounts {
    #[verifier::type_invariant]
    spec fn ordered(self) -> bool {
        in_name_order(self.entries@)
    }

    pub fn new() -> (r: NameCounts)
        ensures
            r@ == Map::<Seq<char>, u64>::empty(),
    {
        NameCounts { entries: Vec::new() }
    }

    /// The names and their numbers, in the order of the names, each name once.
    pub fn entries(&self) -> (r: &Vec<(String, u64)>)
        ensures
            self@ == by_name(r@),
            in_name_order(r@),
    {
        proof {
            use_type_invariant(self);
        }
        &self.entries
    }

    pub fn is_empty(&self) -> (r: bool)
        ensures
            r == (self@ == Map::<Seq<char>, u64>::empty()),
    {
        proof {
            if self.entries@.len() > 0 {
                assert(self@.dom().contains(self.entries@.last().0@));
            }
        }
        self.entries.len() == 0
    }

    /// Where a name stands.
    fn position(&self, name: &str) -> (r: Option<usize>)
        ensures
            match r {
                Some(i) => i < self.entries@.len() && self.entries@[i as int].0@ == name@,
                None => forall|j: int|
                    0 <= j < self.entries@.len() ==> (#[trigger] self.entries@[j]).0@ != name@,
            },
    {
        let mut i: usize = 0;
        while i < self.entries.len()
            invariant
                i <= self.entries@.len(),
                forall|j: int| 0 <= j < i ==> (#[trigger] self.entries@[j]).0@ != name@,
            decreases self.entries@.len() - i,
        {
            if same_text(self.entries[i].0.as_str(), name) {
                return Some(i);
            }
            i = i + 1;
        }
        None
    }

    /// The number a name has.
    pub fn get(&self, name: &str) -> (r: Option<&u64>)
        ensures
            match r {
                Some(n) => self@.dom().contains(name@) && self@[name@] == *n,
                None => !self@.dom().contains(name@),
            },
    {
        proof {
            use_type_invariant(self);
            lemma_names_distinct(self.entries@);
        }
        match self.position(name) {
            Some(i) => {
                proof {
                    lemma_named(self.entries@, i as int);
                }
                Some(&self.entries[i].1)
            },
            None => {
                proof {
                    lemma_unnamed(self.entries@, name@);
                }
                None
            },
        }
    }

    /// Give a name a number, over the one it had.
    pub fn insert(&mut self, name: String, n: u64)
        ensures
            final(self)@ == old(self)@.insert(name@, n),
    {
        proof {
            use_type_invariant(&*self);
            lemma_names_distinct(self.entries@);
        }
        let found = self.position(name.as_str());
        let ghost before = self.entries@;
        let ghost entry = (name, n);
        let mut entries: Vec<(String, u64)> = Vec::new();
        std::mem::swap(&mut entries, &mut self.entries);
        match found {
            Some(i) => {
                entries.set(i, (name, n));
                proof {
                    lemma_renumbered(before, i as int, entry);
                }
            },
            None => {
                let mut at: usize = entries.len();
                while at > 0 && key_less(
                    name.as_str().as_bytes(),
                    entries[at - 1].0.as_str().as_bytes(),
                )
                    invariant
                        at <= entries@.len(),
                        entries@ == before,
                        forall|j: int| at <= j < before.len() ==> name_less(
                            name@,
                            (#[trigger] before[j]).0@,
                        ),
                    decreases at,
                {
                    at = at - 1;
                }
                proof {
                    if at > 0 {
                        let prev = before[at - 1].0@;
                        encode_utf8_decode_utf8(name@);
                        encode_utf8_decode_utf8(prev);
                        lemma_lex_total(encode_utf8(name@), encode_utf8(prev));
                    }
                    lemma_name_added(before, at as int, entry);
                }
                entries.insert(at, (name, n));
            },
        }
        self.entries = entries;
    }
}

proof fn lemma_names_distinct(entries: Seq<(String, u64)>)
    requires
        in_name_order(entries),
    ensures
        forall|i: int, j: int|
            0 <= i < j < entries.len() ==> (#[trigger] entries[i]).0@ != (
            #[trigger] entries[j]).0@,
{
    assert forall|i: int, j: int| 0 <= i < j < entries.len() implies (
    #[trigger] entries[i]).0@ != (#[trigger] entries[j]).0@ by {
        lemma_lex_irreflexive(encode_utf8(entries[i].0@));
    }
}

proof fn lemma_name_added(before: Seq<(String, u64)>, at: int, entry: (String, u64))
    requires
        in_name_order(before),
        0 <= at <= before.len(),
        at > 0 ==> name_less(before[at - 1].0@, entry.0@),
        forall|j: int| at <= j < before.len() ==> name_less(entry.0@, (#[trigger] before[j]).0@),
    ensures
        in_name_order(before.insert(at, entry)),
        by_name(before.insert(at, entry)) == by_name(before).insert(entry.0@, entry.1),
    decreases before.len(),
{
    let after = before.insert(at, entry);
    assert forall|i: int, j: int| 0 <= i < j < after.len() implies name_less(
        (#[trigger] after[i]).0@,
        (#[trigger] after[j]).0@,
    ) by {
        let x = if i < at {
            i
        } else {
            i - 1
        };
        let y = if j < at {
            j
        } else {
            j - 1
        };
        if i == at {
            assert(after[j] == before[y]);
        } else if j == at {
            assert(after[i] == before[x]);
            if x < at - 1 {
                assert(name_less(before[x].0@, before[at - 1].0@));
                lemma_lex_transitive(
                    encode_utf8(before[x].0@),
                    encode_utf8(before[at - 1].0@),
                    encode_utf8(entry.0@),
                );
            }
        } else {
            assert(after[i] == before[x] && after[j] == before[y]);
        }
    }
    if at == before.len() {
        assert(after.drop_last() =~= before);
    } else {
        let front = before.drop_last();
        assert(in_name_order(front));
        lemma_name_added(front, at, entry);
        assert(after.drop_last() =~= front.insert(at, entry));
        assert(after.last() == before.last());
        lemma_lex_irreflexive(encode_utf8(entry.0@));
        assert(entry.0@ != before[before.len() - 1].0@);
        assert(by_name(after) =~= by_name(before).insert(entry.0@, entry.1));
    }
}

proof fn lemma_unnamed(entries: Seq<(String, u64)>, name: Seq<char>)
    requires
        forall|j: int| 0 <= j < entries.len() ==> (#[trigger] entries[j]).0@ != name,
    ensures
        !by_name(entries).dom().contains(name),
    decreases entries.len(),
{
    if entries.len() > 0 {
        let front = entries.drop_last();
        assert forall|j: int| 0 <= j < front.len() implies (#[trigger] front[j]).0@ != name by {
            assert(front[j] == entries[j]);
        }
        lemma_unnamed(front, name);
    }
}

proof fn lemma_named(entries: Seq<(String, u64)>, i: int)
    requires
        0 <= i < entries.len(),
        forall|j: int, k: int|
            0 <= j < k < entries.len() ==> (#[trigger] entries[j]).0@ != (
            #[trigger] entries[k]).0@,
    ensures
        by_name(entries).dom().contains(entries[i].0@),
        by_name(entries)[entries[i].0@] == entries[i].1,
    decreases entries.len(),
{
    let front = entries.drop_last();
    if i < front.len() {
        assert forall|j: int, k: int| 0 <= j < k < front.len() implies (
        #[trigger] front[j]).0@ != (#[trigger] front[k]).0@ by {
            assert(front[j] == entries[j] && front[k] == entries[k]);
        }
        lemma_named(front, i);
        assert(entries[i].0@ != entries[entries.len() - 1].0@);
    }
}

proof fn lemma_renumbered(entries: Seq<(String, u64)>, i: int, entry: (String, u64))
    requires
        0 <= i < entries.len(),
        entry.0@ == entries[i].0@,
        forall|j: int, k: int|
            0 <= j < k < entries.len() ==> (#[trigger] entries[j]).0@ != (
            #[trigger] entries[k]).0@,
    ensures
        by_name(entries.update(i, entry)) == by_name(entries).insert(entry.0@, entry.1),
        in_name_order(entries) ==> in_name_order(entries.update(i, entry)),
    decreases entries.len(),
{
    let front = entries.drop_last();
    let after = entries.update(i, entry);
    assert(forall|j: int| 0 <= j < after.len() ==> (#[trigger] after[j]).0@ == entries[j].0@);
    if i == front.len() {
        assert(after.drop_last() =~= front);
        assert(by_name(after) =~= by_name(entries).insert(entry.0@, entry.1));
    } else {
        assert forall|j: int, k: int| 0 <= j < k < front.len() implies (
        #[trigger] front[j]).0@ != (#[trigger] front[k]).0@ by {
            assert(front[j] == entries[j] && front[k] == entries[k]);
        }
        lemma_renumbered(front, i, entry);
        assert(after.drop_last() =~= front.update(i, entry));
        assert(entries[i].0@ != entries[entries.len() - 1].0@);
        assert(by_name(after) =~= by_name(entries).insert(entry.0@, entry.1));
    }
}

} // verus!
