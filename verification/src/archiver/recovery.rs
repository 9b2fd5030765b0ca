//! What a crash costs: a little re-copying, and nothing else.

use crate::archiver::archive::archived_tip;
use crate::archiver::laws::{
    law_journals_are_copied_byte_for_byte, lemma_contains_drop_last, lemma_families_fail_on,
    lemma_journals_nameable, lemma_journals_of, lemma_last_write_wins, lemma_readable, lemma_step,
    lemma_to_copy, room,
};
use crate::archiver::pass::{
    after_families, after_journal, after_journals, after_pass, at_last_index, readable, resumable,
    starting, to_copy, PassView,
};
use crate::bytes::{lemma_lex_asymmetric, lemma_lex_irreflexive, lex_less};
use crate::store::cf::{law_names_are_distinct, Cf};
use crate::store::error::StoreError;
use crate::store::head_store::{all_nameable, journals_of, stored_rows};
use crate::store::journal::{
    decoded_key, encoded_key, law_key_order_is_index_order, law_key_round_trips,
};
use crate::store::table::{
    law_a_value_is_its_row, lemma_rows_from, ordered, sorted, value_of, with_rows,
};
use vstd::prelude::*;

verus! {

/// Whether an archive holds, of what a pass was to copy of a journal, the first `k` rows.
pub open spec fn partly_copied(
    store: Map<Seq<char>, Seq<(Seq<u8>, Seq<u8>)>>,
    archive: Map<Seq<char>, Seq<(Seq<u8>, Seq<u8>)>>,
    crashed: Map<Seq<char>, Seq<(Seq<u8>, Seq<u8>)>>,
    cf: Cf,
    k: int,
) -> bool {
    &&& to_copy(store, archive, cf) matches Ok(rows)
    &&& 0 <= k <= rows.len()
    &&& crashed[cf.name_chars()] == archive[cf.name_chars()] + rows.take(k)
}

/// Whether an archive holds, of what a pass was to write over a family, the first `k` rows.
pub open spec fn partly_written(
    store: Map<Seq<char>, Seq<(Seq<u8>, Seq<u8>)>>,
    archive: Map<Seq<char>, Seq<(Seq<u8>, Seq<u8>)>>,
    crashed: Map<Seq<char>, Seq<(Seq<u8>, Seq<u8>)>>,
    cf: Cf,
    k: int,
) -> bool {
    &&& stored_rows(store, cf) matches Ok(rows)
    &&& 0 <= k <= rows.len()
    &&& crashed[cf.name_chars()] == with_rows(archive[cf.name_chars()], rows.take(k))
}

/// Whether the rows past `k` are what a crash kept out of an archive's family.
pub open spec fn cut_short(
    store: Map<Seq<char>, Seq<(Seq<u8>, Seq<u8>)>>,
    archive: Map<Seq<char>, Seq<(Seq<u8>, Seq<u8>)>>,
    crashed: Map<Seq<char>, Seq<(Seq<u8>, Seq<u8>)>>,
    full: bool,
    cf: Cf,
    k: int,
) -> bool {
    if cf.journal() {
        partly_copied(store, archive, crashed, cf, k)
    } else {
        full && partly_written(store, archive, crashed, cf, k)
    }
}

/// Whether `crashed` is what a pass that found `archive` can leave when it is cut short: each
/// family that the pass writes holds some of the rows it was to get, from the first on, and every
/// other is as it was.
pub open spec fn left_by_a_crash(
    store: Map<Seq<char>, Seq<(Seq<u8>, Seq<u8>)>>,
    families: Seq<Cf>,
    archive: Map<Seq<char>, Seq<(Seq<u8>, Seq<u8>)>>,
    crashed: Map<Seq<char>, Seq<(Seq<u8>, Seq<u8>)>>,
    full: bool,
) -> bool {
    &&& crashed.dom() == archive.dom()
    &&& forall|name: Seq<char>| #[trigger]
        crashed[name] == archive[name] || exists|cf: Cf, k: int|
            families.contains(cf) && cf.name_chars() == name && #[trigger] cut_short(
                store,
                archive,
                crashed,
                full,
                cf,
                k,
            )
}

/// What follows readable rows among readable rows is readable.
proof fn lemma_rest_readable(cf: Cf, rows: Seq<(Seq<u8>, Seq<u8>)>, k: int)
    requires
        readable(cf, rows) == rows.len(),
        0 <= k <= rows.len(),
    ensures
        readable(cf, rows.skip(k)) == rows.len() - k,
    decreases k,
{
    if k == 0 {
        assert(rows.skip(0) =~= rows);
    } else {
        lemma_rest_readable(cf, rows.drop_first(), k - 1);
        assert(rows.drop_first().skip(k - 1) =~= rows.skip(k));
    }
}

/// A journal's copy that was cut short has the rest left to copy.
proof fn lemma_rest_is_to_copy(
    store: Map<Seq<char>, Seq<(Seq<u8>, Seq<u8>)>>,
    archive: Map<Seq<char>, Seq<(Seq<u8>, Seq<u8>)>>,
    later: Map<Seq<char>, Seq<(Seq<u8>, Seq<u8>)>>,
    cf: Cf,
    k: int,
)
    requires
        ordered(store),
        ordered(archive),
        !at_last_index(archive, cf),
        partly_copied(store, archive, later, cf, k),
        readable(cf, to_copy(store, archive, cf)->Ok_0) == to_copy(store, archive, cf)->Ok_0.len(),
        later.dom() == archive.dom(),
        room(later, cf),
    ensures
        !at_last_index(later, cf),
        to_copy(store, later, cf) == Ok::<_, StoreError>(
            to_copy(store, archive, cf)->Ok_0.skip(k),
        ),
{
    let name = cf.name_chars();
    let src = store[name];
    let rows = to_copy(store, archive, cf)->Ok_0;
    lemma_to_copy(store, archive, cf);
    if k == 0 {
        assert(archive[name] + rows.take(0) =~= archive[name]);
        assert(rows.skip(0) =~= rows);
    } else {
        let before = src.len() - rows.len();
        let last = rows[k - 1].0;
        assert(later[name].last() == rows[k - 1]);
        assert(rows[k - 1] == src[before + k - 1]);
        lemma_readable(cf, rows, k - 1);
        let tip = decoded_key(cf, last)->Ok_0;
        let next = (tip + 1) as u64;
        let start = encoded_key(cf, next)->Ok_0;
        assert(archived_tip(later, cf) == Ok::<Option<u64>, StoreError>(Some(tip)));
        law_key_round_trips(cf, last);
        law_key_order_is_index_order(cf, tip, next);
        assert(sorted(src));
        lemma_rows_from(src, start);
        if k < rows.len() {
            let first = rows[k].0;
            assert(rows[k] == src[before + k]);
            lemma_readable(cf, rows, k);
            law_key_round_trips(cf, first);
            law_key_order_is_index_order(cf, tip, decoded_key(cf, first)->Ok_0);
            law_key_order_is_index_order(cf, decoded_key(cf, first)->Ok_0, next);
        }
        assert(src.skip(before + k) =~= rows.skip(k));
    }
}

/// What is left to copy of a journal after a crash, or all of it where the crash left it alone,
/// completes what the archive holds.
proof fn lemma_rest_completes(
    store: Map<Seq<char>, Seq<(Seq<u8>, Seq<u8>)>>,
    archive: Map<Seq<char>, Seq<(Seq<u8>, Seq<u8>)>>,
    crashed: Map<Seq<char>, Seq<(Seq<u8>, Seq<u8>)>>,
    cf: Cf,
    k: int,
)
    requires
        ordered(store),
        ordered(archive),
        crashed.dom() == archive.dom(),
        !at_last_index(archive, cf),
        to_copy(store, archive, cf) is Ok,
        readable(cf, to_copy(store, archive, cf)->Ok_0) == to_copy(store, archive, cf)->Ok_0.len(),
        crashed[cf.name_chars()] == archive[cf.name_chars()] || partly_copied(
            store,
            archive,
            crashed,
            cf,
            k,
        ) && room(crashed, cf),
    ensures
        ({
            let name = cf.name_chars();
            let rest = to_copy(store, crashed, cf);
            &&& !at_last_index(crashed, cf)
            &&& rest is Ok
            &&& readable(cf, rest->Ok_0) == rest->Ok_0.len()
            &&& crashed[name] + rest->Ok_0 == archive[name] + to_copy(store, archive, cf)->Ok_0
        }),
{
    let name = cf.name_chars();
    let rows = to_copy(store, archive, cf)->Ok_0;
    if crashed[name] == archive[name] {
        assert(archived_tip(crashed, cf) == archived_tip(archive, cf));
    } else {
        lemma_rest_is_to_copy(store, archive, crashed, cf, k);
        lemma_rest_readable(cf, rows, k);
        assert(archive[name] + rows.take(k) + rows.skip(k) =~= archive[name] + rows);
    }
}

/// One journal's copy, after a crash cut an earlier one short, ends where that one would have.
proof fn lemma_journal_made_good(
    store: Map<Seq<char>, Seq<(Seq<u8>, Seq<u8>)>>,
    whole: PassView,
    resumed: PassView,
    c: Cf,
)
    requires
        ordered(store),
        ordered(whole.archive),
        ordered(resumed.archive),
        whole.failed is None,
        resumed.failed is None,
        !at_last_index(whole.archive, c),
        !at_last_index(resumed.archive, c),
        after_journal(store, whole, c).failed is None,
        after_journal(store, resumed, c).failed is None,
        resumed.archive[c.name_chars()] + to_copy(store, resumed.archive, c)->Ok_0
            == whole.archive[c.name_chars()] + to_copy(store, whole.archive, c)->Ok_0,
        resumed.report.watermarks == whole.report.watermarks,
    ensures
        ({
            let w = after_journal(store, whole, c);
            let r = after_journal(store, resumed, c);
            &&& ordered(w.archive)
            &&& ordered(r.archive)
            &&& w.archive.dom() == whole.archive.dom()
            &&& r.archive.dom() == resumed.archive.dom()
            &&& r.archive[c.name_chars()] == w.archive[c.name_chars()]
            &&& r.report.watermarks == w.report.watermarks
            &&& forall|n: Seq<char>|
                n != c.name_chars() ==> #[trigger] w.archive[n] == whole.archive[n]
            &&& forall|n: Seq<char>|
                n != c.name_chars() ==> #[trigger] r.archive[n] == resumed.archive[n]
        }),
{
    lemma_step(store, whole, c);
    lemma_step(store, resumed, c);
    let w = after_journal(store, whole, c);
    let r = after_journal(store, resumed, c);
    lemma_to_copy(store, whole.archive, c);
    lemma_to_copy(store, resumed.archive, c);
    assert(archived_tip(r.archive, c) == archived_tip(w.archive, c));
}

/// Whether a name is that of one of the families.
pub open spec fn named_in(families: Seq<Cf>, name: Seq<char>) -> bool {
    exists|cf: Cf| #[trigger] families.contains(cf) && cf.name_chars() == name
}

/// The journals' part of a pass, after a crash cut an earlier one short, ends where that one would
/// have.
proof fn lemma_journals_made_good(
    store: Map<Seq<char>, Seq<(Seq<u8>, Seq<u8>)>>,
    archive: Map<Seq<char>, Seq<(Seq<u8>, Seq<u8>)>>,
    crashed: Map<Seq<char>, Seq<(Seq<u8>, Seq<u8>)>>,
    journals: Seq<Cf>,
)
    requires
        ordered(store),
        ordered(archive),
        ordered(crashed),
        crashed.dom() == archive.dom(),
        all_nameable(journals),
        resumable(store, starting(archive), journals),
        after_journals(store, starting(archive), journals).failed is None,
        forall|cf: Cf| #[trigger]
            journals.contains(cf) ==> crashed[cf.name_chars()] == archive[cf.name_chars()] || room(
                crashed,
                cf,
            ) && exists|k: int| #[trigger] partly_copied(store, archive, crashed, cf, k),
    ensures
        ({
            let w = after_journals(store, starting(archive), journals);
            let r = after_journals(store, starting(crashed), journals);
            &&& resumable(store, starting(crashed), journals)
            &&& r.failed is None
            &&& ordered(w.archive)
            &&& ordered(r.archive)
            &&& w.archive.dom() == archive.dom()
            &&& r.archive.dom() == archive.dom()
            &&& r.report.watermarks == w.report.watermarks
            &&& forall|n: Seq<char>| #[trigger]
                named_in(journals, n) ==> r.archive[n] == w.archive[n]
            &&& forall|n: Seq<char>|
                !(#[trigger] named_in(journals, n)) ==> w.archive[n] == archive[n] && r.archive[n]
                    == crashed[n]
        }),
    decreases journals.len(),
{
    if journals.len() > 0 {
        let front = journals.drop_last();
        let c = journals.last();
        let name = c.name_chars();
        assert forall|i: int| 0 <= i < front.len() implies (#[trigger] front[i]).nameable() by {
            assert(front[i] == journals[i]);
        }
        assert forall|cf: Cf| #[trigger] front.contains(cf) implies journals.contains(cf) by {
            lemma_contains_drop_last(journals, cf);
        }
        lemma_journals_made_good(store, archive, crashed, front);
        lemma_contains_drop_last(journals, c);
        assert(journals.contains(c));
        assert(journals[journals.len() - 1] == c);
        let whole = after_journals(store, starting(archive), front);
        let resumed = after_journals(store, starting(crashed), front);
        let k = choose|k: int| #[trigger] partly_copied(store, archive, crashed, c, k);
        if !named_in(front, name) {
            assert(to_copy(store, whole.archive, c) == to_copy(store, archive, c));
            assert(archived_tip(resumed.archive, c) == archived_tip(crashed, c));
        }
        lemma_step(store, whole, c);
        lemma_rest_completes(store, whole.archive, resumed.archive, c, k);
        lemma_journal_made_good(store, whole, resumed, c);
        assert forall|n: Seq<char>| #[trigger] named_in(journals, n) == (named_in(front, n) || n
            == name) by {
            if named_in(journals, n) {
                let cf = choose|cf: Cf| #[trigger]
                    journals.contains(cf) && cf.name_chars() == n;
                lemma_contains_drop_last(journals, cf);
                if front.contains(cf) {
                    assert(named_in(front, n));
                }
            }
            if named_in(front, n) {
                let cf = choose|cf: Cf| #[trigger] front.contains(cf) && cf.name_chars() == n;
                assert(journals.contains(cf));
            }
        }
    }
}

/// Rows in key order are told by the values their keys have.
proof fn lemma_told_by_values(a: Seq<(Seq<u8>, Seq<u8>)>, b: Seq<(Seq<u8>, Seq<u8>)>)
    requires
        sorted(a),
        sorted(b),
        forall|key: Seq<u8>| #[trigger] value_of(a, key) == value_of(b, key),
    ensures
        a == b,
    decreases a.len(),
{
    if a.len() == 0 {
        if b.len() > 0 {
            assert(value_of(a, b.last().0) == value_of(b, b.last().0));
        }
        assert(a =~= b);
    } else {
        let (key, value) = a.last();
        law_a_value_is_its_row(b, key, value);
        assert(value_of(a, key) == value_of(b, key));
        let i = choose|i: int| 0 <= i < b.len() && b[i] == (key, value);
        if i < b.len() - 1 {
            let (past, held) = b.last();
            law_a_value_is_its_row(a, past, held);
            assert(value_of(a, past) == value_of(b, past));
            let j = choose|j: int| 0 <= j < a.len() && a[j] == (past, held);
            lemma_lex_asymmetric(key, past);
            if j < a.len() - 1 {
                assert(lex_less(a[j].0, a[a.len() - 1].0));
            }
        }
        assert(b.last() == a.last());
        let x = a.drop_last();
        let y = b.drop_last();
        assert forall|other: Seq<u8>| #[trigger] value_of(x, other) == value_of(y, other) by {
            assert(value_of(a, other) == value_of(b, other));
            if other == key {
                lemma_no_value(x, key);
                lemma_no_value(y, key);
            }
        }
        lemma_told_by_values(x, y);
        assert(a =~= x.push(a.last()));
        assert(b =~= y.push(b.last()));
    }
}

/// A key past all others has no value.
proof fn lemma_no_value(rows: Seq<(Seq<u8>, Seq<u8>)>, key: Seq<u8>)
    requires
        forall|i: int| 0 <= i < rows.len() ==> lex_less((#[trigger] rows[i]).0, key),
    ensures
        value_of(rows, key) is None,
    decreases rows.len(),
{
    if rows.len() > 0 {
        assert(rows[rows.len() - 1] == rows.last());
        lemma_lex_irreflexive(key);
        lemma_no_value(rows.drop_last(), key);
    }
}

/// Writing rows again, after some of them were written, gives what writing them once gives.
proof fn lemma_written_again(
    held: Seq<(Seq<u8>, Seq<u8>)>,
    rows: Seq<(Seq<u8>, Seq<u8>)>,
    k: int,
)
    requires
        sorted(held),
        sorted(rows),
        0 <= k <= rows.len(),
    ensures
        sorted(with_rows(held, rows)),
        sorted(with_rows(held, rows.take(k))),
        with_rows(with_rows(held, rows.take(k)), rows) == with_rows(held, rows),
{
    let some = rows.take(k);
    let partly = with_rows(held, some);
    lemma_last_write_wins(held, some, Seq::empty());
    lemma_last_write_wins(held, rows, Seq::empty());
    lemma_last_write_wins(partly, rows, Seq::empty());
    assert forall|i: int, j: int| 0 <= i < j < some.len() implies lex_less(
        (#[trigger] some[i]).0,
        (#[trigger] some[j]).0,
    ) by {
        assert(some[i] == rows[i] && some[j] == rows[j]);
    }
    assert forall|key: Seq<u8>| #[trigger]
        value_of(with_rows(partly, rows), key) == value_of(with_rows(held, rows), key) by {
        lemma_last_write_wins(held, some, key);
        lemma_last_write_wins(held, rows, key);
        lemma_last_write_wins(partly, rows, key);
        if let Some(value) = value_of(some, key) {
            law_a_value_is_its_row(some, key, value);
            let i = choose|i: int| 0 <= i < some.len() && some[i] == (key, value);
            assert(rows[i] == (key, value));
            law_a_value_is_its_row(rows, key, value);
        }
    }
    lemma_told_by_values(with_rows(partly, rows), with_rows(held, rows));
}

/// The part of a full pass that copies the other families, after a crash cut an earlier one short,
/// ends where that one would have.
proof fn lemma_families_made_good(
    store: Map<Seq<char>, Seq<(Seq<u8>, Seq<u8>)>>,
    whole: PassView,
    resumed: PassView,
    families: Seq<Cf>,
)
    requires
        ordered(store),
        ordered(whole.archive),
        resumed.archive.dom() == whole.archive.dom(),
        all_nameable(families),
        whole.failed is None,
        resumed.failed is None,
        after_families(store, whole, families).failed is None,
        forall|cf: Cf| #[trigger]
            families.contains(cf) && !cf.journal() ==> resumed.archive[cf.name_chars()]
                == whole.archive[cf.name_chars()] || exists|k: int| #[trigger]
                partly_written(store, whole.archive, resumed.archive, cf, k),
    ensures
        ({
            let w = after_families(store, whole, families);
            let r = after_families(store, resumed, families);
            &&& r.failed is None
            &&& ordered(w.archive)
            &&& w.archive.dom() == whole.archive.dom()
            &&& r.archive.dom() == whole.archive.dom()
            &&& r.report.watermarks == resumed.report.watermarks
            &&& w.report.watermarks == whole.report.watermarks
            &&& forall|cf: Cf| #[trigger]
                families.contains(cf) && !cf.journal() ==> r.archive[cf.name_chars()]
                    == w.archive[cf.name_chars()] && stored_rows(store, cf) is Ok
                    && w.archive[cf.name_chars()] == with_rows(
                    whole.archive[cf.name_chars()],
                    stored_rows(store, cf)->Ok_0,
                )
            &&& forall|n: Seq<char>|
                !(#[trigger] written_in(families, n)) ==> w.archive[n] == whole.archive[n]
                    && r.archive[n] == resumed.archive[n]
        }),
    decreases families.len(),
{
    if families.len() > 0 {
        let front = families.drop_last();
        let c = families.last();
        let name = c.name_chars();
        assert forall|i: int| 0 <= i < front.len() implies (#[trigger] front[i]).nameable() by {
            assert(front[i] == families[i]);
        }
        assert forall|cf: Cf| #[trigger] front.contains(cf) implies families.contains(cf) by {
            lemma_contains_drop_last(families, cf);
        }
        assert(families[families.len() - 1] == c);
        lemma_contains_drop_last(families, c);
        assert(families.contains(c));
        lemma_families_made_good(store, whole, resumed, front);
        let w = after_families(store, whole, front);
        let r = after_families(store, resumed, front);
        let after_w = after_families(store, whole, families);
        let after_r = after_families(store, resumed, families);
        assert forall|n: Seq<char>| #[trigger] written_in(front, n) implies written_in(families, n) by {
            let cf = choose|cf: Cf| #[trigger]
                front.contains(cf) && !cf.journal() && cf.name_chars() == n;
            assert(families.contains(cf));
        }
        if !c.journal() {
            let rows = stored_rows(store, c)->Ok_0;
            let held = whole.archive[name];
            assert(written_in(families, name));
            if rows.len() > 0 {
                assert(after_w.archive.dom() =~= w.archive.dom());
                assert(after_r.archive.dom() =~= r.archive.dom());
                assert(sorted(held));
                assert(sorted(rows));
                lemma_written_again(held, rows, rows.len() as int);
                assert(rows.take(rows.len() as int) =~= rows);
                lemma_last_write_wins(w.archive[name], rows, Seq::empty());
                assert forall|n: Seq<char>| after_w.archive.dom().contains(n) implies sorted(
                    #[trigger] after_w.archive[n],
                ) by {
                    if n != name {
                        assert(after_w.archive[n] == w.archive[n]);
                    }
                }
                if !front.contains(c) {
                    if written_in(front, name) {
                        let cf = choose|cf: Cf| #[trigger]
                            front.contains(cf) && !cf.journal() && cf.name_chars() == name;
                        lemma_same_name(families, c, cf);
                    }
                    if resumed.archive[name] != held {
                        let k = choose|k: int| #[trigger]
                            partly_written(store, whole.archive, resumed.archive, c, k);
                        lemma_written_again(held, rows, k);
                    }
                }
            } else if !front.contains(c) {
                if written_in(front, name) {
                    let cf = choose|cf: Cf| #[trigger]
                        front.contains(cf) && !cf.journal() && cf.name_chars() == name;
                    lemma_same_name(families, c, cf);
                }
            }
        }
        assert forall|n: Seq<char>| !(#[trigger] written_in(families, n)) implies after_w.archive[n]
            == whole.archive[n] && after_r.archive[n] == resumed.archive[n] by {
            assert(!written_in(front, n));
        }
        assert forall|cf: Cf| #[trigger] families.contains(cf) && !cf.journal() implies {
            &&& after_r.archive[cf.name_chars()] == after_w.archive[cf.name_chars()]
            &&& stored_rows(store, cf) is Ok
            &&& after_w.archive[cf.name_chars()] == with_rows(
                whole.archive[cf.name_chars()],
                stored_rows(store, cf)->Ok_0,
            )
        } by {
            lemma_contains_drop_last(families, cf);
            if cf != c {
                if !c.journal() && cf.name_chars() == name {
                    lemma_same_name(families, c, cf);
                }
            }
        }
    }
}

/// Whether a name is that of one of the families that a full pass writes over.
spec fn written_in(families: Seq<Cf>, name: Seq<char>) -> bool {
    exists|cf: Cf| #[trigger] families.contains(cf) && !cf.journal() && cf.name_chars() == name
}

proof fn lemma_same_name(families: Seq<Cf>, a: Cf, b: Cf)
    requires
        all_nameable(families),
        families.contains(a),
        families.contains(b),
        a.name_chars() == b.name_chars(),
    ensures
        a == b,
{
    let i = choose|i: int| 0 <= i < families.len() && families[i] == a;
    let j = choose|j: int| 0 <= j < families.len() && families[j] == b;
    assert(families[i].nameable() && families[j].nameable());
    law_names_are_distinct(a, b);
}

/// A crashed pass costs a little re-copying and nothing else: over an unchanged store, the next
/// pass succeeds, leaves the archive that the crashed one would have left, and reports the same
/// watermarks.
pub proof fn law_crashed_pass_is_made_good(
    store: Map<Seq<char>, Seq<(Seq<u8>, Seq<u8>)>>,
    families: Seq<Cf>,
    archive: Map<Seq<char>, Seq<(Seq<u8>, Seq<u8>)>>,
    crashed: Map<Seq<char>, Seq<(Seq<u8>, Seq<u8>)>>,
    full: bool,
)
    requires
        ordered(store),
        ordered(archive),
        ordered(crashed),
        all_nameable(families),
        resumable(store, starting(archive), journals_of(families)),
        after_pass(store, families, archive, full).failed is None,
        left_by_a_crash(store, families, archive, crashed, full),
        forall|cf: Cf| #[trigger]
            families.contains(cf) && cf.journal() ==> crashed[cf.name_chars()]
                == archive[cf.name_chars()] || room(crashed, cf),
    ensures
        ({
            let whole = after_pass(store, families, archive, full);
            let resumed = after_pass(store, families, crashed, full);
            &&& resumable(store, starting(crashed), journals_of(families))
            &&& resumed.failed is None
            &&& resumed.archive == whole.archive
            &&& resumed.report.watermarks == whole.report.watermarks
        }),
{
    let journals = journals_of(families);
    let w = after_journals(store, starting(archive), journals);
    let r = after_journals(store, starting(crashed), journals);
    if full {
        lemma_families_fail_on(store, w, families);
    }
    lemma_journals_nameable(families);
    assert forall|cf: Cf| #[trigger] journals.contains(cf) implies crashed[cf.name_chars()]
        == archive[cf.name_chars()] || room(crashed, cf) && exists|k: int| #[trigger]
        partly_copied(store, archive, crashed, cf, k) by {
        lemma_journals_of(families, cf);
        lemma_cut_short(store, families, archive, crashed, full, cf);
        if crashed[cf.name_chars()] != archive[cf.name_chars()] {
            let k = choose|k: int| #[trigger] cut_short(store, archive, crashed, full, cf, k);
            assert(partly_copied(store, archive, crashed, cf, k));
        }
    }
    lemma_journals_made_good(store, archive, crashed, journals);
    if full {
        assert forall|cf: Cf| #[trigger]
            families.contains(cf) && !cf.journal() implies r.archive[cf.name_chars()]
            == w.archive[cf.name_chars()] || exists|k: int| #[trigger]
            partly_written(store, w.archive, r.archive, cf, k) by {
            lemma_cut_short(store, families, archive, crashed, full, cf);
            lemma_no_journal_name(families, cf);
            if crashed[cf.name_chars()] != archive[cf.name_chars()] {
                let k = choose|k: int| #[trigger] cut_short(store, archive, crashed, full, cf, k);
                assert(partly_written(store, w.archive, r.archive, cf, k));
            }
        }
        lemma_families_made_good(store, w, r, families);
    }
    let whole = after_pass(store, families, archive, full);
    let resumed = after_pass(store, families, crashed, full);
    assert forall|n: Seq<char>| #[trigger] resumed.archive[n] == whole.archive[n] by {
        if full && written_in(families, n) {
            let cf = choose|cf: Cf| #[trigger]
                families.contains(cf) && !cf.journal() && cf.name_chars() == n;
            assert(families.contains(cf));
        } else if !named_in(journals, n) {
            assert(crashed[n] == archive[n]) by {
                if crashed[n] != archive[n] {
                    let (cf, k) = choose|cf: Cf, k: int|
                        families.contains(cf) && cf.name_chars() == n && #[trigger] cut_short(
                            store,
                            archive,
                            crashed,
                            full,
                            cf,
                            k,
                        );
                    lemma_journals_of(families, cf);
                }
            }
        }
    }
    assert(resumed.archive =~= whole.archive);
}

/// A family that is no journal shares its name with none.
proof fn lemma_no_journal_name(families: Seq<Cf>, cf: Cf)
    requires
        all_nameable(families),
        families.contains(cf),
        !cf.journal(),
    ensures
        !named_in(journals_of(families), cf.name_chars()),
{
    let journals = journals_of(families);
    if named_in(journals, cf.name_chars()) {
        let other = choose|other: Cf| #[trigger]
            journals.contains(other) && other.name_chars() == cf.name_chars();
        lemma_journals_of(families, other);
        lemma_same_name(families, cf, other);
    }
}

/// What a crash left of one family.
proof fn lemma_cut_short(
    store: Map<Seq<char>, Seq<(Seq<u8>, Seq<u8>)>>,
    families: Seq<Cf>,
    archive: Map<Seq<char>, Seq<(Seq<u8>, Seq<u8>)>>,
    crashed: Map<Seq<char>, Seq<(Seq<u8>, Seq<u8>)>>,
    full: bool,
    cf: Cf,
)
    requires
        all_nameable(families),
        left_by_a_crash(store, families, archive, crashed, full),
        families.contains(cf),
    ensures
        crashed[cf.name_chars()] == archive[cf.name_chars()] || exists|k: int| #[trigger]
            cut_short(store, archive, crashed, full, cf, k),
{
    let name = cf.name_chars();
    if crashed[name] != archive[name] {
        let (other, k) = choose|other: Cf, k: int|
            families.contains(other) && other.name_chars() == name && #[trigger] cut_short(
                store,
                archive,
                crashed,
                full,
                other,
                k,
            );
        lemma_same_name(families, cf, other);
    }
}

/// A full pass is idempotent: a second one over an unchanged store succeeds, changes nothing in
/// the archive, and reports the same watermarks.
pub proof fn law_second_full_pass_changes_nothing(
    store: Map<Seq<char>, Seq<(Seq<u8>, Seq<u8>)>>,
    families: Seq<Cf>,
    archive: Map<Seq<char>, Seq<(Seq<u8>, Seq<u8>)>>,
)
    requires
        ordered(store),
        ordered(archive),
        all_nameable(families),
        resumable(store, starting(archive), journals_of(families)),
        after_pass(store, families, archive, true).failed is None,
        forall|cf: Cf| #[trigger]
            families.contains(cf) && cf.journal() ==> room(
                after_pass(store, families, archive, true).archive,
                cf,
            ),
    ensures
        ({
            let first = after_pass(store, families, archive, true);
            let second = after_pass(store, families, first.archive, true);
            &&& resumable(store, starting(first.archive), journals_of(families))
            &&& second.failed is None
            &&& second.archive == first.archive
            &&& second.report.watermarks == first.report.watermarks
        }),
{
    let journals = journals_of(families);
    let tail = after_journals(store, starting(archive), journals);
    let first = after_pass(store, families, archive, true);
    lemma_families_fail_on(store, tail, families);
    lemma_journals_nameable(families);
    lemma_journals_made_good(store, archive, archive, journals);
    lemma_families_made_good(store, tail, tail, families);
    assert forall|name: Seq<char>| #[trigger] first.archive[name] == archive[name] || exists|
        cf: Cf,
        k: int,
    |
        families.contains(cf) && cf.name_chars() == name && #[trigger] cut_short(
            store,
            archive,
            first.archive,
            true,
            cf,
            k,
        ) by {
        if named_in(families, name) {
            let cf = choose|cf: Cf| #[trigger] families.contains(cf) && cf.name_chars() == name;
            if cf.journal() {
                law_journals_are_copied_byte_for_byte(store, families, archive, true, cf);
                let rows = to_copy(store, archive, cf)->Ok_0;
                assert(rows.take(rows.len() as int) =~= rows);
                assert(cut_short(store, archive, first.archive, true, cf, rows.len() as int));
            } else {
                let rows = stored_rows(store, cf)->Ok_0;
                lemma_no_journal_name(families, cf);
                assert(rows.take(rows.len() as int) =~= rows);
                assert(cut_short(store, archive, first.archive, true, cf, rows.len() as int));
            }
        } else {
            if named_in(journals, name) {
                let cf = choose|cf: Cf| #[trigger] journals.contains(cf) && cf.name_chars() == name;
                lemma_journals_of(families, cf);
            }
            assert(!written_in(families, name));
        }
    }
    law_crashed_pass_is_made_good(store, families, archive, first.archive, true);
}

} // verus!
