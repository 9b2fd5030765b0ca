//! What holds of every archival pass.

use crate::archiver::archive::archived_tip;
use crate::archiver::course::after_one;
use crate::archiver::pass::{
    after_families, after_family, after_journal, after_journals, after_pass, archive_with,
    at_last_index, gap_found, in_whole_batches, noted, reach, readable, recorded,
    resumable, resume_from, starting, to_copy, Gap, PassView, ReportView,
};
use crate::bytes::{
    law_byte_order_is_numeric_order, lemma_be_limits, lemma_be_value_bound, lemma_lex_asymmetric,
    lemma_lex_irreflexive, lemma_lex_total, lemma_lex_transitive, lex_less,
};
use crate::store::cf::{law_names_are_distinct, Cf};
use crate::store::error::StoreError;
use crate::store::head_store::{all_nameable, floor_of, journals_of, stored_rows};
use crate::store::journal::{
    decoded_key, encoded_key, entry_fault, law_key_order_is_index_order, law_key_round_trips,
};
use crate::store::table::{
    law_written_value_is_read, lemma_appended, lemma_rows_from, lemma_with_row_sorted, ordered,
    sorted, value_of, with_rows,
};
use vstd::prelude::*;

verus! {

proof fn lemma_sorted_concat(a: Seq<(Seq<u8>, Seq<u8>)>, b: Seq<(Seq<u8>, Seq<u8>)>)
    requires
        sorted(a),
        sorted(b),
        a.len() > 0 && b.len() > 0 ==> lex_less(a.last().0, b[0].0),
    ensures
        sorted(a + b),
{
    let s = a + b;
    assert forall|i: int, j: int| 0 <= i < j < s.len() implies lex_less(
        (#[trigger] s[i]).0,
        (#[trigger] s[j]).0,
    ) by {
        if j < a.len() {
            assert(s[i] == a[i] && s[j] == a[j]);
        } else if i >= a.len() {
            assert(s[i] == b[i - a.len()] && s[j] == b[j - a.len()]);
        } else {
            assert(s[i] == a[i] && s[j] == b[j - a.len()]);
            if i < a.len() - 1 {
                lemma_lex_transitive(a[i].0, a.last().0, b[0].0);
            }
            if j > a.len() {
                lemma_lex_transitive(a[i].0, b[0].0, b[j - a.len()].0);
            }
        }
    }
}

/// The rows a journal's copy reads are the tail of the node's rows, past all that the archive
/// holds; all of the node's rows, where the archive holds none.
pub(crate) proof fn lemma_to_copy(
    store: Map<Seq<char>, Seq<(Seq<u8>, Seq<u8>)>>,
    archive: Map<Seq<char>, Seq<(Seq<u8>, Seq<u8>)>>,
    cf: Cf,
)
    requires
        ordered(store),
        ordered(archive),
        to_copy(store, archive, cf) is Ok,
        !at_last_index(archive, cf),
    ensures
        ({
            let name = cf.name_chars();
            let rows = to_copy(store, archive, cf)->Ok_0;
            &&& cf.journal()
            &&& archive.dom().contains(name)
            &&& store.dom().contains(name)
            &&& sorted(rows)
            &&& rows.len() <= store[name].len()
            &&& rows == store[name].skip(store[name].len() - rows.len())
            &&& archive[name].len() == 0 ==> rows == store[name]
            &&& archive[name].len() > 0 && rows.len() > 0 ==> lex_less(
                archive[name].last().0,
                rows[0].0,
            )
            &&& with_rows(archive[name], rows) == archive[name] + rows
            &&& sorted(archive[name] + rows)
        }),
{
    let name = cf.name_chars();
    let rows = to_copy(store, archive, cf)->Ok_0;
    let held = archive[name];
    let src = store[name];
    let tip = archived_tip(archive, cf)->Ok_0;
    let floor = floor_of(cf, src)->Ok_0;
    let from = resume_from(tip, floor);
    let start = encoded_key(cf, from as u64)->Ok_0;
    assert(sorted(src));
    assert(sorted(held));
    lemma_rows_from(src, start);
    if held.len() == 0 {
        if src.len() > 0 {
            law_key_round_trips(cf, src[0].0);
            assert(start == src[0].0);
            lemma_lex_irreflexive(start);
        }
        assert(rows =~= src);
    } else {
        let t = tip->0;
        law_key_round_trips(cf, held.last().0);
        law_key_order_is_index_order(cf, t, (t + 1) as u64);
        if rows.len() > 0 {
            let first = src[src.len() - rows.len()];
            assert(rows[0] == first);
            lemma_lex_total(rows[0].0, start);
            if rows[0].0 != start {
                lemma_lex_transitive(held.last().0, start, rows[0].0);
            }
        }
    }
    lemma_appended(held, rows);
    lemma_sorted_concat(held, rows);
}

/// A row that can be read holds an index of its journal.
pub(crate) proof fn lemma_readable(cf: Cf, rows: Seq<(Seq<u8>, Seq<u8>)>, i: int)
    requires
        0 <= i < readable(cf, rows),
    ensures
        readable(cf, rows) <= rows.len(),
        entry_fault(cf, rows[i].0, rows[i].1) is None,
        decoded_key(cf, rows[i].0) is Ok,
    decreases rows.len(),
{
    let rest = rows.drop_first();
    if i > 0 {
        lemma_readable(cf, rest, i - 1);
    } else if readable(cf, rest) > 0 {
        lemma_readable(cf, rest, 0);
    }
}

/// Copying a journal leaves the archive's tip at the last row copied.
proof fn lemma_reach(
    store: Map<Seq<char>, Seq<(Seq<u8>, Seq<u8>)>>,
    archive: Map<Seq<char>, Seq<(Seq<u8>, Seq<u8>)>>,
    cf: Cf,
)
    requires
        ordered(store),
        ordered(archive),
        to_copy(store, archive, cf) is Ok,
        !at_last_index(archive, cf),
        readable(cf, to_copy(store, archive, cf)->Ok_0) == to_copy(store, archive, cf)->Ok_0.len(),
    ensures
        ({
            let rows = to_copy(store, archive, cf)->Ok_0;
            let tip = archived_tip(archive, cf)->Ok_0;
            let after = archive_with(archive, cf, rows);
            &&& archived_tip(after, cf) == Ok::<Option<u64>, StoreError>(reach(tip, rows))
            &&& after[cf.name_chars()] == archive[cf.name_chars()] + rows
            &&& after.dom() == archive.dom()
            &&& ordered(after)
        }),
{
    let name = cf.name_chars();
    let rows = to_copy(store, archive, cf)->Ok_0;
    let after = archive_with(archive, cf, rows);
    lemma_to_copy(store, archive, cf);
    if rows.len() > 0 {
        lemma_readable(cf, rows, rows.len() - 1);
        assert((archive[name] + rows).last() == rows.last());
    } else {
        assert(archive[name] + rows =~= archive[name]);
    }
    assert(after.dom() =~= archive.dom());
    assert forall|n: Seq<char>| after.dom().contains(n) implies sorted(#[trigger] after[n]) by {
        if n != name {
            assert(after[n] == archive[n]);
        }
    }
}

/// A journal that has just been copied has nothing left to copy, and no gap.
proof fn lemma_nothing_left(
    store: Map<Seq<char>, Seq<(Seq<u8>, Seq<u8>)>>,
    archive: Map<Seq<char>, Seq<(Seq<u8>, Seq<u8>)>>,
    cf: Cf,
    later: Map<Seq<char>, Seq<(Seq<u8>, Seq<u8>)>>,
)
    requires
        ordered(store),
        ordered(archive),
        ordered(later),
        to_copy(store, archive, cf) is Ok,
        !at_last_index(archive, cf),
        readable(cf, to_copy(store, archive, cf)->Ok_0) == to_copy(store, archive, cf)->Ok_0.len(),
        later.dom().contains(cf.name_chars()),
        later[cf.name_chars()] == archive[cf.name_chars()] + to_copy(store, archive, cf)->Ok_0,
        !at_last_index(later, cf),
        to_copy(store, later, cf) is Ok,
    ensures
        to_copy(store, later, cf)->Ok_0.len() == 0,
        gap_found(store, later, cf) is None,
{
    let name = cf.name_chars();
    let src = store[name];
    let rows = to_copy(store, archive, cf)->Ok_0;
    let left = to_copy(store, later, cf)->Ok_0;
    lemma_to_copy(store, archive, cf);
    lemma_to_copy(store, later, cf);
    lemma_reach(store, archive, cf);
    assert(archived_tip(later, cf) == archived_tip(archive_with(archive, cf, rows), cf));
    if src.len() > 0 {
        law_key_round_trips(cf, src[0].0);
        let floor = floor_of(cf, src)->Ok_0->0;
        if rows.len() > 0 {
            assert(rows.last() == src.last());
            assert((archive[name] + rows).last() == rows.last());
            if left.len() > 0 {
                assert(left.last() == src.last());
                assert(left[0] == src[src.len() - left.len()]);
                if left.len() > 1 {
                    assert(lex_less(src[src.len() - left.len()].0, src.last().0));
                    lemma_lex_transitive(later[name].last().0, left[0].0, src.last().0);
                }
                lemma_lex_irreflexive(src.last().0);
            }
            lemma_readable(cf, rows, rows.len() - 1);
            law_byte_order_is_numeric_order(src.last().0, src[0].0);
            if src.len() > 1 {
                lemma_lex_asymmetric(src[0].0, src.last().0);
            } else {
                lemma_lex_irreflexive(src[0].0);
            }
            lemma_be_limits();
            lemma_be_value_bound(src.last().0);
            lemma_be_value_bound(src[0].0);
        } else {
            let tip = archived_tip(archive, cf)->Ok_0;
            assert(archive[name] + rows =~= archive[name]);
            let start = encoded_key(cf, resume_from(tip, Some(floor)) as u64)->Ok_0;
            lemma_rows_from(src, start);
            assert(lex_less(src[0].0, start));
            law_key_order_is_index_order(cf, floor, resume_from(tip, Some(floor)) as u64);
        }
    }
}

/// Whether a report says nothing of a family.
pub open spec fn silent_on(report: ReportView, cf: Cf) -> bool {
    &&& !report.watermarks.dom().contains(cf)
    &&& !report.copied.dom().contains(cf)
    &&& forall|g: Gap| g.cf == cf ==> !report.gaps.contains(g)
}

/// Whether a pass that found `archive` has copied a journal: the rows past what the archive held
/// stand behind it, byte for byte, and the report says so.
pub open spec fn journal_copied(
    store: Map<Seq<char>, Seq<(Seq<u8>, Seq<u8>)>>,
    archive: Map<Seq<char>, Seq<(Seq<u8>, Seq<u8>)>>,
    after: PassView,
    cf: Cf,
) -> bool {
    &&& to_copy(store, archive, cf) matches Ok(rows)
    &&& !at_last_index(archive, cf)
    &&& readable(cf, rows) == rows.len()
    &&& after.archive[cf.name_chars()] == archive[cf.name_chars()] + rows
    &&& copied_as_counted(after.report, cf, rows.len())
    &&& archived_tip(after.archive, cf) matches Ok(tip)
    &&& reached_as_reported(after.report, cf, tip)
    &&& gap_as_reported(after.report, cf, gap_found(store, archive, cf))
}

/// One journal's copy, as far as it changes the archive's shape.
pub(crate) proof fn lemma_step(
    store: Map<Seq<char>, Seq<(Seq<u8>, Seq<u8>)>>,
    pass: PassView,
    c: Cf,
)
    requires
        ordered(store),
        ordered(pass.archive),
        pass.failed is None,
        !at_last_index(pass.archive, c),
        after_journal(store, pass, c).failed is None,
    ensures
        ({
            let after = after_journal(store, pass, c);
            let rows = to_copy(store, pass.archive, c)->Ok_0;
            let tip = archived_tip(pass.archive, c)->Ok_0;
            &&& to_copy(store, pass.archive, c) is Ok
            &&& readable(c, rows) == rows.len()
            &&& after.archive == archive_with(pass.archive, c, rows)
            &&& after.archive.dom() == pass.archive.dom()
            &&& after.archive[c.name_chars()] == pass.archive[c.name_chars()] + rows
            &&& ordered(after.archive)
            &&& archived_tip(after.archive, c) == Ok::<Option<u64>, StoreError>(reach(tip, rows))
            &&& after.report == recorded(
                noted(pass.report, gap_found(store, pass.archive, c)),
                c,
                rows.len(),
                reach(tip, rows),
            )
        }),
{
    let rows = to_copy(store, pass.archive, c)->Ok_0;
    lemma_readable_all(c, rows);
    if to_copy(store, pass.archive, c) is Ok {
        if readable(c, rows) < rows.len() {
            lemma_fault_at(c, rows);
        }
        lemma_reach(store, pass.archive, c);
    }
}

/// The row where reading stops is one that cannot be read.
proof fn lemma_fault_at(cf: Cf, rows: Seq<(Seq<u8>, Seq<u8>)>)
    requires
        readable(cf, rows) < rows.len(),
    ensures
        ({
            let (key, value) = rows[readable(cf, rows) as int];
            entry_fault(cf, key, value) is Some
        }),
    decreases rows.len(),
{
    if entry_fault(cf, rows[0].0, rows[0].1) is None {
        lemma_fault_at(cf, rows.drop_first());
    }
}

proof fn lemma_step_elsewhere(
    store: Map<Seq<char>, Seq<(Seq<u8>, Seq<u8>)>>,
    pass: PassView,
    c: Cf,
    cf: Cf,
)
    requires
        ordered(store),
        ordered(pass.archive),
        pass.failed is None,
        !at_last_index(pass.archive, c),
        after_journal(store, pass, c).failed is None,
        c != cf,
        c.nameable(),
        cf.nameable(),
    ensures
        ({
            let after = after_journal(store, pass, c);
            &&& after.archive[cf.name_chars()] == pass.archive[cf.name_chars()]
            &&& after.report.watermarks.dom().contains(cf) == pass.report.watermarks.dom().contains(
                cf,
            )
            &&& after.report.watermarks[cf] == pass.report.watermarks[cf]
            &&& after.report.copied.dom().contains(cf) == pass.report.copied.dom().contains(cf)
            &&& after.report.copied[cf] == pass.report.copied[cf]
            &&& forall|g: Gap|
                g.cf == cf ==> (after.report.gaps.contains(g) <==> pass.report.gaps.contains(g))
        }),
{
    lemma_step(store, pass, c);
    if c.name_chars() == cf.name_chars() {
        law_names_are_distinct(c, cf);
    }
    lemma_gap_pushed(pass.report.gaps, gap_found(store, pass.archive, c));
}

proof fn lemma_step_here(
    store: Map<Seq<char>, Seq<(Seq<u8>, Seq<u8>)>>,
    archive: Map<Seq<char>, Seq<(Seq<u8>, Seq<u8>)>>,
    pass: PassView,
    cf: Cf,
)
    requires
        ordered(store),
        ordered(archive),
        ordered(pass.archive),
        pass.failed is None,
        !at_last_index(pass.archive, cf),
        after_journal(store, pass, cf).failed is None,
        pass.archive.dom() == archive.dom(),
        (silent_on(pass.report, cf) && pass.archive[cf.name_chars()] == archive[cf.name_chars()])
            || journal_copied(store, archive, pass, cf),
    ensures
        journal_copied(store, archive, after_journal(store, pass, cf), cf),
{
    let after = after_journal(store, pass, cf);
    lemma_step(store, pass, cf);
    lemma_gap_pushed(pass.report.gaps, gap_found(store, pass.archive, cf));
    if journal_copied(store, archive, pass, cf) {
        lemma_to_copy(store, pass.archive, cf);
        lemma_nothing_left(store, archive, cf, pass.archive);
        assert(after.archive == pass.archive);
    } else {
        assert(to_copy(store, pass.archive, cf) == to_copy(store, archive, cf));
        let gap = gap_found(store, archive, cf);
        assert(gap == gap_found(store, pass.archive, cf));
        assert forall|g: Gap| g.cf == cf implies (after.report.gaps.contains(g) <==> gap == Some(
            g,
        )) by {
            assert(!pass.report.gaps.contains(g));
        }
    }
}

/// What the journals' part of a pass does to one journal.
proof fn lemma_journals_local(
    store: Map<Seq<char>, Seq<(Seq<u8>, Seq<u8>)>>,
    pass: PassView,
    journals: Seq<Cf>,
    cf: Cf,
)
    requires
        ordered(store),
        ordered(pass.archive),
        all_nameable(journals),
        cf.nameable(),
        resumable(store, pass, journals),
        pass.failed is None,
        after_journals(store, pass, journals).failed is None,
        silent_on(pass.report, cf),
    ensures
        ({
            let after = after_journals(store, pass, journals);
            &&& after.archive.dom() == pass.archive.dom()
            &&& ordered(after.archive)
            &&& if journals.contains(cf) {
                journal_copied(store, pass.archive, after, cf)
            } else {
                &&& after.archive[cf.name_chars()] == pass.archive[cf.name_chars()]
                &&& silent_on(after.report, cf)
            }
        }),
    decreases journals.len(),
{
    if journals.len() > 0 {
        let front = journals.drop_last();
        let c = journals.last();
        let mid = after_journals(store, pass, front);
        let after = after_journals(store, pass, journals);
        assert forall|i: int| 0 <= i < front.len() implies (#[trigger] front[i]).nameable() by {
            assert(front[i] == journals[i]);
        }
        assert(journals[journals.len() - 1] == c);
        lemma_journals_local(store, pass, front, cf);
        lemma_contains_drop_last(journals, cf);
        lemma_step(store, mid, c);
        if c != cf {
            lemma_step_elsewhere(store, mid, c, cf);
            assert(archived_tip(after.archive, cf) == archived_tip(mid.archive, cf));
        } else {
            lemma_step_here(store, pass.archive, mid, cf);
        }
    }
}

proof fn lemma_readable_all(cf: Cf, rows: Seq<(Seq<u8>, Seq<u8>)>)
    ensures
        readable(cf, rows) <= rows.len(),
    decreases rows.len(),
{
    if rows.len() > 0 {
        lemma_readable_all(cf, rows.drop_first());
    }
}

pub(crate) proof fn lemma_contains_drop_last(journals: Seq<Cf>, cf: Cf)
    requires
        journals.len() > 0,
    ensures
        journals.contains(cf) <==> journals.drop_last().contains(cf) || journals.last() == cf,
{
    let front = journals.drop_last();
    if journals.contains(cf) {
        let i = choose|i: int| 0 <= i < journals.len() && journals[i] == cf;
        if i < front.len() {
            assert(front[i] == cf);
        }
    }
    if front.contains(cf) {
        let i = choose|i: int| 0 <= i < front.len() && front[i] == cf;
        assert(journals[i] == cf);
    }
    if journals.last() == cf {
        assert(journals[journals.len() - 1] == cf);
    }
}

proof fn lemma_gap_pushed(gaps: Seq<Gap>, gap: Option<Gap>)
    ensures
        forall|g: Gap|
            gap is Some ==> (#[trigger] gaps.push(gap->0).contains(g) <==> gaps.contains(g) || g
                == gap->0),
{
    if let Some(new) = gap {
        assert forall|g: Gap| #[trigger] gaps.push(new).contains(g) <==> gaps.contains(g) || g
            == new by {
            let after = gaps.push(new);
            if after.contains(g) {
                let i = choose|i: int| 0 <= i < after.len() && after[i] == g;
                if i < gaps.len() {
                    assert(gaps[i] == g);
                }
            }
            if gaps.contains(g) {
                let i = choose|i: int| 0 <= i < gaps.len() && gaps[i] == g;
                assert(after[i] == g);
            }
            if g == new {
                assert(after[gaps.len() as int] == g);
            }
        }
    }
}

/// Whether a report counts what was copied into a family: the number, or nothing where it is 0.
pub open spec fn copied_as_counted(report: ReportView, cf: Cf, copied: nat) -> bool {
    if copied > 0 {
        report.copied.dom().contains(cf) && report.copied[cf] == copied as u64
    } else {
        !report.copied.dom().contains(cf)
    }
}

/// Whether a report's watermark for a journal is `tip`, or absent where there is none.
pub open spec fn reached_as_reported(report: ReportView, cf: Cf, tip: Option<u64>) -> bool {
    match tip {
        Some(tip) => report.watermarks.dom().contains(cf) && report.watermarks[cf] == tip,
        None => !report.watermarks.dom().contains(cf),
    }
}

/// Whether a report names this gap in a journal and no other.
pub open spec fn gap_as_reported(report: ReportView, cf: Cf, gap: Option<Gap>) -> bool {
    forall|g: Gap| g.cf == cf ==> (report.gaps.contains(g) <==> gap == Some(g))
}

pub(crate) proof fn lemma_journals_of(families: Seq<Cf>, cf: Cf)
    ensures
        journals_of(families).contains(cf) <==> families.contains(cf) && cf.journal(),
    decreases families.len(),
{
    if families.len() > 0 {
        let front = families.drop_last();
        lemma_journals_of(front, cf);
        lemma_contains_drop_last(families, cf);
        if families.last().journal() {
            lemma_contains_drop_last(journals_of(families), cf);
            assert(journals_of(families).drop_last() =~= journals_of(front));
        }
    }
}

pub(crate) proof fn lemma_journals_nameable(families: Seq<Cf>)
    requires
        all_nameable(families),
    ensures
        all_nameable(journals_of(families)),
{
    let journals = journals_of(families);
    assert forall|i: int| 0 <= i < journals.len() implies (#[trigger] journals[i]).nameable() by {
        let cf = journals[i];
        assert(journals.contains(cf));
        lemma_journals_of(families, cf);
        let k = choose|k: int| 0 <= k < families.len() && families[k] == cf;
        assert(families[k].nameable());
    }
}

proof fn lemma_member_nameable(families: Seq<Cf>, cf: Cf)
    requires
        all_nameable(families),
        families.contains(cf),
    ensures
        cf.nameable(),
{
    let k = choose|k: int| 0 <= k < families.len() && families[k] == cf;
    assert(families[k].nameable());
}

/// The part of a full pass that copies the other families leaves the journals alone.
proof fn lemma_families_leave_journals(
    store: Map<Seq<char>, Seq<(Seq<u8>, Seq<u8>)>>,
    pass: PassView,
    families: Seq<Cf>,
    cf: Cf,
)
    requires
        all_nameable(families),
        cf.nameable(),
        cf.journal(),
    ensures
        ({
            let after = after_families(store, pass, families);
            &&& after.failed is None ==> pass.failed is None
            &&& after.archive.dom() == pass.archive.dom()
            &&& after.archive[cf.name_chars()] == pass.archive[cf.name_chars()]
            &&& after.report.watermarks == pass.report.watermarks
            &&& after.report.copied.dom().contains(cf) == pass.report.copied.dom().contains(cf)
            &&& after.report.copied[cf] == pass.report.copied[cf]
            &&& after.report.gaps == pass.report.gaps
        }),
    decreases families.len(),
{
    if families.len() > 0 {
        let front = families.drop_last();
        let c = families.last();
        assert forall|i: int| 0 <= i < front.len() implies (#[trigger] front[i]).nameable() by {
            assert(front[i] == families[i]);
        }
        assert(families[families.len() - 1] == c);
        lemma_families_leave_journals(store, pass, front, cf);
        if !c.journal() {
            if c.name_chars() == cf.name_chars() {
                law_names_are_distinct(c, cf);
            }
            let mid = after_families(store, pass, front);
            assert(after_family(store, mid, c).archive.dom() =~= mid.archive.dom());
        }
    }
}

/// A pass that succeeds copies every journal byte for byte: behind what the archive held of it
/// stand the node's rows past that, and the report says how many, how far, and what was lost.
/// An archive that held nothing of it holds exactly what the node holds.
pub proof fn law_journals_are_copied_byte_for_byte(
    store: Map<Seq<char>, Seq<(Seq<u8>, Seq<u8>)>>,
    families: Seq<Cf>,
    archive: Map<Seq<char>, Seq<(Seq<u8>, Seq<u8>)>>,
    full: bool,
    cf: Cf,
)
    requires
        ordered(store),
        ordered(archive),
        all_nameable(families),
        families.contains(cf),
        cf.journal(),
        resumable(store, starting(archive), journals_of(families)),
        after_pass(store, families, archive, full).failed is None,
    ensures
        journal_copied(store, archive, after_pass(store, families, archive, full), cf),
        archive[cf.name_chars()].len() == 0 ==> after_pass(
            store,
            families,
            archive,
            full,
        ).archive[cf.name_chars()] == store[cf.name_chars()],
{
    let after = after_pass(store, families, archive, full);
    let tail = after_journals(store, starting(archive), journals_of(families));
    lemma_member_nameable(families, cf);
    lemma_journals_nameable(families);
    lemma_journals_of(families, cf);
    lemma_families_leave_journals(store, tail, families, cf);
    lemma_journals_local(store, starting(archive), journals_of(families), cf);
    assert(archived_tip(after.archive, cf) == archived_tip(tail.archive, cf));
    lemma_to_copy(store, archive, cf);
    if archive[cf.name_chars()].len() == 0 {
        assert(archive[cf.name_chars()] + store[cf.name_chars()] =~= store[cf.name_chars()]);
    }
}

/// A watermark is what the archive durably holds: after a pass that succeeds, the report's number
/// for a journal is the archive's own tip.
pub proof fn law_watermark_is_the_archive_tip(
    store: Map<Seq<char>, Seq<(Seq<u8>, Seq<u8>)>>,
    families: Seq<Cf>,
    archive: Map<Seq<char>, Seq<(Seq<u8>, Seq<u8>)>>,
    full: bool,
    cf: Cf,
)
    requires
        ordered(store),
        ordered(archive),
        all_nameable(families),
        families.contains(cf),
        cf.journal(),
        resumable(store, starting(archive), journals_of(families)),
        after_pass(store, families, archive, full).failed is None,
    ensures
        ({
            let after = after_pass(store, families, archive, full);
            &&& archived_tip(after.archive, cf) matches Ok(tip)
            &&& reached_as_reported(after.report, cf, tip)
        }),
{
    law_journals_are_copied_byte_for_byte(store, families, archive, full, cf);
}

/// A gap is reported exactly where the archive held something of a journal and the node's oldest
/// surviving entry lies past the next one the archive expected. A fresh archive is late, not holed.
pub proof fn law_lost_range_is_reported(
    store: Map<Seq<char>, Seq<(Seq<u8>, Seq<u8>)>>,
    families: Seq<Cf>,
    archive: Map<Seq<char>, Seq<(Seq<u8>, Seq<u8>)>>,
    full: bool,
    gap: Gap,
)
    requires
        ordered(store),
        ordered(archive),
        all_nameable(families),
        families.contains(gap.cf),
        gap.cf.journal(),
        resumable(store, starting(archive), journals_of(families)),
        after_pass(store, families, archive, full).failed is None,
    ensures
        after_pass(store, families, archive, full).report.gaps.contains(gap) <==> {
            &&& archived_tip(archive, gap.cf) matches Ok(Some(tip))
            &&& floor_of(gap.cf, store[gap.cf.name_chars()]) matches Ok(Some(floor))
            &&& gap.expected_from == tip + 1
            &&& gap.node_floor == floor
            &&& floor > tip + 1
        },
{
    law_journals_are_copied_byte_for_byte(store, families, archive, full, gap.cf);
}

/// Whether a journal has an index left behind what an archive holds of it.
pub open spec fn room(archive: Map<Seq<char>, Seq<(Seq<u8>, Seq<u8>)>>, cf: Cf) -> bool {
    archived_tip(archive, cf) matches Ok(Some(tip)) ==> tip < u64::MAX && encoded_key(
        cf,
        (tip + 1) as u64,
    ) is Ok
}

proof fn lemma_second_pass(
    store: Map<Seq<char>, Seq<(Seq<u8>, Seq<u8>)>>,
    archive: Map<Seq<char>, Seq<(Seq<u8>, Seq<u8>)>>,
    first: PassView,
    journals: Seq<Cf>,
)
    requires
        ordered(store),
        ordered(archive),
        ordered(first.archive),
        first.archive.dom() == archive.dom(),
        forall|i: int|
            0 <= i < journals.len() ==> journal_copied(store, archive, first, #[trigger] journals[i])
                && room(first.archive, journals[i]),
    ensures
        ({
            let second = after_journals(store, starting(first.archive), journals);
            &&& resumable(store, starting(first.archive), journals)
            &&& second.failed is None
            &&& second.archive == first.archive
            &&& second.report.copied == Map::<Cf, u64>::empty()
            &&& second.report.gaps == Seq::<Gap>::empty()
            &&& forall|cf: Cf|
                if journals.contains(cf) {
                    reached_as_reported(
                        second.report,
                        cf,
                        archived_tip(first.archive, cf)->Ok_0,
                    )
                } else {
                    !(#[trigger] second.report.watermarks.dom().contains(cf))
                }
        }),
    decreases journals.len(),
{
    if journals.len() > 0 {
        let front = journals.drop_last();
        let c = journals.last();
        assert forall|i: int| 0 <= i < front.len() implies journal_copied(
            store,
            archive,
            first,
            #[trigger] front[i],
        ) && room(first.archive, front[i]) by {
            assert(front[i] == journals[i]);
        }
        lemma_second_pass(store, archive, first, front);
        assert(journals[journals.len() - 1] == c);
        lemma_to_copy(store, archive, c);
        lemma_nothing_left(store, archive, c, first.archive);
        let second = after_journals(store, starting(first.archive), journals);
        assert forall|cf: Cf|
            if journals.contains(cf) {
                reached_as_reported(second.report, cf, archived_tip(first.archive, cf)->Ok_0)
            } else {
                !(#[trigger] second.report.watermarks.dom().contains(cf))
            } by {
            lemma_contains_drop_last(journals, cf);
        }
    }
}

/// A report speaks of no journal but those of the pass.
proof fn lemma_report_only(
    store: Map<Seq<char>, Seq<(Seq<u8>, Seq<u8>)>>,
    pass: PassView,
    journals: Seq<Cf>,
    cf: Cf,
)
    requires
        !journals.contains(cf),
        !pass.report.watermarks.dom().contains(cf),
    ensures
        !after_journals(store, pass, journals).report.watermarks.dom().contains(cf),
    decreases journals.len(),
{
    if journals.len() > 0 {
        lemma_contains_drop_last(journals, cf);
        lemma_report_only(store, pass, journals.drop_last(), cf);
    }
}

/// A second pass over an unchanged store resumes from the archive's own tip: it succeeds, copies
/// nothing, reports no gap, changes nothing in the archive, and reports the same watermarks.
pub proof fn law_second_pass_copies_nothing(
    store: Map<Seq<char>, Seq<(Seq<u8>, Seq<u8>)>>,
    families: Seq<Cf>,
    archive: Map<Seq<char>, Seq<(Seq<u8>, Seq<u8>)>>,
)
    requires
        ordered(store),
        ordered(archive),
        all_nameable(families),
        resumable(store, starting(archive), journals_of(families)),
        after_pass(store, families, archive, false).failed is None,
        forall|cf: Cf|
            families.contains(cf) && cf.journal() ==> #[trigger] room(
                after_pass(store, families, archive, false).archive,
                cf,
            ),
    ensures
        ({
            let first = after_pass(store, families, archive, false);
            let second = after_pass(store, families, first.archive, false);
            &&& resumable(store, starting(first.archive), journals_of(families))
            &&& second.failed is None
            &&& second.archive == first.archive
            &&& second.report.copied == Map::<Cf, u64>::empty()
            &&& second.report.gaps == Seq::<Gap>::empty()
            &&& second.report.watermarks == first.report.watermarks
        }),
{
    let journals = journals_of(families);
    let first = after_pass(store, families, archive, false);
    let second = after_pass(store, families, first.archive, false);
    lemma_journals_nameable(families);
    assert forall|i: int| 0 <= i < journals.len() implies journal_copied(
        store,
        archive,
        first,
        #[trigger] journals[i],
    ) && room(first.archive, journals[i]) by {
        let cf = journals[i];
        assert(journals.contains(cf));
        lemma_journals_of(families, cf);
        lemma_journals_local(store, starting(archive), journals, cf);
    }
    lemma_journals_local(store, starting(archive), journals, Cf::Meta);
    lemma_second_pass(store, archive, first, journals);
    let w1 = first.report.watermarks;
    let w2 = second.report.watermarks;
    assert forall|cf: Cf| #[trigger] w2.dom().contains(cf) == w1.dom().contains(cf) && (
    w1.dom().contains(cf) ==> w2[cf] == w1[cf]) by {
        if journals.contains(cf) {
            let i = choose|i: int| 0 <= i < journals.len() && journals[i] == cf;
            assert(journal_copied(store, archive, first, journals[i]));
            assert(reached_as_reported(second.report, cf, archived_tip(first.archive, cf)->Ok_0));
        } else {
            lemma_report_only(store, starting(archive), journals, cf);
            lemma_report_only(store, starting(first.archive), journals, cf);
        }
    }
    assert(w2.dom() =~= w1.dom());
    assert(w2 =~= w1);
}

/// A tail pass, whether it succeeds or not, leaves every family that is no journal as it was.
pub proof fn law_tail_pass_leaves_other_families(
    store: Map<Seq<char>, Seq<(Seq<u8>, Seq<u8>)>>,
    families: Seq<Cf>,
    archive: Map<Seq<char>, Seq<(Seq<u8>, Seq<u8>)>>,
    cf: Cf,
)
    requires
        all_nameable(families),
        !cf.journal(),
    ensures
        ({
            let after = after_pass(store, families, archive, false);
            &&& after.archive[cf.name_chars()] == archive[cf.name_chars()]
            &&& !after.report.copied.dom().contains(cf)
        }),
{
    lemma_journals_nameable(families);
    lemma_journals_leave_families(store, starting(archive), journals_of(families), cf);
    lemma_journals_of(families, cf);
}

proof fn lemma_journals_leave_families(
    store: Map<Seq<char>, Seq<(Seq<u8>, Seq<u8>)>>,
    pass: PassView,
    journals: Seq<Cf>,
    cf: Cf,
)
    requires
        all_nameable(journals),
        !cf.journal(),
    ensures
        ({
            let after = after_journals(store, pass, journals);
            &&& after.archive.dom().contains(cf.name_chars()) == pass.archive.dom().contains(
                cf.name_chars(),
            )
            &&& after.archive[cf.name_chars()] == pass.archive[cf.name_chars()]
            &&& after.report.copied.dom().contains(cf) == pass.report.copied.dom().contains(cf)
        }),
    decreases journals.len(),
{
    if journals.len() > 0 {
        let front = journals.drop_last();
        let c = journals.last();
        assert forall|i: int| 0 <= i < front.len() implies (#[trigger] front[i]).nameable() by {
            assert(front[i] == journals[i]);
        }
        assert(journals[journals.len() - 1] == c);
        lemma_journals_leave_families(store, pass, front, cf);
        let mid = after_journals(store, pass, front);
        if c.journal() {
            if c.name_chars() == cf.name_chars() {
                law_names_are_distinct(c, cf);
            }
        } else {
            assert(archived_tip(mid.archive, c) is Err);
        }
    }
}

/// The value a key has once rows have been written: the last one written, or the one it had.
pub(crate) proof fn lemma_last_write_wins(
    rows: Seq<(Seq<u8>, Seq<u8>)>,
    written: Seq<(Seq<u8>, Seq<u8>)>,
    key: Seq<u8>,
)
    requires
        sorted(rows),
    ensures
        sorted(with_rows(rows, written)),
        value_of(with_rows(rows, written), key) == (match value_of(written, key) {
            Some(value) => Some(value),
            None => value_of(rows, key),
        }),
    decreases written.len(),
{
    if written.len() > 0 {
        lemma_last_write_wins(rows, written.drop_last(), key);
        let before = with_rows(rows, written.drop_last());
        lemma_with_row_sorted(before, written.last());
        law_written_value_is_read(before, written.last(), key);
    }
}

/// What an archive's family holds once the node's rows have been written over it: the node's value
/// for each key the node holds, its own for every other.
pub open spec fn overwritten(
    node: Seq<(Seq<u8>, Seq<u8>)>,
    before: Seq<(Seq<u8>, Seq<u8>)>,
    after: Seq<(Seq<u8>, Seq<u8>)>,
) -> bool {
    forall|key: Seq<u8>| #[trigger]
        value_of(after, key) == (match value_of(node, key) {
            Some(value) => Some(value),
            None => value_of(before, key),
        })
}

proof fn lemma_families_local(
    store: Map<Seq<char>, Seq<(Seq<u8>, Seq<u8>)>>,
    pass: PassView,
    families: Seq<Cf>,
    cf: Cf,
)
    requires
        ordered(pass.archive),
        all_nameable(families),
        !cf.journal(),
        after_families(store, pass, families).failed is None,
        !pass.report.copied.dom().contains(cf),
    ensures
        ({
            let name = cf.name_chars();
            let after = after_families(store, pass, families);
            &&& pass.failed is None
            &&& ordered(after.archive)
            &&& if families.contains(cf) {
                &&& stored_rows(store, cf) matches Ok(rows)
                &&& overwritten(rows, pass.archive[name], after.archive[name])
                &&& copied_as_counted(after.report, cf, rows.len())
            } else {
                &&& after.archive[name] == pass.archive[name]
                &&& !after.report.copied.dom().contains(cf)
            }
        }),
    decreases families.len(),
{
    let name = cf.name_chars();
    if families.len() > 0 {
        let front = families.drop_last();
        let c = families.last();
        let mid = after_families(store, pass, front);
        let after = after_families(store, pass, families);
        assert forall|i: int| 0 <= i < front.len() implies (#[trigger] front[i]).nameable() by {
            assert(front[i] == families[i]);
        }
        assert(families[families.len() - 1] == c);
        lemma_contains_drop_last(families, cf);
        lemma_families_local(store, pass, front, cf);
        if !c.journal() {
            if c != cf && c.name_chars() == name {
                law_names_are_distinct(c, cf);
            }
            let rows = stored_rows(store, c)->Ok_0;
            if rows.len() > 0 {
                let held = mid.archive[c.name_chars()];
                assert(sorted(held));
                lemma_last_write_wins(held, rows, Seq::empty());
                assert(after.archive == archive_with(mid.archive, c, rows));
                assert forall|n: Seq<char>| after.archive.dom().contains(n) implies sorted(
                    #[trigger] after.archive[n],
                ) by {
                    if n != c.name_chars() {
                        assert(after.archive[n] == mid.archive[n]);
                    }
                }
                if c == cf {
                    assert forall|key: Seq<u8>| #[trigger]
                        value_of(after.archive[name], key) == (match value_of(rows, key) {
                            Some(value) => Some(value),
                            None => value_of(pass.archive[name], key),
                        }) by {
                        lemma_last_write_wins(held, rows, key);
                        assert(value_of(held, key) == value_of(mid.archive[name], key));
                    }
                }
            } else if c == cf {
                assert forall|key: Seq<u8>| #[trigger]
                    value_of(after.archive[name], key) == (match value_of(rows, key) {
                        Some(value) => Some(value),
                        None => value_of(pass.archive[name], key),
                    }) by {
                    assert(value_of(mid.archive[name], key) == value_of(pass.archive[name], key));
                }
            }
        }
    }
}

/// A full pass that succeeds brings every other family up to date: the newest value replaces the
/// archived one rather than accumulating, and a key the node no longer holds keeps what it had.
pub proof fn law_full_pass_takes_the_newest_value(
    store: Map<Seq<char>, Seq<(Seq<u8>, Seq<u8>)>>,
    families: Seq<Cf>,
    archive: Map<Seq<char>, Seq<(Seq<u8>, Seq<u8>)>>,
    cf: Cf,
)
    requires
        ordered(store),
        ordered(archive),
        all_nameable(families),
        families.contains(cf),
        !cf.journal(),
        resumable(store, starting(archive), journals_of(families)),
        after_pass(store, families, archive, true).failed is None,
    ensures
        ({
            let name = cf.name_chars();
            let after = after_pass(store, families, archive, true);
            &&& stored_rows(store, cf) matches Ok(rows)
            &&& overwritten(rows, archive[name], after.archive[name])
            &&& copied_as_counted(after.report, cf, rows.len())
        }),
{
    let tail = after_journals(store, starting(archive), journals_of(families));
    lemma_journals_nameable(families);
    lemma_families_fail_on(store, tail, families);
    lemma_journals_local(store, starting(archive), journals_of(families), cf);
    lemma_journals_leave_families(store, starting(archive), journals_of(families), cf);
    lemma_families_local(store, tail, families, cf);
}

pub(crate) proof fn lemma_families_fail_on(
    store: Map<Seq<char>, Seq<(Seq<u8>, Seq<u8>)>>,
    pass: PassView,
    families: Seq<Cf>,
)
    ensures
        after_families(store, pass, families).failed is None ==> pass.failed is None,
    decreases families.len(),
{
    if families.len() > 0 {
        lemma_families_fail_on(store, pass, families.drop_last());
    }
}

/// Whether an archive's journal has only grown, by rows that the node holds.
pub open spec fn only_grown(
    node: Seq<(Seq<u8>, Seq<u8>)>,
    before: Seq<(Seq<u8>, Seq<u8>)>,
    after: Seq<(Seq<u8>, Seq<u8>)>,
) -> bool {
    &&& before.is_prefix_of(after)
    &&& forall|i: int| before.len() <= i < after.len() ==> node.contains(#[trigger] after[i])
}

proof fn lemma_grown_on(
    node: Seq<(Seq<u8>, Seq<u8>)>,
    before: Seq<(Seq<u8>, Seq<u8>)>,
    mid: Seq<(Seq<u8>, Seq<u8>)>,
    added: Seq<(Seq<u8>, Seq<u8>)>,
)
    requires
        only_grown(node, before, mid),
        forall|i: int| 0 <= i < added.len() ==> node.contains(#[trigger] added[i]),
    ensures
        only_grown(node, before, mid + added),
{
    let after = mid + added;
    assert(before =~= after.subrange(0, before.len() as int)) by {
        assert(before =~= mid.subrange(0, before.len() as int));
    }
    assert forall|i: int| before.len() <= i < after.len() implies node.contains(
        #[trigger] after[i],
    ) by {
        if i < mid.len() {
            assert(after[i] == mid[i]);
        } else {
            assert(after[i] == added[i - mid.len()]);
        }
    }
}

/// Whether a journal's copy added the first `k` rows it read.
pub open spec fn grown_by(
    store: Map<Seq<char>, Seq<(Seq<u8>, Seq<u8>)>>,
    pass: PassView,
    c: Cf,
    k: int,
) -> bool {
    &&& pass.failed is None
    &&& to_copy(store, pass.archive, c) matches Ok(rows)
    &&& 0 <= k <= rows.len()
    &&& after_journal(store, pass, c).archive[c.name_chars()] == pass.archive[c.name_chars()]
        + rows.take(k)
}

/// One journal's copy only adds node rows behind what the archive held, whether it succeeds or
/// not.
proof fn lemma_step_grows(
    store: Map<Seq<char>, Seq<(Seq<u8>, Seq<u8>)>>,
    pass: PassView,
    c: Cf,
)
    requires
        ordered(store),
        ordered(pass.archive),
        pass.failed is None ==> !at_last_index(pass.archive, c),
    ensures
        ({
            let after = after_journal(store, pass, c);
            let name = c.name_chars();
            &&& ordered(after.archive)
            &&& after.archive.dom() == pass.archive.dom()
            &&& forall|n: Seq<char>| n != name ==> after.archive[n] == pass.archive[n]
            &&& after.archive[name] == pass.archive[name] || exists|k: int|
                #[trigger] grown_by(store, pass, c, k)
        }),
{
    let name = c.name_chars();
    let after = after_journal(store, pass, c);
    if pass.failed is None && to_copy(store, pass.archive, c) is Ok {
        let rows = to_copy(store, pass.archive, c)->Ok_0;
        let good = readable(c, rows);
        lemma_readable_all(c, rows);
        lemma_to_copy(store, pass.archive, c);
        let k = if good < rows.len() {
            in_whole_batches(good) as int
        } else {
            rows.len() as int
        };
        assert(0 <= k <= rows.len());
        let some = rows.take(k);
        assert(rows.take(rows.len() as int) =~= rows);
        assert(after.archive == archive_with(pass.archive, c, some));
        assert forall|i: int, j: int| 0 <= i < j < some.len() implies lex_less(
            (#[trigger] some[i]).0,
            (#[trigger] some[j]).0,
        ) by {
            assert(some[i] == rows[i] && some[j] == rows[j]);
        }
        if some.len() > 0 {
            assert(some[0] == rows[0]);
        }
        lemma_appended(pass.archive[name], some);
        lemma_sorted_concat(pass.archive[name], some);
        if some.len() == 0 {
            assert(pass.archive[name] + some =~= pass.archive[name]);
        }
        assert(grown_by(store, pass, c, k));
        assert(after.archive.dom() =~= pass.archive.dom());
        assert forall|n: Seq<char>| after.archive.dom().contains(n) implies sorted(
            #[trigger] after.archive[n],
        ) by {
            if n != name {
                assert(after.archive[n] == pass.archive[n]);
            }
        }
    }
}

/// A copy that is refused reports no progress: no count and no watermark changes. Of a journal, the
/// archive then has what it had and the front of what was to be copied behind it, in order, so the
/// next pass resumes there and leaves no hole; of another family, what it had.
pub proof fn law_refused_copy_reports_no_progress(
    store: Map<Seq<char>, Seq<(Seq<u8>, Seq<u8>)>>,
    pass: PassView,
    cf: Cf,
)
    requires
        ordered(store),
        ordered(pass.archive),
        pass.failed is None,
        cf.journal() ==> !at_last_index(pass.archive, cf),
        after_one(store, pass, cf).failed is Some,
    ensures
        ({
            let after = after_one(store, pass, cf);
            let name = cf.name_chars();
            &&& after.report.watermarks == pass.report.watermarks
            &&& after.report.copied == pass.report.copied
            &&& ordered(after.archive)
            &&& forall|n: Seq<char>| n != name ==> after.archive[n] == pass.archive[n]
            &&& after.archive[name] == pass.archive[name] || cf.journal() && exists|k: int|
                #[trigger] grown_by(store, pass, cf, k)
        }),
{
    if cf.journal() {
        lemma_step_grows(store, pass, cf);
    }
}

proof fn lemma_journals_only_grow(
    store: Map<Seq<char>, Seq<(Seq<u8>, Seq<u8>)>>,
    pass: PassView,
    journals: Seq<Cf>,
    cf: Cf,
)
    requires
        ordered(store),
        ordered(pass.archive),
        all_nameable(journals),
        cf.nameable(),
        resumable(store, pass, journals),
    ensures
        ({
            let after = after_journals(store, pass, journals);
            let name = cf.name_chars();
            &&& ordered(after.archive)
            &&& after.archive.dom() == pass.archive.dom()
            &&& only_grown(store[name], pass.archive[name], after.archive[name])
        }),
    decreases journals.len(),
{
    let name = cf.name_chars();
    let held = pass.archive[name];
    if journals.len() == 0 {
        assert(held.is_prefix_of(held)) by {
            assert(held =~= held.subrange(0, held.len() as int));
        }
    } else {
        let front = journals.drop_last();
        let c = journals.last();
        let mid = after_journals(store, pass, front);
        let after = after_journals(store, pass, journals);
        assert forall|i: int| 0 <= i < front.len() implies (#[trigger] front[i]).nameable() by {
            assert(front[i] == journals[i]);
        }
        assert(journals[journals.len() - 1] == c);
        lemma_journals_only_grow(store, pass, front, cf);
        lemma_step_grows(store, mid, c);
        if c != cf && c.name_chars() == name {
            law_names_are_distinct(c, cf);
        }
        if after.archive[name] != mid.archive[name] {
            let rows = to_copy(store, mid.archive, c)->Ok_0;
            let k = choose|k: int| #[trigger] grown_by(store, mid, c, k);
            lemma_to_copy(store, mid.archive, c);
            let src = store[name];
            let added = rows.take(k);
            assert forall|i: int| 0 <= i < added.len() implies src.contains(
                #[trigger] added[i],
            ) by {
                assert(added[i] == src[src.len() - rows.len() + i]);
            }
            lemma_grown_on(src, held, mid.archive[name], added);
        }
    }
}

/// A pass, whether it succeeds or not, never loses or changes an archived journal entry, and adds
/// none that the node does not hold: the archive's rows of a journal stay as they were, with node
/// rows behind them.
pub proof fn law_archived_entries_stay(
    store: Map<Seq<char>, Seq<(Seq<u8>, Seq<u8>)>>,
    families: Seq<Cf>,
    archive: Map<Seq<char>, Seq<(Seq<u8>, Seq<u8>)>>,
    full: bool,
    cf: Cf,
)
    requires
        ordered(store),
        ordered(archive),
        all_nameable(families),
        cf.nameable(),
        cf.journal(),
        resumable(store, starting(archive), journals_of(families)),
    ensures
        only_grown(
            store[cf.name_chars()],
            archive[cf.name_chars()],
            after_pass(store, families, archive, full).archive[cf.name_chars()],
        ),
{
    let tail = after_journals(store, starting(archive), journals_of(families));
    lemma_journals_nameable(families);
    lemma_journals_only_grow(store, starting(archive), journals_of(families), cf);
    lemma_families_leave_journals(store, tail, families, cf);
}

/// Whether no row of a journal holds the last possible index.
pub open spec fn below_last_index(cf: Cf, rows: Seq<(Seq<u8>, Seq<u8>)>) -> bool {
    forall|i: int|
        0 <= i < rows.len() ==> decoded_key(cf, (#[trigger] rows[i]).0) != Ok::<u64, StoreError>(
            u64::MAX,
        )
}

/// A pass finds an index to resume from in every journal, where neither the archive's tip nor any
/// row of the node's is the last index that 64 bits can count.
pub proof fn law_pass_is_resumable(
    store: Map<Seq<char>, Seq<(Seq<u8>, Seq<u8>)>>,
    pass: PassView,
    journals: Seq<Cf>,
)
    requires
        ordered(store),
        ordered(pass.archive),
        all_nameable(journals),
        forall|i: int|
            0 <= i < journals.len() ==> !at_last_index(pass.archive, #[trigger] journals[i])
                && below_last_index(journals[i], store[journals[i].name_chars()]),
    ensures
        resumable(store, pass, journals),
        after_journals(store, pass, journals).archive.dom() == pass.archive.dom(),
        ordered(after_journals(store, pass, journals).archive),
    decreases journals.len(),
{
    if journals.len() > 0 {
        let front = journals.drop_last();
        let c = journals.last();
        assert forall|i: int| 0 <= i < front.len() implies !at_last_index(
            pass.archive,
            #[trigger] front[i],
        ) && below_last_index(front[i], store[front[i].name_chars()]) by {
            assert(front[i] == journals[i]);
        }
        assert forall|i: int| 0 <= i < front.len() implies (#[trigger] front[i]).nameable() by {
            assert(front[i] == journals[i]);
        }
        law_pass_is_resumable(store, pass, front);
        assert(journals[journals.len() - 1] == c);
        let mid = after_journals(store, pass, front);
        let name = c.name_chars();
        lemma_journals_only_grow(store, pass, front, c);
        let held = pass.archive[name];
        let now = mid.archive[name];
        if now.len() > held.len() {
            let row = now[now.len() - 1];
            assert(store[name].contains(row));
            let i = choose|i: int| 0 <= i < store[name].len() && store[name][i] == row;
            assert(decoded_key(c, store[name][i].0) != Ok::<u64, StoreError>(u64::MAX));
            assert(now.last() == row);
        } else {
            assert(now =~= held);
        }
        assert(!at_last_index(mid.archive, c));
        lemma_step_grows(store, mid, c);
    }
}

} // verus!
