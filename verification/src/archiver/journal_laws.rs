//! What a pass leaves of a journal, row by row.

use crate::archiver::archive::archived_tip;
use crate::archiver::course::after_one;
use crate::archiver::laws::{
    law_journals_are_copied_byte_for_byte, lemma_journals_nameable, lemma_journals_of, lemma_step,
    lemma_to_copy,
};
use crate::archiver::pass::{
    after_families, after_journal, after_journals, after_pass, archive_with, at_last_index,
    in_whole_batches, readable, resumable, resume_from, starting, to_copy, Gap, PassView,
    ReportView,
};
use crate::bytes::{be_value, lemma_be_limits, lemma_be_value_bound, lex_less};
use crate::store::cf::{law_names_are_distinct, Cf};
use crate::store::error::StoreError;
use crate::store::head_store::{all_nameable, floor_of, journals_of};
use crate::store::journal::{
    decoded_key, encoded_key, entry_fault, law_key_order_is_index_order, law_key_round_trips,
};
use crate::store::table::{lemma_appended, lemma_rows_from, ordered, rows_from, sorted, with_rows};
use vstd::prelude::*;

verus! {

/// Whether `after` is an archive's journal brought up to date from the node's: what stood there
/// stands at its front, every entry of the node's past it follows, and nothing else does.
pub open spec fn up_to_date(
    node: Seq<(Seq<u8>, Seq<u8>)>,
    before: Seq<(Seq<u8>, Seq<u8>)>,
    after: Seq<(Seq<u8>, Seq<u8>)>,
) -> bool {
    &&& before.is_prefix_of(after)
    &&& forall|i: int| before.len() <= i < after.len() ==> node.contains(#[trigger] after[i])
    &&& before.len() == 0 ==> after == node
    &&& before.len() > 0 ==> forall|i: int|
        0 <= i < node.len() && (#[trigger] node[i]).0.len() == before.last().0.len() && be_value(
            node[i].0,
        ) > be_value(before.last().0) ==> after.skip(before.len() as int).contains(node[i])
    &&& before.len() > 0 ==> forall|i: int|
        before.len() <= i < after.len() ==> (#[trigger] after[i]).0.len() == before.last().0.len()
            && be_value(after[i].0) > be_value(before.last().0)
    &&& node.len() > 0 && (before.len() == 0 || node.last().0.len() == before.last().0.len()
        && be_value(node.last().0) > be_value(before.last().0)) ==> after.len() > 0 && after.last()
        == node.last()
}

/// Whether a report says of a journal what became of its rows: how many were added, and the index
/// of the last one that now stands there.
pub open spec fn told(
    report: ReportView,
    cf: Cf,
    before: Seq<(Seq<u8>, Seq<u8>)>,
    after: Seq<(Seq<u8>, Seq<u8>)>,
) -> bool {
    &&& report.watermarks.dom().contains(cf) <==> after.len() > 0
    &&& after.len() > 0 ==> report.watermarks[cf] == be_value(after.last().0)
    &&& report.copied.dom().contains(cf) <==> after.len() > before.len()
    &&& after.len() > before.len() ==> report.copied[cf] == (after.len() - before.len()) as u64
}

/// After a pass that succeeds, a tail pass as much as a full one, each spine, request lane, soft-ack
/// journal, hard-ack journal and hub journal of the archive is up to date with the node's, and the
/// report has its last index for a watermark.
pub proof fn law_every_journal_is_brought_up_to_date(
    store: Map<Seq<char>, Seq<(Seq<u8>, Seq<u8>)>>,
    families: Seq<Cf>,
    archive: Map<Seq<char>, Seq<(Seq<u8>, Seq<u8>)>>,
    full: bool,
    cf: Cf,
)
    requires
        ordered(store),
        ordered(archive),
        all_nameable(families),
        families.contains(cf),
        cf == Cf::Block || cf == Cf::Stack || cf is Request || cf is SoftAck || cf is HardAck || cf
            is HubHardAck,
        resumable(store, starting(archive), journals_of(families)),
        after_pass(store, families, archive, full).failed is None,
    ensures
        ({
            let name = cf.name_chars();
            let after = after_pass(store, families, archive, full);
            &&& up_to_date(store[name], archive[name], after.archive[name])
            &&& told(after.report, cf, archive[name], after.archive[name])
        }),
{
    let name = cf.name_chars();
    let after = after_pass(store, families, archive, full);
    law_journals_are_copied_byte_for_byte(store, families, archive, full, cf);
    let node = store[name];
    let before = archive[name];
    let rows = to_copy(store, archive, cf)->Ok_0;
    let end = after.archive[name];
    assert(end == before + rows);
    lemma_be_limits();
    let tip = archived_tip(archive, cf)->Ok_0;
    let floor = floor_of(cf, node)->Ok_0;
    let from = resume_from(tip, floor);
    if before.len() > 0 {
        lemma_be_value_bound(before.last().0);
    } else {
        assert(before + rows =~= rows);
    }
    lemma_up_to_date(cf, node, before, rows, from as u64);
    if end.len() > 0 {
        if rows.len() == 0 {
            assert(end =~= before);
        }
        lemma_be_value_bound(end.last().0);
    }
}

proof fn lemma_up_to_date(
    cf: Cf,
    node: Seq<(Seq<u8>, Seq<u8>)>,
    before: Seq<(Seq<u8>, Seq<u8>)>,
    rows: Seq<(Seq<u8>, Seq<u8>)>,
    from: u64,
)
    requires
        sorted(node),
        before.len() == 0 ==> rows == node,
        before.len() > 0 ==> decoded_key(cf, before.last().0) is Ok && from == be_value(
            before.last().0,
        ) + 1,
        encoded_key(cf, from) is Ok,
        rows == rows_from(node, encoded_key(cf, from)->Ok_0),
        readable(cf, rows) == rows.len(),
    ensures
        up_to_date(node, before, before + rows),
{
    let end = before + rows;
    let start = encoded_key(cf, from)->Ok_0;
    lemma_be_limits();
    lemma_rows_from(node, start);
    let skipped = node.len() - rows.len();
    assert forall|i: int| before.len() <= i < end.len() implies node.contains(#[trigger] end[i]) by {
        assert(end[i] == rows[i - before.len()]);
        assert(end[i] == node[skipped + i - before.len()]);
    }
    assert(before.is_prefix_of(end)) by {
        assert(before =~= end.subrange(0, before.len() as int));
    }
    if before.len() == 0 {
        assert(end =~= node);
    } else {
        let last = before.last().0;
        assert(end.skip(before.len() as int) =~= rows);
        assert forall|i: int|
            0 <= i < node.len() && (#[trigger] node[i]).0.len() == last.len() && be_value(node[i].0)
                > be_value(last) implies rows.contains(node[i]) by {
            let key = node[i].0;
            lemma_be_value_bound(key);
            law_key_round_trips(cf, key);
            law_key_order_is_index_order(cf, be_value(key) as u64, from);
            assert(!lex_less(key, start));
            assert(rows[i - skipped] == node[i]);
        }
        assert forall|i: int| before.len() <= i < end.len() implies (#[trigger] end[i]).0.len()
            == last.len() && be_value(end[i].0) > be_value(last) by {
            let k = i - before.len();
            assert(end[i] == rows[k]);
            lemma_all_read(cf, rows, k);
            let key = rows[k].0;
            assert(rows[k] == node[skipped + k]);
            lemma_be_value_bound(key);
            law_key_round_trips(cf, key);
            law_key_order_is_index_order(cf, be_value(key) as u64, from);
        }
        if node.len() > 0 && node.last().0.len() == last.len() && be_value(node.last().0)
            > be_value(last) {
            assert(node.last() == node[node.len() - 1]);
            assert(rows.contains(node.last()));
            assert(rows.last() == node.last());
            assert(end.last() == rows.last());
        }
    }
}

/// Where all rows can be read, each of them can.
proof fn lemma_all_read(cf: Cf, rows: Seq<(Seq<u8>, Seq<u8>)>, k: int)
    requires
        readable(cf, rows) == rows.len(),
        0 <= k < rows.len(),
    ensures
        decoded_key(cf, rows[k].0) is Ok,
        rows[k].1.len() >= 12,
    decreases rows.len(),
{
    if k > 0 {
        lemma_all_read(cf, rows.drop_first(), k - 1);
    }
}

/// Whether a row is a journal entry: a key that holds an index below the journal's last, and a value
/// that holds a stamp.
pub open spec fn sound_entry(cf: Cf, key: Seq<u8>, value: Seq<u8>) -> bool {
    &&& value.len() >= 12
    &&& cf is Request ==> key.len() == 8 && be_value(key) < u64::MAX
    &&& !(cf is Request) ==> key.len() == 4 && be_value(key) < u32::MAX
}

/// Whether a family is in order on both sides: the node and the archive have it, and where it is a
/// journal, the node's rows are entries and the archive, if it holds anything, ends with one.
pub open spec fn sound(
    store: Map<Seq<char>, Seq<(Seq<u8>, Seq<u8>)>>,
    archive: Map<Seq<char>, Seq<(Seq<u8>, Seq<u8>)>>,
    cf: Cf,
) -> bool {
    let name = cf.name_chars();
    &&& store.dom().contains(name)
    &&& archive.dom().contains(name)
    &&& cf.journal() ==> {
        &&& forall|i: int|
            0 <= i < store[name].len() ==> sound_entry(
                cf,
                (#[trigger] store[name][i]).0,
                store[name][i].1,
            )
        &&& archive[name].len() > 0 ==> sound_entry(
            cf,
            archive[name].last().0,
            archive[name].last().1,
        )
    }
}

proof fn lemma_sound_entry(cf: Cf, key: Seq<u8>, value: Seq<u8>)
    requires
        cf.journal(),
        sound_entry(cf, key, value),
    ensures
        entry_fault(cf, key, value) is None,
        decoded_key(cf, key) == Ok::<u64, StoreError>(be_value(key) as u64),
        be_value(key) < u64::MAX,
        encoded_key(cf, (be_value(key) + 1) as u64) is Ok,
        encoded_key(cf, be_value(key) as u64) is Ok,
{
    lemma_be_limits();
}

proof fn lemma_all_sound(cf: Cf, rows: Seq<(Seq<u8>, Seq<u8>)>)
    requires
        cf.journal(),
        forall|i: int|
            0 <= i < rows.len() ==> sound_entry(cf, (#[trigger] rows[i]).0, rows[i].1),
    ensures
        readable(cf, rows) == rows.len(),
    decreases rows.len(),
{
    if rows.len() > 0 {
        lemma_sound_entry(cf, rows[0].0, rows[0].1);
        let rest = rows.drop_first();
        assert forall|i: int| 0 <= i < rest.len() implies sound_entry(
            cf,
            (#[trigger] rest[i]).0,
            rest[i].1,
        ) by {
            assert(rest[i] == rows[i + 1]);
        }
        lemma_all_sound(cf, rest);
    }
}

/// The copy of a journal that is in order succeeds, and leaves every family in order.
proof fn lemma_sound_step(
    store: Map<Seq<char>, Seq<(Seq<u8>, Seq<u8>)>>,
    pass: PassView,
    cf: Cf,
)
    requires
        ordered(store),
        ordered(pass.archive),
        pass.failed is None,
        cf.journal(),
        cf.nameable(),
        sound(store, pass.archive, cf),
    ensures
        ({
            let after = after_journal(store, pass, cf);
            &&& after.failed is None
            &&& !at_last_index(pass.archive, cf)
            &&& ordered(after.archive)
            &&& forall|other: Cf|
                other.nameable() && #[trigger] sound(store, pass.archive, other) ==> sound(
                    store,
                    after.archive,
                    other,
                )
        }),
{
    let name = cf.name_chars();
    let node = store[name];
    let before = pass.archive[name];
    if node.len() > 0 {
        lemma_sound_entry(cf, node[0].0, node[0].1);
    }
    if before.len() > 0 {
        lemma_sound_entry(cf, before.last().0, before.last().1);
    }
    lemma_be_limits();
    assert(to_copy(store, pass.archive, cf) is Ok);
    assert(!at_last_index(pass.archive, cf));
    lemma_to_copy(store, pass.archive, cf);
    let rows = to_copy(store, pass.archive, cf)->Ok_0;
    assert forall|i: int| 0 <= i < rows.len() implies sound_entry(
        cf,
        (#[trigger] rows[i]).0,
        rows[i].1,
    ) by {
        assert(rows[i] == node[node.len() - rows.len() + i]);
    }
    lemma_all_sound(cf, rows);
    lemma_step(store, pass, cf);
    let after = after_journal(store, pass, cf);
    assert forall|other: Cf|
        other.nameable() && #[trigger] sound(store, pass.archive, other) implies sound(
        store,
        after.archive,
        other,
    ) by {
        if other.name_chars() == name {
            law_names_are_distinct(other, cf);
            if rows.len() == 0 {
                assert(before + rows =~= before);
            } else {
                assert((before + rows).last() == rows[rows.len() - 1]);
            }
        }
    }
}

proof fn lemma_sound_journals(
    store: Map<Seq<char>, Seq<(Seq<u8>, Seq<u8>)>>,
    pass: PassView,
    journals: Seq<Cf>,
)
    requires
        ordered(store),
        ordered(pass.archive),
        pass.failed is None,
        all_nameable(journals),
        forall|i: int|
            0 <= i < journals.len() ==> (#[trigger] journals[i]).journal() && sound(
                store,
                pass.archive,
                journals[i],
            ),
    ensures
        ({
            let after = after_journals(store, pass, journals);
            &&& after.failed is None
            &&& resumable(store, pass, journals)
            &&& ordered(after.archive)
            &&& forall|other: Cf|
                other.nameable() && #[trigger] sound(store, pass.archive, other) ==> sound(
                    store,
                    after.archive,
                    other,
                )
        }),
    decreases journals.len(),
{
    if journals.len() > 0 {
        let front = journals.drop_last();
        assert forall|i: int| 0 <= i < front.len() implies (#[trigger] front[i]).journal() && sound(
            store,
            pass.archive,
            front[i],
        ) && front[i].nameable() by {
            assert(front[i] == journals[i]);
        }
        lemma_sound_journals(store, pass, front);
        let mid = after_journals(store, pass, front);
        assert(journals.last() == journals[journals.len() - 1]);
        assert(sound(store, pass.archive, journals.last()));
        lemma_sound_step(store, mid, journals.last());
    }
}

proof fn lemma_sound_families(
    store: Map<Seq<char>, Seq<(Seq<u8>, Seq<u8>)>>,
    pass: PassView,
    families: Seq<Cf>,
)
    requires
        pass.failed is None,
        forall|i: int|
            0 <= i < families.len() ==> sound(store, pass.archive, #[trigger] families[i]),
    ensures
        ({
            let after = after_families(store, pass, families);
            &&& after.failed is None
            &&& after.archive.dom() == pass.archive.dom()
        }),
    decreases families.len(),
{
    if families.len() > 0 {
        let front = families.drop_last();
        assert forall|i: int| 0 <= i < front.len() implies sound(
            store,
            pass.archive,
            #[trigger] front[i],
        ) by {
            assert(front[i] == families[i]);
        }
        lemma_sound_families(store, pass, front);
        assert(sound(store, pass.archive, families[families.len() - 1]));
        assert(after_families(store, pass, families).archive.dom() =~= pass.archive.dom());
    }
}

/// A pass succeeds wherever every family is in order on both sides, and it finds an index to resume
/// from in every journal.
pub proof fn law_sound_pass_succeeds(
    store: Map<Seq<char>, Seq<(Seq<u8>, Seq<u8>)>>,
    families: Seq<Cf>,
    archive: Map<Seq<char>, Seq<(Seq<u8>, Seq<u8>)>>,
    full: bool,
)
    requires
        ordered(store),
        ordered(archive),
        all_nameable(families),
        forall|i: int| 0 <= i < families.len() ==> sound(store, archive, #[trigger] families[i]),
    ensures
        after_pass(store, families, archive, full).failed is None,
        resumable(store, starting(archive), journals_of(families)),
{
    let journals = journals_of(families);
    lemma_journals_nameable(families);
    assert forall|i: int| 0 <= i < journals.len() implies (#[trigger] journals[i]).journal()
        && sound(store, archive, journals[i]) by {
        let cf = journals[i];
        assert(journals.contains(cf));
        lemma_journals_of(families, cf);
        let k = choose|k: int| 0 <= k < families.len() && families[k] == cf;
        assert(sound(store, archive, families[k]));
    }
    lemma_sound_journals(store, starting(archive), journals);
    let tail = after_journals(store, starting(archive), journals);
    assert forall|i: int| 0 <= i < families.len() implies sound(
        store,
        tail.archive,
        #[trigger] families[i],
    ) by {
        assert(sound(store, archive, families[i]) && families[i].nameable());
    }
    lemma_sound_families(store, tail, families);
}

/// Whether the row at `g` is the first that is no entry.
pub open spec fn first_fault(cf: Cf, rows: Seq<(Seq<u8>, Seq<u8>)>, g: int) -> bool {
    &&& 0 <= g < rows.len()
    &&& entry_fault(cf, rows[g].0, rows[g].1) is Some
    &&& forall|i: int|
        0 <= i < g ==> entry_fault(cf, (#[trigger] rows[i]).0, rows[i].1) is None
}

proof fn lemma_readable_up_to(cf: Cf, rows: Seq<(Seq<u8>, Seq<u8>)>, g: int)
    requires
        first_fault(cf, rows, g),
    ensures
        readable(cf, rows) == g,
    decreases g,
{
    if g > 0 {
        let rest = rows.drop_first();
        assert forall|i: int| 0 <= i < g - 1 implies entry_fault(
            cf,
            (#[trigger] rest[i]).0,
            rest[i].1,
        ) is None by {
            assert(rest[i] == rows[i + 1]);
        }
        lemma_readable_up_to(cf, rest, g - 1);
    }
}

/// A row that is no entry ends the pass with its own refusal. The rows before it are archived by
/// whole batches of 1024, so that fewer than a batch of them are left to copy again.
pub proof fn law_fault_costs_less_than_a_batch(
    store: Map<Seq<char>, Seq<(Seq<u8>, Seq<u8>)>>,
    pass: PassView,
    cf: Cf,
    g: int,
)
    requires
        ordered(store),
        ordered(pass.archive),
        pass.failed is None,
        !at_last_index(pass.archive, cf),
        to_copy(store, pass.archive, cf) matches Ok(rows) && first_fault(cf, rows, g),
    ensures
        ({
            let rows = to_copy(store, pass.archive, cf)->Ok_0;
            let after = after_journal(store, pass, cf);
            let name = cf.name_chars();
            let added = after.archive[name].len() - pass.archive[name].len();
            &&& after.failed == entry_fault(cf, rows[g].0, rows[g].1)
            &&& 0 <= added <= g < added + 1024
            &&& added % 1024 == 0
            &&& after.archive[name] == pass.archive[name] + rows.take(added)
        }),
{
    let rows = to_copy(store, pass.archive, cf)->Ok_0;
    let name = cf.name_chars();
    let after = after_journal(store, pass, cf);
    lemma_readable_up_to(cf, rows, g);
    lemma_to_copy(store, pass.archive, cf);
    lemma_whole_batches(g as nat);
    let k = in_whole_batches(g as nat) as int;
    let some = rows.take(k);
    assert(after.archive == archive_with(pass.archive, cf, some));
    lemma_front_appended(pass.archive[name], rows, k);
    if k == 0 {
        assert(pass.archive[name] + some =~= pass.archive[name]);
    }
    assert(after.archive[name] == pass.archive[name] + some);
    assert(after.archive[name].len() - pass.archive[name].len() == k);
}

proof fn lemma_whole_batches(n: nat)
    ensures
        in_whole_batches(n) <= n < in_whole_batches(n) + 1024,
        in_whole_batches(n) % 1024 == 0,
{
}

proof fn lemma_front_appended(
    before: Seq<(Seq<u8>, Seq<u8>)>,
    rows: Seq<(Seq<u8>, Seq<u8>)>,
    k: int,
)
    requires
        sorted(rows),
        0 <= k <= rows.len(),
        before.len() > 0 && rows.len() > 0 ==> lex_less(before.last().0, rows[0].0),
    ensures
        with_rows(before, rows.take(k)) == before + rows.take(k),
{
    let some = rows.take(k);
    assert forall|i: int, j: int| 0 <= i < j < some.len() implies lex_less(
        (#[trigger] some[i]).0,
        (#[trigger] some[j]).0,
    ) by {
        assert(some[i] == rows[i] && some[j] == rows[j]);
    }
    if some.len() > 0 {
        assert(some[0] == rows[0]);
    }
    lemma_appended(before, some);
}

/// The gaps of a report stand in the order in which they were found: a family's copy keeps those that
/// are there and adds one at most, of its own family, at the end.
pub proof fn law_gaps_are_added_at_the_end(
    store: Map<Seq<char>, Seq<(Seq<u8>, Seq<u8>)>>,
    pass: PassView,
    cf: Cf,
)
    ensures
        ({
            let before = pass.report.gaps;
            let after = after_one(store, pass, cf).report.gaps;
            &&& after == before || after.len() == before.len() + 1 && after.drop_last() == before
                && after.last().cf == cf
        }),
{
    let before = pass.report.gaps;
    assert forall|gap: Gap| #[trigger] before.push(gap).drop_last() == before by {
        assert(before.push(gap).drop_last() =~= before);
    }
}

} // verus!
