//! What the archiver tells the node, what a dry run prints, and when a full pass is due.

use crate::archiver::config::{due, survey_line, survey_of, surveyed};
use crate::archiver::counts::sum_of;
use crate::archiver::pass::Gap;
use crate::archiver::watermark::watermark_address;
use crate::bytes::{be_value, lemma_be_limits, lemma_be_value_bound};
use crate::store::cf::Cf;
use crate::store::error::StoreError;
use crate::text::{decimal, left_aligned, right_aligned};
use vstd::prelude::*;

verus! {

/// A full pass is due when a single pass was asked for, when none has succeeded yet, and from the
/// moment that the interval has gone by; once due, it stays so until one succeeds.
pub proof fn law_full_passes_recur(once: bool, since: u64, later: u64, interval: u64)
    ensures
        due(true, Some(since), interval),
        due(once, None, interval),
        due(once, Some(interval), interval),
        due(false, Some(since), interval) <==> since >= interval,
        due(once, Some(since), interval) && since <= later ==> due(once, Some(later), interval),
{
}

/// The report goes to one path of the node's, whether or not its address ends in slashes.
pub proof fn law_watermark_address_ignores_final_slashes(node_url: Seq<char>)
    ensures
        watermark_address(node_url.push('/')) == watermark_address(node_url),
        node_url.len() > 0 && node_url.last() != '/' ==> watermark_address(node_url) == node_url
            + "/api/admin/archive/watermark"@,
        watermark_address(Seq::empty()) == "/api/admin/archive/watermark"@,
{
    assert(node_url.push('/').drop_last() =~= node_url);
    assert(watermark_address(Seq::empty()) =~= "/api/admin/archive/watermark"@);
}

/// Whether a family's line shows it: a journal with its first and its last index, or dashes where it
/// is empty, another family with a dash and how many rows it has.
pub open spec fn shows(line: Seq<char>, cf: Cf, rows: Seq<(Seq<u8>, Seq<u8>)>) -> bool {
    let journal = cf == Cf::Block || cf == Cf::Stack || cf is Request || cf is SoftAck || cf
        is HardAck || cf is HubHardAck;
    let first = if !journal || rows.len() == 0 {
        "-"@
    } else {
        decimal(be_value(rows[0].0))
    };
    let last = if !journal {
        decimal(rows.len())
    } else if rows.len() == 0 {
        "-"@
    } else {
        decimal(be_value(rows[rows.len() - 1].0))
    };
    line == left_aligned(cf.name_chars(), 28) + " "@ + right_aligned(first, 12) + " "@
        + right_aligned(last, 12)
}

proof fn lemma_surveyed(store: Map<Seq<char>, Seq<(Seq<u8>, Seq<u8>)>>, cf: Cf)
    ensures
        surveyed(store, cf) matches Ok(line) ==> store.dom().contains(cf.name_chars()) && shows(
            line,
            cf,
            store[cf.name_chars()],
        ),
{
    let rows = store[cf.name_chars()];
    lemma_be_limits();
    if rows.len() > 0 {
        lemma_be_value_bound(rows[0].0);
        lemma_be_value_bound(rows.last().0);
    }
}

/// A dry run that comes to its end prints its heading, then one line for each family, in their order,
/// that shows it.
pub proof fn law_dry_run_shows_every_family(
    store: Map<Seq<char>, Seq<(Seq<u8>, Seq<u8>)>>,
    families: Seq<Cf>,
    k: int,
)
    requires
        survey_of(store, families).1 is None,
        0 <= k < families.len(),
    ensures
        ({
            let lines = survey_of(store, families).0;
            &&& lines.len() == families.len() + 1
            &&& lines[0] == survey_line("family"@, "floor"@, "tip"@)
            &&& store.dom().contains(families[k].name_chars())
            &&& shows(lines[k + 1], families[k], store[families[k].name_chars()])
        }),
    decreases families.len(),
{
    let front = families.drop_last();
    lemma_surveyed(store, families.last());
    let before = survey_of(store, front).0;
    assert(survey_of(store, front).1 is None);
    assert(survey_of(store, families).0 == before.push(surveyed(store, families.last())->Ok_0));
    if front.len() == 0 {
        assert(before.len() == 1 && before[0] == survey_line("family"@, "floor"@, "tip"@));
    }
    if front.len() > 0 {
        law_dry_run_shows_every_family(
            store,
            front,
            if k < front.len() {
                k
            } else {
                0
            },
        );
        if k < front.len() {
            assert(front[k] == families[k]);
            assert(survey_of(store, families).0[k + 1] == before[k + 1]);
        }
    }
}

/// A dry run that a family refuses stops there: it has printed a line for each family before it.
pub proof fn law_dry_run_stops_at_a_refusal(
    store: Map<Seq<char>, Seq<(Seq<u8>, Seq<u8>)>>,
    families: Seq<Cf>,
) -> (k: int)
    requires
        survey_of(store, families).1 is Some,
    ensures
        0 <= k < families.len(),
        surveyed(store, families[k]) == Err::<Seq<char>, StoreError>(
            survey_of(store, families).1->0,
        ),
        survey_of(store, families).0.len() == k + 1,
        survey_of(store, families.take(k)).1 is None,
        survey_of(store, families).0 == survey_of(store, families.take(k)).0,
    decreases families.len(),
{
    let front = families.drop_last();
    if survey_of(store, front).1 is Some {
        let k = law_dry_run_stops_at_a_refusal(store, front);
        assert(front.take(k) =~= families.take(k));
        k
    } else {
        if front.len() > 0 {
            law_dry_run_shows_every_family(store, front, 0);
        }
        assert(families.take(front.len() as int) =~= front);
        front.len() as int
    }
}

/// A gap is told by its family and its first and last lost index, both of them lost.
pub proof fn law_gap_tells_what_was_lost(gap: Gap, last: u64)
    requires
        gap.node_floor == last + 1,
    ensures
        gap.shown() == gap.cf.name_chars() + ": entries "@ + decimal(gap.expected_from as nat)
            + ".."@ + decimal(last as nat) + " were deleted before this archive copied them"@,
{
}

/// What was copied in all is the sum over the families, whichever way they are split.
pub proof fn law_total_is_the_sum(front: Seq<(Cf, u64)>, back: Seq<(Cf, u64)>, cf: Cf, n: u64)
    ensures
        sum_of(front + back) == sum_of(front) + sum_of(back),
        sum_of(seq![(cf, n)]) == n,
        sum_of(Seq::empty()) == 0,
    decreases back.len(),
{
    if back.len() == 0 {
        assert(front + back =~= front);
    } else {
        law_total_is_the_sum(front, back.drop_last(), cf, n);
        assert((front + back).drop_last() =~= front + back.drop_last());
    }
    assert(seq![(cf, n)].drop_last() =~= Seq::empty());
    assert(sum_of(seq![(cf, n)].drop_last()) == 0);
}

} // verus!
