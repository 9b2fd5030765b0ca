//! What each panel shows, line by line, and in which colour.

use crate::text::{decimal, duration, grouped, left_aligned, right_aligned, signed};
use crate::top::clock::{seconds_between, shown_stamp, Timestamp};
use crate::top::config::Config;
use crate::top::ratio::law_thresholds_are_exact_on_ordinary_counts;
use crate::top::screens::{
    capacity_of, consensus_shown, event_line, gauge_tone, head_row, headroom_tone, history_shown,
    known_tips, raise_before, ready_tone, skew_among, skew_tone, slow_row, slow_rows, slow_tone, source_row,
    sources_rows, strip_shown, throughput_shown, Consensus, Throughput,
};
use crate::top::snapshot::{raised_at, slowest_shown, sources_shown};
use crate::top::snapshot_laws::{last_raise, law_raised_by_the_last_raise, raises};
use crate::top::spans::{lines_view, PieceView, SpanView, Tone};
use crate::top::state::{AlertEvent, App, HeadState, HeadStats, RateStats, Reading};
use crate::top::ui::{
    age_tone, alert_line, alerts_shown, any_crit, block_lines, confirmation_shown, deadline_tone,
    head_shown_as, head_stats_lines, stack_lines, status_tone,
};
use vstd::prelude::*;

verus! {

/// Whether a span is this text in this style.
pub open spec fn reads(span: SpanView, text: Seq<char>, tone: Tone, bold: bool) -> bool {
    &&& span.pieces.len() == 1
    &&& span.pieces[0] == PieceView::Text(text)
    &&& span.tone == tone
    &&& span.bold == bold
}

/// Whether a line begins with a label: dim text, eleven characters wide.
pub open spec fn entitled(line: Seq<SpanView>, name: Seq<char>) -> bool {
    line.len() > 0 && reads(line[0], left_aligned(name, 11), Tone::Dim, false)
}

/// An age is green, yellow from the first threshold on and red from the second; it never turns
/// back as it grows.
pub proof fn law_ages_redden(age: i64, older: i64, warn: i64, crit: i64)
    ensures
        age_tone(age, warn, crit) == Tone::Red <==> age >= crit,
        age_tone(age, warn, crit) == Tone::Yellow <==> warn <= age < crit,
        age_tone(age, warn, crit) == Tone::Green <==> age < warn && age < crit,
        age <= older && age_tone(age, warn, crit) == Tone::Red ==> age_tone(older, warn, crit)
            == Tone::Red,
{
}

/// A deadline is green, yellow from the warning on and red from the critical threshold on.
pub proof fn law_deadlines_redden(left: int, cfg: Config)
    ensures
        deadline_tone(left, cfg) == Tone::Red <==> left <= cfg.fallback_crit_secs,
        deadline_tone(left, cfg) == Tone::Yellow <==> cfg.fallback_crit_secs < left
            <= cfg.fallback_warn_secs,
        deadline_tone(left, cfg) == Tone::Green <==> left > cfg.fallback_crit_secs && left
            > cfg.fallback_warn_secs,
{
}

/// Heads that differ by more than 100 blocks are red, by more than ten yellow, and otherwise green.
pub proof fn law_skew_reddens(skew: u64)
    ensures
        skew_tone(Some(skew)) == Tone::Red <==> skew > 100,
        skew_tone(Some(skew)) == Tone::Yellow <==> 10 < skew <= 100,
        skew_tone(Some(skew)) == Tone::Green <==> skew <= 10,
        skew_tone(None) == Tone::Green,
{
}

/// A block that took a second is red, one that took a fifth of one yellow, a faster one green.
pub proof fn law_slow_blocks_redden(millis: u64)
    ensures
        slow_tone(millis) == Tone::Red <==> millis >= 1000,
        slow_tone(millis) == Tone::Yellow <==> 200 <= millis < 1000,
        slow_tone(millis) == Tone::Green <==> millis < 200,
{
}

/// A hard-confirmed block is green, a soft-confirmed one cyan, any other yellow.
pub proof fn law_statuses_have_their_colours(status: Seq<char>)
    ensures
        status_tone(status) == Tone::Green <==> status == "HARD_CONFIRMED"@,
        status_tone(status) == Tone::Cyan <==> status == "SOFT_CONFIRMED"@,
        status_tone(status) == Tone::Yellow <==> status != "HARD_CONFIRMED"@ && status
            != "SOFT_CONFIRMED"@,
{
    reveal_strlit("HARD_CONFIRMED");
    reveal_strlit("SOFT_CONFIRMED");
    assert("HARD_CONFIRMED"@[0] != "SOFT_CONFIRMED"@[0]);
}

/// A head that does not answer is red; one that does and is active is green; any other is yellow.
pub proof fn law_readiness_has_its_colour(h: HeadState)
    ensures
        ready_tone(h) == Tone::Red <==> h.reachable == Some(false),
        ready_tone(h) == Tone::Green <==> h.reachable == Some(true) && (h.ready matches Some(ready)
            && ready@ == "active"@),
        ready_tone(h) == Tone::Red || ready_tone(h) == Tone::Green || ready_tone(h) == Tone::Yellow,
{
    reveal_strlit("active");
    reveal_strlit("?");
    assert("?"@.len() != "active"@.len());
}

/// A gauge is red above nine tenths of its capacity, yellow above six, and otherwise green.
pub proof fn law_gauges_redden(filled: u64, capacity: int)
    requires
        filled < 1_125_899_906_842_624,
        1 <= capacity < 1_125_899_906_842_624,
    ensures
        gauge_tone(filled, capacity) == Tone::Red <==> 10 * filled > 9 * capacity,
        gauge_tone(filled, capacity) == Tone::Yellow <==> 6 * capacity < 10 * filled <= 9 * capacity,
        gauge_tone(filled, capacity) == Tone::Green <==> 10 * filled <= 6 * capacity,
{
    law_thresholds_are_exact_on_ordinary_counts(filled as nat, capacity as nat);
}

/// Headroom is red below a tenth of the most ever seen, once there is such a baseline.
pub proof fn law_low_headroom_is_red(h: HeadState, s: HeadStats)
    requires
        h.max_headroom < 1_125_899_906_842_624,
        s.sequencer_headroom < 1_125_899_906_842_624,
    ensures
        headroom_tone(h, s) == Tone::Red <==> h.max_headroom > 0 && 10 * s.sequencer_headroom
            < h.max_headroom,
        headroom_tone(h, s) == Tone::Red || headroom_tone(h, s) == Tone::Text,
{
    if h.max_headroom > 0 && s.sequencer_headroom >= 0 {
        law_thresholds_are_exact_on_ordinary_counts(
            s.sequencer_headroom as nat,
            h.max_headroom as nat,
        );
    }
}

/// The mempool's capacity is the largest of one, the most headroom ever seen, and what is in it with
/// what is left.
pub proof fn law_capacity_is_the_largest(h: HeadState, s: HeadStats)
    ensures
        ({
            let capacity = capacity_of(h, s);
            let window = s.sequencer_headroom + s.mempool_size;
            &&& capacity >= 1 && capacity >= h.max_headroom && capacity >= window
            &&& capacity == 1 || capacity == h.max_headroom || capacity == window
        }),
{
}

proof fn lemma_known_tips(heads: Seq<HeadState>)
    ensures
        forall|i: int|
            0 <= i < heads.len() && (#[trigger] heads[i]).latest_block is Some ==> known_tips(
                heads,
            ).contains(heads[i].latest_block->0.number),
        forall|n: u64| #[trigger]
            known_tips(heads).contains(n) ==> exists|i: int|
                0 <= i < heads.len() && (#[trigger] heads[i]).latest_block is Some
                    && heads[i].latest_block->0.number == n,
        known_tips(heads).len() == 0 ==> forall|i: int|
            0 <= i < heads.len() ==> (#[trigger] heads[i]).latest_block is None,
        known_tips(heads).len() > 1 <==> exists|i: int, j: int|
            0 <= i < j < heads.len() && (#[trigger] heads[i]).latest_block is Some && (
            #[trigger] heads[j]).latest_block is Some,
    decreases heads.len(),
{
    if heads.len() > 0 {
        let front = heads.drop_last();
        lemma_known_tips(front);
        let before = known_tips(front);
        let tips = known_tips(heads);
        assert(heads[heads.len() - 1] == heads.last());
        assert forall|i: int| 0 <= i < front.len() implies front[i] == #[trigger] heads[i] by {}
        assert forall|i: int|
            0 <= i < heads.len() && (#[trigger] heads[i]).latest_block is Some implies tips.contains(
            heads[i].latest_block->0.number,
        ) by {
            let n = heads[i].latest_block->0.number;
            if i < front.len() {
                assert(front[i] == heads[i]);
                let k = choose|k: int| 0 <= k < before.len() && before[k] == n;
                assert(tips[k] == n);
            } else {
                assert(tips[tips.len() - 1] == n);
            }
        }
        assert forall|n: u64| #[trigger] tips.contains(n) implies exists|i: int|
            0 <= i < heads.len() && (#[trigger] heads[i]).latest_block is Some
                && heads[i].latest_block->0.number == n by {
            let k = choose|k: int| 0 <= k < tips.len() && tips[k] == n;
            if k < before.len() {
                assert(before[k] == n);
                assert(before.contains(n));
                let i = choose|i: int|
                    0 <= i < front.len() && (#[trigger] front[i]).latest_block is Some
                        && front[i].latest_block->0.number == n;
                assert(heads[i] == front[i]);
            }
        }
        if tips.len() > 1 {
            if before.len() > 1 {
                let (i, j) = choose|i: int, j: int|
                    0 <= i < j < front.len() && (#[trigger] front[i]).latest_block is Some && (
                    #[trigger] front[j]).latest_block is Some;
                assert(heads[i] == front[i] && heads[j] == front[j]);
            } else {
                assert(before.contains(before[0]));
                let i = choose|i: int|
                    0 <= i < front.len() && (#[trigger] front[i]).latest_block is Some
                        && front[i].latest_block->0.number == before[0];
                assert(heads[i] == front[i]);
                assert(heads[heads.len() - 1].latest_block is Some);
            }
        }
        if exists|i: int, j: int|
            0 <= i < j < heads.len() && (#[trigger] heads[i]).latest_block is Some && (
            #[trigger] heads[j]).latest_block is Some {
            let (i, j) = choose|i: int, j: int|
                0 <= i < j < heads.len() && (#[trigger] heads[i]).latest_block is Some && (
                #[trigger] heads[j]).latest_block is Some;
            assert(front[i] == heads[i]);
            if j < front.len() {
                assert(front[j] == heads[j]);
            } else {
                assert(before.contains(front[i].latest_block->0.number));
                assert(before.len() > 0);
            }
        }
    }
}

/// The skew is there as soon as two heads know a block, and is the farthest that two of them are
/// apart.
pub proof fn law_skew_is_the_farthest_apart(heads: Seq<HeadState>, skew: Option<u64>)
    requires
        skew_among(heads, skew),
    ensures
        skew is Some <==> exists|i: int, j: int|
            0 <= i < j < heads.len() && (#[trigger] heads[i]).latest_block is Some && (
            #[trigger] heads[j]).latest_block is Some,
        skew matches Some(n) ==> {
            &&& forall|i: int, j: int|
                0 <= i < heads.len() && 0 <= j < heads.len() && (
                #[trigger] heads[i]).latest_block is Some && (#[trigger] heads[j]).latest_block
                    is Some ==> heads[i].latest_block->0.number - heads[j].latest_block->0.number
                    <= n
            &&& exists|i: int, j: int|
                0 <= i < heads.len() && 0 <= j < heads.len() && (
                #[trigger] heads[i]).latest_block is Some && (#[trigger] heads[j]).latest_block
                    is Some && heads[i].latest_block->0.number - heads[j].latest_block->0.number
                    == n
        },
{
    lemma_known_tips(heads);
    let tips = known_tips(heads);
    if let Some(n) = skew {
        let (high, low) = choose|i: int, j: int|
            {
                &&& 0 <= i < tips.len()
                &&& 0 <= j < tips.len()
                &&& forall|k: int| 0 <= k < tips.len() ==> tips[j] <= #[trigger] tips[k] <= tips[i]
                &&& n == #[trigger] tips[i] - #[trigger] tips[j]
            };
        assert(tips.contains(tips[high]) && tips.contains(tips[low]));
        assert forall|i: int, j: int|
            0 <= i < heads.len() && 0 <= j < heads.len() && (#[trigger] heads[i]).latest_block
                is Some && (#[trigger] heads[j]).latest_block is Some implies heads[i].latest_block->0.number
            - heads[j].latest_block->0.number <= n by {
            let a = choose|k: int|
                0 <= k < tips.len() && tips[k] == heads[i].latest_block->0.number;
            let b = choose|k: int|
                0 <= k < tips.len() && tips[k] == heads[j].latest_block->0.number;
            assert(tips[a] <= tips[high] && tips[low] <= tips[b]);
        }
    }
}

/// The strip has a row for each head, in their order: a mark on the selected one, its name, its newest
/// block, its newest hard-confirmed block, its request rate, and what it says of its readiness; a dash
/// for what is not known.
pub proof fn law_strip_shows_every_head(app: App, skew: Option<u64>, i: int)
    requires
        0 <= i < app.heads@.len(),
    ensures
        ({
            let panel = strip_shown(app, skew);
            let row = panel.lines[i];
            let h = app.heads@[i];
            &&& panel.lines.len() == app.heads@.len()
            &&& panel.accent == skew_tone(skew)
            &&& panel.title == (if skew is Some {
                "HEADS · skew "@ + grouped(skew->0 as nat) + " blk"@
            } else {
                "HEADS"@
            })
            &&& row.len() == 6
            &&& i == app.selected ==> reads(row[0], "▶"@, Tone::Pink, false)
            &&& i != app.selected ==> reads(row[0], " "@, Tone::Pink, false)
            &&& reads(row[1], h.name@, Tone::Cyan, false)
            &&& h.latest_block is Some ==> reads(
                row[2],
                "#"@ + grouped(h.latest_block->0.number as nat),
                Tone::Text,
                false,
            )
            &&& h.latest_block is None ==> reads(row[2], "—"@, Tone::Text, false)
            &&& h.hard_tip is Some ==> reads(
                row[3],
                "#"@ + grouped(h.hard_tip->0 as nat),
                Tone::Text,
                false,
            )
            &&& h.hard_tip is None ==> reads(row[3], "—"@, Tone::Text, false)
            &&& h.stats is Some ==> row[4].pieces == seq![
                PieceView::Tenths(h.stats->0.local_requests.rate.now),
            ]
            &&& h.stats is None ==> reads(row[4], "—"@, Tone::Text, false)
            &&& h.ready is Some ==> reads(row[5], h.ready->0@, ready_tone(h), false)
            &&& h.ready is None ==> reads(row[5], "?"@, ready_tone(h), false)
        }),
{
    assert(strip_shown(app, skew).lines[i] == head_row(app.heads@[i], i == app.selected));
}

/// Whether a span shows a rate as it stands, then over a minute, over five and over fifteen.
pub open spec fn shows_rate(span: SpanView, rate: RateStats) -> bool {
    &&& span.pieces.len() == 7
    &&& span.pieces[0] == PieceView::PaddedTenths(rate.now)
    &&& span.pieces[1] == PieceView::Text("  1m "@)
    &&& span.pieces[2] == PieceView::PaddedTenths(rate.load1m)
    &&& span.pieces[3] == PieceView::Text(" · 5m "@)
    &&& span.pieces[4] == PieceView::PaddedTenths(rate.load5m)
    &&& span.pieces[5] == PieceView::Text(" · 15m "@)
    &&& span.pieces[6] == PieceView::PaddedTenths(rate.load15m)
}

/// Whether samples are the newest of a history that fit a width, in their order.
pub open spec fn newest_of(samples: Seq<u64>, history: Seq<u64>, width: nat) -> bool {
    &&& history.len() <= width ==> samples.len() == history.len()
    &&& history.len() > width ==> samples.len() == width
    &&& forall|k: int|
        0 <= k < samples.len() ==> #[trigger] samples[k] == history[history.len() - samples.len()
            + k]
}

/// The throughput rows: requests with the head's own rates, blocks with the block rates, and the
/// mempool's size, each with its own history.
pub proof fn law_throughput_shows_its_rates(
    h: HeadState,
    rounded_rate: u64,
    width: nat,
    t: Throughput,
)
    requires
        throughput_shown(h, rounded_rate, width, t),
        h.stats is Some,
    ensures
        ({
            let s = h.stats->0;
            let rows = t.rows@;
            &&& t.headline@ == grouped(rounded_rate as nat)
            &&& rows.len() == 3
            &&& reads(rows[0].label@, left_aligned("req/s"@, 11), Tone::Dim, false)
            &&& shows_rate(rows[0].text@, s.local_requests.rate)
            &&& newest_of(rows[0].samples@, h.req_hist@, width)
            &&& rows[0].tone == Tone::Cyan
            &&& reads(rows[1].label@, left_aligned("blocks/s"@, 11), Tone::Dim, false)
            &&& shows_rate(rows[1].text@, s.blocks.block_rate)
            &&& newest_of(rows[1].samples@, h.blk_hist_x10@, width)
            &&& rows[1].tone == Tone::Pink
            &&& reads(rows[2].label@, left_aligned("mempool"@, 11), Tone::Dim, false)
            &&& s.mempool_size >= 0 ==> reads(
                rows[2].text@,
                right_aligned(grouped(s.mempool_size as nat), 7),
                Tone::Text,
                false,
            )
            &&& s.mempool_size < 0 ==> reads(
                rows[2].text@,
                right_aligned(grouped(0), 7),
                Tone::Text,
                false,
            )
            &&& newest_of(rows[2].samples@, h.mempool_hist@, width)
            &&& rows[2].tone == Tone::Yellow
        }),
{
}

/// The consensus panel: a gauge of the mempool over its capacity, the headroom left with the leader's
/// drain, the rejections for screening and for backpressure, the three timings, the blocks, and the
/// requests accepted; each number under its own word.
pub proof fn law_consensus_shows_its_numbers(h: HeadState, s: HeadStats, c: Consensus)
    requires
        consensus_shown(h, s, c),
    ensures
        s.mempool_size >= 0 ==> c.gauge.filled == s.mempool_size,
        s.mempool_size < 0 ==> c.gauge.filled == 0,
        c.gauge.capacity == capacity_of(h, s),
        c.gauge.label@ == grouped(c.gauge.filled as nat) + " / "@ + grouped(
            c.gauge.capacity as nat,
        ),
        c.gauge.tone == gauge_tone(c.gauge.filled, capacity_of(h, s)),
        c.headroom@.len() == 3,
        entitled(c.headroom@, "headroom"@),
        s.sequencer_headroom >= 0 ==> reads(
            c.headroom@[1],
            grouped(s.sequencer_headroom as nat),
            headroom_tone(h, s),
            true,
        ),
        s.sequencer_headroom < 0 ==> reads(
            c.headroom@[1],
            grouped(0),
            headroom_tone(h, s),
            true,
        ),
        reads(
            c.headroom@[2],
            "  leader drain "@ + signed(s.leader_mempool_drain as int),
            Tone::Dim,
            false,
        ),
        c.lines@.len() == 4,
        c.lines@[0]@.len() == 2 && entitled(c.lines@[0]@, "rejects"@),
        reads(
            c.lines@[0]@[1],
            "screening "@ + grouped(s.local_requests.rejected_screening as nat)
                + " · backpressure "@ + grouped(s.local_requests.rejected_backpressure as nat),
            if s.local_requests.rejected_backpressure == 0 {
                Tone::Text
            } else {
                Tone::Yellow
            },
            false,
        ),
        c.lines@[1]@.len() == 2 && entitled(c.lines@[1]@, "timings"@),
        c.lines@[1]@[1].pieces == seq![
            PieceView::Text("lead "@),
            PieceView::Whole(s.block_timings.lead.avg_millis),
            PieceView::Text("ms · replay "@),
            PieceView::Whole(s.block_timings.replay.avg_millis),
            PieceView::Text("ms · soft "@),
            PieceView::Whole(s.block_timings.soft_consensus.avg_millis),
            PieceView::Text("ms"@),
        ],
        c.lines@[2]@.len() == 2 && entitled(c.lines@[2]@, "blocks"@),
        c.lines@[2]@[1].pieces == seq![
            PieceView::Text(
                "minor "@ + grouped(s.blocks.minor as nat) + " · major "@ + grouped(
                    s.blocks.major as nat,
                ) + " · "@,
            ),
            PieceView::Tenths(s.blocks.avg_events),
            PieceView::Text(" req/blk (max "@ + grouped(s.blocks.max_events as nat) + ")"@),
        ],
        c.lines@[3]@.len() == 2 && entitled(c.lines@[3]@, "accepted"@),
        reads(
            c.lines@[3]@[1],
            grouped(s.local_requests.total as nat) + " local requests"@,
            Tone::Text,
            false,
        ),
{
    let lines = lines_view(c.lines@);
    assert(lines.len() == 4);
    assert(lines[0] == c.lines@[0]@ && lines[1] == c.lines@[1]@);
    assert(lines[2] == c.lines@[2]@ && lines[3] == c.lines@[3]@);
}

/// Whether a span shows one reading with one decimal.
pub open spec fn shows_tenths(span: SpanView, reading: Reading) -> bool {
    span.pieces.len() == 1 && span.pieces[0] == PieceView::Tenths(reading)
}

/// The rows of request sources: the head's own first, then each peer's by its number, live where it
/// sent anything within a minute and idle otherwise; each with its total, its rate now, over a minute
/// and over five.
pub proof fn law_source_rows_show_their_load(h: HeadState, k: int)
    requires
        h.stats is Some,
        0 <= k < h.stats->0.peer_requests@.len(),
    ensures
        ({
            let rows = sources_rows(h);
            let own = h.stats->0.local_requests;
            let peer = h.stats->0.peer_requests@[k];
            &&& rows.len() == 1 + h.stats->0.peer_requests@.len()
            &&& rows[0].len() == 6
            &&& reads(rows[0][0], "local"@, Tone::Cyan, false)
            &&& reads(rows[0][1], grouped(own.total as nat), Tone::Text, false)
            &&& shows_tenths(rows[0][2], own.rate.now)
            &&& shows_tenths(rows[0][3], own.rate.load1m)
            &&& shows_tenths(rows[0][4], own.rate.load5m)
            &&& reads(rows[0][5], "● self"@, Tone::Cyan, false)
            &&& rows[k + 1].len() == 6
            &&& reads(rows[k + 1][0], "peer "@ + signed(peer.peer as int), Tone::Text, false)
            &&& reads(rows[k + 1][1], grouped(peer.total as nat), Tone::Text, false)
            &&& shows_tenths(rows[k + 1][2], peer.rate.now)
            &&& shows_tenths(rows[k + 1][3], peer.rate.load1m)
            &&& shows_tenths(rows[k + 1][4], peer.rate.load5m)
            &&& if 0 < peer.rate.load1m.bits <= 0x7ff0_0000_0000_0000 {
                reads(rows[k + 1][5], "● live"@, Tone::Green, false)
            } else {
                reads(rows[k + 1][5], "○ idle"@, Tone::Dim, false)
            }
        }),
{
    let s = h.stats->0;
    assert(sources_rows(h)[0] == source_row(sources_shown(s)[0]));
    assert(sources_rows(h)[k + 1] == source_row(sources_shown(s)[k + 1]));
}

/// The rows of slow blocks: the first eight at most, each with its number, its time and its requests.
pub proof fn law_slow_rows_show_their_blocks(h: HeadState, k: int)
    requires
        h.stats is Some,
        0 <= k < slow_rows(h).len(),
    ensures
        ({
            let led = h.stats->0.block_timings.lead.top@;
            let row = slow_rows(h)[k];
            &&& led.len() <= 8 ==> slow_rows(h).len() == led.len()
            &&& led.len() > 8 ==> slow_rows(h).len() == 8
            &&& row.len() == 3
            &&& reads(row[0], "#"@ + grouped(led[k].block_number as nat), Tone::Text, false)
            &&& reads(
                row[1],
                grouped(led[k].millis as nat) + "ms"@,
                slow_tone(led[k].millis),
                false,
            )
            &&& reads(row[2], grouped(led[k].requests as nat) + " reqs"@, Tone::Text, false)
        }),
{
    assert(slow_rows(h)[k] == slow_row(slowest_shown(h.stats->0)[k]));
}

/// The history has a line for each event, the newest first: when, what it was and what it said, a
/// clearing in green, a critical raise in red, any other in yellow; behind a clearing, how long the
/// alert lasted since the nearest earlier event that raised it, where there is one.
pub proof fn law_history_shows_every_event(log: Seq<AlertEvent>, i: int)
    requires
        0 <= i < log.len(),
    ensures
        ({
            let panel = history_shown(log);
            let line = panel.lines[log.len() - 1 - i];
            let e = log[i];
            let tone = if e.cleared {
                Tone::Green
            } else if e.crit {
                Tone::Red
            } else {
                Tone::Yellow
            };
            &&& panel.lines.len() == log.len()
            &&& panel.title == "ALERT HISTORY ("@ + decimal(log.len()) + ")"@
            &&& line.len() == 4
            &&& reads(line[0], shown_stamp(e.at_unix) + "  "@, Tone::Dim, false)
            &&& e.cleared ==> reads(line[1], "✓ cleared "@, tone, true)
            &&& !e.cleared && e.crit ==> reads(line[1], "✗ raised  "@, tone, true)
            &&& !e.cleared && !e.crit ==> reads(line[1], "! raised  "@, tone, true)
            &&& reads(line[2], e.text@, tone, false)
            &&& !e.cleared ==> reads(line[3], Seq::empty(), Tone::Dim, false)
            &&& e.cleared && never_raised(log.take(i), e.identity()) ==> reads(
                line[3],
                Seq::empty(),
                Tone::Dim,
                false,
            )
            &&& e.cleared && !never_raised(log.take(i), e.identity()) ==> exists|k: int|
                {
                    &&& #[trigger] last_raise(log.take(i), e.identity(), k)
                    &&& e.at_unix <= log[k].at_unix ==> reads(
                        line[3],
                        "  · lasted "@ + duration(0),
                        Tone::Dim,
                        false,
                    )
                    &&& 0 <= e.at_unix - log[k].at_unix <= i64::MAX ==> reads(
                        line[3],
                        "  · lasted "@ + duration(e.at_unix - log[k].at_unix),
                        Tone::Dim,
                        false,
                    )
                }
        }),
{
    let e = log[i];
    assert(history_shown(log).lines[log.len() - 1 - i] == event_line(log, i));
    law_raised_by_the_last_raise(log.take(i), e.identity());
    match raised_at(log.take(i), e.identity()) {
        Some(at) => {
            let k = choose|k: int| #[trigger]
                last_raise(log.take(i), e.identity(), k) && log.take(i)[k].at_unix == at;
            assert(raises(log.take(i)[k], e.identity()));
            assert(log.take(i)[k] == log[k]);
            assert(raise_before(log, i) == Some(at));
        },
        None => {},
    }
}

/// Whether no event of a log raised the alert of a key.
pub open spec fn never_raised(log: Seq<AlertEvent>, key: Seq<char>) -> bool {
    forall|j: int| 0 <= j < log.len() ==> !raises(#[trigger] log[j], key)
}

/// The alert strip: with no alert, all clear in green; otherwise how many there are, the first four at
/// most, each marked and coloured by its rank, under red as soon as one of all is critical.
pub proof fn law_strip_shows_the_first_alerts(app: App, now: i64, i: int)
    ensures
        app.alerts@.len() == 0 ==> {
            let panel = alerts_shown(app, now);
            &&& panel.accent == Tone::Green
            &&& panel.lines.len() == 1 && panel.lines[0].len() == 1
            &&& reads(panel.lines[0][0], "✓ all clear"@, Tone::Green, true)
        },
        app.alerts@.len() > 0 ==> {
            let panel = alerts_shown(app, now);
            &&& panel.title == "ALERTS"@ + " ("@ + decimal(app.alerts@.len()) + ")"@
            &&& panel.accent == Tone::Red <==> exists|k: int|
                0 <= k < app.alerts@.len() && (#[trigger] app.alerts@[k]).crit
            &&& panel.accent == Tone::Red || panel.accent == Tone::Yellow
            &&& app.alerts@.len() <= 4 ==> panel.lines.len() == app.alerts@.len()
            &&& app.alerts@.len() > 4 ==> panel.lines.len() == 4
        },
        0 <= i < app.alerts@.len() && i < 4 ==> {
            let line = alerts_shown(app, now).lines[i];
            let a = app.alerts@[i];
            &&& line.len() == 3
            &&& a.crit ==> reads(line[0], "✗ "@, Tone::Red, true) && reads(
                line[1],
                a.text@,
                Tone::Red,
                false,
            )
            &&& !a.crit ==> reads(line[0], "! "@, Tone::Yellow, true) && reads(
                line[1],
                a.text@,
                Tone::Yellow,
                false,
            )
            &&& raised_at(app.alert_log@, a.key@) is None ==> reads(
                line[2],
                Seq::empty(),
                Tone::Dim,
                false,
            )
            &&& raised_at(app.alert_log@, a.key@) matches Some(at) ==> {
                &&& now - at < 60 ==> reads(line[2], Seq::empty(), Tone::Dim, false)
                &&& 60 <= now - at <= i64::MAX ==> reads(
                    line[2],
                    "  · for "@ + duration(now - at),
                    Tone::Dim,
                    false,
                )
            }
        },
{
    assert(any_crit(app.alerts@) <==> exists|k: int|
        0 <= k < app.alerts@.len() && (#[trigger] app.alerts@[k]).crit);
    if 0 <= i < app.alerts@.len() && i < 4 {
        assert(alerts_shown(app, now).lines[i] == alert_line(
            app.alerts@[i],
            app.alert_log@,
            now,
        ));
    }
}

/// A head's own panel on its newest block: its number and type, its version, its status, how far off
/// its fallback window is where it has one, and behind that when a major block is forced, where one
/// is.
pub proof fn law_head_panel_shows_the_newest_block(h: HeadState, cfg: Config, now: Timestamp)
    requires
        h.latest_block is Some,
    ensures
        ({
            let b = h.latest_block->0;
            let panel = head_shown_as(h, cfg, now);
            let lines = panel.lines;
            let left = seconds_between(b.fallback_at->0@, now@);
            let forced = if b.fallback_at is Some {
                lines[4]
            } else {
                lines[3]
            };
            &&& panel.title == "HEAD · "@ + h.name@
            &&& lines.len() == 3 + (if b.fallback_at is Some {
                1int
            } else {
                0
            }) + (if b.forced_major_at is Some {
                1int
            } else {
                0
            }) + (if h.stats is Some {
                3int
            } else {
                0
            })
            &&& lines[0].len() == 3 && entitled(lines[0], "block"@)
            &&& reads(lines[0][1], "#"@ + grouped(b.number as nat), Tone::Text, true)
            &&& reads(lines[0][2], " ("@ + b.block_type@ + ")"@, Tone::Dim, false)
            &&& lines[1].len() == 2 && entitled(lines[1], "version"@)
            &&& reads(
                lines[1][1],
                signed(b.version_major as int) + "."@ + signed(b.version_minor as int),
                Tone::Pink,
                true,
            )
            &&& lines[2].len() == 2 && entitled(lines[2], "status"@)
            &&& reads(lines[2][1], b.status@, status_tone(b.status@), true)
            &&& b.fallback_at is Some ==> lines[3].len() == 2 && entitled(lines[3], "fallback"@)
                && reads(lines[3][1], "in "@ + duration(left), deadline_tone(left, cfg), true)
            &&& b.forced_major_at is Some ==> forced.len() == 2 && entitled(forced, "forced maj"@)
                && reads(
                forced[1],
                "in "@ + duration(seconds_between(b.forced_major_at->0@, now@)),
                Tone::Text,
                false,
            )
        }),
{
    let lines = head_shown_as(h, cfg, now).lines;
    let own = block_lines(h, cfg, now);
    assert(forall|k: int| 0 <= k < own.len() ==> lines[k] == #[trigger] own[k]);
}

/// A head's own panel on its statistics, in the last three lines: its uptime, its request rates, and
/// its mempool with the headroom left.
pub proof fn law_head_panel_shows_the_statistics(h: HeadState, cfg: Config, now: Timestamp)
    requires
        h.stats is Some,
    ensures
        ({
            let s = h.stats->0;
            let lines = head_shown_as(h, cfg, now).lines;
            let held = if s.mempool_size < 0 {
                0
            } else {
                s.mempool_size as nat
            };
            let left = if s.sequencer_headroom < 0 {
                0
            } else {
                s.sequencer_headroom as nat
            };
            let up = lines[lines.len() - 3];
            let requests = lines[lines.len() - 2];
            let mempool = lines[lines.len() - 1];
            &&& lines.len() >= 4
            &&& up.len() == 2 && entitled(up, "uptime"@)
            &&& s.uptime_seconds <= i64::MAX ==> reads(
                up[1],
                duration(s.uptime_seconds as int),
                Tone::Text,
                false,
            )
            &&& s.uptime_seconds > i64::MAX ==> reads(up[1], "now"@, Tone::Text, false)
            &&& requests.len() == 2 && entitled(requests, "requests"@)
            &&& requests[1].pieces == seq![
                PieceView::Tenths(s.local_requests.rate.now),
                PieceView::Text("/s now · "@),
                PieceView::Tenths(s.local_requests.rate.load1m),
                PieceView::Text("/s 1m"@),
            ]
            &&& mempool.len() == 2 && entitled(mempool, "mempool"@)
            &&& reads(
                mempool[1],
                grouped(held) + " · headroom "@ + grouped(left),
                Tone::Text,
                false,
            )
        }),
{
    let own = block_lines(h, cfg, now);
    let stats = head_stats_lines(h);
    let lines = head_shown_as(h, cfg, now).lines;
    assert(lines[lines.len() - 3] == stats[0]);
    assert(lines[lines.len() - 2] == stats[1]);
    assert(lines[lines.len() - 1] == stats[2]);
}

/// The confirmation panel on blocks: the newest with its status, and the newest that is
/// hard-confirmed with how far it is behind, never less than nothing.
pub proof fn law_confirmation_shows_both_frontiers(h: HeadState)
    ensures
        ({
            let panel = confirmation_shown(h);
            let tip = panel.lines[0];
            let hard = panel.lines[1];
            &&& panel.lines.len() == 2 + (if h.stats is Some {
                3int
            } else {
                0
            })
            &&& entitled(tip, "tip blk"@)
            &&& h.latest_block is None ==> tip.len() == 2 && reads(tip[1], "—"@, Tone::Dim, false)
            &&& h.latest_block matches Some(b) ==> tip.len() == 3 && reads(
                tip[1],
                "#"@ + grouped(b.number as nat),
                Tone::Cyan,
                true,
            ) && reads(tip[2], "  "@ + b.status@, Tone::Dim, false)
            &&& entitled(hard, "hard blk"@)
            &&& h.hard_tip is None ==> hard.len() == 2 && reads(
                hard[1],
                "none hard-confirmed yet"@,
                Tone::Dim,
                false,
            )
            &&& h.hard_tip matches Some(n) ==> hard.len() == 3 && reads(
                hard[1],
                "#"@ + grouped(n as nat),
                Tone::Green,
                true,
            )
            &&& h.hard_tip is Some && h.latest_block is None ==> reads(
                hard[2],
                Seq::empty(),
                Tone::Dim,
                false,
            )
            &&& h.hard_tip is Some && h.latest_block is Some && h.latest_block->0.number
                >= h.hard_tip->0 ==> reads(
                hard[2],
                "  ("@ + grouped((h.latest_block->0.number - h.hard_tip->0) as nat)
                    + " behind tip)"@,
                Tone::Dim,
                false,
            )
            &&& h.hard_tip is Some && h.latest_block is Some && h.latest_block->0.number
                < h.hard_tip->0 ==> reads(
                hard[2],
                "  ("@ + grouped(0) + " behind tip)"@,
                Tone::Dim,
                false,
            )
        }),
{
}

/// The confirmation panel on stacks: how long ago the last hard confirmation was, yellow from ten
/// minutes on and red from thirty, with the last stack's number where there is one; the cadence; and
/// how long soft consensus takes.
pub proof fn law_confirmation_shows_the_stacks(h: HeadState)
    requires
        h.stats is Some,
    ensures
        ({
            let s = h.stats->0;
            let lines = confirmation_shown(h).lines;
            let age = s.stacks.seconds_since_last_hard_confirm;
            &&& lines[2].len() == 3 && entitled(lines[2], "last hard"@)
            &&& reads(
                lines[2][1],
                duration(age as int) + " ago"@,
                if age >= 1800 {
                    Tone::Red
                } else if age >= 600 {
                    Tone::Yellow
                } else {
                    Tone::Green
                },
                true,
            )
            &&& s.stacks.last_stack_number < 0 ==> reads(
                lines[2][2],
                "  no stacks yet"@,
                Tone::Dim,
                false,
            )
            &&& s.stacks.last_stack_number >= 0 ==> reads(
                lines[2][2],
                "  stack #"@ + decimal(s.stacks.last_stack_number as nat),
                Tone::Dim,
                false,
            )
            &&& lines[3].len() == 2 && entitled(lines[3], "cadence"@)
            &&& lines[3][1].pieces == seq![
                PieceView::Text("μ "@),
                PieceView::Whole(s.stacks.mean_inter_stack_gap_seconds),
                PieceView::Text("s · "@),
                PieceView::Whole(s.stacks.avg_blocks_absorbed),
                PieceView::Text(
                    " blk/stack (max "@ + decimal(s.stacks.max_blocks_absorbed as nat) + ")"@,
                ),
            ]
            &&& lines[4].len() == 2 && entitled(lines[4], "soft lat"@)
            &&& lines[4][1].pieces == seq![
                PieceView::Whole(s.block_timings.soft_consensus.avg_millis),
                PieceView::Text(
                    "ms avg over "@ + decimal(s.block_timings.soft_consensus.count as nat)
                        + " blocks"@,
                ),
            ]
        }),
{
    let s = h.stats->0;
    let lines = confirmation_shown(h).lines;
    let own = stack_lines(h);
    assert(lines[2] == own[0] && lines[3] == own[1] && lines[4] == own[2]);
}

/// What is shown where there is nothing to show: a rate of zero and no rows without statistics, one
/// line that waits without a block, and one that says so without events.
pub proof fn law_panels_without_data(
    h: HeadState,
    rounded_rate: u64,
    width: nat,
    t: Throughput,
    cfg: Config,
    now: Timestamp,
)
    ensures
        h.stats is None && throughput_shown(h, rounded_rate, width, t) ==> t.headline@ == grouped(0)
            && t.rows@.len() == 0,
        h.stats is None ==> sources_rows(h).len() == 0 && slow_rows(h).len() == 0,
        h.latest_block is None ==> {
            let lines = head_shown_as(h, cfg, now).lines;
            &&& lines.len() == 1 + (if h.stats is Some {
                3int
            } else {
                0
            })
            &&& lines[0].len() == 1
            &&& reads(lines[0][0], "waiting for block details…"@, Tone::Dim, false)
        },
        ({
            let panel = history_shown(Seq::empty());
            &&& panel.lines.len() == 1 && panel.lines[0].len() == 1
            &&& reads(panel.lines[0][0], "no alert transitions recorded yet"@, Tone::Dim, false)
        }),
{
}

/// Each panel has its own colour.
pub proof fn law_panels_have_their_colours(
    h: HeadState,
    cfg: Config,
    now: Timestamp,
    log: Seq<AlertEvent>,
)
    ensures
        head_shown_as(h, cfg, now).accent == Tone::Pink,
        head_shown_as(h, cfg, now).title == "HEAD · "@ + h.name@,
        confirmation_shown(h).accent == Tone::Green,
        confirmation_shown(h).title == "CONFIRMATION"@,
        history_shown(log).accent == Tone::Yellow,
{
}

} // verus!
