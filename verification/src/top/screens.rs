//! The panels of the two screens: the heads side by side, throughput, consensus and mempool,
//! request sources and slowest blocks; and the alert history.

use crate::text::{
    decimal, duration, grouped, push_decimal, push_duration, push_grouped, push_right_aligned,
    push_signed, right_aligned, same_text, signed,
};
use crate::top::alerts::{is_left_under, left_under};
use crate::top::clock::{shown_stamp, stamp_text};
use crate::top::poll::{at_least_zero, not_negative};
use crate::top::ratio::{
    is_over, over, NINE_TENTHS, SIX_TENTHS, TENTH, TENTHS_SCALE, TENTH_SCALE,
};
use crate::top::snapshot::{
    age, apart, find_raise, raised_at, secs_since, slowest_blocks, slowest_shown, source_rows,
    sources_shown, Source, SourceSnapshot,
};
use crate::top::spans::{
    add_line, dim, dimly, label, labelled, line_of_one, line_of_three, line_of_two, lines_view, mix,
    mixed, piece, pieces_view, plain, plainly, style, styled, val, valued, Line, Panel, PanelView,
    Piece, PieceView, Span, SpanView, Tone,
};
use crate::top::state::{
    newest, AlertEvent, App, BlockTiming, HeadState, HeadStats, RateStats, Reading, Ring,
};
use crate::top::ui::fmt_num;
use std::collections::VecDeque;
use vstd::prelude::*;
use vstd::std_specs::vecdeque::*;

verus! {

/// A number in groups of three behind a text.
fn with_num(before: &str, n: u64) -> (r: String)
    ensures
        r@ == before@ + grouped(n as nat),
{
    let mut out = before.to_owned();
    push_grouped(&mut out, n);
    out
}

fn six(a: Span, b: Span, c: Span, d: Span, e: Span, f: Span) -> (r: Line)
    ensures
        r@ == seq![a@, b@, c@, d@, e@, f@],
{
    let ghost view = seq![a@, b@, c@, d@, e@, f@];
    let mut spans: Vec<Span> = Vec::new();
    spans.push(a);
    spans.push(b);
    spans.push(c);
    spans.push(d);
    spans.push(e);
    spans.push(f);
    let line = Line { spans };
    assert(line@ =~= view);
    line
}

/// A reading on its own, with one decimal.
pub open spec fn tenths(reading: Reading) -> SpanView {
    mixed(seq![PieceView::Tenths(reading)])
}

fn show_tenths(reading: Reading) -> (r: Span)
    ensures
        r@ == tenths(reading),
{
    let mut pieces: Vec<Piece> = Vec::new();
    pieces.push(Piece::Tenths(reading));
    assert(pieces_view(pieces@) =~= seq![PieceView::Tenths(reading)]);
    mix(pieces)
}

// --- heads side by side ---

/// The newest blocks that are known, head by head.
pub open spec fn known_tips(heads: Seq<HeadState>) -> Seq<u64>
    decreases heads.len(),
{
    if heads.len() == 0 {
        Seq::empty()
    } else {
        let before = known_tips(heads.drop_last());
        match heads.last().latest_block {
            Some(b) => before.push(b.number),
            None => before,
        }
    }
}

/// Whether `n` is the distance between the highest and the lowest of some numbers.
pub open spec fn spread(numbers: Seq<u64>, n: u64) -> bool {
    exists|i: int, j: int|
        {
            &&& 0 <= i < numbers.len()
            &&& 0 <= j < numbers.len()
            &&& forall|k: int|
                0 <= k < numbers.len() ==> numbers[j] <= #[trigger] numbers[k] <= numbers[i]
            &&& n == #[trigger] numbers[i] - #[trigger] numbers[j]
        }
}

/// Whether a skew is what heads show: the spread of their newest blocks, where at least two are
/// known.
pub open spec fn skew_among(heads: Seq<HeadState>, skew: Option<u64>) -> bool {
    match skew {
        Some(n) => known_tips(heads).len() > 1 && spread(known_tips(heads), n),
        None => known_tips(heads).len() <= 1,
    }
}

/// How far the heads' newest blocks lie apart, where at least two are known.
pub fn tip_skew(app: &App) -> (r: Option<u64>)
    ensures
        skew_among(app.heads@, r),
{
    let mut tips: Vec<u64> = Vec::new();
    let mut i: usize = 0;
    assert(app.heads@.take(0) =~= Seq::<HeadState>::empty());
    while i < app.heads.len()
        invariant
            i <= app.heads@.len(),
            tips@ == known_tips(app.heads@.take(i as int)),
        decreases app.heads@.len() - i,
    {
        assert(app.heads@.take(i + 1).drop_last() =~= app.heads@.take(i as int));
        if let Some(b) = &app.heads[i].latest_block {
            tips.push(b.number);
        }
        i = i + 1;
    }
    assert(app.heads@.take(i as int) =~= app.heads@);
    if tips.len() <= 1 {
        return None;
    }
    let mut high: usize = 0;
    let mut low: usize = 0;
    let mut k: usize = 1;
    while k < tips.len()
        invariant
            1 <= k <= tips@.len(),
            high < k,
            low < k,
            forall|j: int|
                0 <= j < k ==> tips@[low as int] <= #[trigger] tips@[j] <= tips@[high as int],
        decreases tips@.len() - k,
    {
        if tips[k] > tips[high] {
            high = k;
        } else if tips[k] < tips[low] {
            low = k;
        }
        k = k + 1;
    }
    let skew = tips[high] - tips[low];
    assert(spread(tips@, skew));
    Some(skew)
}

pub open spec fn skew_tone(skew: Option<u64>) -> Tone {
    match skew {
        Some(s) => if s > 100 {
            Tone::Red
        } else if s > 10 {
            Tone::Yellow
        } else {
            Tone::Green
        },
        None => Tone::Green,
    }
}

pub open spec fn strip_title(skew: Option<u64>) -> Seq<char> {
    match skew {
        Some(s) => "HEADS · skew "@ + grouped(s as nat) + " blk"@,
        None => "HEADS"@,
    }
}

/// A block number, or a dash where none is known.
pub open spec fn block_or_dash(n: Option<u64>) -> Seq<char> {
    match n {
        Some(n) => "#"@ + grouped(n as nat),
        None => "—"@,
    }
}

pub open spec fn tip_number(h: HeadState) -> Option<u64> {
    match h.latest_block {
        Some(b) => Some(b.number),
        None => None,
    }
}

pub open spec fn ready_text(h: HeadState) -> Seq<char> {
    match h.ready {
        Some(ready) => ready@,
        None => "?"@,
    }
}

pub open spec fn ready_tone(h: HeadState) -> Tone {
    match h.reachable {
        Some(true) => if ready_text(h) == "active"@ {
            Tone::Green
        } else {
            Tone::Yellow
        },
        Some(false) => Tone::Red,
        None => Tone::Yellow,
    }
}

/// A head's row: whether it is selected, its name, its newest and its newest hard-confirmed block,
/// its request rate, and its readiness.
pub open spec fn head_row(h: HeadState, selected: bool) -> Seq<SpanView> {
    seq![
        styled(
            if selected {
                "▶"@
            } else {
                " "@
            },
            Tone::Pink,
            false,
        ),
        styled(h.name@, Tone::Cyan, false),
        plainly(block_or_dash(tip_number(h))),
        plainly(block_or_dash(h.hard_tip)),
        match h.stats {
            Some(s) => tenths(s.local_requests.rate.now),
            None => plainly("—"@),
        },
        styled(ready_text(h), ready_tone(h), false),
    ]
}

/// Every head side by side, as long as the skew is what the heads show.
pub open spec fn strip_shown(app: App, skew: Option<u64>) -> PanelView {
    PanelView {
        title: strip_title(skew),
        accent: skew_tone(skew),
        lines: Seq::new(
            app.heads@.len(),
            |i: int| head_row(app.heads@[i], i == app.selected),
        ),
    }
}

fn block_text(n: Option<u64>) -> (r: String)
    ensures
        r@ == block_or_dash(n),
{
    match n {
        Some(n) => with_num("#", n),
        None => "—".to_owned(),
    }
}

fn head_spans(h: &HeadState, selected: bool) -> (r: Line)
    ensures
        r@ == head_row(*h, selected),
{
    let mark = if selected {
        "▶"
    } else {
        " "
    };
    let tip = match &h.latest_block {
        Some(b) => Some(b.number),
        None => None,
    };
    let rate = match &h.stats {
        Some(s) => show_tenths(s.local_requests.rate.now),
        None => plain("—".to_owned()),
    };
    let ready = match &h.ready {
        Some(ready) => ready.clone(),
        None => "?".to_owned(),
    };
    let tone = match h.reachable {
        Some(true) => if same_text(ready.as_str(), "active") {
            Tone::Green
        } else {
            Tone::Yellow
        },
        Some(false) => Tone::Red,
        None => Tone::Yellow,
    };
    six(
        style(mark.to_owned(), Tone::Pink, false),
        style(h.name.clone(), Tone::Cyan, false),
        plain(block_text(tip)),
        plain(block_text(h.hard_tip)),
        rate,
        style(ready, tone, false),
    )
}

/// Every head side by side: the place where tip divergence between peers becomes visible without
/// cycling.
pub fn heads_panel(app: &App) -> (r: Panel)
    ensures
        exists|skew: Option<u64>| #[trigger] skew_among(app.heads@, skew) && r@ == strip_shown(
            *app,
            skew,
        ),
{
    let skew = tip_skew(app);
    let mut lines: Vec<Line> = Vec::new();
    let mut i: usize = 0;
    while i < app.heads.len()
        invariant
            i <= app.heads@.len(),
            lines_view(lines@) == strip_shown(*app, skew).lines.take(i as int),
        decreases app.heads@.len() - i,
    {
        let line = head_spans(&app.heads[i], i == app.selected);
        add_line(&mut lines, line);
        assert(lines_view(lines@) =~= strip_shown(*app, skew).lines.take(i + 1));
        i = i + 1;
    }
    assert(lines_view(lines@) =~= strip_shown(*app, skew).lines);
    let (title, accent) = match skew {
        Some(s) => {
            let mut title = with_num("HEADS · skew ", s);
            title.append(" blk");
            let tone = if s > 100 {
                Tone::Red
            } else if s > 10 {
                Tone::Yellow
            } else {
                Tone::Green
            };
            (title, tone)
        },
        None => ("HEADS".to_owned(), Tone::Green),
    };
    Panel { title, accent, lines }
}

// --- throughput ---

/// One row with a live graph: its label, its numbers, its colour, and the samples to draw.
pub struct SparkRow {
    pub label: Span,
    pub text: Span,
    pub tone: Tone,
    pub samples: Vec<u64>,
}

/// The throughput panel: a headline figure, and the rows where there are statistics.
pub struct Throughput {
    pub headline: String,
    pub rows: Vec<SparkRow>,
}

/// A rate as it stands and over a minute, five and fifteen.
pub open spec fn rate_pieces(r: RateStats) -> Seq<PieceView> {
    seq![
        PieceView::PaddedTenths(r.now),
        PieceView::Text("  1m "@),
        PieceView::PaddedTenths(r.load1m),
        PieceView::Text(" · 5m "@),
        PieceView::PaddedTenths(r.load5m),
        PieceView::Text(" · 15m "@),
        PieceView::PaddedTenths(r.load15m),
    ]
}

/// A rate as it stands and over a minute, five and fifteen.
pub fn rate_line(r: &RateStats) -> (out: Span)
    ensures
        out@ == mixed(rate_pieces(*r)),
{
    let mut pieces: Vec<Piece> = Vec::new();
    pieces.push(Piece::PaddedTenths(r.now));
    pieces.push(piece("  1m "));
    pieces.push(Piece::PaddedTenths(r.load1m));
    pieces.push(piece(" · 5m "));
    pieces.push(Piece::PaddedTenths(r.load5m));
    pieces.push(piece(" · 15m "));
    pieces.push(Piece::PaddedTenths(r.load15m));
    assert(pieces_view(pieces@) =~= rate_pieces(*r));
    mix(pieces)
}

/// Whether a row shows a label, its numbers, and the newest samples that fit its width. A graph
/// draws the first samples it is given, so one given more would be pinned to the oldest data
/// instead of scrolling.
pub open spec fn spark_shown(
    row: SparkRow,
    name: Seq<char>,
    text: SpanView,
    tone: Tone,
    history: Seq<u64>,
    width: nat,
) -> bool {
    &&& row.label@ == labelled(name)
    &&& row.text@ == text
    &&& row.tone == tone
    &&& row.samples@ == newest(history, width)
}

/// Whether a throughput panel shows a head's statistics: the head's own accepted-request rate as
/// the headline, 0 without statistics, and a row each for requests, blocks and the mempool.
pub open spec fn throughput_shown(
    h: HeadState,
    rounded_rate: u64,
    width: nat,
    t: Throughput,
) -> bool {
    match h.stats {
        Some(s) => {
            &&& t.headline@ == grouped(rounded_rate as nat)
            &&& t.rows@.len() == 3
            &&& spark_shown(
                t.rows@[0],
                "req/s"@,
                mixed(rate_pieces(s.local_requests.rate)),
                Tone::Cyan,
                h.req_hist@,
                width,
            )
            &&& spark_shown(
                t.rows@[1],
                "blocks/s"@,
                mixed(rate_pieces(s.blocks.block_rate)),
                Tone::Pink,
                h.blk_hist_x10@,
                width,
            )
            &&& spark_shown(
                t.rows@[2],
                "mempool"@,
                plainly(right_aligned(grouped(not_negative(s.mempool_size) as nat), 7)),
                Tone::Yellow,
                h.mempool_hist@,
                width,
            )
        },
        None => {
            &&& t.headline@ == grouped(0)
            &&& t.rows@.len() == 0
        },
    }
}

fn spark(name: &str, text: Span, ring: &Ring, tone: Tone, width: usize) -> (r: SparkRow)
    ensures
        spark_shown(r, name@, text@, tone, ring@, width as nat),
{
    SparkRow { label: label(name), text, tone, samples: ring.tail(width) }
}

/// The throughput panel, with its request rate rounded and graphs of a width.
pub fn throughput_panel(h: &HeadState, rounded_rate: u64, width: usize) -> (r: Throughput)
    ensures
        throughput_shown(*h, rounded_rate, width as nat, r),
{
    let mut rows: Vec<SparkRow> = Vec::new();
    match &h.stats {
        Some(s) => {
            rows.push(
                spark("req/s", rate_line(&s.local_requests.rate), &h.req_hist, Tone::Cyan, width),
            );
            rows.push(
                spark("blocks/s", rate_line(&s.blocks.block_rate), &h.blk_hist_x10, Tone::Pink, width),
            );
            let waiting = fmt_num(at_least_zero(s.mempool_size));
            let mut text = String::new();
            push_right_aligned(&mut text, waiting.as_str(), 7);
            assert(text@ =~= right_aligned(waiting@, 7));
            rows.push(spark("mempool", plain(text), &h.mempool_hist, Tone::Yellow, width));
            Throughput { headline: fmt_num(rounded_rate), rows }
        },
        None => Throughput { headline: fmt_num(0), rows },
    }
}

// --- consensus and mempool ---

/// How full the mempool is, and how full it may get.
pub struct Gauge {
    pub filled: u64,
    pub capacity: u64,
    pub label: String,
    pub tone: Tone,
}

/// The consensus panel, where there are statistics.
pub struct Consensus {
    pub gauge: Gauge,
    pub headroom: Line,
    pub lines: Vec<Line>,
}

/// Whether the window's size can be told in 64 bits.
pub open spec fn window_fits(s: HeadStats) -> bool {
    i64::MIN <= s.sequencer_headroom + s.mempool_size <= i64::MAX
}

/// What the mempool may hold: the most headroom ever seen, or what is in it and what is left, and
/// at least one.
pub open spec fn capacity_of(h: HeadState, s: HeadStats) -> int {
    let seen = h.max_headroom as int;
    let window = s.sequencer_headroom + s.mempool_size;
    let most = if window > seen {
        window
    } else {
        seen
    };
    if most < 1 {
        1
    } else {
        most
    }
}

/// The colour of a gauge: red above nine tenths, yellow above six.
pub open spec fn gauge_tone(filled: u64, capacity: int) -> Tone {
    if over(filled as nat, capacity as nat, NINE_TENTHS, TENTHS_SCALE) {
        Tone::Red
    } else if over(filled as nat, capacity as nat, SIX_TENTHS, TENTHS_SCALE) {
        Tone::Yellow
    } else {
        Tone::Green
    }
}

/// The colour of the headroom: red below a tenth of the most ever seen.
pub open spec fn headroom_tone(h: HeadState, s: HeadStats) -> Tone {
    if h.max_headroom > 0 && left_under(
        s.sequencer_headroom,
        h.max_headroom,
        TENTH,
        TENTH_SCALE,
    ) {
        Tone::Red
    } else {
        Tone::Text
    }
}

pub open spec fn headroom_line(h: HeadState, s: HeadStats) -> Seq<SpanView> {
    seq![
        labelled("headroom"@),
        valued(grouped(not_negative(s.sequencer_headroom) as nat), headroom_tone(h, s)),
        dimly("  leader drain "@ + signed(s.leader_mempool_drain as int)),
    ]
}

pub open spec fn consensus_lines(s: HeadStats) -> Seq<Seq<SpanView>> {
    seq![
        seq![
            labelled("rejects"@),
            styled(
                "screening "@ + grouped(s.local_requests.rejected_screening as nat)
                    + " · backpressure "@ + grouped(s.local_requests.rejected_backpressure as nat),
                if s.local_requests.rejected_backpressure > 0 {
                    Tone::Yellow
                } else {
                    Tone::Text
                },
                false,
            ),
        ],
        seq![
            labelled("timings"@),
            mixed(
                seq![
                    PieceView::Text("lead "@),
                    PieceView::Whole(s.block_timings.lead.avg_millis),
                    PieceView::Text("ms · replay "@),
                    PieceView::Whole(s.block_timings.replay.avg_millis),
                    PieceView::Text("ms · soft "@),
                    PieceView::Whole(s.block_timings.soft_consensus.avg_millis),
                    PieceView::Text("ms"@),
                ],
            ),
        ],
        seq![
            labelled("blocks"@),
            mixed(
                seq![
                    PieceView::Text(
                        "minor "@ + grouped(s.blocks.minor as nat) + " · major "@ + grouped(
                            s.blocks.major as nat,
                        ) + " · "@,
                    ),
                    PieceView::Tenths(s.blocks.avg_events),
                    PieceView::Text(
                        " req/blk (max "@ + grouped(s.blocks.max_events as nat) + ")"@,
                    ),
                ],
            ),
        ],
        seq![
            labelled("accepted"@),
            plainly(grouped(s.local_requests.total as nat) + " local requests"@),
        ],
    ]
}

/// Whether a consensus panel shows a head's statistics.
pub open spec fn consensus_shown(h: HeadState, s: HeadStats, c: Consensus) -> bool {
    &&& c.gauge.filled == not_negative(s.mempool_size)
    &&& c.gauge.capacity == capacity_of(h, s)
    &&& c.gauge.label@ == grouped(not_negative(s.mempool_size) as nat) + " / "@ + grouped(
        capacity_of(h, s) as nat,
    )
    &&& c.gauge.tone == gauge_tone(not_negative(s.mempool_size), capacity_of(h, s))
    &&& c.headroom@ == headroom_line(h, s)
    &&& lines_view(c.lines@) == consensus_lines(s)
}

fn gauge_of(h: &HeadState, s: &HeadStats) -> (r: Gauge)
    requires
        window_fits(*s),
    ensures
        r.filled == not_negative(s.mempool_size),
        r.capacity == capacity_of(*h, *s),
        r.label@ == grouped(not_negative(s.mempool_size) as nat) + " / "@ + grouped(
            capacity_of(*h, *s) as nat,
        ),
        r.tone == gauge_tone(not_negative(s.mempool_size), capacity_of(*h, *s)),
{
    let filled = at_least_zero(s.mempool_size);
    let window: i64 = s.sequencer_headroom + s.mempool_size;
    let most: i64 = if window > h.max_headroom {
        window
    } else {
        h.max_headroom
    };
    let capacity: u64 = if most < 1 {
        1
    } else {
        most as u64
    };
    let mut label = fmt_num(filled);
    label.append(" / ");
    push_grouped(&mut label, capacity);
    let tone = if is_over(filled, capacity, NINE_TENTHS, TENTHS_SCALE) {
        Tone::Red
    } else if is_over(filled, capacity, SIX_TENTHS, TENTHS_SCALE) {
        Tone::Yellow
    } else {
        Tone::Green
    };
    Gauge { filled, capacity, label, tone }
}

fn headroom_spans(h: &HeadState, s: &HeadStats) -> (r: Line)
    ensures
        r@ == headroom_line(*h, *s),
{
    let tone = if h.max_headroom > 0 && is_left_under(
        s.sequencer_headroom,
        h.max_headroom,
        TENTH,
        TENTH_SCALE,
    ) {
        Tone::Red
    } else {
        Tone::Text
    };
    let mut drain = "  leader drain ".to_owned();
    push_signed(&mut drain, s.leader_mempool_drain);
    line_of_three(
        label("headroom"),
        val(fmt_num(at_least_zero(s.sequencer_headroom)), tone),
        dim(drain),
    )
}

fn timing_pieces(s: &HeadStats) -> (r: Vec<Piece>)
    ensures
        pieces_view(r@) == seq![
            PieceView::Text("lead "@),
            PieceView::Whole(s.block_timings.lead.avg_millis),
            PieceView::Text("ms · replay "@),
            PieceView::Whole(s.block_timings.replay.avg_millis),
            PieceView::Text("ms · soft "@),
            PieceView::Whole(s.block_timings.soft_consensus.avg_millis),
            PieceView::Text("ms"@),
        ],
{
    let mut pieces: Vec<Piece> = Vec::new();
    pieces.push(piece("lead "));
    pieces.push(Piece::Whole(s.block_timings.lead.avg_millis));
    pieces.push(piece("ms · replay "));
    pieces.push(Piece::Whole(s.block_timings.replay.avg_millis));
    pieces.push(piece("ms · soft "));
    pieces.push(Piece::Whole(s.block_timings.soft_consensus.avg_millis));
    pieces.push(piece("ms"));
    assert(pieces_view(pieces@) =~= seq![
        PieceView::Text("lead "@),
        PieceView::Whole(s.block_timings.lead.avg_millis),
        PieceView::Text("ms · replay "@),
        PieceView::Whole(s.block_timings.replay.avg_millis),
        PieceView::Text("ms · soft "@),
        PieceView::Whole(s.block_timings.soft_consensus.avg_millis),
        PieceView::Text("ms"@),
    ]);
    pieces
}

fn block_pieces(s: &HeadStats) -> (r: Vec<Piece>)
    ensures
        pieces_view(r@) == seq![
            PieceView::Text(
                "minor "@ + grouped(s.blocks.minor as nat) + " · major "@ + grouped(
                    s.blocks.major as nat,
                ) + " · "@,
            ),
            PieceView::Tenths(s.blocks.avg_events),
            PieceView::Text(" req/blk (max "@ + grouped(s.blocks.max_events as nat) + ")"@),
        ],
{
    let mut made = with_num("minor ", s.blocks.minor);
    made.append(" · major ");
    push_grouped(&mut made, s.blocks.major);
    made.append(" · ");
    let mut most = with_num(" req/blk (max ", s.blocks.max_events);
    most.append(")");
    let ghost made_text = made@;
    let ghost most_text = most@;
    let mut pieces: Vec<Piece> = Vec::new();
    pieces.push(Piece::Text(made));
    pieces.push(Piece::Tenths(s.blocks.avg_events));
    pieces.push(Piece::Text(most));
    assert(pieces_view(pieces@) =~= seq![
        PieceView::Text(made_text),
        PieceView::Tenths(s.blocks.avg_events),
        PieceView::Text(most_text),
    ]);
    pieces
}

/// The consensus panel; `None` where a head has no statistics.
pub fn consensus_panel(h: &HeadState) -> (r: Option<Consensus>)
    requires
        h.stats matches Some(s) ==> window_fits(s),
    ensures
        match (r, h.stats) {
            (Some(c), Some(s)) => consensus_shown(*h, s, c),
            (None, None) => true,
            _ => false,
        },
{
    let s = match &h.stats {
        Some(s) => s,
        None => {
            return None;
        },
    };
    let mut lines: Vec<Line> = Vec::new();
    assert(lines_view(lines@) =~= Seq::<Seq<SpanView>>::empty());
    let mut rejects = with_num("screening ", s.local_requests.rejected_screening);
    rejects.append(" · backpressure ");
    push_grouped(&mut rejects, s.local_requests.rejected_backpressure);
    let tone = if s.local_requests.rejected_backpressure > 0 {
        Tone::Yellow
    } else {
        Tone::Text
    };
    add_line(&mut lines, line_of_two(label("rejects"), style(rejects, tone, false)));
    add_line(&mut lines, line_of_two(label("timings"), mix(timing_pieces(s))));
    add_line(&mut lines, line_of_two(label("blocks"), mix(block_pieces(s))));
    let mut accepted = fmt_num(s.local_requests.total);
    accepted.append(" local requests");
    add_line(&mut lines, line_of_two(label("accepted"), plain(accepted)));
    assert(lines_view(lines@) =~= consensus_lines(*s));
    Some(Consensus { gauge: gauge_of(h, s), headroom: headroom_spans(h, s), lines })
}

// --- request sources ---

/// A source's row.
pub open spec fn source_row(s: SourceSnapshot) -> Seq<SpanView> {
    match s.source {
        Source::Local => seq![
            styled("local"@, Tone::Cyan, false),
            plainly(grouped(s.total as nat)),
            tenths(s.now),
            tenths(s.load1m),
            tenths(s.load5m),
            styled("● self"@, Tone::Cyan, false),
        ],
        Source::Peer(peer) => seq![
            plainly("peer "@ + signed(peer as int)),
            plainly(grouped(s.total as nat)),
            tenths(s.now),
            tenths(s.load1m),
            tenths(s.load5m),
            if s.live {
                styled("● live"@, Tone::Green, false)
            } else {
                styled("○ idle"@, Tone::Dim, false)
            },
        ],
    }
}

/// A row for the head itself and one for each peer; none without statistics.
pub open spec fn sources_rows(h: HeadState) -> Seq<Seq<SpanView>> {
    match h.stats {
        Some(s) => Seq::new(
            sources_shown(s).len(),
            |i: int| source_row(sources_shown(s)[i]),
        ),
        None => Seq::empty(),
    }
}

fn source_spans(s: &SourceSnapshot) -> (r: Line)
    ensures
        r@ == source_row(*s),
{
    let (name, link) = match s.source {
        Source::Local => (
            style("local".to_owned(), Tone::Cyan, false),
            style("● self".to_owned(), Tone::Cyan, false),
        ),
        Source::Peer(peer) => {
            let mut name = "peer ".to_owned();
            push_signed(&mut name, peer);
            let link = if s.live {
                style("● live".to_owned(), Tone::Green, false)
            } else {
                style("○ idle".to_owned(), Tone::Dim, false)
            };
            (plain(name), link)
        },
    };
    six(
        name,
        plain(fmt_num(s.total)),
        show_tenths(s.now),
        show_tenths(s.load1m),
        show_tenths(s.load5m),
        link,
    )
}

/// The rows of the request sources.
pub fn sources_table(h: &HeadState) -> (r: Vec<Line>)
    ensures
        lines_view(r@) == sources_rows(*h),
{
    let mut lines: Vec<Line> = Vec::new();
    if let Some(s) = &h.stats {
        let sources = source_rows(s);
        let mut i: usize = 0;
        while i < sources.len()
            invariant
                i <= sources@.len(),
                h.stats == Some(*s),
                sources@ == sources_shown(*s),
                lines_view(lines@) == sources_rows(*h).take(i as int),
            decreases sources@.len() - i,
        {
            add_line(&mut lines, source_spans(&sources[i]));
            assert(lines_view(lines@) =~= sources_rows(*h).take(i + 1));
            i = i + 1;
        }
        assert(lines_view(lines@) =~= sources_rows(*h));
    } else {
        assert(lines_view(lines@) =~= sources_rows(*h));
    }
    lines
}

// --- slowest blocks ---

pub open spec fn slow_tone(millis: u64) -> Tone {
    if millis >= 1000 {
        Tone::Red
    } else if millis >= 200 {
        Tone::Yellow
    } else {
        Tone::Green
    }
}

pub open spec fn slow_row(t: BlockTiming) -> Seq<SpanView> {
    seq![
        plainly("#"@ + grouped(t.block_number as nat)),
        styled(grouped(t.millis as nat) + "ms"@, slow_tone(t.millis), false),
        plainly(grouped(t.requests as nat) + " reqs"@),
    ]
}

/// A row for each of the slowest blocks; none without statistics.
pub open spec fn slow_rows(h: HeadState) -> Seq<Seq<SpanView>> {
    match h.stats {
        Some(s) => Seq::new(slowest_shown(s).len(), |i: int| slow_row(slowest_shown(s)[i])),
        None => Seq::empty(),
    }
}

fn slow_spans(t: &BlockTiming) -> (r: Line)
    ensures
        r@ == slow_row(*t),
{
    let tone = if t.millis >= 1000 {
        Tone::Red
    } else if t.millis >= 200 {
        Tone::Yellow
    } else {
        Tone::Green
    };
    let mut time = fmt_num(t.millis);
    time.append("ms");
    let mut requests = fmt_num(t.requests);
    requests.append(" reqs");
    line_of_three(plain(with_num("#", t.block_number)), style(time, tone, false), plain(requests))
}

/// The rows of the slowest blocks.
pub fn slowest_table(h: &HeadState) -> (r: Vec<Line>)
    ensures
        lines_view(r@) == slow_rows(*h),
{
    let mut lines: Vec<Line> = Vec::new();
    if let Some(s) = &h.stats {
        let slow = slowest_blocks(s);
        let mut i: usize = 0;
        while i < slow.len()
            invariant
                i <= slow@.len(),
                h.stats == Some(*s),
                slow@ == slowest_shown(*s),
                lines_view(lines@) == slow_rows(*h).take(i as int),
            decreases slow@.len() - i,
        {
            add_line(&mut lines, slow_spans(&slow[i]));
            assert(lines_view(lines@) =~= slow_rows(*h).take(i + 1));
            i = i + 1;
        }
        assert(lines_view(lines@) =~= slow_rows(*h));
    } else {
        assert(lines_view(lines@) =~= slow_rows(*h));
    }
    lines
}

// --- alert history ---

/// When the alert that an event cleared was raised: at the nearest earlier event that raised it.
pub open spec fn raise_before(log: Seq<AlertEvent>, i: int) -> Option<i64> {
    raised_at(log.take(i), log[i].identity())
}

/// How long a cleared alert was active, where it is known when it was raised.
pub open spec fn lasted_note(log: Seq<AlertEvent>, i: int) -> Seq<char> {
    if !log[i].cleared {
        Seq::empty()
    } else {
        match raise_before(log, i) {
            Some(at) => "  · lasted "@ + duration(age(log[i].at_unix, at) as int),
            None => Seq::empty(),
        }
    }
}

pub open spec fn event_mark(e: AlertEvent) -> (Seq<char>, Tone) {
    if e.cleared {
        ("✓ cleared "@, Tone::Green)
    } else if e.crit {
        ("✗ raised  "@, Tone::Red)
    } else {
        ("! raised  "@, Tone::Yellow)
    }
}

pub open spec fn event_line(log: Seq<AlertEvent>, i: int) -> Seq<SpanView> {
    let (mark, tone) = event_mark(log[i]);
    seq![
        dimly(shown_stamp(log[i].at_unix) + "  "@),
        styled(mark, tone, true),
        styled(log[i].text@, tone, false),
        dimly(lasted_note(log, i)),
    ]
}

/// The alert history, newest first.
pub open spec fn history_shown(log: Seq<AlertEvent>) -> PanelView {
    PanelView {
        title: "ALERT HISTORY ("@ + decimal(log.len()) + ")"@,
        accent: Tone::Yellow,
        lines: if log.len() == 0 {
            seq![seq![dimly("no alert transitions recorded yet"@)]]
        } else {
            Seq::new(log.len(), |i: int| event_line(log, log.len() - 1 - i))
        },
    }
}

/// Whether how long each cleared alert was active can be told in 64 bits.
pub open spec fn lengths_fit(log: Seq<AlertEvent>) -> bool {
    forall|i: int|
        0 <= i < log.len() && (#[trigger] log[i]).cleared ==> (raise_before(log, i) matches Some(
            at,
        ) ==> apart(log[i].at_unix, at))
}

fn four(a: Span, b: Span, c: Span, d: Span) -> (r: Line)
    ensures
        r@ == seq![a@, b@, c@, d@],
{
    let ghost view = seq![a@, b@, c@, d@];
    let mut spans: Vec<Span> = Vec::new();
    spans.push(a);
    spans.push(b);
    spans.push(c);
    spans.push(d);
    let line = Line { spans };
    assert(line@ =~= view);
    line
}

fn lasted_text(log: &VecDeque<AlertEvent>, i: usize) -> (r: String)
    requires
        i < log@.len(),
        lengths_fit(log@),
    ensures
        r@ == lasted_note(log@, i as int),
{
    let e = &log[i];
    if !e.cleared {
        return String::new();
    }
    match find_raise(log, i, e.ident()) {
        Some(at) => {
            assert(log@[i as int].cleared);
            let mut out = "  · lasted ".to_owned();
            push_duration(&mut out, secs_since(e.at_unix, at));
            out
        },
        None => String::new(),
    }
}

fn event_spans(log: &VecDeque<AlertEvent>, i: usize) -> (r: Line)
    requires
        i < log@.len(),
        lengths_fit(log@),
    ensures
        r@ == event_line(log@, i as int),
{
    let e = &log[i];
    let (mark, tone) = if e.cleared {
        ("✓ cleared ", Tone::Green)
    } else if e.crit {
        ("✗ raised  ", Tone::Red)
    } else {
        ("! raised  ", Tone::Yellow)
    };
    let mut stamp = stamp_text(e.at_unix);
    stamp.append("  ");
    four(
        dim(stamp),
        style(mark.to_owned(), tone, true),
        style(e.text.clone(), tone, false),
        dim(lasted_text(log, i)),
    )
}

/// The alert history.
pub fn history_panel(log: &VecDeque<AlertEvent>) -> (r: Panel)
    requires
        lengths_fit(log@),
    ensures
        r@ == history_shown(log@),
{
    let mut lines: Vec<Line> = Vec::new();
    let mut title = "ALERT HISTORY (".to_owned();
    push_decimal(&mut title, log.len() as u64);
    title.append(")");
    if log.len() == 0 {
        add_line(
            &mut lines,
            line_of_one(dim("no alert transitions recorded yet".to_owned())),
        );
        assert(lines_view(lines@) =~= history_shown(log@).lines);
        return Panel { title, accent: Tone::Yellow, lines };
    }
    let mut i: usize = log.len();
    while i > 0
        invariant
            i <= log@.len(),
            log@.len() > 0,
            lengths_fit(log@),
            lines_view(lines@) == history_shown(log@).lines.take(log@.len() - i),
        decreases i,
    {
        i = i - 1;
        add_line(&mut lines, event_spans(log, i));
        assert(lines_view(lines@) =~= history_shown(log@).lines.take(log@.len() - i));
    }
    assert(lines_view(lines@) =~= history_shown(log@).lines);
    Panel { title, accent: Tone::Yellow, lines }
}

/// A mempool's capacity covers both what it has ever had room for and what it holds, so a gauge
/// that is not overfull never shows more than full.
pub proof fn law_capacity_covers_the_window(h: HeadState, s: HeadStats)
    ensures
        capacity_of(h, s) >= 1,
        capacity_of(h, s) >= h.max_headroom,
        capacity_of(h, s) >= s.sequencer_headroom + s.mempool_size,
        s.sequencer_headroom >= 0 ==> capacity_of(h, s) >= s.mempool_size,
{
}

} // verus!
