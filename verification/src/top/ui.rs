//! What every panel shows, from the state: the texts, the colours and the order of lines. One draw
//! per tick.

use crate::text::{
    decimal, duration, grouped, push_decimal, push_duration, push_grouped, push_signed, same_text,
    signed,
};
use crate::top::clock::{seconds_between, Timestamp};
use crate::top::config::Config;
use crate::top::poll::{at_least_zero, not_negative};
use crate::top::snapshot::{
    active_for, active_secs, age, ages_fit, apart, raised_at, version_shown, version_text,
};
use crate::top::spans::{
    add_line, dim, dimly, label, labelled, line_of_one, line_of_three, line_of_two, lines_view,
    mix, mixed, piece, pieces_view, plain, plainly, style, styled, val, valued, Line, Panel,
    PanelView, Piece, PieceView, SpanView, Tone,
};
use crate::top::state::{Alert, AlertEvent, App, HeadState, HeadStats, LatestBlockInfo, Screen};
use std::collections::VecDeque;
use vstd::prelude::*;
use vstd::std_specs::vecdeque::*;

verus! {

/// A number with its digits in groups of three.
pub fn fmt_num(n: u64) -> (r: String)
    ensures
        r@ == grouped(n as nat),
{
    let mut out = String::new();
    push_grouped(&mut out, n);
    assert(out@ =~= grouped(n as nat));
    out
}

/// A duration in seconds.
pub fn fmt_secs(s: i64) -> (r: String)
    ensures
        r@ == duration(s as int),
{
    let mut out = String::new();
    push_duration(&mut out, s);
    assert(out@ =~= duration(s as int));
    out
}

/// The colour of an age: green, yellow from one threshold on, red from another on.
pub open spec fn age_tone(age: i64, warn: i64, crit: i64) -> Tone {
    if age >= crit {
        Tone::Red
    } else if age >= warn {
        Tone::Yellow
    } else {
        Tone::Green
    }
}

pub fn age_color(age: i64, warn: i64, crit: i64) -> (r: Tone)
    ensures
        r == age_tone(age, warn, crit),
{
    if age >= crit {
        Tone::Red
    } else if age >= warn {
        Tone::Yellow
    } else {
        Tone::Green
    }
}

/// How many rows the alert strip takes: one for each alert up to four, one where there is none,
/// and two for its border.
pub fn alert_strip_rows(alerts: usize) -> (r: u16)
    ensures
        r == (if alerts < 1 {
            3
        } else if alerts > 4 {
            6
        } else {
            alerts + 2
        }),
        3 <= r <= 6,
        1 <= alerts <= 4 ==> r - 2 == alerts,
{
    if alerts < 1 {
        3
    } else if alerts > 4 {
        6
    } else {
        alerts as u16 + 2
    }
}

/// Which head's own panels are shown: the selected one, or the last where the selection is past
/// it.
pub fn shown_head(selected: usize, heads: usize) -> (r: usize)
    requires
        heads > 0,
    ensures
        r < heads,
        r == (if selected < heads {
            selected as int
        } else {
            heads - 1
        }),
        selected < heads <==> r == selected,
{
    if selected < heads {
        selected
    } else {
        heads - 1
    }
}

fn hash_num(n: u64) -> (r: String)
    ensures
        r@ == "#"@ + grouped(n as nat),
{
    let mut out = "#".to_owned();
    push_grouped(&mut out, n);
    out
}

fn joined(a: &str, b: &str) -> (r: String)
    ensures
        r@ == a@ + b@,
{
    let mut out = a.to_owned();
    out.append(b);
    out
}

/// How far off a deadline is.
fn in_secs(s: i64) -> (r: String)
    ensures
        r@ == "in "@ + duration(s as int),
{
    let mut out = "in ".to_owned();
    push_duration(&mut out, s);
    out
}

/// A text before, a number in groups of three, and a text behind.
fn around_num(before: &str, n: u64, behind: &str) -> (r: String)
    ensures
        r@ == before@ + grouped(n as nat) + behind@,
{
    let mut out = before.to_owned();
    push_grouped(&mut out, n);
    out.append(behind);
    out
}

/// A title with a count behind it.
fn counted(title: &str, n: usize) -> (r: String)
    ensures
        r@ == title@ + " ("@ + decimal(n as nat) + ")"@,
{
    let mut out = title.to_owned();
    out.append(" (");
    push_decimal(&mut out, n as u64);
    out.append(")");
    out
}

// --- title bar ---

/// A screen's tab.
pub struct Tab {
    pub text: String,
    pub selected: bool,
}

/// The bar at the top.
pub struct TitleBar {
    pub tabs: Vec<Tab>,
    pub help: String,
    pub clock: String,
}

/// A screen's tab: its key and its name.
pub open spec fn tab_text(screen: Screen) -> Seq<char> {
    " "@ + seq![screen.letter()] + " "@ + screen.heading() + " "@
}

fn letter_text(screen: Screen) -> (r: &'static str)
    ensures
        r@ == seq![screen.letter()],
{
    proof {
        reveal_strlit("c");
        reveal_strlit("a");
        assert("c"@ =~= seq!['c']);
        assert("a"@ =~= seq!['a']);
    }
    match screen {
        Screen::Consensus => "c",
        Screen::Alerts => "a",
    }
}

/// The title bar: a tab for each screen, in order, the one showing marked.
pub fn title_bar(screen: Screen, now: Timestamp) -> (r: TitleBar)
    ensures
        r.tabs@.len() == 2,
        forall|i: int|
            0 <= i < 2 ==> (#[trigger] r.tabs@[i]).text@ == tab_text(Screen::ALL@[i])
                && r.tabs@[i].selected == (Screen::ALL@[i] == screen),
        r.help@ == "q quit · tab head · ←→ screen · "@,
        r.clock@ == crate::top::clock::time_of_day(now@.0, now@.1),
{
    let mut tabs: Vec<Tab> = Vec::new();
    let mut i: usize = 0;
    while i < Screen::ALL.len()
        invariant
            i <= 2,
            tabs@.len() == i,
            forall|k: int|
                0 <= k < i ==> (#[trigger] tabs@[k]).text@ == tab_text(Screen::ALL@[k])
                    && tabs@[k].selected == (Screen::ALL@[k] == screen),
        decreases 2 - i,
    {
        let s = Screen::ALL[i];
        let mut text = " ".to_owned();
        text.append(letter_text(s));
        text.append(" ");
        text.append(s.title());
        text.append(" ");
        tabs.push(Tab { text, selected: s == screen });
        i = i + 1;
    }
    TitleBar {
        tabs,
        help: "q quit · tab head · ←→ screen · ".to_owned(),
        clock: now.clock_text(),
    }
}

// --- alerts ---

/// How many alerts the strip shows.
pub const STRIP_ALERTS: usize = 4;

/// How long an alert has been active, where that is a minute or more.
pub open spec fn active_note(secs: Option<i64>) -> Seq<char> {
    match secs {
        Some(s) => if s >= 60 {
            "  · for "@ + duration(s as int)
        } else {
            Seq::empty()
        },
        None => Seq::empty(),
    }
}

pub open spec fn alert_line(a: Alert, log: Seq<AlertEvent>, now: i64) -> Seq<SpanView> {
    let tone = if a.crit {
        Tone::Red
    } else {
        Tone::Yellow
    };
    let mark = if a.crit {
        "✗ "@
    } else {
        "! "@
    };
    seq![
        styled(mark, tone, true),
        styled(a.text@, tone, false),
        dimly(active_note(active_secs(log, a.key@, now))),
    ]
}

/// Whether any alert is critical.
pub open spec fn any_crit(alerts: Seq<Alert>) -> bool {
    exists|i: int| 0 <= i < alerts.len() && (#[trigger] alerts[i]).crit
}

/// The alert strip: all clear, or the first few alerts under the colour of the worst of all.
pub open spec fn alerts_shown(app: App, now: i64) -> PanelView {
    if app.alerts@.len() == 0 {
        PanelView {
            title: "ALERTS"@,
            accent: Tone::Green,
            lines: seq![seq![styled("✓ all clear"@, Tone::Green, true)]],
        }
    } else {
        PanelView {
            title: "ALERTS"@ + " ("@ + decimal(app.alerts@.len()) + ")"@,
            accent: if any_crit(app.alerts@) {
                Tone::Red
            } else {
                Tone::Yellow
            },
            lines: Seq::new(
                if app.alerts@.len() < STRIP_ALERTS {
                    app.alerts@.len()
                } else {
                    STRIP_ALERTS as nat
                },
                |i: int| alert_line(app.alerts@[i], app.alert_log@, now),
            ),
        }
    }
}

fn note_active(secs: Option<i64>) -> (r: String)
    ensures
        r@ == active_note(secs),
{
    match secs {
        Some(s) => if s >= 60 {
            let mut out = "  · for ".to_owned();
            push_duration(&mut out, s);
            out
        } else {
            String::new()
        },
        None => String::new(),
    }
}

fn alert_spans(a: &Alert, log: &VecDeque<AlertEvent>, now: i64) -> (r: Line)
    requires
        raised_at(log@, a.key@) matches Some(at) ==> apart(now, at),
    ensures
        r@ == alert_line(*a, log@, now),
{
    let active = active_for(log, a.key.as_str(), now);
    let (mark, tone) = if a.crit {
        ("✗ ", Tone::Red)
    } else {
        ("! ", Tone::Yellow)
    };
    line_of_three(
        style(mark.to_owned(), tone, true),
        style(a.text.clone(), tone, false),
        dim(note_active(active)),
    )
}

fn has_crit(alerts: &Vec<Alert>) -> (r: bool)
    ensures
        r == any_crit(alerts@),
{
    let mut i: usize = 0;
    while i < alerts.len()
        invariant
            i <= alerts@.len(),
            forall|k: int| 0 <= k < i ==> !(#[trigger] alerts@[k]).crit,
        decreases alerts@.len() - i,
    {
        if alerts[i].crit {
            return true;
        }
        i = i + 1;
    }
    false
}

/// The alert strip as of a moment.
pub fn alerts_panel(app: &App, now: i64) -> (r: Panel)
    requires
        ages_fit(*app, now),
    ensures
        r@ == alerts_shown(*app, now),
{
    let mut lines: Vec<Line> = Vec::new();
    if app.alerts.len() == 0 {
        add_line(
            &mut lines,
            line_of_one(style("✓ all clear".to_owned(), Tone::Green, true)),
        );
        assert(lines_view(lines@) =~= alerts_shown(*app, now).lines);
        return Panel { title: "ALERTS".to_owned(), accent: Tone::Green, lines };
    }
    let mut i: usize = 0;
    while i < app.alerts.len() && i < STRIP_ALERTS
        invariant
            i <= app.alerts@.len(),
            i <= STRIP_ALERTS,
            app.alerts@.len() > 0,
            ages_fit(*app, now),
            lines_view(lines@) == alerts_shown(*app, now).lines.take(i as int),
        decreases app.alerts@.len() - i,
    {
        let line = alert_spans(&app.alerts[i], &app.alert_log, now);
        add_line(&mut lines, line);
        assert(lines_view(lines@) =~= alerts_shown(*app, now).lines.take(i + 1));
        i = i + 1;
    }
    assert(lines_view(lines@) =~= alerts_shown(*app, now).lines);
    let accent = if has_crit(&app.alerts) {
        Tone::Red
    } else {
        Tone::Yellow
    };
    Panel { title: counted("ALERTS", app.alerts.len()), accent, lines }
}

// --- head ---

pub open spec fn status_tone(status: Seq<char>) -> Tone {
    if status == "HARD_CONFIRMED"@ {
        Tone::Green
    } else if status == "SOFT_CONFIRMED"@ {
        Tone::Cyan
    } else {
        Tone::Yellow
    }
}

pub open spec fn deadline_tone(left: int, cfg: Config) -> Tone {
    if left <= cfg.fallback_crit_secs {
        Tone::Red
    } else if left <= cfg.fallback_warn_secs {
        Tone::Yellow
    } else {
        Tone::Green
    }
}

/// A line that is shown only where there is something to show.
pub open spec fn optional(line: Option<Seq<SpanView>>) -> Seq<Seq<SpanView>> {
    match line {
        Some(line) => seq![line],
        None => Seq::empty(),
    }
}

pub open spec fn fallback_line(b: LatestBlockInfo, cfg: Config, now: Timestamp) -> Option<
    Seq<SpanView>,
> {
    match b.fallback_at {
        Some(at) => {
            let left = seconds_between(at@, now@);
            Some(
                seq![
                    labelled("fallback"@),
                    valued("in "@ + duration(left), deadline_tone(left, cfg)),
                ],
            )
        },
        None => None,
    }
}

pub open spec fn forced_line(b: LatestBlockInfo, now: Timestamp) -> Option<Seq<SpanView>> {
    match b.forced_major_at {
        Some(at) => Some(
            seq![
                labelled("forced maj"@),
                plainly("in "@ + duration(seconds_between(at@, now@))),
            ],
        ),
        None => None,
    }
}

pub open spec fn block_lines(h: HeadState, cfg: Config, now: Timestamp) -> Seq<Seq<SpanView>> {
    match h.latest_block {
        Some(b) => seq![
            seq![
                labelled("block"@),
                valued("#"@ + grouped(b.number as nat), Tone::Text),
                dimly(" ("@ + b.block_type@ + ")"@),
            ],
            seq![labelled("version"@), valued(version_shown(b), Tone::Pink)],
            seq![labelled("status"@), valued(b.status@, status_tone(b.status@))],
        ] + optional(fallback_line(b, cfg, now)) + optional(forced_line(b, now)),
        None => seq![seq![dimly("waiting for block details…"@)]],
    }
}

/// An uptime in seconds; one past what the duration counts in shows as gone by.
pub open spec fn uptime_secs(s: HeadStats) -> int {
    if s.uptime_seconds <= i64::MAX {
        s.uptime_seconds as int
    } else {
        s.uptime_seconds - 0x1_0000_0000_0000_0000
    }
}

pub open spec fn head_stats_lines(h: HeadState) -> Seq<Seq<SpanView>> {
    match h.stats {
        Some(s) => seq![
            seq![labelled("uptime"@), plainly(duration(uptime_secs(s)))],
            seq![
                labelled("requests"@),
                mixed(
                    seq![
                        PieceView::Tenths(s.local_requests.rate.now),
                        PieceView::Text("/s now · "@),
                        PieceView::Tenths(s.local_requests.rate.load1m),
                        PieceView::Text("/s 1m"@),
                    ],
                ),
            ],
            seq![
                labelled("mempool"@),
                plainly(
                    grouped(not_negative(s.mempool_size) as nat) + " · headroom "@ + grouped(
                        not_negative(s.sequencer_headroom) as nat,
                    ),
                ),
            ],
        ],
        None => Seq::empty(),
    }
}

/// A head's own panel: its newest block with its deadlines, and its statistics.
pub open spec fn head_shown_as(h: HeadState, cfg: Config, now: Timestamp) -> PanelView {
    PanelView {
        title: "HEAD · "@ + h.name@,
        accent: Tone::Pink,
        lines: block_lines(h, cfg, now) + head_stats_lines(h),
    }
}

fn color_of_status(status: &str) -> (r: Tone)
    ensures
        r == status_tone(status@),
{
    if same_text(status, "HARD_CONFIRMED") {
        Tone::Green
    } else if same_text(status, "SOFT_CONFIRMED") {
        Tone::Cyan
    } else {
        Tone::Yellow
    }
}

fn add_block_lines(lines: &mut Vec<Line>, h: &HeadState, cfg: &Config, now: Timestamp)
    ensures
        lines_view(final(lines)@) == lines_view(old(lines)@) + block_lines(*h, *cfg, now),
{
    let ghost before = lines_view(lines@);
    match &h.latest_block {
        Some(b) => {
            let mut kind = " (".to_owned();
            kind.append(b.block_type.as_str());
            kind.append(")");
            add_line(
                lines,
                line_of_three(label("block"), val(hash_num(b.number), Tone::Text), dim(kind)),
            );
            add_line(lines, line_of_two(label("version"), val(version_text(b), Tone::Pink)));
            let tone = color_of_status(b.status.as_str());
            add_line(lines, line_of_two(label("status"), val(b.status.clone(), tone)));
            if let Some(at) = b.fallback_at {
                let left = at.seconds_since(now);
                let tone = if left <= cfg.fallback_crit_secs {
                    Tone::Red
                } else if left <= cfg.fallback_warn_secs {
                    Tone::Yellow
                } else {
                    Tone::Green
                };
                add_line(lines, line_of_two(label("fallback"), val(in_secs(left), tone)));
            }
            if let Some(at) = b.forced_major_at {
                let left = at.seconds_since(now);
                add_line(lines, line_of_two(label("forced maj"), plain(in_secs(left))));
            }
        },
        None => {
            add_line(lines, line_of_one(dim("waiting for block details…".to_owned())));
        },
    }
    assert(lines_view(lines@) =~= before + block_lines(*h, *cfg, now));
}

fn uptime_text(s: &HeadStats) -> (r: String)
    ensures
        r@ == duration(uptime_secs(*s)),
{
    if s.uptime_seconds <= i64::MAX as u64 {
        fmt_secs(s.uptime_seconds as i64)
    } else {
        "now".to_owned()
    }
}

fn add_head_stats_lines(lines: &mut Vec<Line>, h: &HeadState)
    ensures
        lines_view(final(lines)@) == lines_view(old(lines)@) + head_stats_lines(*h),
{
    let ghost before = lines_view(lines@);
    if let Some(s) = &h.stats {
        add_line(lines, line_of_two(label("uptime"), plain(uptime_text(s))));
        let mut pieces: Vec<Piece> = Vec::new();
        pieces.push(Piece::Tenths(s.local_requests.rate.now));
        pieces.push(piece("/s now · "));
        pieces.push(Piece::Tenths(s.local_requests.rate.load1m));
        pieces.push(piece("/s 1m"));
        assert(pieces_view(pieces@) =~= seq![
            PieceView::Tenths(s.local_requests.rate.now),
            PieceView::Text("/s now · "@),
            PieceView::Tenths(s.local_requests.rate.load1m),
            PieceView::Text("/s 1m"@),
        ]);
        add_line(lines, line_of_two(label("requests"), mix(pieces)));
        let mut text = fmt_num(at_least_zero(s.mempool_size));
        text.append(" · headroom ");
        push_grouped(&mut text, at_least_zero(s.sequencer_headroom));
        add_line(lines, line_of_two(label("mempool"), plain(text)));
    }
    assert(lines_view(lines@) =~= before + head_stats_lines(*h));
}

/// A head's own panel as of a moment.
pub fn head_panel(h: &HeadState, cfg: &Config, now: Timestamp) -> (r: Panel)
    ensures
        r@ == head_shown_as(*h, *cfg, now),
{
    let mut lines: Vec<Line> = Vec::new();
    assert(lines_view(lines@) =~= Seq::<Seq<SpanView>>::empty());
    add_block_lines(&mut lines, h, cfg, now);
    add_head_stats_lines(&mut lines, h);
    assert(lines_view(lines@) =~= head_shown_as(*h, *cfg, now).lines);
    Panel { title: joined("HEAD · ", h.name.as_str()), accent: Tone::Pink, lines }
}

// --- confirmation ---

pub open spec fn tip_line(h: HeadState) -> Seq<SpanView> {
    match h.latest_block {
        Some(b) => seq![
            labelled("tip blk"@),
            valued("#"@ + grouped(b.number as nat), Tone::Cyan),
            dimly("  "@ + b.status@),
        ],
        None => seq![labelled("tip blk"@), dimly("—"@)],
    }
}

/// How far the hard-confirmation frontier is behind the newest block, where both are known.
pub open spec fn behind_note(h: HeadState, hard: u64) -> Seq<char> {
    match h.latest_block {
        Some(b) => "  ("@ + grouped(
            if b.number > hard {
                (b.number - hard) as nat
            } else {
                0
            },
        ) + " behind tip)"@,
        None => Seq::empty(),
    }
}

pub open spec fn hard_line(h: HeadState) -> Seq<SpanView> {
    match h.hard_tip {
        Some(hard) => seq![
            labelled("hard blk"@),
            valued("#"@ + grouped(hard as nat), Tone::Green),
            dimly(behind_note(h, hard)),
        ],
        None => seq![labelled("hard blk"@), dimly("none hard-confirmed yet"@)],
    }
}

pub open spec fn stack_note(s: HeadStats) -> Seq<char> {
    if s.stacks.last_stack_number < 0 {
        "  no stacks yet"@
    } else {
        "  stack #"@ + signed(s.stacks.last_stack_number as int)
    }
}

pub open spec fn stack_lines(h: HeadState) -> Seq<Seq<SpanView>> {
    match h.stats {
        Some(s) => seq![
            seq![
                labelled("last hard"@),
                valued(
                    duration(s.stacks.seconds_since_last_hard_confirm as int) + " ago"@,
                    age_tone(s.stacks.seconds_since_last_hard_confirm, 600, 1800),
                ),
                dimly(stack_note(s)),
            ],
            seq![
                labelled("cadence"@),
                mixed(
                    seq![
                        PieceView::Text("μ "@),
                        PieceView::Whole(s.stacks.mean_inter_stack_gap_seconds),
                        PieceView::Text("s · "@),
                        PieceView::Whole(s.stacks.avg_blocks_absorbed),
                        PieceView::Text(
                            " blk/stack (max "@ + decimal(s.stacks.max_blocks_absorbed as nat)
                                + ")"@,
                        ),
                    ],
                ),
            ],
            seq![
                labelled("soft lat"@),
                mixed(
                    seq![
                        PieceView::Whole(s.block_timings.soft_consensus.avg_millis),
                        PieceView::Text(
                            "ms avg over "@ + decimal(s.block_timings.soft_consensus.count as nat)
                                + " blocks"@,
                        ),
                    ],
                ),
            ],
        ],
        None => Seq::empty(),
    }
}

/// The confirmation panel: the newest block, the hard-confirmation frontier, and the stacks.
pub open spec fn confirmation_shown(h: HeadState) -> PanelView {
    PanelView {
        title: "CONFIRMATION"@,
        accent: Tone::Green,
        lines: seq![tip_line(h), hard_line(h)] + stack_lines(h),
    }
}

fn tip_spans(h: &HeadState) -> (r: Line)
    ensures
        r@ == tip_line(*h),
{
    match &h.latest_block {
        Some(b) => line_of_three(
            label("tip blk"),
            val(hash_num(b.number), Tone::Cyan),
            dim(joined("  ", b.status.as_str())),
        ),
        None => line_of_two(label("tip blk"), dim("—".to_owned())),
    }
}

fn hard_spans(h: &HeadState) -> (r: Line)
    ensures
        r@ == hard_line(*h),
{
    match h.hard_tip {
        Some(hard) => {
            let behind = match &h.latest_block {
                Some(b) => {
                    let blocks: u64 = if b.number > hard {
                        b.number - hard
                    } else {
                        0
                    };
                    around_num("  (", blocks, " behind tip)")
                },
                None => String::new(),
            };
            line_of_three(label("hard blk"), val(hash_num(hard), Tone::Green), dim(behind))
        },
        None => line_of_two(label("hard blk"), dim("none hard-confirmed yet".to_owned())),
    }
}

fn add_stack_lines(lines: &mut Vec<Line>, h: &HeadState)
    ensures
        lines_view(final(lines)@) == lines_view(old(lines)@) + stack_lines(*h),
{
    let ghost before = lines_view(lines@);
    if let Some(s) = &h.stats {
        let age = s.stacks.seconds_since_last_hard_confirm;
        let note = if s.stacks.last_stack_number < 0 {
            "  no stacks yet".to_owned()
        } else {
            let mut out = "  stack #".to_owned();
            push_signed(&mut out, s.stacks.last_stack_number);
            out
        };
        let mut text = fmt_secs(age);
        text.append(" ago");
        add_line(
            lines,
            line_of_three(label("last hard"), val(text, age_color(age, 600, 1800)), dim(note)),
        );
        let mut most = " blk/stack (max ".to_owned();
        push_decimal(&mut most, s.stacks.max_blocks_absorbed);
        most.append(")");
        let ghost most_text = most@;
        let mut pieces: Vec<Piece> = Vec::new();
        pieces.push(piece("μ "));
        pieces.push(Piece::Whole(s.stacks.mean_inter_stack_gap_seconds));
        pieces.push(piece("s · "));
        pieces.push(Piece::Whole(s.stacks.avg_blocks_absorbed));
        pieces.push(Piece::Text(most));
        assert(pieces_view(pieces@) =~= seq![
            PieceView::Text("μ "@),
            PieceView::Whole(s.stacks.mean_inter_stack_gap_seconds),
            PieceView::Text("s · "@),
            PieceView::Whole(s.stacks.avg_blocks_absorbed),
            PieceView::Text(most_text),
        ]);
        add_line(lines, line_of_two(label("cadence"), mix(pieces)));
        let mut over = "ms avg over ".to_owned();
        push_decimal(&mut over, s.block_timings.soft_consensus.count);
        over.append(" blocks");
        let ghost over_text = over@;
        let mut pieces: Vec<Piece> = Vec::new();
        pieces.push(Piece::Whole(s.block_timings.soft_consensus.avg_millis));
        pieces.push(Piece::Text(over));
        assert(pieces_view(pieces@) =~= seq![
            PieceView::Whole(s.block_timings.soft_consensus.avg_millis),
            PieceView::Text(over_text),
        ]);
        add_line(lines, line_of_two(label("soft lat"), mix(pieces)));
    }
    assert(lines_view(lines@) =~= before + stack_lines(*h));
}

/// The confirmation panel.
pub fn confirmation_panel(h: &HeadState) -> (r: Panel)
    ensures
        r@ == confirmation_shown(*h),
{
    let mut lines: Vec<Line> = Vec::new();
    assert(lines_view(lines@) =~= Seq::<Seq<SpanView>>::empty());
    add_line(&mut lines, tip_spans(h));
    add_line(&mut lines, hard_spans(h));
    add_stack_lines(&mut lines, h);
    assert(lines_view(lines@) =~= confirmation_shown(*h).lines);
    Panel { title: "CONFIRMATION".to_owned(), accent: Tone::Green, lines }
}

} // verus!
