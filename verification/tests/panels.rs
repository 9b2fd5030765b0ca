//! What the panels and the snapshot show.

use hydrozoa_tools::text::{
    decimal_text, push_left_aligned, push_right_aligned, push_signed, trim_final_slashes,
};
use hydrozoa_tools::top::clock::Timestamp;
use hydrozoa_tools::top::config::Config;
use hydrozoa_tools::top::screens::{
    consensus_panel, heads_panel, history_panel, slowest_table, sources_table, throughput_panel,
    tip_skew,
};
use hydrozoa_tools::top::snapshot::{build, build_at, Source};
use hydrozoa_tools::top::spans::{Line, Panel, Piece, Span, Tone};
use hydrozoa_tools::top::state::{
    Alert, AlertEvent, App, BlockStats, BlockTiming, BlockTimings, HeadStats, LatestBlockInfo,
    LocalRequestStats, PeerRequestStats, RateStats, Reading, Screen, StackStats, TimingStats,
};
use hydrozoa_tools::top::ui::{
    age_color, alert_strip_rows, alerts_panel, confirmation_panel, fmt_num, fmt_secs, head_panel,
    shown_head, title_bar,
};

fn reading(x: f64) -> Reading {
    Reading { bits: x.to_bits() }
}

fn rate(now: f64, load1m: f64) -> RateStats {
    RateStats {
        now: reading(now),
        load1m: reading(load1m),
        load5m: reading(5.0),
        load15m: reading(15.0),
    }
}

fn show_piece(piece: &Piece) -> String {
    let value = |r: &Reading| f64::from_bits(r.bits);
    match piece {
        Piece::Text(text) => text.clone(),
        Piece::Tenths(r) => format!("{:.1}", value(r)),
        Piece::PaddedTenths(r) => format!("{:>6.1}", value(r)),
        Piece::Whole(r) => format!("{:.0}", value(r)),
    }
}

fn show_span(span: &Span) -> String {
    span.pieces.iter().map(show_piece).collect()
}

fn show_line(line: &Line) -> String {
    line.spans.iter().map(show_span).collect()
}

fn show(panel: &Panel) -> Vec<String> {
    panel.lines.iter().map(show_line).collect()
}

fn at(secs: i64) -> Timestamp {
    Timestamp::new(secs, 0).unwrap()
}

fn cfg() -> Config {
    Config {
        heads: Vec::new(),
        transparent_background: false,
        hard_confirm_warn_secs: 1800,
        hard_confirm_crit_secs: 3600,
        fallback_warn_secs: 1800,
        fallback_crit_secs: 600,
    }
}

fn stats() -> HeadStats {
    HeadStats {
        uptime_seconds: 3_725,
        local_requests: LocalRequestStats {
            total: 1_234_567,
            rate: rate(12.34, 1.25),
            rejected_screening: 1_000,
            rejected_backpressure: 2,
        },
        peer_requests: vec![
            PeerRequestStats {
                peer: 1,
                total: 9,
                rate: rate(0.5, 0.5),
            },
            PeerRequestStats {
                peer: -2,
                total: 0,
                rate: rate(0.0, 0.0),
            },
        ],
        blocks: BlockStats {
            minor: 1_500,
            major: 3,
            avg_events: reading(2.25),
            max_events: 40,
            block_rate: rate(0.4, 0.3),
            request_rate: rate(0.0, 0.0),
        },
        stacks: StackStats {
            total: 2,
            last_stack_number: 7,
            seconds_since_last_hard_confirm: 605,
            mean_inter_stack_gap_seconds: reading(301.6),
            avg_blocks_absorbed: reading(20.4),
            max_blocks_absorbed: 31,
        },
        block_timings: BlockTimings {
            lead: TimingStats {
                count: 1,
                avg_millis: reading(10.0),
                avg_millis_per_request: reading(1.0),
                top: (0..10)
                    .map(|i| BlockTiming {
                        block_number: 1_000 + i,
                        millis: [1_500, 200, 199, 1, 1, 1, 1, 1, 1, 1][i as usize],
                        requests: i,
                    })
                    .collect(),
            },
            replay: TimingStats {
                avg_millis: reading(20.0),
                ..Default::default()
            },
            soft_consensus: TimingStats {
                count: 55,
                avg_millis: reading(30.0),
                ..Default::default()
            },
        },
        mempool_size: 950,
        leader_mempool_drain: -4,
        sequencer_headroom: 50,
    }
}

fn block(number: u64) -> LatestBlockInfo {
    LatestBlockInfo {
        number,
        block_type: "Minor".into(),
        status: "SOFT_CONFIRMED".into(),
        version_major: 2,
        version_minor: 17,
        fallback_at: Some(at(2_000)),
        forced_major_at: Some(at(1_090)),
    }
}

fn app() -> App {
    let mut app = App::new(vec!["head-0".into(), "head-1".into()]);
    app.heads[0].reachable = Some(true);
    app.heads[0].ready = Some("active".into());
    app.heads[0].stats = Some(stats());
    app.heads[0].latest_block = Some(block(12_345));
    app.heads[0].hard_tip = Some(12_000);
    app.heads[0].max_headroom = 600;
    for i in 0..70 {
        app.heads[0].req_hist.push(i);
    }
    app
}

fn event(at_unix: i64, key: &str, crit: bool, cleared: bool) -> AlertEvent {
    AlertEvent {
        at_unix,
        key: key.into(),
        text: format!("{key} text"),
        crit,
        cleared,
    }
}

fn raise(app: &mut App, key: &str, crit: bool) {
    app.alerts.push(Alert {
        key: key.into(),
        crit,
        text: format!("{key} text"),
    });
}

#[test]
fn numbers_are_grouped() {
    for (n, text) in [
        (0u64, "0"),
        (999, "999"),
        (1_000, "1,000"),
        (12_345, "12,345"),
        (1_000_001, "1,000,001"),
        (u64::MAX, "18,446,744,073,709,551,615"),
    ] {
        assert_eq!(fmt_num(n), text);
    }
    assert_eq!(decimal_text(1_000), "1000");
}

#[test]
fn durations_are_shown_in_two_units() {
    for (s, text) in [
        (-1i64, "now"),
        (0, "0s"),
        (59, "59s"),
        (60, "1m00s"),
        (3_599, "59m59s"),
        (3_600, "1h00m"),
        (90_061, "25h01m"),
    ] {
        assert_eq!(fmt_secs(s), text);
    }
}

#[test]
fn text_is_aligned_and_signed() {
    let mut out = String::new();
    push_left_aligned(&mut out, "é", 3);
    push_right_aligned(&mut out, "ab", 4);
    push_right_aligned(&mut out, "abcde", 4);
    push_signed(&mut out, i64::MIN);
    assert_eq!(out, "é    ababcde-9223372036854775808");
    assert_eq!(trim_final_slashes("/a//"), "/a");
}

#[test]
fn an_age_has_a_colour() {
    assert_eq!(age_color(599, 600, 1800), Tone::Green);
    assert_eq!(age_color(600, 600, 1800), Tone::Yellow);
    assert_eq!(age_color(1800, 600, 1800), Tone::Red);
}

#[test]
fn the_layout_follows_the_state() {
    assert_eq!(
        [0usize, 1, 3, 4, 9].map(alert_strip_rows),
        [3, 3, 5, 6, 6]
    );
    assert_eq!(shown_head(1, 3), 1);
    assert_eq!(shown_head(7, 3), 2);
}

#[test]
fn the_title_bar_marks_the_screen_showing() {
    let bar = title_bar(Screen::Alerts, at(3_661));
    let tabs: Vec<_> = bar.tabs.iter().map(|t| (t.text.as_str(), t.selected)).collect();
    assert_eq!(tabs, vec![(" c consensus ", false), (" a alerts ", true)]);
    assert_eq!(bar.clock, "01:01:01 UTC");
    assert!(bar.help.starts_with("q quit"));
}

#[test]
fn the_alert_strip_is_clear_or_shows_the_first_four() {
    let mut app = app();
    let panel = alerts_panel(&app, 1_000);
    assert_eq!((panel.title.as_str(), panel.accent), ("ALERTS", Tone::Green));
    assert_eq!(show(&panel), vec!["✓ all clear"]);

    app.alert_log.push_back(event(100, "a", false, false));
    app.alert_log.push_back(event(900, "a", false, false));
    app.alert_log.push_back(event(950, "b", false, false));
    app.alert_log.push_back(event(960, "a", false, true));
    for key in ["a", "b", "c"] {
        raise(&mut app, key, false);
    }
    let panel = alerts_panel(&app, 1_000);
    assert_eq!((panel.title.as_str(), panel.accent), ("ALERTS (3)", Tone::Yellow));
    assert_eq!(show(&panel), vec!["! a text  · for 1m40s", "! b text", "! c text"]);

    raise(&mut app, "d", false);
    raise(&mut app, "e", true);
    let panel = alerts_panel(&app, 1_000);
    assert_eq!((panel.title.as_str(), panel.accent), ("ALERTS (5)", Tone::Red));
    assert_eq!(panel.lines.len(), 4);
}

#[test]
fn a_heads_panel_shows_its_block_and_its_statistics() {
    let app = app();
    let panel = head_panel(&app.heads[0], &cfg(), at(1_000));
    assert_eq!(panel.title, "HEAD · head-0");
    assert_eq!(
        show(&panel),
        vec![
            "block      #12,345 (Minor)",
            "version    2.17",
            "status     SOFT_CONFIRMED",
            "fallback   in 16m40s",
            "forced maj in 1m30s",
            "uptime     1h02m",
            "requests   12.3/s now · 1.2/s 1m",
            "mempool    950 · headroom 50",
        ]
    );
    assert_eq!(panel.lines[2].spans[1].tone, Tone::Cyan);
    assert_eq!(panel.lines[3].spans[1].tone, Tone::Yellow);

    let panel = head_panel(&app.heads[1], &cfg(), at(0));
    assert_eq!(show(&panel), vec!["waiting for block details…"]);
}

#[test]
fn an_uptime_past_what_is_counted_shows_as_gone_by() {
    let mut app = app();
    app.heads[0].stats.as_mut().unwrap().uptime_seconds = u64::MAX;
    let panel = head_panel(&app.heads[0], &cfg(), at(0));
    assert!(show(&panel).contains(&"uptime     now".to_string()));
}

#[test]
fn the_confirmation_panel_shows_how_far_the_frontier_is_behind() {
    let mut app = app();
    let panel = confirmation_panel(&app.heads[0]);
    assert_eq!(
        show(&panel),
        vec![
            "tip blk    #12,345  SOFT_CONFIRMED",
            "hard blk   #12,000  (345 behind tip)",
            "last hard  10m05s ago  stack #7",
            "cadence    μ 302s · 20 blk/stack (max 31)",
            "soft lat   30ms avg over 55 blocks",
        ]
    );
    assert_eq!(panel.lines[2].spans[1].tone, Tone::Yellow);
    assert_eq!(
        show(&confirmation_panel(&app.heads[1])),
        vec!["tip blk    —", "hard blk   none hard-confirmed yet"]
    );
    app.heads[0].hard_tip = Some(99_999);
    app.heads[0].stats.as_mut().unwrap().stacks.last_stack_number = -1;
    let lines = show(&confirmation_panel(&app.heads[0]));
    assert_eq!(lines[1], "hard blk   #99,999  (0 behind tip)");
    assert_eq!(lines[2], "last hard  10m05s ago  no stacks yet");
}

#[test]
fn heads_stand_side_by_side_with_their_skew() {
    let mut app = app();
    assert_eq!(tip_skew(&app), None);
    let panel = heads_panel(&app);
    assert_eq!((panel.title.as_str(), panel.accent), ("HEADS", Tone::Green));
    let row = |line: &Line| -> Vec<String> { line.spans.iter().map(show_span).collect() };
    assert_eq!(
        row(&panel.lines[0]),
        vec!["▶", "head-0", "#12,345", "#12,000", "12.3", "active"]
    );
    assert_eq!(row(&panel.lines[1]), vec![" ", "head-1", "—", "—", "—", "?"]);
    assert_eq!(panel.lines[0].spans[5].tone, Tone::Green);
    assert_eq!(panel.lines[1].spans[5].tone, Tone::Yellow);

    for (other, title, tone) in [
        (12_335u64, "HEADS · skew 10 blk", Tone::Green),
        (12_356, "HEADS · skew 11 blk", Tone::Yellow),
        (13_446, "HEADS · skew 1,101 blk", Tone::Red),
    ] {
        app.heads[1].latest_block = Some(block(other));
        app.heads[1].reachable = Some(false);
        let panel = heads_panel(&app);
        assert_eq!((panel.title.as_str(), panel.accent), (title, tone));
        assert_eq!(panel.lines[1].spans[5].tone, Tone::Red);
    }
}

#[test]
fn throughput_shows_the_newest_samples_that_fit() {
    let app = app();
    let t = throughput_panel(&app.heads[0], 12, 3);
    assert_eq!(t.headline, "12");
    let rows: Vec<String> = t
        .rows
        .iter()
        .map(|r| show_span(&r.label) + &show_span(&r.text))
        .collect();
    assert_eq!(
        rows,
        vec![
            "req/s        12.3  1m    1.2 · 5m    5.0 · 15m   15.0",
            "blocks/s      0.4  1m    0.3 · 5m    5.0 · 15m   15.0",
            "mempool        950",
        ]
    );
    assert_eq!(t.rows[0].samples, vec![67, 68, 69]);
    assert_eq!(t.rows[2].tone, Tone::Yellow);

    let t = throughput_panel(&app.heads[1], 99, 3);
    assert_eq!((t.headline.as_str(), t.rows.len()), ("0", 0));
}

#[test]
fn consensus_shows_how_full_the_window_is() {
    let mut app = app();
    let c = consensus_panel(&app.heads[0]).unwrap();
    assert_eq!((c.gauge.filled, c.gauge.capacity), (950, 1_000));
    assert_eq!(c.gauge.label, "950 / 1,000");
    assert_eq!(c.gauge.tone, Tone::Red);
    assert_eq!(show_line(&c.headroom), "headroom   50  leader drain -4");
    assert_eq!(c.headroom.spans[1].tone, Tone::Red);
    let lines: Vec<String> = c.lines.iter().map(show_line).collect();
    assert_eq!(
        lines,
        vec![
            "rejects    screening 1,000 · backpressure 2",
            "timings    lead 10ms · replay 20ms · soft 30ms",
            "blocks     minor 1,500 · major 3 · 2.2 req/blk (max 40)",
            "accepted   1,234,567 local requests",
        ]
    );
    assert_eq!(c.lines[0].spans[1].tone, Tone::Yellow);
    assert!(consensus_panel(&app.heads[1]).is_none());

    app.heads[0].max_headroom = 0;
    let s = app.heads[0].stats.as_mut().unwrap();
    s.mempool_size = -5;
    s.sequencer_headroom = -6;
    let c = consensus_panel(&app.heads[0]).unwrap();
    assert_eq!((c.gauge.filled, c.gauge.capacity), (0, 1));
    assert_eq!(c.gauge.tone, Tone::Green);
    assert_eq!(c.headroom.spans[1].tone, Tone::Text);
}

/// The gauge's thresholds are nine tenths and six tenths, as a division would have them.
#[test]
fn the_gauge_changes_colour_as_the_ratio_does() {
    for capacity in [1i64, 10, 99, 1_000, 123_457, 1 << 40, 100_000_000_000_000_000] {
        for filled in [0, 6 * capacity / 10, 6 * capacity / 10 + 1, 9 * capacity / 10, 9 * capacity / 10 + 1, capacity] {
            let mut app = app();
            app.heads[0].max_headroom = capacity;
            let s = app.heads[0].stats.as_mut().unwrap();
            s.mempool_size = filled;
            s.sequencer_headroom = -filled;
            let ratio = (filled as f64 / capacity as f64).clamp(0.0, 1.0);
            let want = if ratio > 0.9 {
                Tone::Red
            } else if ratio > 0.6 {
                Tone::Yellow
            } else {
                Tone::Green
            };
            let gauge = consensus_panel(&app.heads[0]).unwrap().gauge;
            assert_eq!(gauge.tone, want, "{filled} of {capacity}");
        }
    }
    // One past nine tenths of so large a window is nine tenths, in double precision.
    let mut app = app();
    app.heads[0].max_headroom = 100_000_000_000_000_000;
    let s = app.heads[0].stats.as_mut().unwrap();
    s.mempool_size = 90_000_000_000_000_001;
    s.sequencer_headroom = 0;
    let gauge = consensus_panel(&app.heads[0]).unwrap().gauge;
    assert_eq!(gauge.tone, Tone::Yellow);
}

#[test]
fn request_sources_are_listed_with_the_head_first() {
    let app = app();
    let rows: Vec<Vec<String>> = sources_table(&app.heads[0])
        .iter()
        .map(|l| l.spans.iter().map(show_span).collect())
        .collect();
    assert_eq!(
        rows,
        vec![
            vec!["local", "1,234,567", "12.3", "1.2", "5.0", "● self"],
            vec!["peer 1", "9", "0.5", "0.5", "5.0", "● live"],
            vec!["peer -2", "0", "0.0", "0.0", "5.0", "○ idle"],
        ]
    );
    assert!(sources_table(&app.heads[1]).is_empty());
}

#[test]
fn the_slowest_blocks_are_shown_by_colour() {
    let app = app();
    let table = slowest_table(&app.heads[0]);
    assert_eq!(table.len(), 8);
    let cells: Vec<String> = table[0].spans.iter().map(show_span).collect();
    assert_eq!(cells, vec!["#1,000", "1,500ms", "0 reqs"]);
    let tones: Vec<Tone> = table.iter().take(3).map(|l| l.spans[1].tone).collect();
    assert_eq!(tones, vec![Tone::Red, Tone::Yellow, Tone::Green]);
    assert!(slowest_table(&app.heads[1]).is_empty());
}

#[test]
fn the_history_pairs_a_clear_with_its_raise() {
    let mut app = app();
    let panel = history_panel(&app.alert_log);
    assert_eq!(panel.title, "ALERT HISTORY (0)");
    assert_eq!(show(&panel), vec!["no alert transitions recorded yet"]);

    for e in [
        event(0, "a", true, false),
        event(10, "b", false, false),
        event(100, "a", true, false),
        event(175, "a", true, true),
        event(5, "b", false, true),
        event(200, "c", false, true),
    ] {
        app.alert_log.push_back(e);
    }
    let panel = history_panel(&app.alert_log);
    assert_eq!(panel.title, "ALERT HISTORY (6)");
    assert_eq!(
        show(&panel),
        vec![
            "01-01 00:03:20  ✓ cleared c text",
            "01-01 00:00:05  ✓ cleared b text  · lasted 0s",
            "01-01 00:02:55  ✓ cleared a text  · lasted 1m15s",
            "01-01 00:01:40  ✗ raised  a text",
            "01-01 00:00:10  ! raised  b text",
            "01-01 00:00:00  ✗ raised  a text",
        ]
    );
}

#[test]
fn the_snapshot_describes_every_head() {
    let mut app = app();
    raise(&mut app, "a", true);
    raise(&mut app, "b", false);
    app.alert_log.push_back(event(400, "a", true, false));
    app.alert_log.push_back(event(450, "x", false, true));
    let snap = build_at(&app, at(1_000));
    assert_eq!(snap.generated_at, 1_000);
    let alerts: Vec<_> = snap.alerts.iter().map(|a| (a.crit, a.active_secs)).collect();
    assert_eq!(alerts, vec![(true, Some(600)), (false, None)]);
    let log: Vec<_> = snap.alert_log.iter().map(|e| (e.at, e.cleared)).collect();
    assert_eq!(log, vec![(450, true), (400, false)]);

    let h = &snap.heads[0];
    assert_eq!(h.name, "head-0");
    assert_eq!(h.reachable, Some(true));
    assert_eq!(h.hard_tip, Some(12_000));
    let tip = h.tip.as_ref().unwrap();
    assert_eq!(tip.version, "2.17");
    assert_eq!(tip.fallback_in_secs, Some(1_000));
    let s = h.stats.as_ref().unwrap();
    assert_eq!((s.minor, s.mempool, s.headroom, s.secs_since_hard), (1_500, 950, 50, 605));
    assert_eq!(f64::from_bits(s.soft_ms.bits), 30.0);
    assert_eq!(h.req_hist.len(), 60);
    assert_eq!(h.req_hist[0], 10);
    let peers: Vec<_> = h
        .peers
        .as_ref()
        .unwrap()
        .iter()
        .map(|p| (p.source, p.live))
        .collect();
    assert_eq!(
        peers,
        vec![
            (Source::Local, true),
            (Source::Peer(1), true),
            (Source::Peer(-2), false)
        ]
    );
    assert_eq!(h.slowest.as_ref().unwrap().len(), 8);

    let h = &snap.heads[1];
    assert!(h.tip.is_none() && h.stats.is_none() && h.peers.is_none() && h.slowest.is_none());
    assert!(build(&app).generated_at > 1_600_000_000);
}

#[test]
fn the_snapshot_carries_the_newest_fifty_events() {
    let mut app = app();
    for i in 0..60 {
        app.alert_log.push_back(event(i, "k", false, false));
    }
    let snap = build_at(&app, at(0));
    assert_eq!(snap.alert_log.len(), 50);
    assert_eq!(snap.alert_log[0].at, 59);
    assert_eq!(snap.alert_log[49].at, 10);
}
