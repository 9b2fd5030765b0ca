//! State, polling, the search for the newest block, keys and the saved state.

use hydrozoa_tools::top::clock::{parse_iso, stamp_text, Timestamp, CALENDAR_END, CALENDAR_START};
use hydrozoa_tools::top::config::{choose_config, first_screen, prints_json};
use hydrozoa_tools::top::control::{all_probed, on_key, wait_for_heads, Key, Wait};
use hydrozoa_tools::top::persist::{keep, restore, Persisted};
use hydrozoa_tools::top::poll::{
    apply_poll, block_info, block_url, build_version, is_final_status, is_hard_confirmed,
    needs_version, parse_block, read_block, ready_status, ready_url, stats_url, version_url,
    BlockDetails, Sample,
};
use hydrozoa_tools::top::search::{BlockWatch, Search};
use hydrozoa_tools::top::state::{
    AlertEvent, App, HeadState, HeadStats, LocalRequestStats, Reading, Ring, Screen,
    ALERT_LOG_CAP, HISTORY,
};
use std::collections::VecDeque;

#[test]
fn screens_have_keys_and_go_round() {
    assert_eq!(Screen::from_key('c'), Some(Screen::Consensus));
    assert_eq!(Screen::from_key('a'), Some(Screen::Alerts));
    assert_eq!(Screen::from_key('C'), None);
    for s in Screen::ALL {
        assert_eq!(Screen::from_key(s.key()), Some(s));
        assert_eq!(s.next().prev(), s);
        assert_ne!(s.next(), s);
        assert_eq!(s.next().next(), s);
    }
    assert_eq!(Screen::default(), Screen::Consensus);
    assert_eq!(Screen::Consensus.title(), "consensus");
    assert_eq!(Screen::Alerts.title(), "alerts");
}

#[test]
fn a_history_keeps_its_newest_samples() {
    let mut ring = Ring::default();
    assert!(ring.tail(5).is_empty());
    for i in 0..HISTORY as u64 + 3 {
        ring.push(i);
    }
    assert_eq!(ring.tail(3), vec![600, 601, 602]);
    let all = ring.tail(usize::MAX);
    assert_eq!(all.len(), HISTORY);
    assert_eq!(all[0], 3);
    assert!(ring.tail(0).is_empty());
}

#[test]
fn an_event_without_a_key_goes_by_its_text() {
    let mut event = AlertEvent {
        at_unix: 0,
        key: "k".into(),
        text: "t".into(),
        crit: false,
        cleared: false,
    };
    assert_eq!(event.ident(), "k");
    event.key.clear();
    assert_eq!(event.ident(), "t");
}

#[test]
fn a_reading_is_positive_as_a_number_is() {
    for x in [
        0.0,
        -0.0,
        1.5,
        -1.5,
        f64::MIN_POSITIVE,
        5e-324,
        f64::INFINITY,
        f64::NEG_INFINITY,
        f64::NAN,
        -f64::NAN,
    ] {
        let reading = Reading { bits: x.to_bits() };
        assert_eq!(reading.is_positive(), x > 0.0, "{x}");
    }
}

#[test]
fn moments_are_read_and_told_apart_as_the_calendar_has_them() {
    let t = parse_iso("2024-02-29T12:00:00.5+01:00").unwrap();
    assert_eq!((t.unix(), t.subsec_nanos()), (1_709_204_400, 500_000_000));
    assert!(parse_iso("yesterday").is_none());
    assert!(parse_iso("2023-02-29T12:00:00Z").is_none());

    let at = |secs, nanos| Timestamp::new(secs, nanos).unwrap();
    assert_eq!(at(10, 0).seconds_since(at(3, 0)), 7);
    assert_eq!(at(10, 0).seconds_since(at(3, 1)), 6);
    assert_eq!(at(3, 1).seconds_since(at(10, 0)), -6);
    assert_eq!(at(3, 0).seconds_since(at(3, 999_999_999)), 0);
    assert_eq!(at(-1, 0).seconds_since(at(1, 0)), -2);
}

#[test]
fn a_leap_second_counts() {
    let leap = parse_iso("2016-12-31T23:59:60.5Z").unwrap();
    assert_eq!(leap.subsec_nanos(), 1_500_000_000);
    let before = parse_iso("2016-12-31T23:59:50Z").unwrap();
    assert_eq!(leap.seconds_since(before), 10);
    let later = parse_iso("2017-01-02T23:59:59.9Z").unwrap();
    let d = |t: Timestamp| chrono::DateTime::from_timestamp(t.unix(), t.subsec_nanos()).unwrap();
    for (a, b) in [(leap, before), (before, leap), (later, leap), (leap, later)] {
        assert_eq!(a.seconds_since(b), (d(a) - d(b)).num_seconds());
    }
    assert_eq!(leap.clock_text(), "23:59:60 UTC");
}

#[test]
fn the_calendar_has_bounds() {
    let first = chrono::DateTime::<chrono::Utc>::MIN_UTC.timestamp();
    let last = chrono::DateTime::<chrono::Utc>::MAX_UTC.timestamp();
    for (secs, nanos) in [
        (first, 0),
        (first - 1, 0),
        (last, 999_999_999),
        (last, 1_999_999_999),
        (last + 1, 0),
        (59, 1_000_000_000),
        (58, 1_000_000_000),
        (-1, 1_000_000_000),
        (-2, 1_000_000_000),
        (0, 2_000_000_000),
        (i64::MIN, 0),
        (i64::MAX, 0),
    ] {
        assert_eq!(
            Timestamp::new(secs, nanos).is_some(),
            chrono::DateTime::from_timestamp(secs, nanos).is_some(),
            "{secs} {nanos}"
        );
    }
}

#[test]
fn moments_are_shown() {
    assert_eq!(Timestamp::new(45_296, 0).unwrap().clock_text(), "12:34:56 UTC");
    assert_eq!(Timestamp::new(-1, 0).unwrap().clock_text(), "23:59:59 UTC");
    assert_eq!(stamp_text(1_700_000_000), "11-14 22:13:20");
    assert_eq!(stamp_text(i64::MAX), "?");
    assert_eq!(stamp_text(i64::MIN), "?");
    for secs in [CALENDAR_START, CALENDAR_END, 0, -1, 951_782_400] {
        for secs in [secs - 1, secs, secs + 1] {
            let shown = chrono::DateTime::from_timestamp(secs, 0)
                .map(|t| t.format("%m-%d %H:%M:%S").to_string());
            assert_eq!(stamp_text(secs), shown.unwrap_or("?".into()), "{secs}");
        }
    }
    assert!(Timestamp::now().unix() > 1_600_000_000);
}

fn document() -> serde_json::Value {
    serde_json::from_str(
        r#"{
            "number": 42,
            "blockType": "Major",
            "status": { "type": "HARD_CONFIRMED" },
            "header": {
                "versionMajor": 3,
                "versionMinor": -2,
                "fallbackTxStartTime": "2024-01-01T00:00:10Z",
                "forcedMajorBlockWakeupTime": "soon"
            }
        }"#,
    )
    .unwrap()
}

#[test]
fn a_block_is_summed_up() {
    let info = parse_block(&document());
    assert_eq!(info.number, 42);
    assert_eq!(info.block_type, "Major");
    assert_eq!(info.status, "HARD_CONFIRMED");
    assert_eq!((info.version_major, info.version_minor), (3, -2));
    assert_eq!(info.fallback_at.unwrap().unix(), 1_704_067_210);
    assert!(info.forced_major_at.is_none());
    assert!(is_hard_confirmed(&document()));

    let details = read_block(&document());
    assert_eq!(details.number, Some(42));
    assert_eq!(details.forced_major_at.as_deref(), Some("soon"));
}

#[test]
fn what_a_block_does_not_say_has_a_default() {
    let nothing = || BlockDetails {
        number: None,
        block_type: None,
        status: None,
        version_major: None,
        version_minor: None,
        fallback_at: None,
        forced_major_at: None,
    };
    for info in [
        block_info(nothing()),
        parse_block(&serde_json::Value::Null),
        parse_block(&serde_json::from_str(r#"{"number": -1, "status": "x", "header": []}"#).unwrap()),
    ] {
        assert_eq!(info.number, 0);
        assert_eq!((info.block_type.as_str(), info.status.as_str()), ("?", "?"));
        assert_eq!((info.version_major, info.version_minor), (-1, -1));
        assert!(info.fallback_at.is_none() && info.forced_major_at.is_none());
    }
    assert!(!is_hard_confirmed(&serde_json::Value::Null));
    assert!(is_final_status(Some("HARD_CONFIRMED".into())));
    assert!(!is_final_status(Some("SOFT_CONFIRMED".into())));
    assert!(!is_final_status(None));
}

#[test]
fn readiness_and_version_are_read_by_name() {
    let v: serde_json::Value =
        serde_json::from_str(r#"{"status": "active", "version": "1.2.3"}"#).unwrap();
    assert_eq!(ready_status(&v).as_deref(), Some("active"));
    assert_eq!(build_version(&v).as_deref(), Some("1.2.3"));
    assert_eq!(ready_status(&serde_json::Value::Null), None);
}

#[test]
fn a_heads_api_is_asked_by_path() {
    assert_eq!(stats_url("http://h"), "http://h/head/stats");
    assert_eq!(ready_url("http://h"), "http://h/ready");
    assert_eq!(version_url("http://h"), "http://h/version");
    assert_eq!(block_url("http://h", 1234), "http://h/head/blocks/1234");
}

fn sample(mempool: i64, headroom: i64, rejected: u64) -> Sample {
    Sample {
        stats: HeadStats {
            local_requests: LocalRequestStats {
                rejected_backpressure: rejected,
                ..Default::default()
            },
            mempool_size: mempool,
            sequencer_headroom: headroom,
            ..Default::default()
        },
        requests: 7,
        blocks_x10: 12,
    }
}

#[test]
fn a_round_of_polling_updates_one_head() {
    let mut h = HeadState::new("h".into());
    assert!(needs_version(&h));
    apply_poll(&mut h, Some(sample(-3, 50, 5)), Some("active".into()), Some("1.0".into()), 100);
    assert_eq!(h.reachable, Some(true));
    assert_eq!(h.stats_at, Some(100));
    assert_eq!(h.req_hist.tail(9), vec![7]);
    assert_eq!(h.blk_hist_x10.tail(9), vec![12]);
    assert_eq!(h.mempool_hist.tail(9), vec![0]);
    assert_eq!(h.max_headroom, 50);
    assert_eq!(h.backpressure_seen_at, None);
    assert!(!needs_version(&h));

    apply_poll(&mut h, Some(sample(4, 20, 6)), None, None, 200);
    assert_eq!(h.max_headroom, 50);
    assert_eq!(h.backpressure_seen_at, Some(200));
    assert_eq!(h.ready.as_deref(), Some("active"));
    assert_eq!(h.version.as_deref(), Some("1.0"));
    assert_eq!(h.mempool_hist.tail(9), vec![0, 4]);

    // A head that does not answer is down, but what it last said stays.
    apply_poll(&mut h, None, None, None, 300);
    assert_eq!(h.reachable, Some(false));
    assert_eq!(h.ready, None);
    assert_eq!(h.stats_at, Some(200));
    assert_eq!(h.stats.as_ref().unwrap().mempool_size, 4);
    assert_eq!(h.backpressure_seen_at, Some(200));

    apply_poll(&mut h, None, Some("finalized".into()), None, 400);
    assert_eq!(h.reachable, Some(false));
    assert_eq!(h.ready.as_deref(), Some("finalized"));
}

fn find(hint: u64, frontier: u64) -> (Option<u64>, u32) {
    let mut search = Search::begin(hint);
    let mut asked = 0;
    while let Some(n) = search.next_block() {
        asked += 1;
        search = search.answer(n <= frontier);
    }
    (search.outcome(), asked)
}

#[test]
fn the_search_is_exact_from_every_hint() {
    let far = [1 << 40, 1 << 63, u64::MAX - 1, u64::MAX];
    let near = [0u64, 1, 2, 3, 7, 8, 50, 100, 4095, 4096, 4097, 69_999, 70_000, 70_001];
    for frontier in near.into_iter().chain(far) {
        for hint in near.into_iter().chain(far) {
            let (found, asked) = find(hint, frontier);
            let want = if frontier == 0 { None } else { Some(frontier) };
            assert_eq!(found, want, "frontier {frontier}, hint {hint}");
            let log = (u128::from(hint.abs_diff(frontier)) + 2).ilog2();
            assert!(asked <= 2 * log + 3, "frontier {frontier}, hint {hint}: {asked} asked for");
        }
    }
}

#[test]
fn the_search_strides_ever_further_and_closes_in() {
    let path = |hint: u64, frontier: u64| {
        let mut search = Search::begin(hint);
        let mut asked = Vec::new();
        while let Some(n) = search.next_block() {
            asked.push(n);
            search = search.answer(n <= frontier);
        }
        asked
    };
    assert_eq!(path(10, 10), [10, 11]);
    assert_eq!(path(10, 20), [10, 11, 13, 17, 25, 21, 19, 20]);
    assert_eq!(path(100, 90), [100, 99, 97, 93, 85, 89, 91, 90]);
    assert_eq!(path(3, 0), [3, 2, 1]);
    assert_eq!(path(1_000_000, 1).len(), 39);
}

#[test]
fn the_search_reaches_the_last_number() {
    let mut search = Search::begin(u64::MAX - 2);
    search = search.answer(true);
    assert_eq!(search.next_block(), Some(u64::MAX - 1));
    search = search.answer(true);
    assert_eq!(search.next_block(), Some(u64::MAX));
    search = search.answer(true);
    assert_eq!(search.outcome(), Some(u64::MAX));
}

#[test]
fn the_frontier_is_searched_every_fifth_round() {
    let mut watch = BlockWatch::new();
    assert_eq!((watch.tip_hint(), watch.hard_hint()), (1, 1));
    assert!(!watch.tip_found(None));
    let mut due = Vec::new();
    for round in 0..11u64 {
        assert!(watch.tip_found(Some(100 + round)));
        assert_eq!(watch.tip_hint(), 100 + round);
        if watch.hard_due() {
            due.push(round);
            watch.hard_found(Some(round));
        }
        watch.end_round();
    }
    assert_eq!(due, vec![0, 5, 10]);
    assert_eq!(watch.hard_hint(), 10);
    watch.hard_found(None);
    assert_eq!(watch.hard_hint(), 1);
}

#[test]
fn keys_move_the_selection_and_the_screen() {
    let mut app = App::new(vec!["a".into(), "b".into(), "c".into()]);
    let mut press = |key, control| {
        let quit = on_key(&mut app, key, control);
        (quit, app.selected, app.screen)
    };
    let (alerts, consensus) = (Screen::Alerts, Screen::Consensus);
    assert_eq!(press(Key::Tab, false), (false, 1, consensus));
    assert_eq!(press(Key::BackTab, false), (false, 0, consensus));
    assert_eq!(press(Key::BackTab, false), (false, 2, consensus));
    assert_eq!(press(Key::Tab, false), (false, 0, consensus));
    assert_eq!(press(Key::Right, false), (false, 0, alerts));
    assert_eq!(press(Key::Left, false), (false, 0, consensus));
    assert_eq!(press(Key::Char('a'), false), (false, 0, alerts));
    assert_eq!(press(Key::Char('c'), false), (false, 0, consensus));
    assert_eq!(press(Key::Char('2'), false), (false, 0, alerts));
    assert_eq!(press(Key::Char('1'), false), (false, 0, consensus));
    assert_eq!(press(Key::Char('x'), false), (false, 0, consensus));
    assert_eq!(press(Key::Other, false), (false, 0, consensus));
    assert_eq!(press(Key::Char('a'), true), (false, 0, alerts));
    assert_eq!(press(Key::Char('c'), true), (true, 0, alerts));
    assert_eq!(press(Key::Char('q'), false), (true, 0, alerts));
    assert_eq!(press(Key::Escape, false), (true, 0, alerts));
}

#[test]
fn a_snapshot_waits_for_every_head_but_not_for_ever() {
    let mut app = App::new(vec!["a".into(), "b".into()]);
    assert_eq!(wait_for_heads(&app, false), Wait::Again);
    assert_eq!(wait_for_heads(&app, true), Wait::Print { complete: false });
    app.heads[0].reachable = Some(false);
    assert!(!all_probed(&app));
    app.heads[1].reachable = Some(true);
    assert!(all_probed(&app));
    assert_eq!(wait_for_heads(&app, true), Wait::Print { complete: true });
}

fn event(at_unix: i64) -> AlertEvent {
    AlertEvent {
        at_unix,
        key: "k".into(),
        text: "t".into(),
        crit: true,
        cleared: false,
    }
}

#[test]
fn the_saved_state_survives_a_restart() {
    let log: VecDeque<AlertEvent> = (0..3).map(event).collect();
    for screen in Screen::ALL {
        let (restored, again) = restore(keep(screen, &log));
        assert_eq!(restored, Some(screen));
        let times: Vec<i64> = again.iter().map(|e| e.at_unix).collect();
        assert_eq!(times, vec![0, 1, 2]);
    }
}

#[test]
fn a_saved_log_is_cut_to_what_fits() {
    let saved = Persisted {
        screen: Some('z'),
        alert_log: (0..ALERT_LOG_CAP as i64 + 7).map(event).collect(),
    };
    let (screen, log) = restore(saved);
    assert_eq!(screen, None);
    assert_eq!(log.len(), ALERT_LOG_CAP);
    assert_eq!(log[0].at_unix, 7);
    let (screen, log) = restore(Persisted::default());
    assert_eq!((screen, log.len()), (None, 0));
}

#[test]
fn the_first_config_found_is_used() {
    let s = |t: &str| Some(t.to_string());
    let given = vec!["x".to_string(), "y".to_string()];
    assert_eq!(choose_config(given.clone(), s("e"), s("h"), s("s")), given);
    assert_eq!(choose_config(vec![], s("e"), s("h"), s("s")), vec!["e"]);
    assert_eq!(choose_config(vec![], None, s("h"), s("s")), vec!["h"]);
    assert_eq!(choose_config(vec![], None, None, s("s")), vec!["s"]);
    assert!(choose_config(vec![], None, None, None).is_empty());
}

#[test]
fn the_screen_asked_for_comes_first() {
    let s = |t: &str| Some(t.to_string());
    assert_eq!(first_screen(s("a"), None), Screen::Alerts);
    assert_eq!(first_screen(s("consensus"), Some(Screen::Alerts)), Screen::Consensus);
    assert_eq!(first_screen(s("x"), Some(Screen::Alerts)), Screen::Alerts);
    assert_eq!(first_screen(s(""), None), Screen::Consensus);
    assert_eq!(first_screen(None, Some(Screen::Alerts)), Screen::Alerts);
    assert!(prints_json(true, true));
    assert!(prints_json(false, false));
    assert!(!prints_json(false, true));
}
