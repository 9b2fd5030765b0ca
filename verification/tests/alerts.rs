//! Alert rules and their transitions.

use hydrozoa_tools::top::alerts::{compute, compute_at};
use hydrozoa_tools::top::clock::Timestamp;
use hydrozoa_tools::top::config::Config;
use hydrozoa_tools::top::control::{derive_alerts, refresh_alerts, refresh_with};
use hydrozoa_tools::top::ratio::{
    is_over, is_under, FIFTIETH, FIFTIETH_SCALE, MANTISSA_END, NINE_TENTHS, SIX_TENTHS, TENTH,
    TENTHS_SCALE, TENTH_SCALE,
};
use hydrozoa_tools::top::state::{
    Alert, AlertEvent, App, HeadStats, LatestBlockInfo, StackStats, ALERT_LOG_CAP,
};

fn cfg() -> Config {
    Config {
        heads: Vec::new(),
        transparent_background: false,
        hard_confirm_warn_secs: 1800,
        hard_confirm_crit_secs: 3600,
        fallback_warn_secs: 1800,
        fallback_crit_secs: 600,
    }
}

/// Only the three fields these rules read; everything else stays default.
fn stats(hard_age: i64, stacks_total: u64, headroom: i64) -> HeadStats {
    HeadStats {
        stacks: StackStats {
            total: stacks_total,
            seconds_since_last_hard_confirm: hard_age,
            ..Default::default()
        },
        sequencer_headroom: headroom,
        ..Default::default()
    }
}

/// One head, reachable and active, with whatever stats the case needs.
fn app_with(stats: Option<HeadStats>) -> App {
    let mut app = App::new(vec!["head-0".into()]);
    app.heads[0].reachable = Some(true);
    app.heads[0].ready = Some("active".into());
    app.heads[0].stats = stats;
    app
}

fn keys(alerts: &[Alert]) -> Vec<&str> {
    alerts.iter().map(|a| a.key.as_str()).collect()
}

#[test]
fn a_healthy_head_raises_nothing() {
    assert!(compute(&app_with(Some(HeadStats::default())), &cfg(), 0).is_empty());
}

/// A head that has never been polled is unknown, not down. Reporting it as down would make every
/// start of the dashboard flash a critical alert.
#[test]
fn an_unpolled_head_is_not_reported_as_down() {
    let app = App::new(vec!["head-0".into()]);
    assert!(app.heads[0].reachable.is_none());
    assert!(compute(&app, &cfg(), 0).is_empty());
}

#[test]
fn an_unreachable_head_is_critical() {
    let mut app = app_with(None);
    app.heads[0].reachable = Some(false);
    let out = compute(&app, &cfg(), 0);
    assert_eq!(keys(&out), vec!["head-0:unreachable"]);
    assert!(out[0].crit);
}

/// Unreachable short-circuits: a head we cannot reach has stale stats, and deriving further alerts
/// from them would report yesterday's state as now.
#[test]
fn an_unreachable_head_raises_nothing_else() {
    let mut app = app_with(Some(stats(99_999, 1, 0)));
    app.heads[0].reachable = Some(false);
    assert_eq!(compute(&app, &cfg(), 0).len(), 1);
}

#[test]
fn a_head_not_active_is_critical() {
    let mut app = app_with(Some(HeadStats::default()));
    app.heads[0].ready = Some("initializing".into());
    assert_eq!(keys(&compute(&app, &cfg(), 0)), vec!["head-0:status"]);
}

#[test]
fn hard_confirmation_age_escalates_through_warn_to_crit() {
    for (age, want_crit) in [(1799, None), (1800, Some(false)), (3600, Some(true))] {
        let out = compute(&app_with(Some(stats(age, 1, 0))), &cfg(), 0);
        match want_crit {
            None => assert!(out.is_empty(), "age {age} should raise nothing"),
            Some(crit) => {
                assert_eq!(keys(&out), vec!["head-0:hard-confirm"], "age {age}");
                assert_eq!(out[0].crit, crit, "age {age}");
            }
        }
    }
}

/// A head with no stacks yet and no elapsed time has not missed anything. Without this guard a
/// fresh head reports a hard-confirm alert at boot.
#[test]
fn a_head_with_no_stacks_yet_raises_no_hard_confirm_alert() {
    let out = compute(&app_with(Some(HeadStats::default())), &cfg(), 0);
    assert!(!keys(&out).contains(&"head-0:hard-confirm"));
}

/// Headroom is judged against the most ever seen, so it means nothing until a baseline exists --
/// otherwise a head at boot reads as exhausted.
#[test]
fn headroom_is_not_judged_before_a_baseline_exists() {
    let mut app = app_with(Some(HeadStats::default()));
    app.heads[0].max_headroom = 0;
    assert!(!keys(&compute(&app, &cfg(), 0)).contains(&"head-0:headroom"));
}

#[test]
fn headroom_escalates_as_the_window_fills() {
    for (headroom, want) in [(500, None), (50, Some(false)), (5, Some(true))] {
        let mut app = app_with(Some(stats(0, 0, headroom)));
        app.heads[0].max_headroom = 1000;
        let out = compute(&app, &cfg(), 0);
        let found = out.iter().find(|a| a.key == "head-0:headroom");
        match want {
            None => assert!(found.is_none(), "headroom {headroom}"),
            Some(crit) => assert_eq!(found.expect("expected alert").crit, crit),
        }
    }
}

#[test]
fn critical_alerts_sort_before_warnings() {
    // hard-confirm at the warn threshold, headroom deep into crit.
    let mut app = app_with(Some(stats(1800, 1, 5)));
    app.heads[0].max_headroom = 1000;
    let out = compute(&app, &cfg(), 0);
    assert!(out.len() >= 2, "expected both alerts, got {:?}", keys(&out));
    assert!(out[0].crit, "the critical alert should lead");
    assert!(!out[out.len() - 1].crit);
}

/// The display text carries live counters, so transition tracking diffs on the key instead. Two
/// heads must therefore never share one.
#[test]
fn alert_keys_are_unique_per_head() {
    let mut app = App::new(vec!["head-0".into(), "head-1".into()]);
    for h in app.heads.iter_mut() {
        h.reachable = Some(false);
    }
    let out = compute(&app, &cfg(), 0);
    assert_eq!(keys(&out), vec!["head-0:unreachable", "head-1:unreachable"]);
}

fn at(secs: i64) -> Timestamp {
    Timestamp::new(secs, 0).unwrap()
}

fn texts(alerts: &[Alert]) -> Vec<&str> {
    alerts.iter().map(|a| a.text.as_str()).collect()
}

#[test]
fn every_rule_has_its_text() {
    let mut app = app_with(Some(stats(4000, 0, 1)));
    app.heads[0].ready = Some("finalized".into());
    app.heads[0].max_headroom = 1000;
    app.heads[0].backpressure_seen_at = Some(0);
    app.heads[0]
        .stats
        .as_mut()
        .unwrap()
        .local_requests
        .rejected_backpressure = 17;
    app.heads[0].latest_block = Some(block(Some(at(1000))));
    let out = compute_at(&app, &cfg(), at(400), 59_999_999_999);
    assert_eq!(
        texts(&out),
        vec![
            "head-0: status finalized",
            "head-0: no hard confirmation for 4000s",
            "head-0: sequencer headroom exhausted (1)",
            "head-0: fallback tx window opens in 10m00s — head at risk of closing",
            "head-0: backpressure rejections in the last minute (total 17)",
        ]
    );
    assert_eq!(
        keys(&out),
        vec![
            "head-0:status",
            "head-0:hard-confirm",
            "head-0:headroom",
            "head-0:fallback",
            "head-0:backpressure",
        ]
    );
}

fn block(fallback_at: Option<Timestamp>) -> LatestBlockInfo {
    LatestBlockInfo {
        number: 1,
        block_type: "minor".into(),
        status: "SOFT_CONFIRMED".into(),
        version_major: 0,
        version_minor: 0,
        fallback_at,
        forced_major_at: None,
    }
}

#[test]
fn a_fallback_deadline_escalates_as_it_nears() {
    for (left, want) in [
        (1801, None),
        (1800, Some((false, "head-0: fallback tx window opens in 30m00s"))),
        (
            600,
            Some((true, "head-0: fallback tx window opens in 10m00s — head at risk of closing")),
        ),
        (
            -5,
            Some((true, "head-0: fallback tx window opens in now — head at risk of closing")),
        ),
    ] {
        let mut app = app_with(None);
        app.heads[0].latest_block = Some(block(Some(at(50_000 + left))));
        let out = compute_at(&app, &cfg(), at(50_000), 0);
        match want {
            None => assert!(out.is_empty()),
            Some((crit, text)) => {
                assert_eq!(out.len(), 1);
                assert_eq!(out[0].crit, crit);
                assert_eq!(out[0].text, text);
            }
        }
    }
}

#[test]
fn backpressure_is_a_warning_for_a_minute() {
    let mut app = app_with(Some(HeadStats::default()));
    app.heads[0].backpressure_seen_at = Some(5_000_000_000);
    let count = |monotonic| compute_at(&app, &cfg(), at(0), monotonic).len();
    assert_eq!(count(5_000_000_000), 1);
    assert_eq!(count(64_999_999_999), 1);
    assert_eq!(count(65_000_000_000), 0);
    assert_eq!(count(0), 1);
}

/// The thresholds are a fiftieth and a tenth of the baseline, as a division would have them.
#[test]
fn headroom_thresholds_are_those_of_the_ratio() {
    for most in [1i64, 3, 10, 49, 50, 51, 1000, 12_345, 999_999_937, 4_503_599_627_370_495] {
        let mut candidates = vec![-1, 0, 1, most];
        for part in [most / 50, most / 10] {
            candidates.extend([part - 1, part, part + 1]);
        }
        for left in candidates {
            let mut app = app_with(Some(stats(0, 0, left)));
            app.heads[0].max_headroom = most;
            let out = compute_at(&app, &cfg(), at(0), 0);
            let ratio = left as f64 / most as f64;
            let want = if ratio < 0.02 {
                Some(true)
            } else if ratio < 0.10 {
                Some(false)
            } else {
                None
            };
            assert_eq!(out.first().map(|a| a.crit), want, "{left} of {most}");
        }
    }
}

/// Around every threshold, on counts of every size, the comparison is that of a division of doubles.
#[test]
fn thresholds_are_compared_in_double_precision() {
    let mut wholes = vec![1u64, 2, 7, 10, 50, 1000, 999_999_937];
    for bit in 49..64 {
        wholes.extend([(1u64 << bit) - 1, 1 << bit, (1 << bit) + 1, (1 << bit) + 0x1234_5678_9abc]);
    }
    wholes.extend([100_000_000_000_000_000, i64::MAX as u64, u64::MAX - 1, u64::MAX]);
    for whole in wholes {
        let of = |n: u128, d: u128| (u128::from(whole) * n / d) as u64;
        for part in [0, of(1, 50), of(1, 10), of(6, 10), of(9, 10), whole] {
            for step in 0..400u64 {
                for part in [part.saturating_sub(step), part.saturating_add(step)] {
                    let ratio = part as f64 / whole as f64;
                    let seen = (
                        is_under(part, whole, FIFTIETH, FIFTIETH_SCALE),
                        is_under(part, whole, TENTH, TENTH_SCALE),
                        is_over(part, whole, SIX_TENTHS, TENTHS_SCALE),
                        is_over(part, whole, NINE_TENTHS, TENTHS_SCALE),
                    );
                    let want = (ratio < 0.02, ratio < 0.10, ratio > 0.6, ratio > 0.9);
                    assert_eq!(seen, want, "{part} of {whole}");
                }
            }
        }
    }
}

#[test]
fn thresholds_are_the_nearest_doubles() {
    for (mantissa, scale, threshold) in [
        (FIFTIETH, FIFTIETH_SCALE, 0.02),
        (TENTH, TENTH_SCALE, 0.1),
        (SIX_TENTHS, TENTHS_SCALE, 0.6),
        (NINE_TENTHS, TENTHS_SCALE, 0.9),
    ] {
        assert_eq!(mantissa as f64 / scale as f64, threshold);
        assert!((1u64 << 52) < mantissa && mantissa < MANTISSA_END);
    }
}

fn alert(key: &str, text: &str, crit: bool) -> Alert {
    Alert {
        key: key.into(),
        crit,
        text: text.into(),
    }
}

fn log(app: &App) -> Vec<(i64, String, bool, bool)> {
    app.alert_log
        .iter()
        .map(|e| (e.at_unix, e.text.clone(), e.crit, e.cleared))
        .collect()
}

#[test]
fn transitions_are_logged_by_key() {
    let mut app = App::new(vec!["h".into()]);
    assert!(refresh_with(&mut app, vec![alert("a", "a 1", true), alert("b", "b", false)], 10));
    assert_eq!(
        log(&app),
        vec![
            (10, "a 1".into(), true, false),
            (10, "b".into(), false, false)
        ]
    );
    // A live counter in the text does not flap the alert.
    assert!(!refresh_with(&mut app, vec![alert("b", "b", false), alert("a", "a 2", true)], 11));
    assert_eq!(app.alert_log.len(), 2);
    // What is cleared is logged with the text it last had.
    assert!(refresh_with(&mut app, vec![alert("b", "b", false), alert("c", "c", false)], 12));
    assert_eq!(
        log(&app)[2..],
        [
            (12, "c".into(), false, false),
            (12, "a 2".into(), true, true)
        ]
    );
    assert_eq!(keys(&app.alerts), vec!["b", "c"]);
}

#[test]
fn the_log_keeps_the_newest_events() {
    let mut app = App::new(vec!["h".into()]);
    for i in 0..ALERT_LOG_CAP as i64 {
        app.alert_log.push_back(AlertEvent {
            at_unix: i,
            key: "k".into(),
            text: "t".into(),
            crit: false,
            cleared: false,
        });
    }
    assert!(refresh_with(&mut app, vec![alert("x", "x", false), alert("y", "y", false)], 999));
    assert_eq!(app.alert_log.len(), ALERT_LOG_CAP);
    assert_eq!(app.alert_log[0].at_unix, 2);
    assert_eq!(app.alert_log[ALERT_LOG_CAP - 1].text, "y");
}

#[test]
fn a_one_shot_run_derives_alerts_without_logging_them() {
    let mut app = app_with(None);
    app.heads[0].reachable = Some(false);
    derive_alerts(&mut app, &cfg(), 0);
    assert_eq!(keys(&app.alerts), vec!["head-0:unreachable"]);
    assert!(app.alert_log.is_empty());

    assert!(!refresh_alerts(&mut app, &cfg(), 0));
    app.heads[0].reachable = Some(true);
    assert!(refresh_alerts(&mut app, &cfg(), 0));
    assert!(app.alerts.is_empty());
    assert!(app.alert_log[0].cleared);
    assert!(app.alert_log[0].at_unix > 1_600_000_000);
}
