//! Alert rules: turn the current state into a ranked list of things an operator should act on.
//!
//! Every alert carries a stable `key` naming the condition, separate from the display text.
//! Transition tracking (raised/cleared, durations) diffs on the key, so a live counter in the text
//! does not flap the alert.

use crate::text::{decimal, duration, push_decimal, push_duration, push_signed, same_text, signed};
use crate::top::clock::{on_the_calendar, seconds_between, Timestamp};
use crate::top::config::Config;
use crate::top::ratio::{
    is_under, under, FIFTIETH, FIFTIETH_SCALE, MANTISSA_END, TENTH, TENTH_SCALE,
};
use crate::top::state::{alerts_view, Alert, AlertView, App, HeadState, HeadStats};
use vstd::prelude::*;

verus! {

/// An alert on a head: a key made of the head's name and the condition's, and a text.
pub open spec fn alert(
    name: Seq<char>,
    condition: Seq<char>,
    crit: bool,
    text: Seq<char>,
) -> AlertView {
    AlertView { key: name + condition, crit, text: name + text }
}

/// The rule on readiness: a head that is not active is critical.
pub open spec fn status_alert(h: HeadState) -> Option<AlertView> {
    match h.ready {
        Some(ready) => if ready@ == "active"@ {
            None
        } else {
            Some(alert(h.name@, ":status"@, true, ": status "@ + ready@))
        },
        None => None,
    }
}

/// The rule on liveness: how long since the last hard confirmation.
///
/// This is not a fallback proxy: actual fallback risk is [`fallback_alert`], which reads the head's
/// real deadline. These thresholds are absolute wall-clock, tuned to the expected stack cadence.
/// A head with no stacks yet and no elapsed time has not missed anything.
pub open spec fn hard_confirm_alert(h: HeadState, s: HeadStats, cfg: Config) -> Option<AlertView> {
    let age = s.stacks.seconds_since_last_hard_confirm;
    let text = ": no hard confirmation for "@ + signed(age as int) + "s"@;
    if s.stacks.total == 0 && age <= 0 {
        None
    } else if age >= cfg.hard_confirm_crit_secs {
        Some(alert(h.name@, ":hard-confirm"@, true, text))
    } else if age >= cfg.hard_confirm_warn_secs {
        Some(alert(h.name@, ":hard-confirm"@, false, text))
    } else {
        None
    }
}

/// Whether less than a threshold is left of the most headroom ever seen. A negative headroom always
/// is.
pub open spec fn left_under(left: i64, most: i64, mantissa: u64, scale: u64) -> bool {
    left < 0 || under(left as nat, most as nat, mantissa, scale)
}

/// The rule on the backpressure window: less than a fiftieth left is critical, less than a tenth
/// is a warning. What it is a part of is the most headroom ever seen, so it means nothing until a
/// baseline exists.
pub open spec fn headroom_alert(h: HeadState, s: HeadStats) -> Option<AlertView> {
    let left = s.sequencer_headroom;
    if h.max_headroom <= 0 {
        None
    } else if left_under(left, h.max_headroom, FIFTIETH, FIFTIETH_SCALE) {
        Some(
            alert(
                h.name@,
                ":headroom"@,
                true,
                ": sequencer headroom exhausted ("@ + signed(left as int) + ")"@,
            ),
        )
    } else if left_under(left, h.max_headroom, TENTH, TENTH_SCALE) {
        Some(
            alert(
                h.name@,
                ":headroom"@,
                false,
                ": sequencer headroom low ("@ + signed(left as int) + " of "@ + signed(
                    h.max_headroom as int,
                ) + ")"@,
            ),
        )
    } else {
        None
    }
}

/// Whether something seen at a moment was seen within the last minute.
pub open spec fn within_a_minute(seen_at: u64, monotonic: u64) -> bool {
    monotonic - seen_at < 60_000_000_000
}

/// The rule on backpressure: rejections seen within the last minute are a warning.
pub open spec fn backpressure_alert(h: HeadState, s: HeadStats, monotonic: u64) -> Option<
    AlertView,
> {
    match h.backpressure_seen_at {
        Some(at) => if within_a_minute(at, monotonic) {
            Some(
                alert(
                    h.name@,
                    ":backpressure"@,
                    false,
                    ": backpressure rejections in the last minute (total "@ + decimal(
                        s.local_requests.rejected_backpressure as nat,
                    ) + ")"@,
                ),
            )
        } else {
            None
        },
        None => None,
    }
}

/// The rule on the fallback deadline of the newest block.
pub open spec fn fallback_alert(h: HeadState, cfg: Config, now: Timestamp) -> Option<AlertView> {
    match h.latest_block {
        Some(b) => match b.fallback_at {
            Some(deadline) => {
                let left = seconds_between(deadline@, now@);
                if left <= cfg.fallback_crit_secs {
                    Some(
                        alert(
                            h.name@,
                            ":fallback"@,
                            true,
                            ": fallback tx window opens in "@ + duration(left)
                                + " — head at risk of closing"@,
                        ),
                    )
                } else if left <= cfg.fallback_warn_secs {
                    Some(
                        alert(
                            h.name@,
                            ":fallback"@,
                            false,
                            ": fallback tx window opens in "@ + duration(left),
                        ),
                    )
                } else {
                    None
                }
            },
            None => None,
        },
        None => None,
    }
}

/// An alert, where there is one.
pub open spec fn listed(alert: Option<AlertView>) -> Seq<AlertView> {
    match alert {
        Some(a) => seq![a],
        None => Seq::empty(),
    }
}

/// The alerts that a head's statistics raise.
pub open spec fn stats_alerts(h: HeadState, cfg: Config, monotonic: u64) -> Seq<AlertView> {
    match h.stats {
        Some(s) => listed(hard_confirm_alert(h, s, cfg)) + listed(headroom_alert(h, s)) + listed(
            backpressure_alert(h, s, monotonic),
        ),
        None => Seq::empty(),
    }
}

/// The alerts that a head raises.
///
/// Unreachable short-circuits: a head that cannot be reached has stale statistics, and deriving
/// further alerts from them would report yesterday's state as now. A head that has not been polled
/// yet is unknown, not down.
pub open spec fn head_alerts(
    h: HeadState,
    cfg: Config,
    now: Timestamp,
    monotonic: u64,
) -> Seq<AlertView> {
    match h.reachable {
        Some(false) => seq![alert(h.name@, ":unreachable"@, true, ": unreachable"@)],
        None => Seq::empty(),
        Some(true) => listed(status_alert(h)) + stats_alerts(h, cfg, monotonic) + listed(
            fallback_alert(h, cfg, now),
        ),
    }
}

/// The alerts that heads raise, head by head.
pub open spec fn raised_by(
    heads: Seq<HeadState>,
    cfg: Config,
    now: Timestamp,
    monotonic: u64,
) -> Seq<AlertView>
    decreases heads.len(),
{
    if heads.len() == 0 {
        Seq::empty()
    } else {
        raised_by(heads.drop_last(), cfg, now, monotonic) + head_alerts(
            heads.last(),
            cfg,
            now,
            monotonic,
        )
    }
}

/// The alerts of one rank, in order.
pub open spec fn of_rank(alerts: Seq<AlertView>, crit: bool) -> Seq<AlertView>
    decreases alerts.len(),
{
    if alerts.len() == 0 {
        Seq::empty()
    } else if alerts.last().crit == crit {
        of_rank(alerts.drop_last(), crit).push(alerts.last())
    } else {
        of_rank(alerts.drop_last(), crit)
    }
}

/// Alerts with the critical ones leading, otherwise in order.
pub open spec fn ranked(alerts: Seq<AlertView>) -> Seq<AlertView> {
    of_rank(alerts, true) + of_rank(alerts, false)
}

fn make(name: &String, condition: &str, crit: bool, text: String) -> (r: Alert)
    ensures
        r@ == (AlertView { key: name@ + condition@, crit, text: text@ }),
{
    let mut key = name.clone();
    key.append(condition);
    Alert { key, crit, text }
}

fn check_status(h: &HeadState) -> (r: Option<Alert>)
    ensures
        seen(r) == status_alert(*h),
{
    match &h.ready {
        Some(ready) => if same_text(ready.as_str(), "active") {
            None
        } else {
            let mut text = h.name.clone();
            text.append(": status ");
            text.append(ready.as_str());
            assert(text@ =~= h.name@ + (": status "@ + ready@));
            Some(make(&h.name, ":status", true, text))
        },
        None => None,
    }
}

/// What an alert says, where there is one.
pub open spec fn seen(alert: Option<Alert>) -> Option<AlertView> {
    match alert {
        Some(a) => Some(a@),
        None => None,
    }
}

fn check_hard_confirm(h: &HeadState, s: &HeadStats, cfg: &Config) -> (r: Option<Alert>)
    ensures
        seen(r) == hard_confirm_alert(*h, *s, *cfg),
{
    let age = s.stacks.seconds_since_last_hard_confirm;
    if s.stacks.total == 0 && age <= 0 {
        return None;
    }
    let crit = age >= cfg.hard_confirm_crit_secs;
    if !crit && age < cfg.hard_confirm_warn_secs {
        return None;
    }
    let mut text = h.name.clone();
    text.append(": no hard confirmation for ");
    push_signed(&mut text, age);
    text.append("s");
    assert(text@ =~= h.name@ + (": no hard confirmation for "@ + signed(age as int) + "s"@));
    Some(make(&h.name, ":hard-confirm", crit, text))
}

/// Whether less than a threshold is left of the most headroom ever seen.
pub(crate) fn is_left_under(left: i64, most: i64, mantissa: u64, scale: u64) -> (r: bool)
    requires
        most > 0,
        1 <= mantissa < MANTISSA_END,
        scale <= FIFTIETH_SCALE,
    ensures
        r == left_under(left, most, mantissa, scale),
{
    left < 0 || is_under(left as u64, most as u64, mantissa, scale)
}

fn check_headroom(h: &HeadState, s: &HeadStats) -> (r: Option<Alert>)
    ensures
        seen(r) == headroom_alert(*h, *s),
{
    let left = s.sequencer_headroom;
    if h.max_headroom <= 0 {
        return None;
    }
    let mut text = h.name.clone();
    if is_left_under(left, h.max_headroom, FIFTIETH, FIFTIETH_SCALE) {
        text.append(": sequencer headroom exhausted (");
        push_signed(&mut text, left);
        text.append(")");
        assert(text@ =~= h.name@ + (": sequencer headroom exhausted ("@ + signed(left as int)
            + ")"@));
        Some(make(&h.name, ":headroom", true, text))
    } else if is_left_under(left, h.max_headroom, TENTH, TENTH_SCALE) {
        text.append(": sequencer headroom low (");
        push_signed(&mut text, left);
        text.append(" of ");
        push_signed(&mut text, h.max_headroom);
        text.append(")");
        assert(text@ =~= h.name@ + (": sequencer headroom low ("@ + signed(left as int) + " of "@
            + signed(h.max_headroom as int) + ")"@));
        Some(make(&h.name, ":headroom", false, text))
    } else {
        None
    }
}

fn check_backpressure(h: &HeadState, s: &HeadStats, monotonic: u64) -> (r: Option<Alert>)
    ensures
        seen(r) == backpressure_alert(*h, *s, monotonic),
{
    match h.backpressure_seen_at {
        Some(at) => {
            if monotonic >= at && monotonic - at >= 60_000_000_000 {
                return None;
            }
            let total = s.local_requests.rejected_backpressure;
            let mut text = h.name.clone();
            text.append(": backpressure rejections in the last minute (total ");
            push_decimal(&mut text, total);
            text.append(")");
            assert(text@ =~= h.name@ + (": backpressure rejections in the last minute (total "@
                + decimal(total as nat) + ")"@));
            Some(make(&h.name, ":backpressure", false, text))
        },
        None => None,
    }
}

fn check_fallback(h: &HeadState, cfg: &Config, now: Timestamp) -> (r: Option<Alert>)
    ensures
        seen(r) == fallback_alert(*h, *cfg, now),
{
    let deadline = match &h.latest_block {
        Some(b) => match b.fallback_at {
            Some(deadline) => deadline,
            None => {
                return None;
            },
        },
        None => {
            return None;
        },
    };
    let left = deadline.seconds_since(now);
    let mut text = h.name.clone();
    text.append(": fallback tx window opens in ");
    push_duration(&mut text, left);
    if left <= cfg.fallback_crit_secs {
        text.append(" — head at risk of closing");
        assert(text@ =~= h.name@ + (": fallback tx window opens in "@ + duration(left as int)
            + " — head at risk of closing"@));
        Some(make(&h.name, ":fallback", true, text))
    } else if left <= cfg.fallback_warn_secs {
        assert(text@ =~= h.name@ + (": fallback tx window opens in "@ + duration(left as int)));
        Some(make(&h.name, ":fallback", false, text))
    } else {
        None
    }
}

/// Append an alert, where there is one.
fn note(out: &mut Vec<Alert>, found: Option<Alert>)
    ensures
        alerts_view(final(out)@) == alerts_view(old(out)@) + listed(seen(found)),
{
    if let Some(a) = found {
        out.push(a);
    }
    assert(alerts_view(out@) =~= alerts_view(old(out)@) + listed(seen(found)));
}

fn check_head(out: &mut Vec<Alert>, h: &HeadState, cfg: &Config, now: Timestamp, monotonic: u64)
    ensures
        alerts_view(final(out)@) == alerts_view(old(out)@) + head_alerts(
            *h,
            *cfg,
            now,
            monotonic,
        ),
{
    let ghost before = alerts_view(out@);
    match h.reachable {
        Some(false) => {
            let mut text = h.name.clone();
            text.append(": unreachable");
            note(out, Some(make(&h.name, ":unreachable", true, text)));
        },
        None => {
            assert(before =~= before + Seq::<AlertView>::empty());
        },
        Some(true) => {
            note(out, check_status(h));
            let ghost status = listed(status_alert(*h));
            if let Some(s) = &h.stats {
                note(out, check_hard_confirm(h, s, cfg));
                note(out, check_headroom(h, s));
                note(out, check_backpressure(h, s, monotonic));
                assert(alerts_view(out@) =~= before + status + stats_alerts(*h, *cfg, monotonic));
            } else {
                assert(alerts_view(out@) =~= before + status + stats_alerts(*h, *cfg, monotonic));
            }
            note(out, check_fallback(h, cfg, now));
            assert(alerts_view(out@) =~= before + head_alerts(*h, *cfg, now, monotonic));
        },
    }
}

fn copy_alert(a: &Alert) -> (r: Alert)
    ensures
        r@ == a@,
{
    Alert { key: a.key.clone(), crit: a.crit, text: a.text.clone() }
}

/// Append the alerts of one rank.
fn take_rank(out: &mut Vec<Alert>, alerts: &Vec<Alert>, crit: bool)
    ensures
        alerts_view(final(out)@) == alerts_view(old(out)@) + of_rank(alerts_view(alerts@), crit),
{
    let ghost before = alerts_view(out@);
    let ghost all = alerts_view(alerts@);
    let mut i: usize = 0;
    assert(all.take(0) =~= Seq::<AlertView>::empty());
    assert(before + Seq::<AlertView>::empty() =~= before);
    while i < alerts.len()
        invariant
            i <= alerts@.len(),
            all == alerts_view(alerts@),
            alerts_view(out@) == before + of_rank(all.take(i as int), crit),
        decreases alerts@.len() - i,
    {
        let ghost so_far = alerts_view(out@);
        assert(all.take(i + 1).drop_last() =~= all.take(i as int));
        if alerts[i].crit == crit {
            let a = copy_alert(&alerts[i]);
            out.push(a);
            assert(alerts_view(out@) =~= so_far.push(all[i as int]));
            assert(alerts_view(out@) =~= before + of_rank(all.take(i + 1), crit));
        }
        i = i + 1;
    }
    assert(all.take(i as int) =~= all);
}

/// The alerts as of a moment: `now` is a clock's reading, `monotonic` the moment on the clock that
/// never runs backwards.
pub fn compute_at(app: &App, cfg: &Config, now: Timestamp, monotonic: u64) -> (r: Vec<Alert>)
    ensures
        alerts_view(r@) == ranked(raised_by(app.heads@, *cfg, now, monotonic)),
{
    let mut found: Vec<Alert> = Vec::new();
    let mut i: usize = 0;
    assert(app.heads@.take(0) =~= Seq::<HeadState>::empty());
    assert(alerts_view(found@) =~= Seq::<AlertView>::empty());
    while i < app.heads.len()
        invariant
            i <= app.heads@.len(),
            alerts_view(found@) == raised_by(app.heads@.take(i as int), *cfg, now, monotonic),
        decreases app.heads@.len() - i,
    {
        assert(app.heads@.take(i + 1).drop_last() =~= app.heads@.take(i as int));
        check_head(&mut found, &app.heads[i], cfg, now, monotonic);
        i = i + 1;
    }
    assert(app.heads@.take(i as int) =~= app.heads@);
    let mut out: Vec<Alert> = Vec::new();
    assert(alerts_view(out@) =~= Seq::<AlertView>::empty());
    take_rank(&mut out, &found, true);
    take_rank(&mut out, &found, false);
    assert(alerts_view(out@) =~= ranked(alerts_view(found@)));
    out
}

/// The alerts as of now.
pub fn compute(app: &App, cfg: &Config, monotonic: u64) -> (r: Vec<Alert>)
    ensures
        exists|now: Timestamp|
            {
                &&& on_the_calendar(now@.0, now@.1)
                &&& alerts_view(r@) == #[trigger] ranked(
                    raised_by(app.heads@, *cfg, now, monotonic),
                )
            },
{
    compute_at(app, cfg, Timestamp::now(), monotonic)
}

/// Whether no two alerts share a key.
pub open spec fn distinct_keys(alerts: Seq<AlertView>) -> bool {
    forall|i: int, j: int|
        0 <= i < j < alerts.len() ==> (#[trigger] alerts[i]).key != (#[trigger] alerts[j]).key
}

/// The conditions that a head's alerts are named after.
pub(crate) open spec fn condition(k: int) -> Seq<char> {
    if k == 0 {
        ":unreachable"@
    } else if k == 1 {
        ":status"@
    } else if k == 2 {
        ":hard-confirm"@
    } else if k == 3 {
        ":headroom"@
    } else if k == 4 {
        ":backpressure"@
    } else {
        ":fallback"@
    }
}

/// Whether a condition's name begins with its only colon.
pub(crate) open spec fn one_colon(s: Seq<char>) -> bool {
    s.len() > 0 && s[0] == ':' && forall|i: int| 0 < i < s.len() ==> #[trigger] s[i] != ':'
}

pub(crate) proof fn lemma_conditions(k: int)
    requires
        0 <= k <= 5,
    ensures
        one_colon(condition(k)),
{
    reveal_strlit(":unreachable");
    reveal_strlit(":status");
    reveal_strlit(":hard-confirm");
    reveal_strlit(":headroom");
    reveal_strlit(":backpressure");
    reveal_strlit(":fallback");
}

pub(crate) proof fn lemma_conditions_differ(j: int, k: int)
    requires
        0 <= j < k <= 5,
    ensures
        condition(j) != condition(k),
{
    reveal_strlit(":unreachable");
    reveal_strlit(":status");
    reveal_strlit(":hard-confirm");
    reveal_strlit(":headroom");
    reveal_strlit(":backpressure");
    reveal_strlit(":fallback");
    assert(condition(0).len() == 12);
    assert(condition(1).len() == 7);
    assert(condition(2).len() == 13 && condition(2)[1] == 'h');
    assert(condition(3).len() == 9 && condition(3)[1] == 'h');
    assert(condition(4).len() == 13 && condition(4)[1] == 'b');
    assert(condition(5).len() == 9 && condition(5)[1] == 'f');
}

/// A key names its head and its condition, however the head is called.
pub(crate) proof fn lemma_key_splits(a: Seq<char>, b: Seq<char>, s: Seq<char>, t: Seq<char>)
    requires
        one_colon(s),
        one_colon(t),
        a + s == b + t,
    ensures
        a == b,
        s == t,
{
    let key = a + s;
    let same = b + t;
    assert(key.len() == a.len() + s.len());
    assert(same.len() == b.len() + t.len());
    if s.len() < t.len() {
        assert(key[a.len() as int] == s[0]);
        assert(same[a.len() as int] == t[a.len() - b.len()]);
    } else if t.len() < s.len() {
        assert(same[b.len() as int] == t[0]);
        assert(key[b.len() as int] == s[b.len() - a.len()]);
    }
    assert(a =~= key.take(a.len() as int));
    assert(b =~= (b + t).take(b.len() as int));
    assert(s =~= key.skip(a.len() as int));
    assert(t =~= (b + t).skip(b.len() as int));
}

/// Whether every alert is a head's, on a condition below `upto`.
spec fn keyed(alerts: Seq<AlertView>, name: Seq<char>, upto: int) -> bool {
    forall|i: int| 0 <= i < alerts.len() ==> keyed_one((#[trigger] alerts[i]).key, name, upto)
}

spec fn keyed_one(key: Seq<char>, name: Seq<char>, upto: int) -> bool {
    exists|k: int| 0 <= k < upto && key == name + #[trigger] condition(k)
}

proof fn lemma_next_rule(
    alerts: Seq<AlertView>,
    found: Option<AlertView>,
    name: Seq<char>,
    k: int,
)
    requires
        0 <= k <= 5,
        distinct_keys(alerts),
        keyed(alerts, name, k),
        found matches Some(a) ==> a.key == name + condition(k),
    ensures
        distinct_keys(alerts + listed(found)),
        keyed(alerts + listed(found), name, k + 1),
{
    let after = alerts + listed(found);
    assert forall|i: int| 0 <= i < after.len() implies keyed_one(
        (#[trigger] after[i]).key,
        name,
        k + 1,
    ) by {
        if i < alerts.len() {
            assert(after[i] == alerts[i]);
            let j = choose|j: int| 0 <= j < k && alerts[i].key == name + #[trigger] condition(j);
            assert(after[i].key == name + condition(j));
        } else {
            assert(after[i].key == name + condition(k));
        }
    }
    assert forall|i: int, j: int| 0 <= i < j < after.len() implies (#[trigger] after[i]).key != (
    #[trigger] after[j]).key by {
        if j < alerts.len() {
            assert(after[i] == alerts[i] && after[j] == alerts[j]);
        } else {
            assert(after[i] == alerts[i]);
            let c = choose|c: int| 0 <= c < k && alerts[i].key == name + #[trigger] condition(c);
            lemma_conditions_differ(c, k);
            lemma_conditions(c);
            lemma_conditions(k);
            if after[i].key == after[j].key {
                lemma_key_splits(name, name, condition(c), condition(k));
            }
        }
    }
}

proof fn lemma_head_keys(h: HeadState, cfg: Config, now: Timestamp, monotonic: u64)
    ensures
        distinct_keys(head_alerts(h, cfg, now, monotonic)),
        keyed(head_alerts(h, cfg, now, monotonic), h.name@, 6),
{
    let name = h.name@;
    let none = Seq::<AlertView>::empty();
    let all = head_alerts(h, cfg, now, monotonic);
    match h.reachable {
        None => {},
        Some(false) => {
            lemma_next_rule(none, Some(all[0]), name, 0);
            assert(none + listed(Some(all[0])) =~= all);
            assert forall|i: int| 0 <= i < all.len() implies keyed_one(
                (#[trigger] all[i]).key,
                name,
                6,
            ) by {
                assert(all[i].key == name + condition(0));
            }
        },
        Some(true) => {
            let one = none + listed(status_alert(h));
            assert(keyed(none, name, 1));
            lemma_next_rule(none, status_alert(h), name, 1);
            let four = match h.stats {
                Some(s) => {
                    lemma_next_rule(one, hard_confirm_alert(h, s, cfg), name, 2);
                    let two = one + listed(hard_confirm_alert(h, s, cfg));
                    lemma_next_rule(two, headroom_alert(h, s), name, 3);
                    let three = two + listed(headroom_alert(h, s));
                    lemma_next_rule(three, backpressure_alert(h, s, monotonic), name, 4);
                    three + listed(backpressure_alert(h, s, monotonic))
                },
                None => {
                    lemma_next_rule(one, None, name, 2);
                    lemma_next_rule(one + none, None, name, 3);
                    lemma_next_rule(one + none + none, None, name, 4);
                    one + none + none + none
                },
            };
            lemma_next_rule(four, fallback_alert(h, cfg, now), name, 5);
            assert(four + listed(fallback_alert(h, cfg, now)) =~= all);
        },
    }
}

/// Whether a key is one of a head's among heads.
spec fn keyed_among(key: Seq<char>, heads: Seq<HeadState>) -> bool {
    exists|i: int| 0 <= i < heads.len() && keyed_one(key, (#[trigger] heads[i]).name@, 6)
}

proof fn lemma_raised_keys(heads: Seq<HeadState>, cfg: Config, now: Timestamp, monotonic: u64)
    requires
        forall|i: int, j: int|
            0 <= i < j < heads.len() ==> (#[trigger] heads[i]).name@ != (
            #[trigger] heads[j]).name@,
    ensures
        distinct_keys(raised_by(heads, cfg, now, monotonic)),
        forall|k: int|
            0 <= k < raised_by(heads, cfg, now, monotonic).len() ==> keyed_among(
                (#[trigger] raised_by(heads, cfg, now, monotonic)[k]).key,
                heads,
            ),
    decreases heads.len(),
{
    if heads.len() > 0 {
        let front = heads.drop_last();
        let h = heads.last();
        assert forall|i: int, j: int| 0 <= i < j < front.len() implies (
        #[trigger] front[i]).name@ != (#[trigger] front[j]).name@ by {
            assert(front[i] == heads[i] && front[j] == heads[j]);
        }
        lemma_raised_keys(front, cfg, now, monotonic);
        lemma_head_keys(h, cfg, now, monotonic);
        let before = raised_by(front, cfg, now, monotonic);
        let own = head_alerts(h, cfg, now, monotonic);
        let all = raised_by(heads, cfg, now, monotonic);
        assert(heads[heads.len() - 1] == h);
        assert forall|k: int| 0 <= k < all.len() implies keyed_among(
            (#[trigger] all[k]).key,
            heads,
        ) by {
            if k < before.len() {
                assert(all[k] == before[k]);
                let i = choose|i: int|
                    0 <= i < front.len() && keyed_one(before[k].key, (#[trigger] front[i]).name@, 6);
                assert(heads[i] == front[i]);
                assert(keyed_one(all[k].key, heads[i].name@, 6));
            } else {
                assert(all[k] == own[k - before.len()]);
                assert(keyed_one(all[k].key, heads[heads.len() - 1].name@, 6));
            }
        }
        assert forall|i: int, j: int| 0 <= i < j < all.len() implies (#[trigger] all[i]).key != (
        #[trigger] all[j]).key by {
            if j < before.len() {
                assert(all[i] == before[i] && all[j] == before[j]);
            } else if i >= before.len() {
                assert(all[i] == own[i - before.len()] && all[j] == own[j - before.len()]);
            } else {
                assert(all[i] == before[i] && all[j] == own[j - before.len()]);
                let x = choose|x: int|
                    0 <= x < front.len() && keyed_one(before[i].key, (#[trigger] front[x]).name@, 6);
                let c = choose|c: int|
                    0 <= c < 6 && all[i].key == front[x].name@ + #[trigger] condition(c);
                assert(keyed_one(all[j].key, h.name@, 6));
                let d = choose|d: int|
                    0 <= d < 6 && all[j].key == h.name@ + #[trigger] condition(d);
                lemma_conditions(c);
                lemma_conditions(d);
                assert(heads[x].name@ != heads[heads.len() - 1].name@) by {
                    assert(front[x] == heads[x]);
                }
                if all[i].key == all[j].key {
                    lemma_key_splits(front[x].name@, h.name@, condition(c), condition(d));
                }
            }
        }
    }
}

proof fn lemma_of_rank(alerts: Seq<AlertView>, crit: bool)
    requires
        distinct_keys(alerts),
    ensures
        distinct_keys(of_rank(alerts, crit)),
        forall|i: int|
            0 <= i < of_rank(alerts, crit).len() ==> (#[trigger] of_rank(alerts, crit)[i]).crit
                == crit && alerts.contains(of_rank(alerts, crit)[i]),
    decreases alerts.len(),
{
    if alerts.len() > 0 {
        let front = alerts.drop_last();
        let kept = of_rank(alerts, crit);
        let before = of_rank(front, crit);
        assert forall|i: int, j: int| 0 <= i < j < front.len() implies (
        #[trigger] front[i]).key != (#[trigger] front[j]).key by {
            assert(front[i] == alerts[i] && front[j] == alerts[j]);
        }
        lemma_of_rank(front, crit);
        assert forall|i: int| 0 <= i < kept.len() implies (#[trigger] kept[i]).crit == crit
            && alerts.contains(kept[i]) by {
            if i < before.len() {
                assert(kept[i] == before[i]);
                let k = choose|k: int| 0 <= k < front.len() && front[k] == before[i];
                assert(alerts[k] == kept[i]);
            } else {
                assert(alerts[alerts.len() - 1] == kept[i]);
            }
        }
        assert forall|i: int, j: int| 0 <= i < j < kept.len() implies (#[trigger] kept[i]).key != (
        #[trigger] kept[j]).key by {
            if j < before.len() {
                assert(kept[i] == before[i] && kept[j] == before[j]);
            } else {
                assert(kept[i] == before[i]);
                let k = choose|k: int| 0 <= k < front.len() && front[k] == before[i];
                assert(alerts[k] == kept[i] && alerts[alerts.len() - 1] == kept[j]);
            }
        }
    }
}

/// Two heads never share an alert key, nor do two conditions of one head, so transition tracking
/// may diff on the key, as long as no two heads share a name.
pub proof fn law_keys_are_unique(
    heads: Seq<HeadState>,
    cfg: Config,
    now: Timestamp,
    monotonic: u64,
)
    requires
        forall|i: int, j: int|
            0 <= i < j < heads.len() ==> (#[trigger] heads[i]).name@ != (
            #[trigger] heads[j]).name@,
    ensures
        distinct_keys(ranked(raised_by(heads, cfg, now, monotonic))),
{
    let all = raised_by(heads, cfg, now, monotonic);
    lemma_raised_keys(heads, cfg, now, monotonic);
    lemma_of_rank(all, true);
    lemma_of_rank(all, false);
    let crits = of_rank(all, true);
    let warns = of_rank(all, false);
    let out = ranked(all);
    assert forall|i: int, j: int| 0 <= i < j < out.len() implies (#[trigger] out[i]).key != (
    #[trigger] out[j]).key by {
        if j < crits.len() {
            assert(out[i] == crits[i] && out[j] == crits[j]);
        } else if i >= crits.len() {
            assert(out[i] == warns[i - crits.len()] && out[j] == warns[j - crits.len()]);
        } else {
            assert(out[i] == crits[i] && out[j] == warns[j - crits.len()]);
            let x = choose|x: int| 0 <= x < all.len() && all[x] == crits[i];
            let y = choose|y: int| 0 <= y < all.len() && all[y] == warns[j - crits.len()];
            assert(all[x].crit != all[y].crit);
            if x < y {
                assert(all[x].key != all[y].key);
            } else {
                assert(all[y].key != all[x].key);
            }
        }
    }
}

proof fn lemma_rank_only(alerts: Seq<AlertView>, crit: bool)
    ensures
        forall|i: int|
            0 <= i < of_rank(alerts, crit).len() ==> (#[trigger] of_rank(alerts, crit)[i]).crit
                == crit,
    decreases alerts.len(),
{
    if alerts.len() > 0 {
        let before = of_rank(alerts.drop_last(), crit);
        lemma_rank_only(alerts.drop_last(), crit);
        assert forall|i: int| 0 <= i < of_rank(alerts, crit).len() implies (#[trigger] of_rank(
            alerts,
            crit,
        )[i]).crit == crit by {
            if i < before.len() {
                assert(of_rank(alerts, crit)[i] == before[i]);
            }
        }
    }
}

proof fn lemma_ranks_together(alerts: Seq<AlertView>)
    ensures
        of_rank(alerts, true).to_multiset().add(of_rank(alerts, false).to_multiset())
            == alerts.to_multiset(),
    decreases alerts.len(),
{
    broadcast use vstd::seq_lib::group_to_multiset_ensures;

    let together = of_rank(alerts, true).to_multiset().add(of_rank(alerts, false).to_multiset());
    if alerts.len() == 0 {
        assert(together =~= alerts.to_multiset());
    } else {
        let front = alerts.drop_last();
        lemma_ranks_together(front);
        assert(alerts =~= front.push(alerts.last()));
        assert(together =~= alerts.to_multiset());
    }
}

/// Critical alerts come before warnings, and ranking neither loses nor adds one.
pub proof fn law_critical_alerts_lead(alerts: Seq<AlertView>)
    ensures
        forall|i: int, j: int|
            0 <= i < j < ranked(alerts).len() && (#[trigger] ranked(alerts)[j]).crit ==> (
            #[trigger] ranked(alerts)[i]).crit,
        ranked(alerts).to_multiset() == alerts.to_multiset(),
{
    let crits = of_rank(alerts, true);
    let warns = of_rank(alerts, false);
    lemma_rank_only(alerts, true);
    lemma_rank_only(alerts, false);
    assert forall|i: int, j: int| 0 <= i < j < ranked(alerts).len() && (
    #[trigger] ranked(alerts)[j]).crit implies (#[trigger] ranked(alerts)[i]).crit by {
        if j >= crits.len() {
            assert(ranked(alerts)[j] == warns[j - crits.len()]);
        }
        assert(ranked(alerts)[i] == crits[i]);
    }
    vstd::seq_lib::lemma_multiset_commutative(crits, warns);
    lemma_ranks_together(alerts);
}

/// An unreachable head raises that it is unreachable and nothing else, whatever its statistics
/// last said; a head that was never polled raises nothing.
pub proof fn law_unknown_is_not_down(
    h: HeadState,
    cfg: Config,
    now: Timestamp,
    monotonic: u64,
)
    ensures
        h.reachable is None ==> head_alerts(h, cfg, now, monotonic).len() == 0,
        h.reachable == Some(false) ==> {
            let alerts = head_alerts(h, cfg, now, monotonic);
            alerts.len() == 1 && alerts[0].crit && alerts[0].key == h.name@ + ":unreachable"@
        },
{
}

} // verus!
