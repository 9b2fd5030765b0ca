//! When each alert stands in the list that an operator sees, and what it says.

use crate::text::{decimal, duration, signed};
use crate::top::alerts::{
    alert, backpressure_alert, condition, fallback_alert, hard_confirm_alert, head_alerts,
    headroom_alert, lemma_conditions, lemma_conditions_differ, lemma_key_splits, listed, of_rank,
    raised_by, ranked, status_alert,
};
use crate::top::clock::{seconds_between, Timestamp};
use crate::top::config::Config;
use crate::top::ratio::law_thresholds_are_exact_on_ordinary_counts;
use crate::top::state::{AlertView, HeadState};
use vstd::prelude::*;

verus! {

/// Whether an alert with this key is in the list.
pub open spec fn stands(alerts: Seq<AlertView>, key: Seq<char>) -> bool {
    exists|a: AlertView| #[trigger] alerts.contains(a) && a.key == key
}

/// What heads raise, as an operator sees it.
pub open spec fn shown(
    heads: Seq<HeadState>,
    cfg: Config,
    now: Timestamp,
    monotonic: u64,
) -> Seq<AlertView> {
    ranked(raised_by(heads, cfg, now, monotonic))
}

/// Whether no two heads have one name.
pub open spec fn distinct_names(heads: Seq<HeadState>) -> bool {
    forall|i: int, j: int|
        0 <= i < j < heads.len() ==> (#[trigger] heads[i]).name@ != (#[trigger] heads[j]).name@
}

proof fn lemma_contains_concat<T>(a: Seq<T>, b: Seq<T>, x: T)
    ensures
        (a + b).contains(x) <==> a.contains(x) || b.contains(x),
{
    if a.contains(x) {
        let i = choose|i: int| 0 <= i < a.len() && a[i] == x;
        assert((a + b)[i] == x);
    }
    if b.contains(x) {
        let i = choose|i: int| 0 <= i < b.len() && b[i] == x;
        assert((a + b)[i + a.len()] == x);
    }
    if (a + b).contains(x) {
        let i = choose|i: int| 0 <= i < (a + b).len() && (a + b)[i] == x;
        if i < a.len() {
            assert(a[i] == x);
        } else {
            assert(b[i - a.len()] == x);
        }
    }
}

proof fn lemma_listed(found: Option<AlertView>, a: AlertView)
    ensures
        listed(found).contains(a) <==> found == Some(a),
{
    if found == Some(a) {
        assert(listed(found)[0] == a);
    }
}

proof fn lemma_of_rank_contains(alerts: Seq<AlertView>, crit: bool, a: AlertView)
    ensures
        of_rank(alerts, crit).contains(a) <==> alerts.contains(a) && a.crit == crit,
    decreases alerts.len(),
{
    if alerts.len() > 0 {
        let front = alerts.drop_last();
        lemma_of_rank_contains(front, crit, a);
        lemma_contains_concat(front, seq![alerts.last()], a);
        assert(front + seq![alerts.last()] =~= alerts);
        let kept = of_rank(front, crit);
        lemma_contains_concat(kept, seq![alerts.last()], a);
        assert(kept + seq![alerts.last()] =~= kept.push(alerts.last()));
        assert(seq![alerts.last()].contains(a) <==> a == alerts.last()) by {
            assert(seq![alerts.last()][0] == alerts.last());
        }
    }
}

proof fn lemma_ranked_contains(alerts: Seq<AlertView>, a: AlertView)
    ensures
        ranked(alerts).contains(a) <==> alerts.contains(a),
{
    lemma_of_rank_contains(alerts, true, a);
    lemma_of_rank_contains(alerts, false, a);
    lemma_contains_concat(of_rank(alerts, true), of_rank(alerts, false), a);
}

/// What one rule finds of a head.
spec fn rule(k: int, h: HeadState, cfg: Config, now: Timestamp, monotonic: u64) -> Option<
    AlertView,
> {
    if k == 0 {
        if h.reachable == Some(false) {
            Some(alert(h.name@, ":unreachable"@, true, ": unreachable"@))
        } else {
            None
        }
    } else if h.reachable != Some(true) {
        None
    } else if k == 1 {
        status_alert(h)
    } else if k == 5 {
        fallback_alert(h, cfg, now)
    } else {
        match h.stats {
            None => None,
            Some(s) => if k == 2 {
                hard_confirm_alert(h, s, cfg)
            } else if k == 3 {
                headroom_alert(h, s)
            } else {
                backpressure_alert(h, s, monotonic)
            },
        }
    }
}

proof fn lemma_head_contains(
    h: HeadState,
    cfg: Config,
    now: Timestamp,
    monotonic: u64,
    a: AlertView,
)
    ensures
        head_alerts(h, cfg, now, monotonic).contains(a) <==> exists|k: int|
            0 <= k <= 5 && #[trigger] rule(k, h, cfg, now, monotonic) == Some(a),
{
    let all = head_alerts(h, cfg, now, monotonic);
    let r0 = rule(0, h, cfg, now, monotonic);
    let r1 = rule(1, h, cfg, now, monotonic);
    let r2 = rule(2, h, cfg, now, monotonic);
    let r3 = rule(3, h, cfg, now, monotonic);
    let r4 = rule(4, h, cfg, now, monotonic);
    let r5 = rule(5, h, cfg, now, monotonic);
    assert(all =~= listed(r0) + listed(r1) + (listed(r2) + listed(r3) + listed(r4)) + listed(r5));
    lemma_listed(r0, a);
    lemma_listed(r1, a);
    lemma_listed(r2, a);
    lemma_listed(r3, a);
    lemma_listed(r4, a);
    lemma_listed(r5, a);
    let stats = listed(r2) + listed(r3) + listed(r4);
    lemma_contains_concat(listed(r2), listed(r3), a);
    lemma_contains_concat(listed(r2) + listed(r3), listed(r4), a);
    lemma_contains_concat(listed(r0), listed(r1), a);
    lemma_contains_concat(listed(r0) + listed(r1), stats, a);
    lemma_contains_concat(listed(r0) + listed(r1) + stats, listed(r5), a);
}

proof fn lemma_raised_contains(
    heads: Seq<HeadState>,
    cfg: Config,
    now: Timestamp,
    monotonic: u64,
    a: AlertView,
)
    ensures
        raised_by(heads, cfg, now, monotonic).contains(a) <==> exists|i: int|
            0 <= i < heads.len() && head_alerts(#[trigger] heads[i], cfg, now, monotonic).contains(a),
    decreases heads.len(),
{
    if heads.len() > 0 {
        let front = heads.drop_last();
        lemma_raised_contains(front, cfg, now, monotonic, a);
        lemma_contains_concat(
            raised_by(front, cfg, now, monotonic),
            head_alerts(heads.last(), cfg, now, monotonic),
            a,
        );
        assert(heads[heads.len() - 1] == heads.last());
        if exists|i: int|
            0 <= i < front.len() && head_alerts(#[trigger] front[i], cfg, now, monotonic).contains(
                a,
            ) {
            let i = choose|i: int|
                0 <= i < front.len() && head_alerts(
                    #[trigger] front[i],
                    cfg,
                    now,
                    monotonic,
                ).contains(a);
            assert(heads[i] == front[i]);
        }
        if exists|i: int|
            0 <= i < heads.len() && head_alerts(#[trigger] heads[i], cfg, now, monotonic).contains(
                a,
            ) {
            let i = choose|i: int|
                0 <= i < heads.len() && head_alerts(
                    #[trigger] heads[i],
                    cfg,
                    now,
                    monotonic,
                ).contains(a);
            if i < front.len() {
                assert(front[i] == heads[i]);
            }
        }
    }
}

proof fn lemma_rule_key(k: int, h: HeadState, cfg: Config, now: Timestamp, monotonic: u64)
    requires
        0 <= k <= 5,
    ensures
        rule(k, h, cfg, now, monotonic) matches Some(a) ==> a.key == h.name@ + condition(k),
{
}

/// An alert stands in the list exactly where the rule of its condition raises it.
proof fn lemma_shown(
    heads: Seq<HeadState>,
    cfg: Config,
    now: Timestamp,
    monotonic: u64,
    i: int,
    k: int,
    a: AlertView,
)
    requires
        0 <= i < heads.len(),
        0 <= k <= 5,
    ensures
        rule(k, heads[i], cfg, now, monotonic) == Some(a) ==> shown(
            heads,
            cfg,
            now,
            monotonic,
        ).contains(a) && a.key == heads[i].name@ + condition(k),
        distinct_names(heads) && shown(heads, cfg, now, monotonic).contains(a) && a.key
            == heads[i].name@ + condition(k) ==> rule(k, heads[i], cfg, now, monotonic) == Some(a),
{
    lemma_ranked_contains(raised_by(heads, cfg, now, monotonic), a);
    lemma_raised_contains(heads, cfg, now, monotonic, a);
    lemma_head_contains(heads[i], cfg, now, monotonic, a);
    lemma_rule_key(k, heads[i], cfg, now, monotonic);
    if distinct_names(heads) && shown(heads, cfg, now, monotonic).contains(a) && a.key
        == heads[i].name@ + condition(k) {
        let j = choose|j: int|
            0 <= j < heads.len() && head_alerts(#[trigger] heads[j], cfg, now, monotonic).contains(
                a,
            );
        lemma_head_contains(heads[j], cfg, now, monotonic, a);
        let m = choose|m: int|
            0 <= m <= 5 && #[trigger] rule(m, heads[j], cfg, now, monotonic) == Some(a);
        lemma_rule_key(m, heads[j], cfg, now, monotonic);
        lemma_conditions(k);
        lemma_conditions(m);
        lemma_key_splits(heads[i].name@, heads[j].name@, condition(k), condition(m));
        if k < m {
            lemma_conditions_differ(k, m);
        } else if m < k {
            lemma_conditions_differ(m, k);
        }
    }
}

/// A condition stands for a head exactly where its rule raises it, and every alert with its key is
/// the one that the rule raises.
proof fn lemma_stands(
    heads: Seq<HeadState>,
    cfg: Config,
    now: Timestamp,
    monotonic: u64,
    i: int,
    k: int,
)
    requires
        0 <= i < heads.len(),
        0 <= k <= 5,
        distinct_names(heads),
    ensures
        ({
            let alerts = shown(heads, cfg, now, monotonic);
            let key = heads[i].name@ + condition(k);
            let found = rule(k, heads[i], cfg, now, monotonic);
            &&& stands(alerts, key) <==> found is Some
            &&& forall|a: AlertView| #[trigger]
                alerts.contains(a) && a.key == key ==> found == Some(a)
        }),
{
    let alerts = shown(heads, cfg, now, monotonic);
    let key = heads[i].name@ + condition(k);
    let found = rule(k, heads[i], cfg, now, monotonic);
    assert forall|a: AlertView| #[trigger] alerts.contains(a) && a.key == key implies found == Some(
        a,
    ) by {
        lemma_shown(heads, cfg, now, monotonic, i, k, a);
    }
    if found is Some {
        lemma_shown(heads, cfg, now, monotonic, i, k, found->0);
    }
}

/// A head that was polled and did not answer is shown as unreachable, critically; no other is.
pub proof fn law_unreachable_heads_are_shown(
    heads: Seq<HeadState>,
    cfg: Config,
    now: Timestamp,
    monotonic: u64,
    i: int,
)
    requires
        0 <= i < heads.len(),
        distinct_names(heads),
    ensures
        ({
            let h = heads[i];
            let alerts = shown(heads, cfg, now, monotonic);
            let key = h.name@ + ":unreachable"@;
            &&& stands(alerts, key) <==> h.reachable == Some(false)
            &&& forall|a: AlertView| #[trigger]
                alerts.contains(a) && a.key == key ==> a.crit && a.text == h.name@
                    + ": unreachable"@
        }),
{
    lemma_stands(heads, cfg, now, monotonic, i, 0);
}

/// A head that answers and says of its readiness anything but `active` is shown with what it says,
/// critically; one that is active, or has not said yet, is not.
pub proof fn law_inactive_heads_are_shown(
    heads: Seq<HeadState>,
    cfg: Config,
    now: Timestamp,
    monotonic: u64,
    i: int,
)
    requires
        0 <= i < heads.len(),
        distinct_names(heads),
    ensures
        ({
            let h = heads[i];
            let alerts = shown(heads, cfg, now, monotonic);
            let key = h.name@ + ":status"@;
            &&& stands(alerts, key) <==> h.reachable == Some(true) && (h.ready matches Some(ready)
                && ready@ != "active"@)
            &&& forall|a: AlertView| #[trigger]
                alerts.contains(a) && a.key == key ==> a.crit && a.text == h.name@ + (": status "@
                    + h.ready->0@)
        }),
{
    lemma_stands(heads, cfg, now, monotonic, i, 1);
}

/// A head that answers and whose last hard confirmation is as old as a threshold is shown with that
/// age: critically from the critical threshold on. A head without stacks that has waited for none
/// has missed none.
pub proof fn law_late_confirmations_are_shown(
    heads: Seq<HeadState>,
    cfg: Config,
    now: Timestamp,
    monotonic: u64,
    i: int,
)
    requires
        0 <= i < heads.len(),
        distinct_names(heads),
    ensures
        ({
            let h = heads[i];
            let alerts = shown(heads, cfg, now, monotonic);
            let key = h.name@ + ":hard-confirm"@;
            let stacks = h.stats->0.stacks;
            let age = stacks.seconds_since_last_hard_confirm;
            &&& stands(alerts, key) <==> {
                &&& h.reachable == Some(true)
                &&& h.stats is Some
                &&& stacks.total > 0 || age > 0
                &&& age >= cfg.hard_confirm_warn_secs || age >= cfg.hard_confirm_crit_secs
            }
            &&& forall|a: AlertView| #[trigger]
                alerts.contains(a) && a.key == key ==> {
                    &&& a.crit <==> age >= cfg.hard_confirm_crit_secs
                    &&& a.text == h.name@ + (": no hard confirmation for "@ + signed(age as int)
                        + "s"@)
                }
        }),
{
    lemma_stands(heads, cfg, now, monotonic, i, 2);
}

/// A head that answers and has less than a tenth left of the most headroom ever seen is shown with
/// what is left, critically below a fiftieth; the critical text says that it is exhausted, the other
/// what it is a part of. Without a baseline nothing is shown.
pub proof fn law_low_headroom_is_shown(
    heads: Seq<HeadState>,
    cfg: Config,
    now: Timestamp,
    monotonic: u64,
    i: int,
)
    requires
        0 <= i < heads.len(),
        distinct_names(heads),
        heads[i].max_headroom < 1_125_899_906_842_624,
        heads[i].stats matches Some(s) ==> s.sequencer_headroom < 1_125_899_906_842_624,
    ensures
        ({
            let h = heads[i];
            let alerts = shown(heads, cfg, now, monotonic);
            let key = h.name@ + ":headroom"@;
            let left = h.stats->0.sequencer_headroom as int;
            let most = h.max_headroom as int;
            &&& stands(alerts, key) <==> {
                &&& h.reachable == Some(true)
                &&& h.stats is Some
                &&& most > 0
                &&& 10 * left < most
            }
            &&& forall|a: AlertView| #[trigger]
                alerts.contains(a) && a.key == key ==> {
                    &&& a.crit <==> 50 * left < most
                    &&& a.crit ==> a.text == h.name@ + (": sequencer headroom exhausted ("@ + signed(
                        left,
                    ) + ")"@)
                    &&& !a.crit ==> a.text == h.name@ + (": sequencer headroom low ("@ + signed(
                        left,
                    ) + " of "@ + signed(most) + ")"@)
                }
        }),
{
    lemma_stands(heads, cfg, now, monotonic, i, 3);
    let h = heads[i];
    if h.stats is Some && h.max_headroom > 0 && h.stats->0.sequencer_headroom >= 0 {
        law_thresholds_are_exact_on_ordinary_counts(
            h.stats->0.sequencer_headroom as nat,
            h.max_headroom as nat,
        );
    }
}

/// A head that answers and was seen to reject for backpressure less than a minute ago is shown with
/// the rejections in all, never critically.
pub proof fn law_backpressure_is_shown_for_a_minute(
    heads: Seq<HeadState>,
    cfg: Config,
    now: Timestamp,
    monotonic: u64,
    i: int,
)
    requires
        0 <= i < heads.len(),
        distinct_names(heads),
    ensures
        ({
            let h = heads[i];
            let alerts = shown(heads, cfg, now, monotonic);
            let key = h.name@ + ":backpressure"@;
            &&& stands(alerts, key) <==> {
                &&& h.reachable == Some(true)
                &&& h.stats is Some
                &&& h.backpressure_seen_at matches Some(at) && monotonic < at + 60 * 1_000_000_000
            }
            &&& forall|a: AlertView| #[trigger]
                alerts.contains(a) && a.key == key ==> !a.crit && a.text == h.name@ + (
                ": backpressure rejections in the last minute (total "@ + decimal(
                    h.stats->0.local_requests.rejected_backpressure as nat,
                ) + ")"@)
        }),
{
    lemma_stands(heads, cfg, now, monotonic, i, 4);
}

/// A head that answers and whose newest block's fallback window opens within a threshold is shown
/// with the time left, critically, and with the risk named, within the critical threshold.
pub proof fn law_near_fallback_is_shown(
    heads: Seq<HeadState>,
    cfg: Config,
    now: Timestamp,
    monotonic: u64,
    i: int,
)
    requires
        0 <= i < heads.len(),
        distinct_names(heads),
    ensures
        ({
            let h = heads[i];
            let alerts = shown(heads, cfg, now, monotonic);
            let key = h.name@ + ":fallback"@;
            let deadline = h.latest_block->0.fallback_at;
            let left = seconds_between(deadline->0@, now@);
            &&& stands(alerts, key) <==> {
                &&& h.reachable == Some(true)
                &&& h.latest_block is Some
                &&& deadline is Some
                &&& left <= cfg.fallback_warn_secs || left <= cfg.fallback_crit_secs
            }
            &&& forall|a: AlertView| #[trigger]
                alerts.contains(a) && a.key == key ==> {
                    &&& a.crit <==> left <= cfg.fallback_crit_secs
                    &&& a.text == h.name@ + (": fallback tx window opens in "@ + duration(left)) + (
                    if left <= cfg.fallback_crit_secs {
                        " — head at risk of closing"@
                    } else {
                        Seq::empty()
                    })
                }
        }),
{
    lemma_stands(heads, cfg, now, monotonic, i, 5);
    let h = heads[i];
    let left = seconds_between(h.latest_block->0.fallback_at->0@, now@);
    let opens = ": fallback tx window opens in "@ + duration(left);
    let risk = " — head at risk of closing"@;
    assert(h.name@ + (opens + risk) =~= h.name@ + opens + risk);
    assert(h.name@ + opens + Seq::<char>::empty() =~= h.name@ + opens);
}

/// Every alert is one head's, and names one of the six conditions behind the head's name.
pub proof fn law_every_alert_names_a_head_and_a_condition(
    heads: Seq<HeadState>,
    cfg: Config,
    now: Timestamp,
    monotonic: u64,
    a: AlertView,
)
    requires
        shown(heads, cfg, now, monotonic).contains(a),
    ensures
        exists|i: int|
            {
                &&& 0 <= i < heads.len()
                &&& (#[trigger] heads[i]).reachable is Some
                &&& a.key == heads[i].name@ + ":unreachable"@ || a.key == heads[i].name@ + ":status"@
                    || a.key == heads[i].name@ + ":hard-confirm"@ || a.key == heads[i].name@
                    + ":headroom"@ || a.key == heads[i].name@ + ":backpressure"@ || a.key
                    == heads[i].name@ + ":fallback"@
            },
{
    lemma_ranked_contains(raised_by(heads, cfg, now, monotonic), a);
    lemma_raised_contains(heads, cfg, now, monotonic, a);
    let i = choose|i: int|
        0 <= i < heads.len() && head_alerts(#[trigger] heads[i], cfg, now, monotonic).contains(a);
    lemma_head_contains(heads[i], cfg, now, monotonic, a);
    let k = choose|k: int|
        0 <= k <= 5 && #[trigger] rule(k, heads[i], cfg, now, monotonic) == Some(a);
    lemma_rule_key(k, heads[i], cfg, now, monotonic);
    assert(heads[i].reachable is Some);
}

/// The heads' alerts follow one another as the heads do.
pub proof fn law_alerts_follow_the_heads(
    front: Seq<HeadState>,
    back: Seq<HeadState>,
    cfg: Config,
    now: Timestamp,
    monotonic: u64,
)
    ensures
        raised_by(front + back, cfg, now, monotonic) == raised_by(front, cfg, now, monotonic)
            + raised_by(back, cfg, now, monotonic),
    decreases back.len(),
{
    if back.len() == 0 {
        assert(front + back =~= front);
        assert(raised_by(front, cfg, now, monotonic) + Seq::empty() =~= raised_by(
            front,
            cfg,
            now,
            monotonic,
        ));
    } else {
        law_alerts_follow_the_heads(front, back.drop_last(), cfg, now, monotonic);
        assert((front + back).drop_last() =~= front + back.drop_last());
        assert(raised_by(front + back, cfg, now, monotonic) =~= raised_by(
            front,
            cfg,
            now,
            monotonic,
        ) + raised_by(back, cfg, now, monotonic));
    }
}

/// Within one rank alerts keep the order in which they were raised.
pub proof fn law_ranking_keeps_the_order(
    front: Seq<AlertView>,
    back: Seq<AlertView>,
    crit: bool,
)
    ensures
        of_rank(front + back, crit) == of_rank(front, crit) + of_rank(back, crit),
        forall|a: AlertView| a.crit == crit ==> #[trigger] of_rank(seq![a], crit) == seq![a],
        forall|a: AlertView| a.crit != crit ==> #[trigger] of_rank(seq![a], crit).len() == 0,
    decreases back.len(),
{
    if back.len() == 0 {
        assert(front + back =~= front);
        assert(of_rank(front, crit) + of_rank(back, crit) =~= of_rank(front, crit));
    } else {
        law_ranking_keeps_the_order(front, back.drop_last(), crit);
        assert((front + back).drop_last() =~= front + back.drop_last());
        assert(of_rank(front + back, crit) =~= of_rank(front, crit) + of_rank(back, crit));
    }
    assert forall|a: AlertView| a.crit == crit implies #[trigger] of_rank(seq![a], crit)
        == seq![a] by {
        assert(seq![a].drop_last() =~= Seq::empty());
        assert(of_rank(Seq::<AlertView>::empty(), crit) =~= Seq::empty());
        assert(of_rank(seq![a], crit) =~= seq![a]);
    }
    assert forall|a: AlertView| a.crit != crit implies #[trigger] of_rank(seq![a], crit).len()
        == 0 by {
        assert(seq![a].drop_last() =~= Seq::empty());
        assert(of_rank(Seq::<AlertView>::empty(), crit) =~= Seq::empty());
    }
}

/// Where a condition's alert stands among those of a head that answers.
pub open spec fn place(name: Seq<char>, key: Seq<char>) -> int {
    if key == name + ":status"@ {
        0
    } else if key == name + ":hard-confirm"@ {
        1
    } else if key == name + ":headroom"@ {
        2
    } else if key == name + ":backpressure"@ {
        3
    } else {
        4
    }
}

proof fn lemma_place(name: Seq<char>, k: int)
    requires
        1 <= k <= 5,
    ensures
        place(name, name + condition(k)) == k - 1,
{
    assert forall|j: int| 1 <= j < k implies name + #[trigger] condition(j) != name + condition(
        k,
    ) by {
        lemma_conditions(j);
        lemma_conditions(k);
        lemma_conditions_differ(j, k);
        if name + condition(j) == name + condition(k) {
            lemma_key_splits(name, name, condition(j), condition(k));
        }
    }
    assert(k > 1 ==> name + condition(1) != name + condition(k));
    assert(k > 2 ==> name + condition(2) != name + condition(k));
    assert(k > 3 ==> name + condition(3) != name + condition(k));
    assert(k > 4 ==> name + condition(4) != name + condition(k));
}

/// A head that answers raises what it says of itself first, then what its statistics show, and last
/// what its newest block does.
pub proof fn law_rules_stand_in_order(
    h: HeadState,
    cfg: Config,
    now: Timestamp,
    monotonic: u64,
    i: int,
    j: int,
)
    requires
        h.reachable == Some(true),
        0 <= i < j < head_alerts(h, cfg, now, monotonic).len(),
    ensures
        ({
            let alerts = head_alerts(h, cfg, now, monotonic);
            place(h.name@, alerts[i].key) < place(h.name@, alerts[j].key)
        }),
{
    let all = head_alerts(h, cfg, now, monotonic);
    lemma_place(h.name@, 1);
    lemma_place(h.name@, 2);
    lemma_place(h.name@, 3);
    lemma_place(h.name@, 4);
    lemma_place(h.name@, 5);
    let r1 = listed(rule(1, h, cfg, now, monotonic));
    let r2 = listed(rule(2, h, cfg, now, monotonic));
    let r3 = listed(rule(3, h, cfg, now, monotonic));
    let r4 = listed(rule(4, h, cfg, now, monotonic));
    let r5 = listed(rule(5, h, cfg, now, monotonic));
    lemma_rule_key(1, h, cfg, now, monotonic);
    lemma_rule_key(2, h, cfg, now, monotonic);
    lemma_rule_key(3, h, cfg, now, monotonic);
    lemma_rule_key(4, h, cfg, now, monotonic);
    lemma_rule_key(5, h, cfg, now, monotonic);
    assert(all =~= r1 + (r2 + r3 + r4) + r5);
    assert forall|m: int| 0 <= m < all.len() implies {
        let spot = place(h.name@, (#[trigger] all[m]).key);
        &&& spot == 0 ==> m < r1.len()
        &&& spot == 1 ==> r1.len() <= m < r1.len() + r2.len()
        &&& spot == 2 ==> r1.len() + r2.len() <= m < r1.len() + r2.len() + r3.len()
        &&& spot == 3 ==> r1.len() + r2.len() + r3.len() <= m < r1.len() + r2.len() + r3.len()
            + r4.len()
        &&& spot == 4 ==> r1.len() + r2.len() + r3.len() + r4.len() <= m
        &&& 0 <= spot <= 4
    } by {}
}

} // verus!
