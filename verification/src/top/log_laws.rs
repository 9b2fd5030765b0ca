//! What the alert log holds after a tick, and what a key press does.

use crate::top::control::{
    after_key, events_view, has_key, only_in, transitions, EventView, Key,
};
use crate::top::snapshot::raised_at;
use crate::top::state::{newest, AlertEvent, AlertView, Screen, ALERT_LOG_CAP};
use vstd::prelude::*;

verus! {

/// Whether none of the alerts has the key.
pub open spec fn absent(alerts: Seq<AlertView>, key: Seq<char>) -> bool {
    forall|j: int| 0 <= j < alerts.len() ==> (#[trigger] alerts[j]).key != key
}

/// Whether an event says of one of the alerts, whose key none of `others` has, that it came or went:
/// its key, its text and its rank are the alert's.
pub open spec fn tells_of(event: EventView, alerts: Seq<AlertView>, others: Seq<AlertView>) -> bool {
    exists|k: int|
        {
            &&& 0 <= k < alerts.len()
            &&& event.key == (#[trigger] alerts[k]).key
            &&& event.text == alerts[k].text
            &&& event.crit == alerts[k].crit
            &&& absent(others, alerts[k].key)
        }
}

proof fn lemma_tells(
    alerts: Seq<AlertView>,
    others: Seq<AlertView>,
    at_unix: i64,
    cleared: bool,
)
    ensures
        only_in(alerts, others, at_unix, cleared).len() <= alerts.len(),
        forall|i: int|
            0 <= i < only_in(alerts, others, at_unix, cleared).len() ==> {
                let event = #[trigger] only_in(alerts, others, at_unix, cleared)[i];
                &&& event.at_unix == at_unix
                &&& event.cleared == cleared
                &&& tells_of(event, alerts, others)
            },
    decreases alerts.len(),
{
    let events = only_in(alerts, others, at_unix, cleared);
    if alerts.len() > 0 {
        let front = alerts.drop_last();
        let before = only_in(front, others, at_unix, cleared);
        lemma_tells(front, others, at_unix, cleared);
        assert forall|i: int| 0 <= i < events.len() implies {
            let event = #[trigger] events[i];
            &&& event.at_unix == at_unix
            &&& event.cleared == cleared
            &&& tells_of(event, alerts, others)
        } by {
            if i < before.len() {
                assert(events[i] == before[i]);
                let k = choose|k: int|
                    {
                        &&& 0 <= k < front.len()
                        &&& before[i].key == (#[trigger] front[k]).key
                        &&& before[i].text == front[k].text
                        &&& before[i].crit == front[k].crit
                        &&& absent(others, front[k].key)
                    };
                assert(alerts[k] == front[k]);
            } else {
                assert(alerts[alerts.len() - 1] == alerts.last());
            }
        }
    }
}

proof fn lemma_told(
    alerts: Seq<AlertView>,
    others: Seq<AlertView>,
    at_unix: i64,
    cleared: bool,
    k: int,
) -> (i: int)
    requires
        0 <= k < alerts.len(),
        absent(others, alerts[k].key),
    ensures
        ({
            let events = only_in(alerts, others, at_unix, cleared);
            &&& 0 <= i < events.len()
            &&& events[i].at_unix == at_unix
            &&& events[i].cleared == cleared
            &&& events[i].key == alerts[k].key
            &&& events[i].text == alerts[k].text
            &&& events[i].crit == alerts[k].crit
        }),
    decreases alerts.len(),
{
    let front = alerts.drop_last();
    let before = only_in(front, others, at_unix, cleared);
    assert(!has_key(others, alerts[k].key));
    if k < front.len() {
        let i = lemma_told(front, others, at_unix, cleared, k);
        assert(only_in(alerts, others, at_unix, cleared)[i] == before[i]);
        i
    } else {
        before.len() as int
    }
}

/// Every event that a tick logs is of that moment, and has the key, the text and the rank of an alert
/// that came or of one that went, the former first; there is no more than one for each alert.
pub proof fn law_events_tell_of_alerts(
    old_alerts: Seq<AlertView>,
    fresh: Seq<AlertView>,
    at_unix: i64,
)
    ensures
        transitions(old_alerts, fresh, at_unix).len() <= old_alerts.len() + fresh.len(),
        forall|i: int|
            0 <= i < transitions(old_alerts, fresh, at_unix).len() ==> {
                let event = #[trigger] transitions(old_alerts, fresh, at_unix)[i];
                &&& event.at_unix == at_unix
                &&& !event.cleared ==> tells_of(event, fresh, old_alerts)
                &&& event.cleared ==> tells_of(event, old_alerts, fresh)
            },
        forall|i: int, j: int|
            0 <= i < j < transitions(old_alerts, fresh, at_unix).len() && (#[trigger] transitions(
                old_alerts,
                fresh,
                at_unix,
            )[i]).cleared ==> (#[trigger] transitions(old_alerts, fresh, at_unix)[j]).cleared,
{
    lemma_tells(fresh, old_alerts, at_unix, false);
    lemma_tells(old_alerts, fresh, at_unix, true);
    let raised = only_in(fresh, old_alerts, at_unix, false);
    let gone = only_in(old_alerts, fresh, at_unix, true);
    let all = transitions(old_alerts, fresh, at_unix);
    assert forall|i: int| 0 <= i < all.len() implies {
        let event = #[trigger] all[i];
        &&& event.at_unix == at_unix
        &&& event.cleared <==> i >= raised.len()
        &&& !event.cleared ==> tells_of(event, fresh, old_alerts)
        &&& event.cleared ==> tells_of(event, old_alerts, fresh)
    } by {
        if i < raised.len() {
            assert(all[i] == raised[i]);
        } else {
            assert(all[i] == gone[i - raised.len()]);
        }
    }
}

/// Whether events hold one with these parts.
pub open spec fn holds_event(
    events: Seq<EventView>,
    at_unix: i64,
    key: Seq<char>,
    text: Seq<char>,
    crit: bool,
    cleared: bool,
) -> bool {
    exists|i: int|
        {
            &&& 0 <= i < events.len()
            &&& (#[trigger] events[i]).at_unix == at_unix
            &&& events[i].key == key
            &&& events[i].text == text
            &&& events[i].crit == crit
            &&& events[i].cleared == cleared
        }
}

/// An alert whose key was not there before is logged as raised, and one whose key is there no longer
/// as cleared, each with its own key, text and rank.
pub proof fn law_alerts_are_told_of(
    old_alerts: Seq<AlertView>,
    fresh: Seq<AlertView>,
    at_unix: i64,
    k: int,
)
    ensures
        0 <= k < fresh.len() && absent(old_alerts, fresh[k].key) ==> holds_event(
            transitions(old_alerts, fresh, at_unix),
            at_unix,
            fresh[k].key,
            fresh[k].text,
            fresh[k].crit,
            false,
        ),
        0 <= k < old_alerts.len() && absent(fresh, old_alerts[k].key) ==> holds_event(
            transitions(old_alerts, fresh, at_unix),
            at_unix,
            old_alerts[k].key,
            old_alerts[k].text,
            old_alerts[k].crit,
            true,
        ),
{
    let raised = only_in(fresh, old_alerts, at_unix, false);
    let gone = only_in(old_alerts, fresh, at_unix, true);
    let all = transitions(old_alerts, fresh, at_unix);
    if 0 <= k < fresh.len() && absent(old_alerts, fresh[k].key) {
        let i = lemma_told(fresh, old_alerts, at_unix, false, k);
        assert(all[i] == raised[i]);
    }
    if 0 <= k < old_alerts.len() && absent(fresh, old_alerts[k].key) {
        let i = lemma_told(old_alerts, fresh, at_unix, true, k);
        assert(all[raised.len() + i] == gone[i]);
    }
}

/// Out of nothing every alert is raised, and into nothing every alert is cleared, in their order.
pub proof fn law_events_keep_the_order_of_alerts(alerts: Seq<AlertView>, at_unix: i64)
    ensures
        transitions(Seq::empty(), alerts, at_unix).len() == alerts.len(),
        transitions(alerts, Seq::empty(), at_unix).len() == alerts.len(),
        forall|k: int|
            0 <= k < alerts.len() ==> {
                let event = transitions(Seq::empty(), alerts, at_unix)[k];
                event.key == (#[trigger] alerts[k]).key && !event.cleared
            },
        forall|k: int|
            0 <= k < alerts.len() ==> {
                let event = transitions(alerts, Seq::empty(), at_unix)[k];
                event.key == (#[trigger] alerts[k]).key && event.cleared
            },
    decreases alerts.len(),
{
    let none = Seq::<AlertView>::empty();
    assert(only_in(none, alerts, at_unix, true) =~= Seq::empty());
    assert(only_in(none, alerts, at_unix, false) =~= Seq::empty());
    let came = transitions(none, alerts, at_unix);
    let went = transitions(alerts, none, at_unix);
    assert(came =~= only_in(alerts, none, at_unix, false));
    assert(went =~= only_in(alerts, none, at_unix, true));
    if alerts.len() > 0 {
        let front = alerts.drop_last();
        law_events_keep_the_order_of_alerts(front, at_unix);
        assert(only_in(none, front, at_unix, true) =~= Seq::empty());
        assert(only_in(none, front, at_unix, false) =~= Seq::empty());
        assert(transitions(none, front, at_unix) =~= only_in(front, none, at_unix, false));
        assert(transitions(front, none, at_unix) =~= only_in(front, none, at_unix, true));
        assert(!has_key(none, alerts.last().key));
        assert forall|k: int| 0 <= k < alerts.len() implies {
            &&& came[k].key == (#[trigger] alerts[k]).key && !came[k].cleared
            &&& went[k].key == alerts[k].key && went[k].cleared
        } by {
            if k < front.len() {
                assert(front[k] == alerts[k]);
            }
        }
    }
}

/// Whether a log is what another becomes with a tick's events: they stand behind it, and the oldest
/// are dropped until no more than 200 are left.
pub open spec fn grown_log(
    before: Seq<AlertEvent>,
    after: Seq<AlertEvent>,
    moved: Seq<EventView>,
) -> bool {
    events_view(after) == newest(events_view(before) + moved, ALERT_LOG_CAP as nat)
}

/// The log keeps what fits: all of it up to 200 events, the newest 200 beyond.
pub proof fn law_log_keeps_the_newest(
    before: Seq<AlertEvent>,
    after: Seq<AlertEvent>,
    moved: Seq<EventView>,
    i: int,
)
    requires
        grown_log(before, after, moved),
    ensures
        before.len() + moved.len() <= 200 ==> after.len() == before.len() + moved.len(),
        before.len() + moved.len() > 200 ==> after.len() == 200,
        0 <= i < after.len() ==> {
            let from = before.len() + moved.len() - after.len() + i;
            after[i]@ == (if from < before.len() {
                before[from]@
            } else {
                moved[from - before.len()]
            })
        },
{
    let all = events_view(before) + moved;
    assert(events_view(after).len() == after.len());
    assert(events_view(before).len() == before.len());
    if 0 <= i < after.len() {
        assert(events_view(after)[i] == after[i]@);
        let from = before.len() + moved.len() - after.len() + i;
        assert(newest(all, ALERT_LOG_CAP as nat)[i] == all[from]);
    }
}

proof fn lemma_raised_in_the_tail(log: Seq<AlertEvent>, key: Seq<char>, from: int, at_unix: i64, i: int)
    requires
        0 <= from <= i < log.len(),
        !log[i].cleared,
        log[i].identity() == key,
        forall|j: int| from <= j < log.len() ==> (#[trigger] log[j]).at_unix == at_unix,
    ensures
        raised_at(log, key) == Some(at_unix),
    decreases log.len(),
{
    assert(log[log.len() - 1].at_unix == at_unix);
    if log.last().cleared || log.last().identity() != key {
        let front = log.drop_last();
        assert forall|j: int| from <= j < front.len() implies (#[trigger] front[j]).at_unix
            == at_unix by {
            assert(front[j] == log[j]);
        }
        lemma_raised_in_the_tail(front, key, from, at_unix, i);
    }
}

/// An alert that comes with a tick counts as raised at that tick's moment, whatever the log held.
pub proof fn law_new_alert_is_active_since_now(
    before: Seq<AlertEvent>,
    after: Seq<AlertEvent>,
    old_alerts: Seq<AlertView>,
    fresh: Seq<AlertView>,
    at_unix: i64,
    k: int,
)
    requires
        grown_log(before, after, transitions(old_alerts, fresh, at_unix)),
        0 <= k < fresh.len(),
        fresh[k].key.len() > 0,
        absent(old_alerts, fresh[k].key),
        old_alerts.len() + fresh.len() <= 200,
    ensures
        raised_at(after, fresh[k].key) == Some(at_unix),
{
    let moved = transitions(old_alerts, fresh, at_unix);
    law_events_tell_of_alerts(old_alerts, fresh, at_unix);
    let at = lemma_told(fresh, old_alerts, at_unix, false, k);
    assert(moved[at] == only_in(fresh, old_alerts, at_unix, false)[at]);
    law_log_keeps_the_newest(before, after, moved, 0);
    let from = after.len() - moved.len();
    assert forall|j: int| from <= j < after.len() implies (#[trigger] after[j]).at_unix
        == at_unix by {
        law_log_keeps_the_newest(before, after, moved, j);
        assert(after[j]@ == moved[j - from]);
    }
    law_log_keeps_the_newest(before, after, moved, from + at);
    assert(after[from + at]@ == moved[at]);
    lemma_raised_in_the_tail(after, fresh[k].key, from, at_unix, from + at);
}

proof fn lemma_raised_before_the_tail(
    before: Seq<AlertEvent>,
    after: Seq<AlertEvent>,
    key: Seq<char>,
)
    requires
        before.len() <= after.len(),
        forall|j: int| 0 <= j < before.len() ==> (#[trigger] after[j])@ == before[j]@,
        forall|j: int|
            before.len() <= j < after.len() ==> (#[trigger] after[j]).cleared || after[j].identity()
                != key,
    ensures
        raised_at(after, key) == raised_at(before, key),
    decreases after.len(),
{
    if after.len() > 0 {
        let front = after.drop_last();
        assert(after.last() == after[after.len() - 1]);
        assert forall|j: int| 0 <= j < front.len() implies front[j] == #[trigger] after[j] by {}
        if after.len() > before.len() {
            lemma_raised_before_the_tail(before, front, key);
        } else {
            let earlier = before.drop_last();
            assert(before.last() == before[before.len() - 1]);
            assert forall|j: int| 0 <= j < earlier.len() implies (#[trigger] front[j])@
                == earlier[j]@ by {
                assert(after[j]@ == before[j]@);
            }
            lemma_raised_before_the_tail(earlier, front, key);
        }
    }
}

/// An alert that was there and still is keeps the moment it was raised at, as long as the log has
/// room.
pub proof fn law_standing_alert_keeps_its_moment(
    before: Seq<AlertEvent>,
    after: Seq<AlertEvent>,
    old_alerts: Seq<AlertView>,
    fresh: Seq<AlertView>,
    at_unix: i64,
    k: int,
)
    requires
        grown_log(before, after, transitions(old_alerts, fresh, at_unix)),
        0 <= k < old_alerts.len(),
        forall|j: int| 0 <= j < fresh.len() ==> (#[trigger] fresh[j]).key.len() > 0,
        before.len() + old_alerts.len() + fresh.len() <= 200,
    ensures
        raised_at(after, old_alerts[k].key) == raised_at(before, old_alerts[k].key),
{
    let moved = transitions(old_alerts, fresh, at_unix);
    let key = old_alerts[k].key;
    law_events_tell_of_alerts(old_alerts, fresh, at_unix);
    law_log_keeps_the_newest(before, after, moved, 0);
    assert forall|j: int| 0 <= j < before.len() implies (#[trigger] after[j])@ == before[j]@ by {
        law_log_keeps_the_newest(before, after, moved, j);
    }
    assert forall|j: int| before.len() <= j < after.len() implies (#[trigger] after[j]).cleared
        || after[j].identity() != key by {
        law_log_keeps_the_newest(before, after, moved, j);
        let event = moved[j - before.len()];
        assert(after[j]@ == event);
        if !event.cleared {
            assert(tells_of(event, fresh, old_alerts));
            assert(absent(old_alerts, event.key));
        }
    }
    lemma_raised_before_the_tail(before, after, key);
}

/// The keys: `q`, escape and control with `c` quit. `c` and `1` show consensus, `a` and `2` the
/// alerts, the arrows the other screen; tab goes on to the next head and back-tab to the one before,
/// round and round. Nothing else does anything, and no key does two of these.
pub proof fn law_what_keys_do(
    selected: int,
    screen: Screen,
    heads: int,
    key: Key,
    control: bool,
)
    requires
        0 <= selected < heads,
    ensures
        after_key(selected, screen, heads, key, control) is None <==> key == Key::Escape || key
            == Key::Char('q') || key == Key::Char('c') && control,
        after_key(selected, screen, heads, key, control) matches Some((head, shown)) ==> {
            &&& head == (if key == Key::Tab {
                if selected == heads - 1 {
                    0
                } else {
                    selected + 1
                }
            } else if key == Key::BackTab {
                if selected == 0 {
                    heads - 1
                } else {
                    selected - 1
                }
            } else {
                selected
            })
            &&& key == Key::Char('c') || key == Key::Char('1') ==> shown == Screen::Consensus
            &&& key == Key::Char('a') || key == Key::Char('2') ==> shown == Screen::Alerts
            &&& key == Key::Left || key == Key::Right ==> shown != screen
            &&& shown != screen ==> key == Key::Left || key == Key::Right || key == Key::Char('c')
                || key == Key::Char('1') || key == Key::Char('a') || key == Key::Char('2')
        },
{
    if selected + 1 < heads {
        vstd::arithmetic::div_mod::lemma_small_mod((selected + 1) as nat, heads as nat);
    } else {
        vstd::arithmetic::div_mod::lemma_mod_self_0(heads);
    }
    if selected == 0 {
        vstd::arithmetic::div_mod::lemma_small_mod((heads - 1) as nat, heads as nat);
    } else {
        vstd::arithmetic::div_mod::lemma_mod_add_multiples_vanish(selected - 1, heads);
        vstd::arithmetic::div_mod::lemma_small_mod((selected - 1) as nat, heads as nat);
    }
}

} // verus!
