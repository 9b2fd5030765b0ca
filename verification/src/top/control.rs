//! What a tick and a key press do to the dashboard's state.

use crate::text::same_text;
use crate::top::alerts::{compute, raised_by, ranked};
use crate::top::clock::{on_the_calendar, Timestamp, CALENDAR_END, CALENDAR_START};
use crate::top::config::Config;
use crate::top::log_laws::{absent, law_new_alert_is_active_since_now};
use crate::top::snapshot::raised_at;
use crate::top::state::{
    alerts_view, newest, Alert, AlertEvent, AlertView, App, HeadState, Screen, ALERT_LOG_CAP,
};
use std::collections::VecDeque;
use vstd::prelude::*;
use vstd::std_specs::vecdeque::*;

verus! {

/// What an event in the alert log says.
pub struct EventView {
    pub at_unix: i64,
    pub key: Seq<char>,
    pub text: Seq<char>,
    pub crit: bool,
    pub cleared: bool,
}

impl View for AlertEvent {
    type V = EventView;

    open spec fn view(&self) -> EventView {
        EventView {
            at_unix: self.at_unix,
            key: self.key@,
            text: self.text@,
            crit: self.crit,
            cleared: self.cleared,
        }
    }
}

/// What an alert log says.
pub open spec fn events_view(log: Seq<AlertEvent>) -> Seq<EventView> {
    Seq::new(log.len(), |i: int| log[i]@)
}

/// Whether one of the alerts carries a key.
pub open spec fn has_key(alerts: Seq<AlertView>, key: Seq<char>) -> bool {
    exists|i: int| 0 <= i < alerts.len() && (#[trigger] alerts[i]).key == key
}

/// The transition of one alert.
pub open spec fn transition(alert: AlertView, at_unix: i64, cleared: bool) -> EventView {
    EventView { at_unix, key: alert.key, text: alert.text, crit: alert.crit, cleared }
}

/// The transitions of those of `alerts` whose key none of `others` carries.
pub open spec fn only_in(
    alerts: Seq<AlertView>,
    others: Seq<AlertView>,
    at_unix: i64,
    cleared: bool,
) -> Seq<EventView>
    decreases alerts.len(),
{
    if alerts.len() == 0 {
        Seq::empty()
    } else {
        let before = only_in(alerts.drop_last(), others, at_unix, cleared);
        if has_key(others, alerts.last().key) {
            before
        } else {
            before.push(transition(alerts.last(), at_unix, cleared))
        }
    }
}

/// The transitions from one set of alerts to the next: those newly raised, then those cleared.
///
/// The comparison is on the stable key, never the text: display text may embed live counters and
/// must not flap the alert.
pub open spec fn transitions(
    old_alerts: Seq<AlertView>,
    fresh: Seq<AlertView>,
    at_unix: i64,
) -> Seq<EventView> {
    only_in(fresh, old_alerts, at_unix, false) + only_in(old_alerts, fresh, at_unix, true)
}

fn carries(alerts: &Vec<Alert>, key: &str) -> (r: bool)
    ensures
        r == has_key(alerts_view(alerts@), key@),
{
    let mut i: usize = 0;
    while i < alerts.len()
        invariant
            i <= alerts@.len(),
            forall|j: int| 0 <= j < i ==> (#[trigger] alerts_view(alerts@)[j]).key != key@,
        decreases alerts@.len() - i,
    {
        if same_text(alerts[i].key.as_str(), key) {
            assert(alerts_view(alerts@)[i as int].key == key@);
            return true;
        }
        i = i + 1;
    }
    false
}

/// Log the transitions of those of `alerts` whose key none of `others` carries.
fn log_only_in(
    log: &mut VecDeque<AlertEvent>,
    alerts: &Vec<Alert>,
    others: &Vec<Alert>,
    at_unix: i64,
    cleared: bool,
)
    ensures
        events_view(final(log)@) == events_view(old(log)@) + only_in(
            alerts_view(alerts@),
            alerts_view(others@),
            at_unix,
            cleared,
        ),
{
    let ghost before = events_view(log@);
    let ghost all = alerts_view(alerts@);
    let ghost rest = alerts_view(others@);
    let mut i: usize = 0;
    assert(all.take(0) =~= Seq::<AlertView>::empty());
    assert(before + Seq::<EventView>::empty() =~= before);
    while i < alerts.len()
        invariant
            i <= alerts@.len(),
            all == alerts_view(alerts@),
            rest == alerts_view(others@),
            events_view(log@) == before + only_in(all.take(i as int), rest, at_unix, cleared),
        decreases alerts@.len() - i,
    {
        let a = &alerts[i];
        let ghost so_far = events_view(log@);
        assert(all.take(i + 1).drop_last() =~= all.take(i as int));
        assert(all.take(i + 1).last() == a@);
        if !carries(others, a.key.as_str()) {
            log.push_back(
                AlertEvent {
                    at_unix,
                    key: a.key.clone(),
                    text: a.text.clone(),
                    crit: a.crit,
                    cleared,
                },
            );
            assert(events_view(log@) =~= so_far.push(transition(a@, at_unix, cleared)));
            assert(events_view(log@) =~= before + only_in(
                all.take(i + 1),
                rest,
                at_unix,
                cleared,
            ));
        }
        i = i + 1;
    }
    assert(all.take(i as int) =~= all);
}

/// Drop the oldest events that do not fit.
pub fn cap_log(log: &mut VecDeque<AlertEvent>)
    ensures
        final(log)@ == newest(old(log)@, ALERT_LOG_CAP as nat),
        final(log)@.len() <= ALERT_LOG_CAP,
{
    let ghost before = log@;
    let ghost mut dropped: int = 0;
    assert(before.skip(0) =~= before);
    while log.len() > ALERT_LOG_CAP
        invariant
            0 <= dropped <= before.len(),
            log@ == before.skip(dropped),
            dropped > 0 ==> before.len() - dropped >= ALERT_LOG_CAP,
        decreases log@.len(),
    {
        let _ = log.pop_front();
        proof {
            dropped = dropped + 1;
            assert(log@ =~= before.skip(dropped));
        }
    }
}

/// Put freshly computed alerts in place and log the transitions to them. `true` where there were
/// any, so that the log is worth saving.
pub fn refresh_with(app: &mut App, fresh: Vec<Alert>, at_unix: i64) -> (r: bool)
    ensures
        ({
            let moved = transitions(alerts_view(old(app).alerts@), alerts_view(fresh@), at_unix);
            &&& r == (moved.len() > 0)
            &&& events_view(final(app).alert_log@) == newest(
                events_view(old(app).alert_log@) + moved,
                ALERT_LOG_CAP as nat,
            )
        }),
        forall|k: int|
            0 <= k < fresh@.len() && fresh@[k].key@.len() > 0 && absent(
                alerts_view(old(app).alerts@),
                fresh@[k].key@,
            ) && old(app).alerts@.len() + fresh@.len() <= 200 ==> raised_at(
                final(app).alert_log@,
                (#[trigger] fresh@[k]).key@,
            ) == Some(at_unix),
        final(app).alerts == fresh,
        final(app).heads == old(app).heads,
        final(app).selected == old(app).selected,
        final(app).screen == old(app).screen,
{
    let ghost log = app.alert_log@;
    let ghost old_alerts = alerts_view(app.alerts@);
    let ghost before = events_view(app.alert_log@);
    let ghost raised = only_in(alerts_view(fresh@), alerts_view(app.alerts@), at_unix, false);
    let ghost cleared = only_in(alerts_view(app.alerts@), alerts_view(fresh@), at_unix, true);
    let start = app.alert_log.len();
    log_only_in(&mut app.alert_log, &fresh, &app.alerts, at_unix, false);
    log_only_in(&mut app.alert_log, &app.alerts, &fresh, at_unix, true);
    let changed = app.alert_log.len() != start;
    let ghost full = app.alert_log@;
    assert(events_view(full) =~= before + (raised + cleared));
    cap_log(&mut app.alert_log);
    proof {
        assert(events_view(app.alert_log@) =~= newest(events_view(full), ALERT_LOG_CAP as nat));
        assert(events_view(full).len() == before.len() + raised.len() + cleared.len());
        assert forall|k: int|
            0 <= k < fresh@.len() && fresh@[k].key@.len() > 0 && absent(
                old_alerts,
                fresh@[k].key@,
            ) && old_alerts.len() + fresh@.len() <= 200 implies raised_at(
            app.alert_log@,
            (#[trigger] fresh@[k]).key@,
        ) == Some(at_unix) by {
            assert(alerts_view(fresh@)[k].key == fresh@[k].key@);
            law_new_alert_is_active_since_now(
                log,
                app.alert_log@,
                old_alerts,
                alerts_view(fresh@),
                at_unix,
                k,
            );
        }
    }
    app.alerts = fresh;
    changed
}

/// Recompute alerts and log raised and cleared transitions. `true` where there were any. Runs once
/// per tick; the draw only reads the stored results.
pub fn refresh_alerts(app: &mut App, cfg: &Config, monotonic: u64) -> (r: bool)
    ensures
        exists|now: Timestamp, at_unix: i64|
            {
                let fresh = ranked(raised_by(old(app).heads@, *cfg, now, monotonic));
                let moved = #[trigger] transitions(
                    alerts_view(old(app).alerts@),
                    ranked(raised_by(old(app).heads@, *cfg, now, monotonic)),
                    at_unix,
                );
                &&& on_the_calendar(now@.0, now@.1)
                &&& CALENDAR_START <= at_unix <= CALENDAR_END
                &&& alerts_view(final(app).alerts@) == fresh
                &&& r == (moved.len() > 0)
                &&& events_view(final(app).alert_log@) == newest(
                    events_view(old(app).alert_log@) + moved,
                    ALERT_LOG_CAP as nat,
                )
            },
        final(app).heads == old(app).heads,
        final(app).selected == old(app).selected,
        final(app).screen == old(app).screen,
{
    let fresh = compute(app, cfg, monotonic);
    let at_unix = Timestamp::now().unix();
    refresh_with(app, fresh, at_unix)
}

/// A key press, as far as the dashboard tells them apart.
#[derive(Clone, Copy, PartialEq, Eq, Debug, Structural)]
pub enum Key {
    Char(char),
    Escape,
    Tab,
    BackTab,
    Left,
    Right,
    Other,
}

/// The screen that a character selects, by its letter or by its number.
pub open spec fn chosen_screen(c: char) -> Option<Screen> {
    match Screen::lettered(c) {
        Some(screen) => Some(screen),
        None => if c == '1' {
            Some(Screen::Consensus)
        } else if c == '2' {
            Some(Screen::Alerts)
        } else {
            None
        },
    }
}

/// What a key press makes of the selected head and the screen showing; `None` where it quits.
///
/// `c` is both a screen key and, with control held, quit.
pub open spec fn after_key(
    selected: int,
    screen: Screen,
    heads: int,
    key: Key,
    control: bool,
) -> Option<(int, Screen)> {
    match key {
        Key::Escape => None,
        Key::Char(c) => if c == 'q' || (c == 'c' && control) {
            None
        } else {
            match chosen_screen(c) {
                Some(chosen) => Some((selected, chosen)),
                None => Some((selected, screen)),
            }
        },
        Key::Tab => Some(((selected + 1) % heads, screen)),
        Key::BackTab => Some(((selected + heads - 1) % heads, screen)),
        Key::Right => Some((selected, screen.other())),
        Key::Left => Some((selected, screen.other())),
        Key::Other => Some((selected, screen)),
    }
}

/// Act on a key press. `true` where it quits.
pub fn on_key(app: &mut App, key: Key, control: bool) -> (r: bool)
    requires
        key is Tab ==> old(app).heads@.len() > 0 && old(app).selected < usize::MAX,
        key is BackTab ==> old(app).heads@.len() > 0 && old(app).selected + old(app).heads@.len()
            <= usize::MAX,
    ensures
        ({
            let after = after_key(
                old(app).selected as int,
                old(app).screen,
                old(app).heads@.len() as int,
                key,
                control,
            );
            match after {
                None => {
                    &&& r
                    &&& final(app).selected == old(app).selected
                    &&& final(app).screen == old(app).screen
                },
                Some((selected, screen)) => {
                    &&& !r
                    &&& final(app).selected == selected
                    &&& final(app).screen == screen
                },
            }
        }),
        final(app).heads == old(app).heads,
        final(app).alerts == old(app).alerts,
        final(app).alert_log == old(app).alert_log,
{
    match key {
        Key::Escape => true,
        Key::Char(c) => {
            if c == 'q' || (c == 'c' && control) {
                return true;
            }
            let by_number = match c {
                '1' => Some(Screen::Consensus),
                '2' => Some(Screen::Alerts),
                _ => None,
            };
            match (Screen::from_key(c), by_number) {
                (Some(screen), _) => {
                    app.screen = screen;
                },
                (None, Some(screen)) => {
                    app.screen = screen;
                },
                (None, None) => {},
            }
            false
        },
        Key::Tab => {
            app.selected = (app.selected + 1) % app.heads.len();
            false
        },
        Key::BackTab => {
            app.selected = (app.selected + (app.heads.len() - 1)) % app.heads.len();
            false
        },
        Key::Right => {
            app.screen = app.screen.next();
            false
        },
        Key::Left => {
            app.screen = app.screen.prev();
            false
        },
        Key::Other => false,
    }
}

/// Whether every head has been probed.
pub open spec fn probed(heads: Seq<HeadState>) -> bool {
    forall|i: int| 0 <= i < heads.len() ==> (#[trigger] heads[i]).reachable is Some
}

/// Whether every head has been probed.
pub fn all_probed(app: &App) -> (r: bool)
    ensures
        r == probed(app.heads@),
{
    let mut i: usize = 0;
    while i < app.heads.len()
        invariant
            i <= app.heads@.len(),
            forall|k: int| 0 <= k < i ==> (#[trigger] app.heads@[k]).reachable is Some,
        decreases app.heads@.len() - i,
    {
        if app.heads[i].reachable.is_none() {
            return false;
        }
        i = i + 1;
    }
    true
}

/// What a one-shot run does next.
#[derive(Clone, Copy, PartialEq, Eq, Debug, Structural)]
pub enum Wait {
    /// Look again in a moment.
    Again,
    /// Print what has arrived, and whether that is everything.
    Print { complete: bool },
}

/// Wait until every head has been probed, or until the time is up: a head that never answers
/// delays the snapshot, it does not withhold it.
pub fn wait_for_heads(app: &App, past_deadline: bool) -> (r: Wait)
    ensures
        r == (if probed(app.heads@) {
            Wait::Print { complete: true }
        } else if past_deadline {
            Wait::Print { complete: false }
        } else {
            Wait::Again
        }),
        r == Wait::Again <==> !past_deadline && exists|i: int|
            0 <= i < app.heads@.len() && (#[trigger] app.heads@[i]).reachable is None,
        r matches Wait::Print { complete } ==> (complete <==> forall|i: int|
            0 <= i < app.heads@.len() ==> (#[trigger] app.heads@[i]).reachable is Some),
{
    if all_probed(app) {
        Wait::Print { complete: true }
    } else if past_deadline {
        Wait::Print { complete: false }
    } else {
        Wait::Again
    }
}

/// A one-shot run derives the alerts without logging them: it is a read, and the alert log is the
/// terminal's.
pub fn derive_alerts(app: &mut App, cfg: &Config, monotonic: u64)
    ensures
        exists|now: Timestamp|
            {
                &&& on_the_calendar(now@.0, now@.1)
                &&& alerts_view(final(app).alerts@) == #[trigger] ranked(
                    raised_by(old(app).heads@, *cfg, now, monotonic),
                )
            },
        final(app).heads == old(app).heads,
        final(app).selected == old(app).selected,
        final(app).screen == old(app).screen,
        final(app).alert_log == old(app).alert_log,
{
    app.alerts = compute(app, cfg, monotonic);
}

/// Whether two sets of alerts carry the same keys.
pub open spec fn same_keys(a: Seq<AlertView>, b: Seq<AlertView>) -> bool {
    forall|key: Seq<char>| has_key(a, key) <==> has_key(b, key)
}

proof fn lemma_none_only_in(
    alerts: Seq<AlertView>,
    others: Seq<AlertView>,
    at_unix: i64,
    cleared: bool,
)
    requires
        forall|i: int| 0 <= i < alerts.len() ==> has_key(others, (#[trigger] alerts[i]).key),
    ensures
        only_in(alerts, others, at_unix, cleared).len() == 0,
    decreases alerts.len(),
{
    if alerts.len() > 0 {
        let front = alerts.drop_last();
        assert forall|i: int| 0 <= i < front.len() implies has_key(
            others,
            (#[trigger] front[i]).key,
        ) by {
            assert(front[i] == alerts[i]);
        }
        lemma_none_only_in(front, others, at_unix, cleared);
        assert(alerts[alerts.len() - 1] == alerts.last());
    }
}

/// Alerts that keep their keys log nothing, whatever their texts count.
pub proof fn law_live_counters_do_not_flap(
    old_alerts: Seq<AlertView>,
    fresh: Seq<AlertView>,
    at_unix: i64,
)
    requires
        same_keys(old_alerts, fresh),
    ensures
        transitions(old_alerts, fresh, at_unix).len() == 0,
{
    assert forall|i: int| 0 <= i < fresh.len() implies has_key(
        old_alerts,
        (#[trigger] fresh[i]).key,
    ) by {
        assert(has_key(fresh, fresh[i].key));
    }
    assert forall|i: int| 0 <= i < old_alerts.len() implies has_key(
        fresh,
        (#[trigger] old_alerts[i]).key,
    ) by {
        assert(has_key(old_alerts, old_alerts[i].key));
    }
    lemma_none_only_in(fresh, old_alerts, at_unix, false);
    lemma_none_only_in(old_alerts, fresh, at_unix, true);
}

/// Whether an event is among events.
pub open spec fn logged(events: Seq<EventView>, event: EventView) -> bool {
    exists|i: int| 0 <= i < events.len() && #[trigger] events[i] == event
}

proof fn lemma_only_in_holds(
    alerts: Seq<AlertView>,
    others: Seq<AlertView>,
    at_unix: i64,
    cleared: bool,
    event: EventView,
)
    ensures
        logged(only_in(alerts, others, at_unix, cleared), event) <==> exists|k: int|
            0 <= k < alerts.len() && !has_key(others, (#[trigger] alerts[k]).key) && event
                == transition(alerts[k], at_unix, cleared),
    decreases alerts.len(),
{
    let events = only_in(alerts, others, at_unix, cleared);
    if alerts.len() > 0 {
        let front = alerts.drop_last();
        let before = only_in(front, others, at_unix, cleared);
        lemma_only_in_holds(front, others, at_unix, cleared, event);
        if logged(events, event) {
            let i = choose|i: int| 0 <= i < events.len() && #[trigger] events[i] == event;
            if i < before.len() {
                assert(before[i] == event);
                let k = choose|k: int|
                    0 <= k < front.len() && !has_key(others, (#[trigger] front[k]).key) && event
                        == transition(front[k], at_unix, cleared);
                assert(alerts[k] == front[k]);
            } else {
                assert(alerts[alerts.len() - 1] == alerts.last());
            }
        }
        if exists|k: int|
            0 <= k < alerts.len() && !has_key(others, (#[trigger] alerts[k]).key) && event
                == transition(alerts[k], at_unix, cleared) {
            let k = choose|k: int|
                0 <= k < alerts.len() && !has_key(others, (#[trigger] alerts[k]).key) && event
                    == transition(alerts[k], at_unix, cleared);
            if k < front.len() {
                assert(front[k] == alerts[k]);
                let i = choose|i: int| 0 <= i < before.len() && #[trigger] before[i] == event;
                assert(events[i] == event);
            } else {
                assert(events[before.len() as int] == event);
            }
        }
    }
}

/// Exactly the alerts that were not there before are logged as raised, and exactly those that are
/// no longer there as cleared.
pub proof fn law_transitions_are_the_difference(
    old_alerts: Seq<AlertView>,
    fresh: Seq<AlertView>,
    at_unix: i64,
    event: EventView,
)
    ensures
        logged(transitions(old_alerts, fresh, at_unix), event) <==> {
            ||| exists|k: int|
                0 <= k < fresh.len() && !has_key(old_alerts, (#[trigger] fresh[k]).key) && event
                    == transition(fresh[k], at_unix, false)
            ||| exists|k: int|
                0 <= k < old_alerts.len() && !has_key(fresh, (#[trigger] old_alerts[k]).key)
                    && event == transition(old_alerts[k], at_unix, true)
        },
{
    let raised = only_in(fresh, old_alerts, at_unix, false);
    let cleared = only_in(old_alerts, fresh, at_unix, true);
    let all = transitions(old_alerts, fresh, at_unix);
    lemma_only_in_holds(fresh, old_alerts, at_unix, false, event);
    lemma_only_in_holds(old_alerts, fresh, at_unix, true, event);
    if logged(all, event) {
        let i = choose|i: int| 0 <= i < all.len() && #[trigger] all[i] == event;
        if i < raised.len() {
            assert(raised[i] == event);
        } else {
            assert(cleared[i - raised.len()] == event);
        }
    }
    if logged(raised, event) {
        let i = choose|i: int| 0 <= i < raised.len() && #[trigger] raised[i] == event;
        assert(all[i] == event);
    }
    if logged(cleared, event) {
        let i = choose|i: int| 0 <= i < cleared.len() && #[trigger] cleared[i] == event;
        assert(all[raised.len() + i] == event);
    }
}

/// Tab and back-tab undo each other, and the selected head stays one of the heads.
pub proof fn law_tabbing_goes_round(selected: int, screen: Screen, heads: int, control: bool)
    requires
        0 <= selected < heads,
    ensures
        after_key(selected, screen, heads, Key::Tab, control) matches Some((there, _)) && 0 <= there
            < heads && after_key(there, screen, heads, Key::BackTab, control) == Some(
            (selected, screen),
        ),
        after_key(selected, screen, heads, Key::BackTab, control) matches Some((there, _)) && 0
            <= there < heads && after_key(there, screen, heads, Key::Tab, control) == Some(
            (selected, screen),
        ),
{
    if selected + 1 < heads {
        vstd::arithmetic::div_mod::lemma_small_mod((selected + 1) as nat, heads as nat);
    } else {
        vstd::arithmetic::div_mod::lemma_mod_self_0(heads);
    }
    let there = (selected + 1) % heads;
    if there == 0 {
        vstd::arithmetic::div_mod::lemma_small_mod((heads - 1) as nat, heads as nat);
    } else {
        vstd::arithmetic::div_mod::lemma_mod_add_multiples_vanish(selected, heads);
        vstd::arithmetic::div_mod::lemma_small_mod(selected as nat, heads as nat);
    }
    let back = (selected + heads - 1) % heads;
    if selected == 0 {
        vstd::arithmetic::div_mod::lemma_small_mod((heads - 1) as nat, heads as nat);
        vstd::arithmetic::div_mod::lemma_mod_self_0(heads);
    } else {
        vstd::arithmetic::div_mod::lemma_mod_add_multiples_vanish(selected - 1, heads);
        vstd::arithmetic::div_mod::lemma_small_mod((selected - 1) as nat, heads as nat);
        vstd::arithmetic::div_mod::lemma_small_mod(selected as nat, heads as nat);
    }
}

} // verus!
