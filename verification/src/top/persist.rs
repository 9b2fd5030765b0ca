//! The tiny cross-run state: last-viewed screen and the alert log. A missing or corrupt file just
//! means defaults.

use crate::top::control::cap_log;
use crate::top::state::{newest, AlertEvent, Screen, ALERT_LOG_CAP};
use std::collections::VecDeque;
use vstd::prelude::*;
use vstd::std_specs::vecdeque::*;

verus! {

/// What the state file holds.
#[derive(Debug)]
pub struct Persisted {
    pub screen: Option<char>,
    pub alert_log: Vec<AlertEvent>,
}

impl Default for Persisted {
    fn default() -> (r: Persisted)
        ensures
            r.screen is None,
            r.alert_log@.len() == 0,
    {
        Persisted { screen: None, alert_log: Vec::new() }
    }
}

/// The screen that a saved letter names.
pub open spec fn saved_screen(screen: Option<char>) -> Option<Screen> {
    match screen {
        Some(c) => Screen::lettered(c),
        None => None,
    }
}

/// Take up what a state file held: the screen, where its letter is still one, and the newest
/// events that fit.
pub fn restore(saved: Persisted) -> (r: (Option<Screen>, VecDeque<AlertEvent>))
    ensures
        r.0 == saved_screen(saved.screen),
        r.1@ == newest(saved.alert_log@, ALERT_LOG_CAP as nat),
{
    let screen = match saved.screen {
        Some(c) => Screen::from_key(c),
        None => None,
    };
    let mut log: VecDeque<AlertEvent> = VecDeque::new();
    let mut i: usize = 0;
    while i < saved.alert_log.len()
        invariant
            i <= saved.alert_log@.len(),
            log@ == saved.alert_log@.take(i as int),
        decreases saved.alert_log@.len() - i,
    {
        log.push_back(saved.alert_log[i].clone());
        assert(log@ =~= saved.alert_log@.take(i + 1));
        i = i + 1;
    }
    assert(log@ =~= saved.alert_log@);
    cap_log(&mut log);
    (screen, log)
}

/// What to write to the state file, in place of what is there.
pub fn keep(screen: Screen, alert_log: &VecDeque<AlertEvent>) -> (r: Persisted)
    ensures
        r.screen == Some(screen.letter()),
        r.alert_log@ == alert_log@,
{
    let mut log: Vec<AlertEvent> = Vec::new();
    let mut i: usize = 0;
    while i < alert_log.len()
        invariant
            i <= alert_log@.len(),
            log@ == alert_log@.take(i as int),
        decreases alert_log@.len() - i,
    {
        log.push(alert_log[i].clone());
        assert(log@ =~= alert_log@.take(i + 1));
        i = i + 1;
    }
    assert(log@ =~= alert_log@);
    Persisted { screen: Some(screen.key()), alert_log: log }
}

/// What is kept at the end of a run is what the next run starts from, for every log that fits.
pub proof fn law_state_survives_a_restart(screen: Screen, alert_log: Seq<AlertEvent>)
    requires
        alert_log.len() <= ALERT_LOG_CAP,
    ensures
        saved_screen(Some(screen.letter())) == Some(screen),
        newest(alert_log, ALERT_LOG_CAP as nat) == alert_log,
{
}

} // verus!
