//! What a session starts from and keeps, and how moments are told.

use crate::text::two_digits;
use crate::top::clock::{formatted, seconds_between, shown_stamp, time_of_day};
use crate::top::config::{config_files, opening_screen};
use crate::top::persist::saved_screen;
use crate::top::state::{newest, AlertEvent, Screen, ALERT_LOG_CAP};
use crate::top::ui::tab_text;
use vstd::prelude::*;

verus! {

/// A screen is selected by the first letter of its name, which its tab shows before the name.
pub proof fn law_screens_go_by_their_first_letter(screen: Screen, c: char)
    ensures
        screen.letter() == screen.heading()[0],
        Screen::Consensus.heading() == "consensus"@,
        Screen::Alerts.heading() == "alerts"@,
        tab_text(screen) == " "@ + seq![screen.heading()[0]] + " "@ + screen.heading() + " "@,
        Screen::lettered(c) matches Some(found) ==> found.letter() == c,
        Screen::lettered(screen.letter()) == Some(screen),
        screen.other() != screen,
{
    reveal_strlit("consensus");
    reveal_strlit("alerts");
}

/// The screen asked for by its first letter opens, whatever was viewed last; without such a letter the
/// one viewed last does, and without that the consensus screen.
pub proof fn law_opening_screen(asked: Option<Seq<char>>, saved: Option<Screen>)
    ensures
        ({
            let letter = if asked is Some && asked->0.len() > 0 {
                asked->0[0]
            } else {
                ' '
            };
            let opened = opening_screen(asked, saved);
            &&& letter == 'c' ==> opened == Screen::Consensus
            &&& letter == 'a' ==> opened == Screen::Alerts
            &&& letter != 'c' && letter != 'a' && saved is Some ==> opened == saved->0
            &&& letter != 'c' && letter != 'a' && saved is None ==> opened == Screen::Consensus
        }),
{
}

/// The files given are all that is read, in their order; without any, the one that the environment
/// names is read alone, or else the home directory's, or else the system's.
pub proof fn law_nearest_file_is_read(
    given: Seq<Seq<char>>,
    named: Option<Seq<char>>,
    home: Option<Seq<char>>,
    system: Option<Seq<char>>,
    path: Seq<char>,
)
    ensures
        given.len() > 0 ==> config_files(given, named, home, system) == given,
        config_files(Seq::empty(), Some(path), home, system) == seq![path],
        config_files(Seq::empty(), None, Some(path), system) == seq![path],
        config_files(Seq::empty(), None, None, Some(path)) == seq![path],
        config_files(Seq::empty(), None, None, None).len() == 0,
{
}

/// What a state file held of the screen counts only where its letter is a screen's own, and of the log
/// no more than the newest 200 events.
pub proof fn law_state_file_is_taken_up(letter: Option<char>, log: Seq<AlertEvent>)
    ensures
        saved_screen(letter) matches Some(screen) ==> letter == Some(screen.letter()),
        saved_screen(letter) is None <==> letter != Some('c') && letter != Some('a'),
        saved_screen(letter) == Some(Screen::Consensus) <==> letter == Some('c'),
        saved_screen(letter) == Some(Screen::Alerts) <==> letter == Some('a'),
        newest(log, ALERT_LOG_CAP as nat).is_suffix_of(log),
        log.len() <= 200 ==> newest(log, ALERT_LOG_CAP as nat) == log,
        log.len() > 200 ==> newest(log, ALERT_LOG_CAP as nat).len() == 200,
{
    let kept = newest(log, ALERT_LOG_CAP as nat);
    assert(kept =~= log.subrange(log.len() - kept.len(), log.len() as int));
}

/// A stretch of time between two ordinary moments counts its whole seconds, and is cut towards nothing
/// on either side.
pub proof fn law_stretches_are_cut_to_whole_seconds(later: (i64, u32), earlier: (i64, u32))
    requires
        later.1 < 1_000_000_000,
        earlier.1 < 1_000_000_000,
    ensures
        ({
            let nanos = (later.0 - earlier.0) * 1_000_000_000 + later.1 - earlier.1;
            let seconds = seconds_between(later, earlier);
            &&& nanos >= 0 ==> seconds * 1_000_000_000 <= nanos < (seconds + 1) * 1_000_000_000
            &&& nanos <= 0 ==> (seconds - 1) * 1_000_000_000 < nanos <= seconds * 1_000_000_000
        }),
{
}

/// A moment's time of day is its hour, minute and second, two digits each.
pub proof fn law_time_of_day(day: int, hour: int, minute: int, second: int, secs: i64, nanos: u32)
    requires
        0 <= hour < 24,
        0 <= minute < 60,
        0 <= second < 60,
        nanos < 1_000_000_000,
        secs == day * 86_400 + hour * 3600 + minute * 60 + second,
    ensures
        time_of_day(secs, nanos) == two_digits(hour as nat) + ":"@ + two_digits(minute as nat)
            + ":"@ + two_digits(second as nat) + " UTC"@,
{
    let rest = hour * 3600 + minute * 60 + second;
    assert(secs as int % 86_400 == rest);
    assert(rest / 3600 == hour);
    assert(rest / 60 % 60 == minute);
    assert(rest % 60 == second);
}

/// A leap second shows as the sixtieth of its minute.
pub proof fn law_leap_second_is_the_sixtieth(day: int, hour: int, minute: int, secs: i64, nanos: u32)
    requires
        0 <= hour < 24,
        0 <= minute < 60,
        1_000_000_000 <= nanos < 2_000_000_000,
        secs == day * 86_400 + hour * 3600 + minute * 60 + 59,
    ensures
        time_of_day(secs, nanos) == two_digits(hour as nat) + ":"@ + two_digits(minute as nat)
            + ":"@ + two_digits(60) + " UTC"@,
{
    let rest = hour * 3600 + minute * 60 + 59;
    assert(secs as int % 86_400 == rest);
    assert(rest / 3600 == hour);
    assert(rest / 60 % 60 == minute);
    assert(rest % 60 == 59);
}

/// A moment in the history is shown by its day and its time of day where the calendar covers it, and
/// by a question mark elsewhere.
pub proof fn law_history_moments(secs: i64)
    ensures
        -8_334_601_228_800 <= secs <= 8_210_266_876_799 ==> shown_stamp(secs) == formatted(
            secs,
            0,
            "%m-%d %H:%M:%S"@,
        ),
        secs < -8_334_601_228_800 || secs > 8_210_266_876_799 ==> shown_stamp(secs) == "?"@,
{
}

} // verus!
