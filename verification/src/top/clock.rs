//! Points in time, and how far off a deadline is.

use crate::text::two_digits;
use vstd::prelude::*;

verus! {

/// The first second that the calendar covers, counted from the Unix epoch.
pub const CALENDAR_START: i64 = -8_334_601_228_800;

/// The last second that the calendar covers.
pub const CALENDAR_END: i64 = 8_210_266_876_799;

/// Whether seconds since the Unix epoch and nanoseconds within the second name a point in time
/// that a calendar covers. A leap second shows as a second that is longer than others, and only
/// ever ends a minute.
pub open spec fn on_the_calendar(secs: i64, nanos: u32) -> bool {
    &&& CALENDAR_START <= secs <= CALENDAR_END
    &&& nanos < 2_000_000_000
    &&& nanos >= 1_000_000_000 ==> secs % 60 == 59
}

/// The seconds since midnight.
pub open spec fn second_of_day(secs: i64) -> int {
    secs as int % 86_400
}

/// The leap second that lies between two points in time, as far as their times of day show it.
pub open spec fn leap_between(later: (i64, u32), earlier: (i64, u32)) -> int {
    if second_of_day(later.0) > second_of_day(earlier.0) && earlier.1 >= 1_000_000_000 {
        1
    } else if second_of_day(later.0) < second_of_day(earlier.0) && later.1 >= 1_000_000_000 {
        -1
    } else {
        0
    }
}

/// The nanoseconds from one point in time to another.
pub open spec fn nanos_between(later: (i64, u32), earlier: (i64, u32)) -> int {
    (later.0 - earlier.0 + leap_between(later, earlier)) * 1_000_000_000 + later.1 - earlier.1
}

/// The whole seconds from one point in time to another; a fraction of a second counts for nothing.
pub open spec fn seconds_between(later: (i64, u32), earlier: (i64, u32)) -> int {
    let nanos = nanos_between(later, earlier);
    if nanos >= 0 {
        nanos / 1_000_000_000
    } else {
        -(-nanos / 1_000_000_000)
    }
}

/// The point in time that text in RFC 3339 form names, if it is in that form.
pub uninterp spec fn rfc3339_instant(text: Seq<char>) -> Option<(i64, u32)>;

/// A point in time on the calendar, written out after a pattern.
pub uninterp spec fn formatted(secs: i64, nanos: u32, pattern: Seq<char>) -> Seq<char>;

/// The pattern of a day of the year and a time of day, as the alert history shows them.
pub const HISTORY_PATTERN: &'static str = "%m-%d %H:%M:%S";

/// The pattern of a time of day, as the title bar shows it.
pub const CLOCK_PATTERN: &'static str = "%H:%M:%S UTC";

/// Calls `chrono::DateTime::parse_from_rfc3339`. What it makes of the text has no more than a
/// name; a point in time it finds is on the calendar.
#[verifier::external_body]
fn read_rfc3339(text: &str) -> (r: Option<(i64, u32)>)
    ensures
        r == rfc3339_instant(text@),
        r matches Some((secs, nanos)) ==> on_the_calendar(secs, nanos),
{
    let read = chrono::DateTime::parse_from_rfc3339(text).ok()?;
    Some((read.timestamp(), read.timestamp_subsec_nanos()))
}

/// Calls `chrono::Utc::now`. Nothing is claimed of the reading but that it is on the calendar. It
/// panics on a machine whose clock reads before the Unix epoch, which nothing here can rule out.
#[verifier::external_body]
fn read_clock() -> (r: (i64, u32))
    ensures
        on_the_calendar(r.0, r.1),
{
    let now = chrono::Utc::now();
    (now.timestamp(), now.timestamp_subsec_nanos())
}

/// Calls the subtraction of `chrono::DateTime` and `chrono::TimeDelta::num_seconds`: the whole
/// seconds between two points in time, with a leap second counted where the times of day show one.
#[verifier::external_body]
fn subtract(later: (i64, u32), earlier: (i64, u32)) -> (r: i64)
    requires
        on_the_calendar(later.0, later.1),
        on_the_calendar(earlier.0, earlier.1),
    ensures
        r == seconds_between(later, earlier),
{
    let later = chrono::DateTime::from_timestamp(later.0, later.1).unwrap();
    let earlier = chrono::DateTime::from_timestamp(earlier.0, earlier.1).unwrap();
    (later - earlier).num_seconds()
}

/// Calls `format` of `chrono::DateTime`. What a pattern makes of a point in time has no more than a
/// name, but for the time of day: hours, minutes and seconds in two digits each, the seconds
/// running to 60 within a leap second. A pattern that is none makes it panic, so only the two that
/// are used here are let in.
#[verifier::external_body]
fn format_moment(secs: i64, nanos: u32, pattern: &str) -> (r: String)
    requires
        on_the_calendar(secs, nanos),
        pattern@ == HISTORY_PATTERN@ || pattern@ == CLOCK_PATTERN@,
    ensures
        r@ == formatted(secs, nanos, pattern@),
        pattern@ == CLOCK_PATTERN@ ==> r@ == time_of_day(secs, nanos),
{
    let at = chrono::DateTime::from_timestamp(secs, nanos).unwrap();
    at.format(pattern).to_string()
}

/// The time of day, as the title bar shows it.
pub open spec fn time_of_day(secs: i64, nanos: u32) -> Seq<char> {
    let second = second_of_day(secs);
    two_digits((second / 3600) as nat) + ":"@ + two_digits((second / 60 % 60) as nat) + ":"@
        + two_digits((second % 60 + nanos as int / 1_000_000_000) as nat) + " UTC"@
}

/// A point in time.
#[derive(Clone, Copy, PartialEq, Eq, Debug, Structural)]
pub struct Timestamp {
    secs: i64,
    nanos: u32,
}

impl View for Timestamp {
    type V = (i64, u32);

    closed spec fn view(&self) -> (i64, u32) {
        (self.secs, self.nanos)
    }
}

impl Timestamp {
    #[verifier::type_invariant]
    spec fn calendar(self) -> bool {
        on_the_calendar(self.secs, self.nanos)
    }

    /// The point in time that seconds since the Unix epoch and nanoseconds name, if the calendar
    /// covers it.
    pub fn new(secs: i64, nanos: u32) -> (r: Option<Timestamp>)
        ensures
            r is Some <==> on_the_calendar(secs, nanos),
            r matches Some(t) ==> t@ == (secs, nanos),
    {
        let minute_second: i64 = if secs >= 0 {
            secs % 60
        } else {
            59 - (-(secs + 1)) % 60
        };
        if secs < CALENDAR_START || secs > CALENDAR_END || nanos >= 2_000_000_000 {
            return None;
        }
        if nanos >= 1_000_000_000 && minute_second != 59 {
            return None;
        }
        Some(Timestamp { secs, nanos })
    }

    /// The clock's reading.
    pub fn now() -> (r: Timestamp)
        ensures
            on_the_calendar(r@.0, r@.1),
    {
        let (secs, nanos) = read_clock();
        Timestamp { secs, nanos }
    }

    /// Whole seconds since the Unix epoch.
    pub fn unix(self) -> (r: i64)
        ensures
            r == self@.0,
            on_the_calendar(self@.0, self@.1),
    {
        proof {
            use_type_invariant(self);
        }
        self.secs
    }

    /// Nanoseconds within the second.
    pub fn subsec_nanos(self) -> (r: u32)
        ensures
            r == self@.1,
    {
        self.nanos
    }

    /// How many whole seconds lie between `earlier` and this point in time.
    pub fn seconds_since(self, earlier: Timestamp) -> (r: i64)
        ensures
            r == seconds_between(self@, earlier@),
    {
        proof {
            use_type_invariant(self);
            use_type_invariant(earlier);
        }
        subtract((self.secs, self.nanos), (earlier.secs, earlier.nanos))
    }

    /// The time of day, as the title bar shows it.
    pub fn clock_text(self) -> (r: String)
        ensures
            r@ == time_of_day(self@.0, self@.1),
    {
        proof {
            use_type_invariant(self);
        }
        format_moment(self.secs, self.nanos, CLOCK_PATTERN)
    }
}

/// Read a point in time in RFC 3339 form.
pub fn parse_iso(s: &str) -> (r: Option<Timestamp>)
    ensures
        match r {
            Some(t) => rfc3339_instant(s@) == Some(t@),
            None => rfc3339_instant(s@) is None,
        },
{
    match read_rfc3339(s) {
        Some((secs, nanos)) => Some(Timestamp { secs, nanos }),
        None => None,
    }
}

/// A day and a time of day, as the alert history shows them: a question mark off the calendar.
pub open spec fn shown_stamp(secs: i64) -> Seq<char> {
    if CALENDAR_START <= secs <= CALENDAR_END {
        formatted(secs, 0, HISTORY_PATTERN@)
    } else {
        "?"@
    }
}

/// A day and a time of day, as the alert history shows them: a question mark off the calendar.
pub fn stamp_text(secs: i64) -> (r: String)
    ensures
        r@ == shown_stamp(secs),
{
    if secs < CALENDAR_START || secs > CALENDAR_END {
        "?".to_owned()
    } else {
        format_moment(secs, 0, HISTORY_PATTERN)
    }
}

/// A deadline that lies ahead in whole seconds is as many seconds off as the difference says, and
/// one that is reached is not off at all.
pub proof fn law_seconds_between_whole_seconds(a: i64, b: i64, nanos: u32)
    requires
        nanos < 1_000_000_000,
    ensures
        seconds_between((a, nanos), (b, nanos)) == a - b,
{
}

/// Turning a stretch of time around turns its sign around.
pub proof fn law_seconds_between_is_antisymmetric(a: (i64, u32), b: (i64, u32))
    ensures
        seconds_between(a, b) == -seconds_between(b, a),
{
    assert(leap_between(a, b) == -leap_between(b, a));
}

} // verus!
