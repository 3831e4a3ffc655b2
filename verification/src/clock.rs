//! Times of day and dates, as the calendar crate `chrono` reads and writes them.

use chrono::Timelike;
use vstd::prelude::*;

use crate::number::{all_digits, digit_value, is_digit, two_digits};
use crate::text::trim_start;

verus! {

/// A time of day: the seconds since midnight and the nanoseconds since that
/// second. In a leap second the nanoseconds go on beyond a thousand million.
#[derive(Clone, Copy, Debug, PartialEq, Eq, Structural)]
pub struct TimeOfDay {
    pub secs: u32,
    pub nanos: u32,
}

impl TimeOfDay {
    /// Whether this is a time of a day.
    pub open spec fn wf(self) -> bool {
        self.secs < 86400 && self.nanos < 2_000_000_000
    }

    /// Whether this time is a whole minute.
    pub open spec fn on_the_minute(self) -> bool {
        self.secs < 86400 && self.secs % 60 == 0 && self.nanos == 0
    }

    pub open spec fn hour(self) -> int {
        self.secs as int / 3600
    }

    pub open spec fn minute(self) -> int {
        self.secs as int / 60 % 60
    }

    /// Whether this time comes before another.
    pub open spec fn precedes(self, other: TimeOfDay) -> bool {
        self.secs < other.secs || (self.secs == other.secs && self.nanos < other.nanos)
    }

    /// Whether this time comes before another.
    pub fn is_before(&self, other: &TimeOfDay) -> (r: bool)
        ensures
            r == self.precedes(*other),
    {
        self.secs < other.secs || (self.secs == other.secs && self.nanos < other.nanos)
    }

    /// The time of an hour and a minute.
    pub open spec fn at(hour: int, minute: int) -> TimeOfDay {
        TimeOfDay { secs: (hour * 3600 + minute * 60) as u32, nanos: 0 }
    }

    /// The text `HH:MM` of a time.
    pub open spec fn text(self) -> Seq<char> {
        two_digits(self.hour()).push(':') + two_digits(self.minute())
    }

    /// The text `HH:MM` of a time.
    pub fn hour_minute(&self) -> (r: String)
        requires
            self.secs < 86400,
        ensures
            r@ == self.text(),
    {
        format_hour_minute(self.secs / 3600, self.secs / 60 % 60)
    }
}

/// The number that the one or two digits at the beginning of a text write, and
/// what comes after them.
pub open spec fn short_number(s: Seq<char>) -> Option<(int, Seq<char>)> {
    if s.len() == 0 || !is_digit(s[0]) {
        None
    } else if s.len() > 1 && is_digit(s[1]) {
        Some((digit_value(s[0]) * 10 + digit_value(s[1]), s.skip(2)))
    } else {
        Some((digit_value(s[0]), s.skip(1)))
    }
}

/// The hour and the minute that a text gives: each in one or two digits, white
/// space allowed before each, `:` between them, and nothing after.
pub open spec fn clock_reading(s: Seq<char>) -> Option<(int, int)> {
    match short_number(trim_start(s)) {
        Some((hour, rest)) => if hour < 24 && rest.len() > 0 && rest[0] == ':' {
            match short_number(trim_start(rest.skip(1))) {
                Some((minute, after)) => if minute < 60 && after.len() == 0 {
                    Some((hour, minute))
                } else {
                    None
                },
                None => None,
            }
        } else {
            None
        },
        None => None,
    }
}

/// Trusted: `chrono::NaiveTime::parse_from_str` with the format `%H:%M`. It
/// reads an hour and a minute of one or two digits each, skips white space
/// before either, wants `:` directly after the hour and nothing after the
/// minute, and refuses an hour above 23 or a minute above 59. The seconds of
/// the time are then zero.
#[verifier::external_body]
pub(crate) fn parse_hour_minute(s: &str) -> (r: Option<TimeOfDay>)
    ensures
        r == (match clock_reading(s@) {
            Some((hour, minute)) => Some(TimeOfDay::at(hour, minute)),
            None => None,
        }),
{
    match chrono::NaiveTime::parse_from_str(s, "%H:%M") {
        Ok(t) => Some(TimeOfDay { secs: t.num_seconds_from_midnight(), nanos: t.nanosecond() }),
        Err(_) => None,
    }
}

/// Trusted: `chrono::NaiveTime::format` with the format `%H:%M` writes the hour
/// and the minute in two digits each, with `:` between them.
#[verifier::external_body]
fn format_hour_minute(hour: u32, minute: u32) -> (r: String)
    requires
        hour < 24,
        minute < 60,
    ensures
        r@ == two_digits(hour as int).push(':') + two_digits(minute as int),
{
    chrono::NaiveTime::from_hms_opt(hour, minute, 0).unwrap().format("%H:%M").to_string()
}

/// The text `HH:MM:SS` of a time. In a leap second the seconds are one more.
pub open spec fn second_text(t: TimeOfDay) -> Seq<char> {
    t.text().push(':') + two_digits(t.secs as int % 60 + t.nanos as int / 1_000_000_000)
}

/// Whether a text shows a time and how far it is from UTC: `HH:MM:SS`, a space,
/// `+` or `-`, and the hours and minutes of the offset in two digits each.
pub open spec fn shows_time(text: Seq<char>, t: TimeOfDay) -> bool {
    &&& text.len() == 14
    &&& text.take(8) == second_text(t)
    &&& text[8] == ' '
    &&& text[9] == '+' || text[9] == '-'
    &&& all_digits(text.skip(10))
}

/// Trusted: `chrono::Local::now` reads the clock; `time` gives the time of day in
/// the machine's time zone, and `format` with `%H:%M:%S %z` the text that shows
/// that time and the zone's offset. Which time it is depends on the moment, and
/// which offset on the machine: of both nothing is said but that the one is a
/// time of a day and the other a sign and four digits. (The read fails where the
/// system clock stands before 1970.)
#[verifier::external_body]
pub(crate) fn local_now() -> (r: (TimeOfDay, String))
    ensures
        r.0.wf(),
        shows_time(r.1@, r.0),
{
    let now = chrono::Local::now();
    let t = now.time();
    let time = TimeOfDay { secs: t.num_seconds_from_midnight(), nanos: t.nanosecond() };
    (time, now.format("%H:%M:%S %z").to_string())
}

/// What the clock shows at a moment: the local time of day, and the text by
/// which a reply shows it.
pub struct Moment {
    pub time: TimeOfDay,
    pub clock: String,
}

impl Moment {
    /// Whether this is a time of a day with the text that shows it.
    pub open spec fn wf(self) -> bool {
        self.time.wf() && shows_time(self.clock@, self.time)
    }

    /// What the clock shows now.
    pub fn now() -> (r: Moment)
        ensures
            r.wf(),
    {
        let (time, clock) = local_now();
        Moment { time, clock }
    }
}

/// The date `DD/MM/YYYY`, in UTC, of a moment in milliseconds since the
/// beginning of 1970; none where the calendar does not reach it.
pub uninterp spec fn date_text(ms: i64) -> Option<Seq<char>>;

/// Trusted: `chrono::DateTime::from_timestamp_millis`, and its result in the
/// format `%d/%m/%Y`. Both depend on the number alone, and the text is named.
#[verifier::external_body]
pub(crate) fn format_date_ms(ms: i64) -> (r: Option<String>)
    ensures
        date_text(ms) == (match r {
            Some(t) => Some(t@),
            None => None::<Seq<char>>,
        }),
{
    chrono::DateTime::from_timestamp_millis(ms).map(|t| t.format("%d/%m/%Y").to_string())
}

} // verus!
