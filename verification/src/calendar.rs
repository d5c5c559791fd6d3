use crate::error::ScheduleError;
use vstd::prelude::*;

verus! {

/// A calendar day, ordered by year, then month, then day of month.
#[derive(Clone, Copy, Debug, PartialEq, Eq, Structural)]
pub struct Date {
    pub year: i32,
    pub month: u32,
    pub day: u32,
}

impl Date {
    /// `self` is the same day as `other` or an earlier one.
    pub open spec fn on_or_before(self, other: Date) -> bool {
        self.year < other.year || (self.year == other.year && (self.month < other.month || (
        self.month == other.month && self.day <= other.day)))
    }

    /// `self` lies in the closed range of days from `first` to `last`.
    pub open spec fn within(self, first: Date, last: Date) -> bool {
        first.on_or_before(self) && self.on_or_before(last)
    }

    /// Tells whether `self` is the same day as `other` or an earlier one.
    pub fn is_on_or_before(&self, other: &Date) -> (b: bool)
        ensures
            b == self.on_or_before(*other),
    {
        self.year < other.year || (self.year == other.year && (self.month < other.month || (
        self.month == other.month && self.day <= other.day)))
    }

    /// Tells whether `self` lies in the closed range from `first` to `last`.
    pub fn is_within(&self, first: &Date, last: &Date) -> (b: bool)
        ensures
            b == self.within(*first, *last),
    {
        first.is_on_or_before(self) && self.is_on_or_before(last)
    }
}

/// A wall-clock time of day, to the minute.
#[derive(Clone, Copy, Debug, PartialEq, Eq, Structural)]
pub struct TimeOfDay {
    pub hour: u8,
    pub minute: u8,
}

/// An instant on the local time line: whole seconds since the start of 1970
/// and the nanoseconds past that second.
#[derive(Clone, Copy, Debug, PartialEq, Eq, Structural)]
pub struct Timestamp {
    pub secs: i64,
    pub nanos: u32,
}

/// Nanoseconds in a second.
pub const NANOS_PER_SECOND: i128 = 1_000_000_000;

/// Nanoseconds in a minute.
pub const NANOS_PER_MINUTE: i128 = 60_000_000_000;

impl Timestamp {
    /// The instant as one number: nanoseconds since the start of 1970.
    pub open spec fn instant(self) -> int {
        self.secs * NANOS_PER_SECOND + self.nanos
    }

    /// Whole minutes from `now` until `self`, rounded down.
    pub open spec fn minutes_after(self, now: Timestamp) -> int {
        (self.instant() - now.instant()) / (NANOS_PER_MINUTE as int)
    }

    /// Tells whether `self` is strictly later than `now`.
    pub fn is_after(&self, now: &Timestamp) -> (b: bool)
        ensures
            b == (self.instant() > now.instant()),
    {
        let mine: i128 = self.secs as i128 * NANOS_PER_SECOND + self.nanos as i128;
        let theirs: i128 = now.secs as i128 * NANOS_PER_SECOND + now.nanos as i128;
        mine > theirs
    }

    /// Counts the whole minutes from `now` until `self`, rounded down; the
    /// count is negative where `self` is the earlier one.
    pub fn whole_minutes_after(&self, now: &Timestamp) -> (m: i128)
        ensures
            m == self.minutes_after(*now),
    {
        let mine: i128 = self.secs as i128 * NANOS_PER_SECOND + self.nanos as i128;
        let theirs: i128 = now.secs as i128 * NANOS_PER_SECOND + now.nanos as i128;
        let gap: i128 = mine - theirs;
        if gap >= 0 {
            gap / NANOS_PER_MINUTE
        } else {
            let back: i128 = (-gap + (NANOS_PER_MINUTE - 1)) / NANOS_PER_MINUTE;
            -back
        }
    }
}

/// What chrono makes of `text` read as a date in `format`: the year, month
/// and day of month that it finds, or `None` where it rejects the text.
pub uninterp spec fn chrono_date(text: Seq<char>, format: Seq<char>) -> Option<(i32, u32, u32)>;

/// Calls `chrono::NaiveDate::parse_from_str` and hands out the year, month
/// and day of the date it returns, `None` for its error. Trusted: that the
/// outcome depends on the two texts alone.
#[verifier::external_body]
fn parse_date_as(text: &str, format: &str) -> (parsed: Option<(i32, u32, u32)>)
    ensures
        parsed == chrono_date(text@, format@),
{
    match chrono::NaiveDate::parse_from_str(text, format) {
        Ok(date) => Some(
            (
                chrono::Datelike::year(&date),
                chrono::Datelike::month(&date),
                chrono::Datelike::day(&date),
            ),
        ),
        Err(_) => None,
    }
}

/// Calls `chrono::Local::now` and hands out the local wall-clock reading as
/// seconds and nanoseconds. Nothing is claimed of the reading. chrono stops
/// the program if the system clock stands before 1970 or beyond the years it
/// can hold.
#[verifier::external_body]
pub(crate) fn local_now() -> (now: Timestamp) {
    let reading = chrono::Local::now().naive_local().and_utc();
    Timestamp { secs: reading.timestamp(), nanos: reading.timestamp_subsec_nanos() }
}

/// The day that a parsed year, month and day name; no day where parsing failed.
pub open spec fn date_of(parsed: Option<(i32, u32, u32)>) -> Result<Date, ScheduleError> {
    match parsed {
        Some((year, month, day)) => Ok(Date { year, month, day }),
        None => Err(ScheduleError::InvalidDate),
    }
}

/// The day that `text` names when read as year, month and day with hyphens
/// between them.
pub open spec fn day_named(text: Seq<char>) -> Result<Date, ScheduleError> {
    date_of(chrono_date(text, "%Y-%m-%d"@))
}

impl Date {
    /// Makes a day of what parsing found, or reports the date as invalid.
    pub fn from_parsed(parsed: Option<(i32, u32, u32)>) -> (date: Result<Date, ScheduleError>)
        ensures
            date == date_of(parsed),
    {
        match parsed {
            Some((year, month, day)) => Ok(Date { year, month, day }),
            None => Err(ScheduleError::InvalidDate),
        }
    }
}

/// Reads a day written as year, month and day with hyphens between them.
pub fn parse_day(text: &str) -> (date: Result<Date, ScheduleError>)
    ensures
        date == day_named(text@),
{
    Date::from_parsed(parse_date_as(text, "%Y-%m-%d"))
}

/// What chrono makes of `text` read as a date and time of day in `format`:
/// the seconds since the start of 1970 and the nanoseconds past that second,
/// or `None` where it rejects the text.
pub uninterp spec fn chrono_datetime(text: Seq<char>, format: Seq<char>) -> Option<(i64, u32)>;

/// Calls `chrono::NaiveDateTime::parse_from_str` and hands out the reading
/// as seconds and nanoseconds, `None` for its error. Trusted: that the
/// outcome depends on the two texts alone.
#[verifier::external_body]
fn parse_datetime_as(text: &str, format: &str) -> (parsed: Option<(i64, u32)>)
    ensures
        parsed == chrono_datetime(text@, format@),
{
    match chrono::NaiveDateTime::parse_from_str(text, format) {
        Ok(reading) => Some(
            (reading.and_utc().timestamp(), reading.and_utc().timestamp_subsec_nanos()),
        ),
        Err(_) => None,
    }
}

/// The instant that parsed seconds and nanoseconds name; none where parsing
/// failed.
pub open spec fn instant_of(parsed: Option<(i64, u32)>) -> Result<Timestamp, ScheduleError> {
    match parsed {
        Some((secs, nanos)) => Ok(Timestamp { secs, nanos }),
        None => Err(ScheduleError::InvalidDate),
    }
}

/// The instant that `text` names when read as a day, the letter T, and hour
/// and minute with a colon between them.
pub open spec fn instant_named(text: Seq<char>) -> Result<Timestamp, ScheduleError> {
    instant_of(chrono_datetime(text, "%Y-%m-%dT%H:%M"@))
}

impl Timestamp {
    /// Makes an instant of what parsing found, or reports the date as invalid.
    pub fn from_parsed(parsed: Option<(i64, u32)>) -> (instant: Result<Timestamp, ScheduleError>)
        ensures
            instant == instant_of(parsed),
    {
        match parsed {
            Some((secs, nanos)) => Ok(Timestamp { secs, nanos }),
            None => Err(ScheduleError::InvalidDate),
        }
    }
}

/// Reads an instant written as a day, the letter T, and hour and minute.
pub fn convert_to_datetime(dt: &str) -> (instant: Result<Timestamp, ScheduleError>)
    ensures
        instant == instant_named(dt@),
{
    Timestamp::from_parsed(parse_datetime_as(dt, "%Y-%m-%dT%H:%M"))
}

} // verus!
