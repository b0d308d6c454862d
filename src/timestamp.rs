use vstd::prelude::*;

use chrono::{Datelike, Timelike};

verus! {

#[verifier::external_type_specification]
#[verifier::external_body]
pub struct ExParseError(chrono::ParseError);

/// Relies on chrono's `ParseError`, a plain `Copy` value whose `clone` is derived: the copy is
/// the same error.
pub assume_specification[ <chrono::ParseError as Clone>::clone ](e: &chrono::ParseError) -> (r:
    chrono::ParseError)
    ensures
        r == *e,
;

/// The format of a log entry's timestamp, such as `2024-01-02T03:04:05+0000`.
pub const TIME_FORMAT: &'static str = "%Y-%m-%dT%H:%M:%S%z";

/// A date and time of day as the log writes it, to the second, with its offset from UTC.
#[derive(Clone, Copy, Debug, PartialEq, Eq, Hash)]
pub struct Timestamp {
    pub(crate) year: i32,
    pub(crate) month: u32,
    pub(crate) day: u32,
    pub(crate) hour: u32,
    pub(crate) minute: u32,
    pub(crate) second: u32,
    pub(crate) offset: i32,
}

/// What a [`Timestamp`] holds: the local date and time, and the offset from UTC in seconds.
pub struct TimestampView {
    pub year: int,
    pub month: int,
    pub day: int,
    pub hour: int,
    pub minute: int,
    pub second: int,
    pub offset: int,
}

impl View for Timestamp {
    type V = TimestampView;

    open(crate) spec fn view(&self) -> TimestampView {
        TimestampView {
            year: self.year as int,
            month: self.month as int,
            day: self.day as int,
            hour: self.hour as int,
            minute: self.minute as int,
            second: self.second as int,
            offset: self.offset as int,
        }
    }
}

impl TimestampView {
    /// Each part lies in its range; the offset is less than a day either way.
    pub open spec fn wf(self) -> bool {
        &&& 1 <= self.month <= 12
        &&& 1 <= self.day <= 31
        &&& 0 <= self.hour <= 23
        &&& 0 <= self.minute <= 59
        &&& 0 <= self.second <= 59
        &&& -86400 < self.offset < 86400
    }
}

/// The timestamp that reading `s` after the format `fmt` gives, if `s` reads so.
pub uninterp spec fn parsed_timestamp(s: Seq<char>, fmt: Seq<char>) -> Option<Timestamp>;

/// Relies on chrono's `DateTime::parse_from_str`: it reads `s` after the format `fmt` into a
/// date and time with a fixed offset, or fails, depending on the two texts alone. The parts are
/// taken with chrono's `year`, `month`, `day`, `hour`, `minute`, `second` and
/// `FixedOffset::local_minus_utc`, whose documented ranges `wf` states.
#[verifier::external_body]
fn parse_from_str(s: &str, fmt: &str) -> (r: Result<Timestamp, chrono::ParseError>)
    ensures
        match r {
            Ok(t) => parsed_timestamp(s@, fmt@) == Some(t) && t@.wf(),
            Err(_) => parsed_timestamp(s@, fmt@) is None,
        },
{
    match chrono::DateTime::parse_from_str(s, fmt) {
        Ok(d) => Ok(Timestamp {
            year: d.year(),
            month: d.month(),
            day: d.day(),
            hour: d.hour(),
            minute: d.minute(),
            second: d.second(),
            offset: d.offset().local_minus_utc(),
        }),
        Err(e) => Err(e),
    }
}

impl Timestamp {
    /// Reads a timestamp written as [`TIME_FORMAT`] gives it.
    pub fn parse(s: &str) -> (r: Result<Timestamp, chrono::ParseError>)
        ensures
            match r {
                Ok(t) => parsed_timestamp(s@, TIME_FORMAT@) == Some(t) && t@.wf(),
                Err(_) => parsed_timestamp(s@, TIME_FORMAT@) is None,
            },
    {
        parse_from_str(s, TIME_FORMAT)
    }

    /// Returns the year.
    pub fn year(&self) -> (r: i32)
        ensures
            r == self@.year,
    {
        self.year
    }

    /// Returns the month, from 1.
    pub fn month(&self) -> (r: u32)
        ensures
            r == self@.month,
    {
        self.month
    }

    /// Returns the day of the month, from 1.
    pub fn day(&self) -> (r: u32)
        ensures
            r == self@.day,
    {
        self.day
    }

    /// Returns the hour.
    pub fn hour(&self) -> (r: u32)
        ensures
            r == self@.hour,
    {
        self.hour
    }

    /// Returns the minute.
    pub fn minute(&self) -> (r: u32)
        ensures
            r == self@.minute,
    {
        self.minute
    }

    /// Returns the second.
    pub fn second(&self) -> (r: u32)
        ensures
            r == self@.second,
    {
        self.second
    }

    /// Returns the offset from UTC in seconds, east positive.
    pub fn offset_seconds(&self) -> (r: i32)
        ensures
            r == self@.offset,
    {
        self.offset
    }
}

} // verus!
