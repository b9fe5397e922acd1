//! Points in time: as instants to compare, and as calendar dates and times of day to write
//! out and read back.

use crate::text::{trim, trimmed};
use vstd::prelude::*;

verus! {

/// A point in time: whole seconds since the Unix epoch, and the nanoseconds past them.
#[derive(Clone, Copy, Debug, PartialEq, Eq, Structural)]
pub struct Instant {
    pub secs: i64,
    pub nanos: u32,
}

/// A calendar date and time of day, in whatever time zone it was taken.
#[derive(Clone, Copy, Debug, PartialEq, Eq, Structural)]
pub struct CivilTime {
    pub year: i32,
    pub month: u32,
    pub day: u32,
    pub hour: u32,
    pub minute: u32,
    pub second: u32,
}

/// A point in time together with its date and time of day in the local time zone.
#[derive(Clone, Copy, Debug, PartialEq, Eq, Structural)]
pub struct Moment {
    pub instant: Instant,
    pub civil: CivilTime,
}

/// What `chrono` writes for the date and time with these fields under the format
/// `pattern`, if the fields name a date and time and the format is one that it can write.
pub uninterp spec fn chrono_format(
    year: int,
    month: int,
    day: int,
    hour: int,
    minute: int,
    second: int,
    pattern: Seq<char>,
) -> Option<Seq<char>>;

/// The fields (year, month, day, hour, minute, second) of the date and time that `chrono`
/// reads from `text` under the format `pattern`, if it can read one.
pub uninterp spec fn chrono_parse(text: Seq<char>, pattern: Seq<char>) -> Option<
    (int, int, int, int, int, int),
>;

/// The instant, as seconds since the epoch and nanoseconds past them, that `chrono` reads
/// from `text` as an RFC 3339 date and time, if it can read one.
pub uninterp spec fn chrono_rfc3339(text: Seq<char>) -> Option<(int, int)>;

impl Instant {
    /// Whether this instant comes strictly after `other`.
    pub open spec fn later_than(self, other: Instant) -> bool {
        self.secs > other.secs || (self.secs == other.secs && self.nanos > other.nanos)
    }

    /// Whether this instant comes strictly after `other`.
    pub fn is_after(&self, other: &Instant) -> (b: bool)
        ensures
            b == self.later_than(*other),
    {
        self.secs > other.secs || (self.secs == other.secs && self.nanos > other.nanos)
    }

    /// Whether this instant comes strictly before `other`.
    pub fn is_before(&self, other: &Instant) -> (b: bool)
        ensures
            b == other.later_than(*self),
    {
        other.is_after(self)
    }

    /// The whole seconds that passed from `earlier` to this instant.
    pub open spec fn whole_seconds_since(self, earlier: Instant) -> int {
        self.secs - earlier.secs - if self.nanos < earlier.nanos {
            1int
        } else {
            0int
        }
    }

    /// The whole seconds that passed from `earlier` to this instant, or `None` where
    /// `earlier` is the later of the two.
    pub fn seconds_since(&self, earlier: &Instant) -> (passed: Option<u64>)
        ensures
            match passed {
                Some(seconds) => !earlier.later_than(*self) && seconds == self.whole_seconds_since(
                    *earlier,
                ),
                None => earlier.later_than(*self),
            },
    {
        if earlier.is_after(self) {
            None
        } else {
            let whole: i128 = self.secs as i128 - earlier.secs as i128;
            let passed: i128 = if self.nanos < earlier.nanos {
                whole - 1
            } else {
                whole
            };
            Some(passed as u64)
        }
    }
}

impl CivilTime {
    /// The fields as a tuple: year, month, day, hour, minute, second.
    pub open spec fn fields(self) -> (int, int, int, int, int, int) {
        (
            self.year as int,
            self.month as int,
            self.day as int,
            self.hour as int,
            self.minute as int,
            self.second as int,
        )
    }

    /// What this date and time reads as under the format `pattern`.
    pub open spec fn formatted(self, pattern: Seq<char>) -> Option<Seq<char>> {
        chrono_format(
            self.year as int,
            self.month as int,
            self.day as int,
            self.hour as int,
            self.minute as int,
            self.second as int,
            pattern,
        )
    }

    /// Whether this and `other` fall on the same calendar day.
    pub open spec fn same_day(self, other: CivilTime) -> bool {
        self.year == other.year && self.month == other.month && self.day == other.day
    }

    /// Whether this and `other` fall on the same calendar day.
    pub fn is_same_day(&self, other: &CivilTime) -> (b: bool)
        ensures
            b == self.same_day(*other),
    {
        self.year == other.year && self.month == other.month && self.day == other.day
    }

    /// This date and time written under the format `pattern`: the text that
    /// `chrono::NaiveDateTime::format` gives for the date and time with these fields, or
    /// `None` where there is no such date and time or the format cannot be written.
    #[verifier::external_body]
    pub(crate) fn format(&self, pattern: &str) -> (text: Option<String>)
        ensures
            match text {
                Some(written) => chrono_format(
                    self.year as int,
                    self.month as int,
                    self.day as int,
                    self.hour as int,
                    self.minute as int,
                    self.second as int,
                    pattern@,
                ) == Some(written@),
                None => chrono_format(
                    self.year as int,
                    self.month as int,
                    self.day as int,
                    self.hour as int,
                    self.minute as int,
                    self.second as int,
                    pattern@,
                ) is None,
            },
    {
        let date = chrono::NaiveDate::from_ymd_opt(self.year, self.month, self.day)?;
        let stamp = date.and_hms_opt(self.hour, self.minute, self.second)?;
        let mut written = String::new();
        stamp.format(pattern).write_to(&mut written).ok()?;
        Some(written)
    }

    /// The date and time that `text` holds under the format `pattern`: the fields of what
    /// `chrono::NaiveDateTime::parse_from_str` reads, or `None` where it reports an error.
    #[verifier::external_body]
    pub(crate) fn parse(text: &str, pattern: &str) -> (read: Option<CivilTime>)
        ensures
            match read {
                Some(civil) => chrono_parse(text@, pattern@) == Some(civil.fields()),
                None => chrono_parse(text@, pattern@) is None,
            },
    {
        let stamp = chrono::NaiveDateTime::parse_from_str(text, pattern).ok()?;
        Some(
            CivilTime {
                year: chrono::Datelike::year(&stamp),
                month: chrono::Datelike::month(&stamp),
                day: chrono::Datelike::day(&stamp),
                hour: chrono::Timelike::hour(&stamp),
                minute: chrono::Timelike::minute(&stamp),
                second: chrono::Timelike::second(&stamp),
            },
        )
    }
}

/// The instant that `text` names as an RFC 3339 date and time: what
/// `chrono::DateTime::parse_from_rfc3339` reads, or `None` where it reports an error.
#[verifier::external_body]
fn parse_rfc3339(text: &str) -> (at: Option<Instant>)
    ensures
        match at {
            Some(instant) => chrono_rfc3339(text@) == Some(
                (instant.secs as int, instant.nanos as int),
            ),
            None => chrono_rfc3339(text@) is None,
        },
{
    let stamp = chrono::DateTime::parse_from_rfc3339(text).ok()?;
    Some(Instant { secs: stamp.timestamp(), nanos: stamp.timestamp_subsec_nanos() })
}

/// The time of the last commit, from the output of the command that prints it as an
/// RFC 3339 date and time. `None` tells that the output holds no such time.
pub fn parse_commit_time(output: &str) -> (at: Option<Instant>)
    ensures
        match at {
            Some(instant) => chrono_rfc3339(trim(output@)) == Some(
                (instant.secs as int, instant.nanos as int),
            ),
            None => chrono_rfc3339(trim(output@)) is None,
        },
{
    let text = trimmed(output);
    parse_rfc3339(text.as_str())
}

} // verus!
