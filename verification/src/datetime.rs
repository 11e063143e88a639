//! Plain-value calendar dates and timestamps.  A `Date` is a year, month
//! and day; a `DateTime` adds a time of day.  Both default to the Unix
//! epoch, the value every tolerant date decode falls back to.

use vstd::prelude::*;

verus! {

#[derive(Clone, Copy, Debug, PartialEq, Eq, Structural)]
pub struct Date {
    pub year: u32,
    pub month: u32,
    pub day: u32,
}

#[derive(Clone, Copy, Debug, PartialEq, Eq, Structural)]
pub struct DateTime {
    pub year: u32,
    pub month: u32,
    pub day: u32,
    pub hour: u32,
    pub minute: u32,
    pub second: u32,
}

pub open spec fn is_leap_year(y: int) -> bool {
    y % 4 == 0 && (y % 100 != 0 || y % 400 == 0)
}

pub open spec fn spec_days_in_month(y: int, m: int) -> int {
    if m == 2 {
        if is_leap_year(y) {
            29
        } else {
            28
        }
    } else if m == 4 || m == 6 || m == 9 || m == 11 {
        30
    } else {
        31
    }
}

/// A proleptic-Gregorian calendar date that exists.
pub open spec fn valid_ymd(y: int, m: int, d: int) -> bool {
    1 <= m <= 12 && 1 <= d <= spec_days_in_month(y, m)
}

pub open spec fn valid_hms(h: int, mi: int, s: int) -> bool {
    0 <= h <= 23 && 0 <= mi <= 59 && 0 <= s <= 59
}

pub fn leap_year(y: u32) -> (r: bool)
    ensures
        r == is_leap_year(y as int),
{
    y % 4 == 0 && (y % 100 != 0 || y % 400 == 0)
}

pub fn days_in_month(y: u32, m: u32) -> (r: u32)
    ensures
        r == spec_days_in_month(y as int, m as int),
{
    if m == 2 {
        if leap_year(y) {
            29
        } else {
            28
        }
    } else if m == 4 || m == 6 || m == 9 || m == 11 {
        30
    } else {
        31
    }
}

impl Date {
    pub open spec fn spec_epoch() -> Date {
        Date { year: 1970, month: 1, day: 1 }
    }

    /// 1970-01-01, the fallback for a date that fails to decode.
    pub fn epoch() -> (r: Date)
        ensures
            r == Date::spec_epoch(),
    {
        Date { year: 1970, month: 1, day: 1 }
    }

    pub open spec fn is_valid(self) -> bool {
        valid_ymd(self.year as int, self.month as int, self.day as int)
    }
}

impl Default for Date {
    fn default() -> (r: Self)
        ensures
            r == Date::spec_epoch(),
    {
        Date::epoch()
    }
}

impl DateTime {
    pub open spec fn spec_epoch() -> DateTime {
        DateTime { year: 1970, month: 1, day: 1, hour: 0, minute: 0, second: 0 }
    }

    /// 1970-01-01 00:00:00, the fallback for a timestamp that fails to
    /// decode.
    pub fn epoch() -> (r: DateTime)
        ensures
            r == DateTime::spec_epoch(),
    {
        DateTime { year: 1970, month: 1, day: 1, hour: 0, minute: 0, second: 0 }
    }

    pub open spec fn spec_from_date(d: Date) -> DateTime {
        DateTime { year: d.year, month: d.month, day: d.day, hour: 0, minute: 0, second: 0 }
    }

    /// The given calendar date at midnight.
    pub fn from_date(d: Date) -> (r: DateTime)
        ensures
            r == DateTime::spec_from_date(d),
    {
        DateTime { year: d.year, month: d.month, day: d.day, hour: 0, minute: 0, second: 0 }
    }

    /// Whether the time of day is exactly midnight.
    pub open spec fn time_is_zero(self) -> bool {
        self.hour == 0 && self.minute == 0 && self.second == 0
    }

    pub open spec fn is_valid(self) -> bool {
        valid_ymd(self.year as int, self.month as int, self.day as int) && valid_hms(
            self.hour as int,
            self.minute as int,
            self.second as int,
        )
    }
}

impl Default for DateTime {
    fn default() -> (r: Self)
        ensures
            r == DateTime::spec_epoch(),
    {
        DateTime::epoch()
    }
}

} // verus!
