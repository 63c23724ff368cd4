//! Calendar dates and moments on a single local clock.

use vstd::prelude::*;

verus! {

/// A calendar date in the proleptic Gregorian calendar.
#[derive(Clone, Copy, Debug, PartialEq, Eq, Hash, Structural)]
pub struct Date {
    pub year: i32,
    pub month: u32,
    pub day: u32,
}

/// A moment on the local clock, to the second.
#[derive(Clone, Copy, Debug, PartialEq, Eq, Hash, Structural)]
pub struct Moment {
    pub date: Date,
    pub hour: u32,
    pub minute: u32,
    pub second: u32,
}

pub open spec fn is_leap_year(y: int) -> bool {
    (y % 4 == 0 && y % 100 != 0) || y % 400 == 0
}

pub open spec fn days_in_month(y: int, m: int) -> int {
    if m == 2 {
        if is_leap_year(y) { 29 } else { 28 }
    } else if m == 4 || m == 6 || m == 9 || m == 11 {
        30
    } else {
        31
    }
}

/// Month `m` of year `y` has a day `d`.
pub open spec fn day_exists(y: int, m: int, d: int) -> bool {
    1 <= m <= 12 && 1 <= d <= days_in_month(y, m)
}

/// Days in the months of year `y` before month `m`.
pub open spec fn days_before_month(y: int, m: int) -> int
    decreases m,
{
    if m <= 1 {
        0
    } else {
        days_before_month(y, m - 1) + days_in_month(y, m - 1)
    }
}

/// The day count of a date, with 0001-01-01 as day 1.
pub open spec fn days_from_ce(y: int, m: int, d: int) -> int {
    let p = y - 1;
    365 * p + p / 4 - p / 100 + p / 400 + days_before_month(y, m) + d
}

impl Date {
    /// A date with a four-digit year that the calendar has.
    pub open spec fn wf(self) -> bool {
        0 <= self.year <= 9999 && day_exists(self.year as int, self.month as int, self.day as int)
    }

    pub open spec fn day_number(self) -> int {
        days_from_ce(self.year as int, self.month as int, self.day as int)
    }
}

impl Moment {
    pub open spec fn wf(self) -> bool {
        self.date.wf() && self.hour < 24 && self.minute < 60 && self.second < 60
    }

    /// Seconds since the start of day 0 of the day count.
    pub open spec fn seconds(self) -> int {
        self.date.day_number() * 86400 + self.hour * 3600 + self.minute * 60 + self.second
    }
}

/// Relies on chrono's `NaiveDate::from_ymd_opt`, which gives a date exactly
/// when the month is in 1..=12 and the month has that day.
#[verifier::external_body]
fn chrono_date_exists(year: i32, month: u32, day: u32) -> (r: bool)
    requires
        0 <= year <= 9999,
    ensures
        r == day_exists(year as int, month as int, day as int),
{
    chrono::NaiveDate::from_ymd_opt(year, month, day).is_some()
}

/// Relies on chrono's `NaiveDateTime` subtraction and `TimeDelta::num_seconds`:
/// the signed number of seconds from `earlier` to `later`.
#[verifier::external_body]
fn chrono_seconds_between(later: &Moment, earlier: &Moment) -> (r: i64)
    requires
        later.wf(),
        earlier.wf(),
    ensures
        r as int == later.seconds() - earlier.seconds(),
{
    let a = chrono::NaiveDate::from_ymd_opt(later.date.year, later.date.month, later.date.day)
        .unwrap().and_hms_opt(later.hour, later.minute, later.second).unwrap();
    let b = chrono::NaiveDate::from_ymd_opt(earlier.date.year, earlier.date.month, earlier.date.day)
        .unwrap().and_hms_opt(earlier.hour, earlier.minute, earlier.second).unwrap();
    (a - b).num_seconds()
}

impl Date {
    /// Whether this is a date of the calendar with a four-digit year.
    pub fn is_valid(&self) -> (r: bool)
        ensures
            r == self.wf(),
    {
        if self.year < 0 || self.year > 9999 {
            false
        } else {
            chrono_date_exists(self.year, self.month, self.day)
        }
    }
}

impl Moment {
    /// Whether this moment names a valid date and a time of day.
    pub fn is_valid(&self) -> (r: bool)
        ensures
            r == self.wf(),
    {
        self.date.is_valid() && self.hour < 24 && self.minute < 60 && self.second < 60
    }

    /// Signed seconds from `earlier` to `self`.
    pub fn seconds_since(&self, earlier: &Moment) -> (r: i64)
        requires
            self.wf(),
            earlier.wf(),
        ensures
            r as int == self.seconds() - earlier.seconds(),
    {
        chrono_seconds_between(self, earlier)
    }
}

} // verus!
