//! Civil time at minute resolution.
//!
//! The due-time engine decides schedules per minute, so a point in time is
//! a Gregorian calendar date plus hour and minute.  Instants are compared
//! through their *minute index*, the number of minutes since
//! 1970-01-01 00:00; the index respects the civil field order and is
//! injective on well-formed instants.

use vstd::prelude::*;

verus! {

/// Gregorian leap year.
pub open spec fn spec_is_leap(year: int) -> bool {
    (year % 4 == 0 && year % 100 != 0) || year % 400 == 0
}

/// Days in the given month (1 = January) of the given year.
pub open spec fn spec_days_in_month(year: int, month: int) -> int {
    if month == 2 {
        if spec_is_leap(year) {
            29
        } else {
            28
        }
    } else if month == 4 || month == 6 || month == 9 || month == 11 {
        30
    } else {
        31
    }
}

/// Days in the given year.
pub open spec fn spec_days_in_year(year: int) -> int {
    if spec_is_leap(year) {
        366
    } else {
        365
    }
}

/// Days from 1970-01-01 to January 1 of the given year.
pub open spec fn days_before_year(year: int) -> int
    decreases year,
{
    if year <= 1970 {
        0
    } else {
        days_before_year(year - 1) + spec_days_in_year(year - 1)
    }
}

/// Days from the first of January to the first of the given month.
pub open spec fn days_before_month(year: int, month: int) -> int
    decreases month,
{
    if month <= 1 {
        0
    } else {
        days_before_month(year, month - 1) + spec_days_in_month(year, month - 1)
    }
}

/// A civil point in time, at minute resolution.
#[derive(Clone, Copy, Debug, PartialEq, Eq, Structural)]
pub struct Instant {
    pub year: u16,
    pub month: u8,
    pub day: u8,
    pub hour: u8,
    pub minute: u8,
}

/// Strict order on the civil fields, most significant first.
pub open spec fn civil_lt(a: Instant, b: Instant) -> bool {
    if a.year != b.year {
        a.year < b.year
    } else if a.month != b.month {
        a.month < b.month
    } else if a.day != b.day {
        a.day < b.day
    } else if a.hour != b.hour {
        a.hour < b.hour
    } else {
        a.minute < b.minute
    }
}

impl Instant {
    /// A real calendar date in the supported year range, with a valid
    /// hour and minute.
    pub open spec fn wf(&self) -> bool {
        &&& 1970 <= self.year <= 9999
        &&& 1 <= self.month <= 12
        &&& 1 <= self.day <= spec_days_in_month(self.year as int, self.month as int)
        &&& self.hour < 24
        &&& self.minute < 60
    }

    /// Days since 1970-01-01.
    pub open spec fn spec_day_index(&self) -> int {
        days_before_year(self.year as int) + days_before_month(
            self.year as int,
            self.month as int,
        ) + self.day - 1
    }

    /// Minutes since 1970-01-01 00:00: the due bucket this instant falls in.
    pub open spec fn spec_minute_index(&self) -> int {
        self.spec_day_index() * 1440 + self.hour * 60 + self.minute
    }

    /// Day of the week, cron numbering: 0 = Sunday .. 6 = Saturday.
    /// 1970-01-01 was a Thursday, day 4.
    pub open spec fn spec_weekday(&self) -> int {
        (self.spec_day_index() + 4) % 7
    }

    /// The last supported instant, after which a minute cannot be added.
    pub open spec fn is_last_supported(&self) -> bool {
        self.year == 9999 && self.month == 12 && self.day == 31 && self.hour == 23 && self.minute
            == 59
    }

    /// Builds a well-formed instant, rejecting invalid dates and times.
    pub fn new(year: u16, month: u8, day: u8, hour: u8, minute: u8) -> (r: Option<Instant>)
        ensures
            match r {
                Some(t) => t.wf() && t.year == year && t.month == month && t.day == day && t.hour
                    == hour && t.minute == minute,
                None => !(Instant { year, month, day, hour, minute }).wf(),
            },
    {
        if 1970 <= year && year <= 9999 && 1 <= month && month <= 12 && 1 <= day && day
            <= days_in_month(year, month) && hour < 24 && minute < 60 {
            Some(Instant { year, month, day, hour, minute })
        } else {
            None
        }
    }

    /// The minute bucket of this instant.
    pub fn minute_index(&self) -> (r: u64)
        requires
            self.wf(),
        ensures
            r == self.spec_minute_index(),
    {
        proof {
            lemma_day_index_bounds(*self);
        }
        let days = day_index(self.year, self.month, self.day);
        days * 1440 + (self.hour as u64) * 60 + (self.minute as u64)
    }

    /// Day of the week in cron numbering.
    pub fn weekday(&self) -> (r: u8)
        requires
            self.wf(),
        ensures
            r == self.spec_weekday(),
    {
        proof {
            lemma_day_index_bounds(*self);
        }
        let days = day_index(self.year, self.month, self.day);
        ((days + 4) % 7) as u8
    }

    /// The instant one minute later.
    pub fn next_minute(&self) -> (r: Instant)
        requires
            self.wf(),
            !self.is_last_supported(),
        ensures
            r.wf(),
            r.spec_minute_index() == self.spec_minute_index() + 1,
    {
        if self.minute < 59 {
            Instant { minute: self.minute + 1, ..*self }
        } else if self.hour < 23 {
            Instant { hour: self.hour + 1, minute: 0, ..*self }
        } else if self.day < days_in_month(self.year, self.month) {
            Instant { day: self.day + 1, hour: 0, minute: 0, ..*self }
        } else if self.month < 12 {
            let r = Instant { month: self.month + 1, day: 1, hour: 0, minute: 0, ..*self };
            proof {
                assert(days_before_month(self.year as int, self.month + 1) == days_before_month(
                    self.year as int,
                    self.month as int,
                ) + spec_days_in_month(self.year as int, self.month as int));
            }
            r
        } else {
            let r = Instant { year: self.year + 1, month: 1, day: 1, hour: 0, minute: 0 };
            proof {
                lemma_year_days(self.year as int);
                assert(days_before_year(self.year + 1) == days_before_year(self.year as int)
                    + spec_days_in_year(self.year as int));
            }
            r
        }
    }
}

impl Instant {
    /// Executable twin of [`Instant::wf`].
    pub fn valid(&self) -> (r: bool)
        ensures
            r == self.wf(),
    {
        1970 <= self.year && self.year <= 9999 && 1 <= self.month && self.month <= 12 && 1
            <= self.day && self.day <= days_in_month(self.year, self.month) && self.hour < 24
            && self.minute < 60
    }
}

/// Executable leap-year test.
pub fn is_leap(year: u16) -> (r: bool)
    ensures
        r == spec_is_leap(year as int),
{
    (year % 4 == 0 && year % 100 != 0) || year % 400 == 0
}

/// Executable days-in-month.
pub fn days_in_month(year: u16, month: u8) -> (r: u8)
    ensures
        r == spec_days_in_month(year as int, month as int),
{
    if month == 2 {
        if is_leap(year) {
            29
        } else {
            28
        }
    } else if month == 4 || month == 6 || month == 9 || month == 11 {
        30
    } else {
        31
    }
}

/// Days from 1970-01-01 to the given date.
fn day_index(year: u16, month: u8, day: u8) -> (r: u64)
    requires
        1970 <= year <= 9999,
        1 <= month <= 12,
        1 <= day <= spec_days_in_month(year as int, month as int),
    ensures
        r == days_before_year(year as int) + days_before_month(year as int, month as int) + day
            - 1,
        r <= 3_000_000,
{
    let mut acc: u64 = 0;
    let mut y: u16 = 1970;
    while y < year
        invariant
            1970 <= y <= year <= 9999,
            acc == days_before_year(y as int),
            acc <= 366 * (y - 1970),
        decreases year - y,
    {
        let dy: u64 = if is_leap(y) {
            366
        } else {
            365
        };
        acc = acc + dy;
        y = y + 1;
    }
    let mut m: u8 = 1;
    let ghost acc_year = acc;
    while m < month
        invariant
            1 <= m <= month,
            month <= 12,
            1970 <= year <= 9999,
            acc == acc_year + days_before_month(year as int, m as int),
            acc_year == days_before_year(year as int),
            acc_year <= 366 * (year - 1970),
            acc <= acc_year + 31 * (m - 1),
        decreases month - m,
    {
        acc = acc + (days_in_month(year, m) as u64);
        m = m + 1;
    }
    acc + (day as u64) - 1
}

/// The months of a year sum to its day count.
pub proof fn lemma_year_days(year: int)
    ensures
        days_before_month(year, 13) == spec_days_in_year(year),
{
    reveal_with_fuel(days_before_month, 13);
}

/// `days_before_month` grows by at least the month lengths: months earlier
/// in the year start at strictly smaller day offsets.
pub proof fn lemma_month_offsets(year: int, m1: int, m2: int)
    requires
        1 <= m1 < m2 <= 13,
    ensures
        days_before_month(year, m1) + spec_days_in_month(year, m1) <= days_before_month(year, m2),
    decreases m2,
{
    if m2 > m1 + 1 {
        lemma_month_offsets(year, m1, m2 - 1);
        assert(spec_days_in_month(year, m2 - 1) >= 28);
    }
}

/// Years in range occupy disjoint, ordered day-index intervals.
pub proof fn lemma_year_offsets(y1: int, y2: int)
    requires
        y1 < y2,
        1970 <= y1,
    ensures
        days_before_year(y1) + spec_days_in_year(y1) <= days_before_year(y2),
    decreases y2,
{
    if y2 > y1 + 1 {
        lemma_year_offsets(y1, y2 - 1);
        assert(spec_days_in_year(y2 - 1) >= 365);
    }
}

/// The day index of a well-formed instant lies inside its year's interval.
pub proof fn lemma_day_index_bounds(t: Instant)
    requires
        t.wf(),
    ensures
        days_before_year(t.year as int) <= t.spec_day_index(),
        t.spec_day_index() < days_before_year(t.year as int) + spec_days_in_year(t.year as int),
        0 <= t.spec_day_index() <= 366 * (t.year - 1970) + 366,
{
    lemma_month_bound(t.year as int, t.month as int);
    if (t.month as int) < 13 {
        lemma_month_offsets(t.year as int, t.month as int, 13);
    }
    lemma_year_days(t.year as int);
    lemma_dby_bound(t.year as int);
}

/// `days_before_month` is at most 31 days per elapsed month.
proof fn lemma_month_bound(year: int, month: int)
    requires
        1 <= month <= 13,
    ensures
        0 <= days_before_month(year, month) <= 31 * (month - 1),
    decreases month,
{
    if month > 1 {
        lemma_month_bound(year, month - 1);
    }
}

/// `days_before_year` is at most 366 days per elapsed year.
proof fn lemma_dby_bound(year: int)
    requires
        1970 <= year,
    ensures
        0 <= days_before_year(year) <= 366 * (year - 1970),
    decreases year,
{
    if year > 1970 {
        lemma_dby_bound(year - 1);
    }
}

/// The day index respects the civil date order strictly.
pub proof fn lemma_day_index_strict(a: Instant, b: Instant)
    requires
        a.wf(),
        b.wf(),
        (a.year, a.month, a.day) != (b.year, b.month, b.day),
        a.year < b.year || (a.year == b.year && a.month < b.month) || (a.year == b.year && a.month
            == b.month && a.day < b.day),
    ensures
        a.spec_day_index() < b.spec_day_index(),
{
    if a.year < b.year {
        lemma_day_index_bounds(a);
        lemma_day_index_bounds(b);
        lemma_year_offsets(a.year as int, b.year as int);
    } else if a.month < b.month {
        lemma_month_offsets(a.year as int, a.month as int, b.month as int);
    }
}

/// The minute index respects the civil order strictly.
pub proof fn lemma_minute_index_strict(a: Instant, b: Instant)
    requires
        a.wf(),
        b.wf(),
        civil_lt(a, b),
    ensures
        a.spec_minute_index() < b.spec_minute_index(),
{
    if (a.year, a.month, a.day) != (b.year, b.month, b.day) {
        lemma_day_index_strict(a, b);
    }
}

/// The minute index is injective on well-formed instants: one bucket, one
/// instant.
pub proof fn lemma_minute_index_injective(a: Instant, b: Instant)
    requires
        a.wf(),
        b.wf(),
        a.spec_minute_index() == b.spec_minute_index(),
    ensures
        a == b,
{
    if civil_lt(a, b) {
        lemma_minute_index_strict(a, b);
    } else if civil_lt(b, a) {
        lemma_minute_index_strict(b, a);
    }
}

} // verus!
