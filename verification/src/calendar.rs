//! Civil calendar arithmetic on the proleptic Gregorian calendar.
//!
//! A [`CalendarMoment`] holds a date, a time of day, and an offset from UTC,
//! all as plain integers. The functions here convert it to seconds since the
//! Unix epoch 1970-01-01T00:00:00 UTC, to the UTC midnight that starts the
//! UTC day containing it, and to seconds since 2000-01-01T00:00:00 UTC, the
//! epoch of the solar-position series.

use vstd::prelude::*;

verus! {

use vstd::arithmetic::div_mod::lemma_fundamental_div_mod;
use vstd::arithmetic::div_mod::lemma_fundamental_div_mod_converse;
use vstd::arithmetic::div_mod::lemma_mod_bound;
use vstd::arithmetic::div_mod::lemma_mod_multiples_basic;
use vstd::arithmetic::div_mod::lemma_mod_multiples_vanish;

/// Seconds in one civil day.
pub const SECONDS_PER_DAY: i64 = 86400;

/// Earliest supported calendar year.
pub const MIN_YEAR: i64 = 1;

/// Latest supported calendar year.
pub const MAX_YEAR: i64 = 9999;

/// A positive multiple of `SECONDS_PER_DAY` larger than the magnitude of any
/// supported timestamp; shifting by it keeps remainder operands nonnegative.
const MIDNIGHT_SHIFT: i64 = 86400 * 4000000;

/// Whether `year` is a leap year of the proleptic Gregorian calendar.
pub open spec fn spec_is_leap_year(year: int) -> bool {
    year % 4 == 0 && (year % 100 != 0 || year % 400 == 0)
}

/// Number of days in `month` of `year` (months are numbered 1 to 12).
pub open spec fn spec_days_in_month(year: int, month: int) -> int {
    if month == 2 {
        if spec_is_leap_year(year) {
            29
        } else {
            28
        }
    } else if month == 4 || month == 6 || month == 9 || month == 11 {
        30
    } else {
        31
    }
}

/// Number of days in `year`.
pub open spec fn spec_days_in_year(year: int) -> int {
    if spec_is_leap_year(year) {
        366
    } else {
        365
    }
}

/// Days in all calendar years before `year`, counted from year 1,
/// so that 0001-01-01 is day 0.
pub open spec fn spec_days_before_year(year: int) -> int
    decreases year,
{
    if year <= 1 {
        0
    } else {
        spec_days_before_year(year - 1) + spec_days_in_year(year - 1)
    }
}

/// Days in all months of `year` before `month`.
pub open spec fn spec_days_before_month(year: int, month: int) -> int
    decreases month,
{
    if month <= 1 {
        0
    } else {
        spec_days_before_month(year, month - 1) + spec_days_in_month(year, month - 1)
    }
}

/// Day index of the date `year-month-day`, counted from 0001-01-01 as day 0.
pub open spec fn spec_day_number(year: int, month: int, day: int) -> int {
    spec_days_before_year(year) + spec_days_before_month(year, month) + day - 1
}

/// Day index of the date `year-month-day`, counted from the Unix epoch
/// 1970-01-01 as day 0; negative for earlier dates.
pub open spec fn spec_unix_day_number(year: int, month: int, day: int) -> int {
    spec_day_number(year, month, day) - spec_day_number(1970, 1, 1)
}

/// The Unix timestamp of 2000-01-01T00:00:00 UTC, the epoch of the
/// solar-position series.
pub open spec fn spec_epoch_2000_timestamp() -> int {
    spec_unix_day_number(2000, 1, 1) * (SECONDS_PER_DAY as int)
}

/// The closed-form day count of congruence-based calendar arithmetic: the
/// running total of days in `year` whole years, with one extra day per leap
/// year.
pub open spec fn spec_year_day_total(year: int) -> int {
    365 * year + year / 4 - year / 100 + year / 400
}

/// The day index of `year-month-day` in closed form: January and February
/// count as months 13 and 14 of the previous year, so that the leap day
/// falls at the end of the shifted year, and the month prefix sums collapse
/// into the expression `3 * (month + 1) / 5 + 30 * month`.
pub open spec fn spec_day_number_closed(year: int, month: int, day: int) -> int {
    let shifted_year = if month <= 2 {
        year - 1
    } else {
        year
    };
    let shifted_month = if month <= 2 {
        month + 12
    } else {
        month
    };
    spec_year_day_total(shifted_year) + 3 * (shifted_month + 1) / 5 + 30 * shifted_month + day
        - 399
}

/// Dividing by `d` grows by one exactly at the multiples of `d`.
proof fn lemma_div_step(n: int, d: int)
    requires
        1 <= n,
        1 <= d,
    ensures
        n / d - (n - 1) / d == (if n % d == 0 {
            1int
        } else {
            0int
        }),
{
    lemma_fundamental_div_mod(n, d);
    lemma_mod_bound(n, d);
    let q = n / d;
    let r = n % d;
    if r == 0 {
        assert((q - 1) * d == q * d - d) by (nonlinear_arith);
        assert(q * d == d * q) by (nonlinear_arith);
        lemma_fundamental_div_mod_converse(n - 1, d, q - 1, d - 1);
    } else {
        assert(q * d == d * q) by (nonlinear_arith);
        lemma_fundamental_div_mod_converse(n - 1, d, q, r - 1);
    }
}

/// A multiple of `a * b` is a multiple of `a`.
proof fn lemma_mod_zero_multiple(x: int, a: int, b: int)
    requires
        1 <= a,
        1 <= b,
        x % (a * b) == 0,
    ensures
        x % a == 0,
{
    assert(1 <= a * b) by (nonlinear_arith)
        requires
            1 <= a,
            1 <= b,
    ;
    lemma_fundamental_div_mod(x, a * b);
    let q = x / (a * b);
    assert((a * b) * q == (b * q) * a) by (nonlinear_arith);
    lemma_mod_multiples_basic(b * q, a);
}

/// The length of a year, written with one indicator per divisibility rule.
proof fn lemma_days_in_year_divisibility(year: int)
    requires
        1 <= year,
    ensures
        spec_days_in_year(year) == 365 + (if year % 4 == 0 {
            1int
        } else {
            0int
        }) - (if year % 100 == 0 {
            1int
        } else {
            0int
        }) + (if year % 400 == 0 {
            1int
        } else {
            0int
        }),
{
    if year % 400 == 0 {
        lemma_mod_zero_multiple(year, 100, 4);
    }
    if year % 100 == 0 {
        lemma_mod_zero_multiple(year, 4, 25);
    }
}

/// The recursive count of days in whole years equals the closed form.
proof fn lemma_days_before_year_closed(year: int)
    requires
        1 <= year,
    ensures
        spec_days_before_year(year) == spec_year_day_total(year - 1),
    decreases year,
{
    if year > 1 {
        lemma_days_before_year_closed(year - 1);
        lemma_div_step(year - 1, 4);
        lemma_div_step(year - 1, 100);
        lemma_div_step(year - 1, 400);
        lemma_days_in_year_divisibility(year - 1);
    }
}

/// The recursive day count agrees with the closed-form expression of
/// congruence-based calendar arithmetic on every valid month, whatever the
/// day field holds.
pub proof fn lemma_day_number_closed_form(year: int, month: int, day: int)
    requires
        1 <= year,
        1 <= month <= 12,
    ensures
        spec_day_number(year, month, day) == spec_day_number_closed(year, month, day),
{
    lemma_days_before_year_closed(year);
    assert(spec_days_before_month(year, 1) == 0);
    assert(spec_days_before_month(year, 2) == 31);
    assert(spec_days_before_month(year, 3) == 31 + spec_days_in_month(year, 2));
    assert(spec_days_before_month(year, 4) == 62 + spec_days_in_month(year, 2));
    assert(spec_days_before_month(year, 5) == 92 + spec_days_in_month(year, 2));
    assert(spec_days_before_month(year, 6) == 123 + spec_days_in_month(year, 2));
    assert(spec_days_before_month(year, 7) == 153 + spec_days_in_month(year, 2));
    assert(spec_days_before_month(year, 8) == 184 + spec_days_in_month(year, 2));
    assert(spec_days_before_month(year, 9) == 215 + spec_days_in_month(year, 2));
    assert(spec_days_before_month(year, 10) == 245 + spec_days_in_month(year, 2));
    assert(spec_days_before_month(year, 11) == 276 + spec_days_in_month(year, 2));
    assert(spec_days_before_month(year, 12) == 306 + spec_days_in_month(year, 2));
    if month >= 3 {
        lemma_div_step(year, 4);
        lemma_div_step(year, 100);
        lemma_div_step(year, 400);
        lemma_days_in_year_divisibility(year);
    }
}

/// The sum of whole years before `year` lies between 365 and 366 days a year.
pub proof fn lemma_days_before_year_bounds(year: int)
    requires
        1 <= year,
    ensures
        365 * (year - 1) <= spec_days_before_year(year) <= 366 * (year - 1),
    decreases year,
{
    if year > 1 {
        lemma_days_before_year_bounds(year - 1);
    }
}

/// The sum of whole months before `month` lies between 28 and 31 days a month.
pub proof fn lemma_days_before_month_bounds(year: int, month: int)
    requires
        1 <= month <= 13,
    ensures
        28 * (month - 1) <= spec_days_before_month(year, month) <= 31 * (month - 1),
    decreases month,
{
    if month > 1 {
        lemma_days_before_month_bounds(year, month - 1);
    }
}

/// Later years begin at least 365 days per elapsed year later.
pub proof fn lemma_days_before_year_monotone(a: int, b: int)
    requires
        1 <= a <= b,
    ensures
        spec_days_before_year(a) + 365 * (b - a) <= spec_days_before_year(b),
    decreases b,
{
    if a < b {
        lemma_days_before_year_monotone(a, b - 1);
    }
}

/// Whether `year` is a leap year of the proleptic Gregorian calendar.
pub fn is_leap_year(year: i64) -> (leap: bool)
    requires
        MIN_YEAR <= year,
    ensures
        leap == spec_is_leap_year(year as int),
{
    year % 4 == 0 && (year % 100 != 0 || year % 400 == 0)
}

/// Number of days in `month` of `year`.
pub fn days_in_month(year: i64, month: u8) -> (n: u8)
    requires
        MIN_YEAR <= year,
        1 <= month <= 12,
    ensures
        n == spec_days_in_month(year as int, month as int),
{
    if month == 2 {
        if is_leap_year(year) {
            29
        } else {
            28
        }
    } else if month == 4 || month == 6 || month == 9 || month == 11 {
        30
    } else {
        31
    }
}

/// Number of days in `year`.
pub fn days_in_year(year: i64) -> (n: u16)
    requires
        MIN_YEAR <= year,
    ensures
        n == spec_days_in_year(year as int),
{
    if is_leap_year(year) {
        366
    } else {
        365
    }
}

/// Days in all calendar years before `year`, counted from year 1.
pub fn days_before_year(year: i64) -> (n: i64)
    requires
        MIN_YEAR <= year <= MAX_YEAR,
    ensures
        n == spec_days_before_year(year as int),
{
    let mut y: i64 = 1;
    let mut n: i64 = 0;
    while y < year
        invariant
            1 <= y <= year <= MAX_YEAR,
            n == spec_days_before_year(y as int),
            0 <= n <= 366 * (y - 1),
        decreases year - y,
    {
        n = n + days_in_year(y) as i64;
        y = y + 1;
    }
    n
}

/// Days in all months of `year` before `month`.
pub fn days_before_month(year: i64, month: u8) -> (n: u16)
    requires
        MIN_YEAR <= year,
        1 <= month <= 12,
    ensures
        n == spec_days_before_month(year as int, month as int),
{
    let mut m: u8 = 1;
    let mut n: u16 = 0;
    while m < month
        invariant
            1 <= m <= month <= 12,
            MIN_YEAR <= year,
            n == spec_days_before_month(year as int, m as int),
            0 <= n <= 31 * (m - 1),
        decreases month - m,
    {
        n = n + days_in_month(year, m) as u16;
        m = m + 1;
    }
    n
}

/// Day index of the date `year-month-day`, counted from the Unix epoch
/// 1970-01-01 as day 0; negative for earlier dates.
pub fn unix_day_number(year: i64, month: u8, day: u8) -> (n: i64)
    requires
        MIN_YEAR <= year <= MAX_YEAR,
        1 <= month <= 12,
        1 <= day <= spec_days_in_month(year as int, month as int),
    ensures
        n == spec_unix_day_number(year as int, month as int, day as int),
{
    proof {
        lemma_day_number_closed_form(year as int, month as int, day as int);
        lemma_day_number_closed_form(1970, 1, 1);
    }
    let shifted_year: i64 = if month <= 2 {
        year - 1
    } else {
        year
    };
    let shifted_month: i64 = if month <= 2 {
        month as i64 + 12
    } else {
        month as i64
    };
    365 * shifted_year + shifted_year / 4 - shifted_year / 100 + shifted_year / 400 + 3 * (
    shifted_month + 1) / 5 + 30 * shifted_month + day as i64 - 399 - 719162
}

/// A civil calendar moment: a date of the proleptic Gregorian calendar, a
/// time of day, and an offset from UTC in seconds, positive east of
/// Greenwich. The moment denotes the UTC instant obtained by subtracting the
/// offset from the local date and time.
#[derive(Clone, Copy, Debug, PartialEq, Eq, Structural)]
pub struct CalendarMoment {
    pub year: i64,
    pub month: u8,
    pub day: u8,
    pub hour: u8,
    pub minute: u8,
    pub second: u8,
    pub utc_offset_seconds: i32,
}

impl CalendarMoment {
    /// Well-formed: the date exists in the calendar, the time of day is a
    /// valid wall-clock reading, and the UTC offset is at most one day in
    /// either direction.
    pub open spec fn wf(self) -> bool {
        &&& MIN_YEAR <= self.year <= MAX_YEAR
        &&& 1 <= self.month <= 12
        &&& 1 <= self.day <= spec_days_in_month(self.year as int, self.month as int)
        &&& self.hour <= 23
        &&& self.minute <= 59
        &&& self.second <= 59
        &&& -SECONDS_PER_DAY <= self.utc_offset_seconds <= SECONDS_PER_DAY
    }

    /// Seconds from 1970-01-01T00:00:00 UTC to this moment; negative for
    /// earlier moments.
    pub open spec fn spec_timestamp(self) -> int {
        spec_unix_day_number(self.year as int, self.month as int, self.day as int) * (
        SECONDS_PER_DAY as int) + (self.hour as int) * 3600 + (self.minute as int) * 60 + (
        self.second as int) - (self.utc_offset_seconds as int)
    }

    /// The Unix timestamp of the UTC midnight that starts the UTC day
    /// containing this moment: the greatest multiple of `SECONDS_PER_DAY`
    /// not above the moment's timestamp.
    pub open spec fn spec_utc_midnight(self) -> int {
        self.spec_timestamp() - self.spec_timestamp() % (SECONDS_PER_DAY as int)
    }

    /// Seconds from 2000-01-01T00:00:00 UTC to this moment; negative for
    /// earlier moments.
    pub open spec fn spec_seconds_since_2000(self) -> int {
        self.spec_timestamp() - spec_epoch_2000_timestamp()
    }

    /// Builds a moment after checking every field range; returns `None`
    /// exactly when some field is out of range, among them a day that the
    /// month does not have.
    pub fn new(
        year: i64,
        month: u8,
        day: u8,
        hour: u8,
        minute: u8,
        second: u8,
        utc_offset_seconds: i32,
    ) -> (m: Option<CalendarMoment>)
        ensures
            ({
                let candidate = CalendarMoment {
                    year,
                    month,
                    day,
                    hour,
                    minute,
                    second,
                    utc_offset_seconds,
                };
                match m {
                    Some(built) => built == candidate && candidate.wf(),
                    None => !candidate.wf(),
                }
            }),
    {
        if year < MIN_YEAR || year > MAX_YEAR {
            return None;
        }
        if month < 1 || month > 12 {
            return None;
        }
        if day < 1 || day > days_in_month(year, month) {
            return None;
        }
        if hour > 23 || minute > 59 || second > 59 {
            return None;
        }
        if utc_offset_seconds < -(SECONDS_PER_DAY as i32) || utc_offset_seconds > (SECONDS_PER_DAY
            as i32) {
            return None;
        }
        Some(
            CalendarMoment {
                year,
                month,
                day,
                hour,
                minute,
                second,
                utc_offset_seconds,
            },
        )
    }

    /// Seconds from 1970-01-01T00:00:00 UTC to this moment.
    pub fn timestamp(&self) -> (t: i64)
        requires
            self.wf(),
        ensures
            t == self.spec_timestamp(),
    {
        proof {
            lemma_days_before_year_bounds(self.year as int);
            lemma_days_before_year_bounds(1970);
            lemma_days_before_month_bounds(self.year as int, self.month as int);
        }
        let days = unix_day_number(self.year, self.month, self.day);
        days * SECONDS_PER_DAY + (self.hour as i64) * 3600 + (self.minute as i64) * 60 + (
        self.second as i64) - (self.utc_offset_seconds as i64)
    }

    /// The Unix timestamp of the UTC midnight that starts the UTC day
    /// containing this moment.
    pub fn utc_midnight_timestamp(&self) -> (t: i64)
        requires
            self.wf(),
        ensures
            t == self.spec_utc_midnight(),
    {
        proof {
            lemma_days_before_year_bounds(self.year as int);
            lemma_days_before_year_bounds(1970);
            lemma_days_before_month_bounds(self.year as int, self.month as int);
        }
        let ts = self.timestamp();
        let shifted = ts + MIDNIGHT_SHIFT;
        let remainder = shifted % SECONDS_PER_DAY;
        proof {
            lemma_mod_multiples_vanish(4000000, ts as int, SECONDS_PER_DAY as int);
            lemma_mod_bound(ts as int, SECONDS_PER_DAY as int);
        }
        ts - remainder
    }

    /// Seconds from 2000-01-01T00:00:00 UTC to this moment.
    pub fn seconds_since_2000(&self) -> (s: i64)
        requires
            self.wf(),
        ensures
            s == self.spec_seconds_since_2000(),
    {
        proof {
            lemma_days_before_year_bounds(self.year as int);
            lemma_days_before_year_bounds(1970);
            lemma_days_before_year_bounds(2000);
            lemma_days_before_month_bounds(self.year as int, self.month as int);
        }
        let epoch_days = unix_day_number(2000, 1, 1);
        self.timestamp() - epoch_days * SECONDS_PER_DAY
    }
}

/// Determinism law: the timestamp is a function of the moment alone, so two
/// results computed from equal moments are equal.
pub proof fn lemma_timestamp_deterministic(m: CalendarMoment, t1: i64, t2: i64)
    requires
        t1 == m.spec_timestamp(),
        t2 == m.spec_timestamp(),
    ensures
        t1 == t2,
{
}

/// Every well-formed moment from the year 1971 on has a positive Unix
/// timestamp, whatever its time of day and UTC offset, and the UTC midnight
/// anchoring its day is positive as well.
pub proof fn lemma_timestamp_positive(m: CalendarMoment)
    requires
        m.wf(),
        m.year >= 1971,
    ensures
        m.spec_timestamp() > 0,
        m.spec_utc_midnight() > 0,
{
    lemma_days_before_year_monotone(1970, m.year as int);
    lemma_days_before_month_bounds(m.year as int, m.month as int);
    lemma_mod_bound(m.spec_timestamp(), SECONDS_PER_DAY as int);
}

/// The UTC midnight of a moment is a whole number of days after the Unix
/// epoch, and the moment itself falls within the day it starts.
pub proof fn lemma_utc_midnight_brackets(m: CalendarMoment)
    requires
        m.wf(),
    ensures
        m.spec_utc_midnight() <= m.spec_timestamp() < m.spec_utc_midnight() + SECONDS_PER_DAY,
        m.spec_utc_midnight() % (SECONDS_PER_DAY as int) == 0,
{
    let ts = m.spec_timestamp();
    let day = SECONDS_PER_DAY as int;
    lemma_mod_bound(ts, day);
    lemma_fundamental_div_mod(ts, day);
    assert(m.spec_utc_midnight() == day * (ts / day));
    lemma_mod_multiples_basic(ts / day, day);
}

} // verus!
