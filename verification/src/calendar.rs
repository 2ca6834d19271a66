//! Proleptic Gregorian calendar arithmetic for years 0 through 9999.
//!
//! A calendar date is mapped to its day number (days since 0000-01-01) and
//! back. The day number is the backbone of every instant computation in this
//! crate: offsets and timezone projections move instants by whole seconds,
//! and the civil fields are recovered from the shifted second count.

use vstd::prelude::*;
use vstd::arithmetic::div_mod::{
    lemma_div_multiples_vanish_fancy, lemma_fundamental_div_mod, lemma_fundamental_div_mod_converse,
};

verus! {

/// Number of days from 0000-01-01 up to (excluding) 10000-01-01.
pub const DAYS_IN_RANGE: i64 = 3652425;

/// Whether a year has a February 29 in the proleptic Gregorian calendar.
pub open spec fn is_leap_year(y: int) -> bool {
    (y % 4 == 0 && y % 100 != 0) || y % 400 == 0
}

/// Number of days of month `m` (1 through 12) of year `y`.
pub open spec fn days_in_month(y: int, m: int) -> int {
    if m == 2 {
        if is_leap_year(y) {
            29
        } else {
            28
        }
    } else if m == 4 || m == 6 || m == 9 || m == 11 {
        30
    } else {
        31
    }
}

/// Number of days of year `y` that precede the first day of month `m`.
/// For `m == 13` this is the length of the whole year.
pub open spec fn days_before_month(y: int, m: int) -> int {
    let leap: int = if is_leap_year(y) { 1 } else { 0 };
    if m <= 1 {
        0
    } else if m == 2 {
        31
    } else if m == 3 {
        59 + leap
    } else if m == 4 {
        90 + leap
    } else if m == 5 {
        120 + leap
    } else if m == 6 {
        151 + leap
    } else if m == 7 {
        181 + leap
    } else if m == 8 {
        212 + leap
    } else if m == 9 {
        243 + leap
    } else if m == 10 {
        273 + leap
    } else if m == 11 {
        304 + leap
    } else if m == 12 {
        334 + leap
    } else {
        365 + leap
    }
}

/// Number of leap years among 0, 1, ..., y - 1.
pub open spec fn leap_days_before(y: int) -> int {
    (y + 3) / 4 - (y + 99) / 100 + (y + 399) / 400
}

/// Number of days from 0000-01-01 up to (excluding) the first day of year `y`.
pub open spec fn days_before_year(y: int) -> int {
    365 * y + leap_days_before(y)
}

/// Day number of a calendar date: days since 0000-01-01.
pub open spec fn day_number(y: int, m: int, d: int) -> int {
    days_before_year(y) + days_before_month(y, m) + d - 1
}

/// A calendar date, limited to the years this library can render and parse
/// with four-digit years.
#[derive(Clone, Copy, Debug, PartialEq, Eq, Structural)]
pub struct Date {
    pub year: u16,
    pub month: u8,
    pub day: u8,
}

impl Date {
    /// The date denotes a real day of the supported range.
    pub open spec fn wf(self) -> bool {
        self.year <= 9999 && 1 <= self.month <= 12 && 1 <= self.day
            <= days_in_month(self.year as int, self.month as int)
    }

    /// Day number of this date.
    pub open spec fn spec_day_number(self) -> int {
        day_number(self.year as int, self.month as int, self.day as int)
    }
}

/// A time of day with second precision.
#[derive(Clone, Copy, Debug, PartialEq, Eq, Structural)]
pub struct Time {
    pub hour: u8,
    pub minute: u8,
    pub second: u8,
}

impl Time {
    pub open spec fn wf(self) -> bool {
        self.hour <= 23 && self.minute <= 59 && self.second <= 59
    }

    /// Seconds since midnight.
    pub open spec fn spec_seconds_of_day(self) -> int {
        self.hour * 3600 + self.minute * 60 + self.second
    }
}

/// How the count of leap years grows from one year to the next.
proof fn lemma_leap_days_before_succ(y: int)
    requires
        0 <= y,
    ensures
        leap_days_before(y + 1) == leap_days_before(y) + if is_leap_year(y) {
            1int
        } else {
            0int
        },
{
    lemma_div_step_at_multiple(y, 4);
    lemma_div_step_at_multiple(y, 100);
    lemma_div_step_at_multiple(y, 400);
    if y % 100 == 0 {
        lemma_multiple_mod_divisor_factor(y, 4, 25);
    }
    if y % 400 == 0 {
        lemma_multiple_mod_divisor_factor(y, 100, 4);
        lemma_multiple_mod_divisor_factor(y, 4, 100);
    }
}

/// `(y + d) / d` exceeds `(y + d - 1) / d` exactly when `d` divides `y`.
proof fn lemma_div_step_at_multiple(y: int, d: int)
    requires
        0 <= y,
        1 < d,
    ensures
        (y + d) / d == (y + d - 1) / d + if y % d == 0 {
            1int
        } else {
            0int
        },
{
    let q = y / d;
    let r = y % d;
    lemma_fundamental_div_mod(y, d);
    assert(d * (q + 1) == d * q + d) by (nonlinear_arith);
    if r == 0 {
        lemma_div_multiples_vanish_fancy(q + 1, 0, d);
        assert(d * (q + 1) + 0 == y + d);
        lemma_div_multiples_vanish_fancy(q, d - 1, d);
        assert(d * q + (d - 1) == y + d - 1);
    } else {
        lemma_div_multiples_vanish_fancy(q + 1, r, d);
        assert(d * (q + 1) + r == y + d);
        lemma_div_multiples_vanish_fancy(q + 1, r - 1, d);
        assert(d * (q + 1) + (r - 1) == y + d - 1);
    }
}

/// If `a * b` divides `y` then so does `a`.
proof fn lemma_multiple_mod_divisor_factor(y: int, a: int, b: int)
    requires
        0 <= y,
        0 < a,
        0 < b,
        y % (a * b) == 0,
    ensures
        y % a == 0,
{
    let q = y / (a * b);
    assert(0 < a * b) by (nonlinear_arith)
        requires
            0 < a,
            0 < b,
    ;
    lemma_fundamental_div_mod(y, a * b);
    assert(y == (a * b) * q);
    assert((a * b) * q == a * (b * q)) by (nonlinear_arith);
    assert(0 <= b * q) by (nonlinear_arith)
        requires
            0 <= a,
            0 < a,
            0 <= y,
            y == a * (b * q),
    ;
    lemma_fundamental_div_mod_converse(y, a, b * q, 0);
}

/// The days that precede a year, counted from the year before.
pub proof fn lemma_days_before_year_succ(y: int)
    requires
        0 <= y,
    ensures
        days_before_year(y + 1) == days_before_year(y) + days_before_month(y, 13),
{
    lemma_leap_days_before_succ(y);
}

/// Day counts of later years are larger; a year spans at least 365 days.
pub proof fn lemma_days_before_year_ordered(a: int, b: int)
    requires
        0 <= a <= b,
    ensures
        days_before_year(b) - days_before_year(a) >= 365 * (b - a),
    decreases b - a,
{
    if a < b {
        lemma_days_before_year_ordered(a, b - 1);
        lemma_days_before_year_succ(b - 1);
    }
}

/// Days-before-month table steps by the month length.
pub proof fn lemma_days_before_month_succ(y: int, m: int)
    requires
        1 <= m <= 12,
    ensures
        days_before_month(y, m + 1) == days_before_month(y, m) + days_in_month(y, m),
{
}

/// The days-before-month table never decreases.
pub proof fn lemma_days_before_month_mono(y: int, m1: int, m2: int)
    requires
        1 <= m1 <= m2 <= 13,
    ensures
        days_before_month(y, m1) <= days_before_month(y, m2),
    decreases m2 - m1,
{
    if m1 < m2 {
        lemma_days_before_month_succ(y, m2 - 1);
        lemma_days_before_month_mono(y, m1, m2 - 1);
    }
}

/// A date is determined by its day number: two well-formed dates with the
/// same day number are the same day.
pub proof fn lemma_date_injective(a: Date, b: Date)
    requires
        a.wf(),
        b.wf(),
        a.spec_day_number() == b.spec_day_number(),
    ensures
        a == b,
{
    lemma_day_number_month_window(a);
    lemma_day_number_month_window(b);
    lemma_days_before_month_mono(a.year as int, a.month as int + 1, 13);
    lemma_days_before_month_mono(b.year as int, b.month as int + 1, 13);
    lemma_days_before_month_mono(a.year as int, 1, a.month as int);
    lemma_days_before_month_mono(b.year as int, 1, b.month as int);
    if a.year < b.year {
        lemma_days_before_year_ordered(a.year as int + 1, b.year as int);
    } else if b.year < a.year {
        lemma_days_before_year_ordered(b.year as int + 1, a.year as int);
    } else if a.month < b.month {
        lemma_days_before_month_mono(a.year as int, a.month as int + 1, b.month as int);
    } else if b.month < a.month {
        lemma_days_before_month_mono(a.year as int, b.month as int + 1, a.month as int);
    }
}

/// A well-formed date's day number falls inside its month's window of the
/// year, which itself ends before the next year begins.
proof fn lemma_day_number_month_window(d: Date)
    requires
        d.wf(),
    ensures
        days_before_year(d.year as int) + days_before_month(d.year as int, d.month as int)
            <= d.spec_day_number(),
        d.spec_day_number() < days_before_year(d.year as int) + days_before_month(
            d.year as int,
            d.month as int + 1,
        ),
        days_before_year(d.year as int) + days_before_month(d.year as int, 13)
            == days_before_year(d.year as int + 1),
{
    lemma_days_before_month_succ(d.year as int, d.month as int);
    lemma_days_before_year_succ(d.year as int);
}

/// A well-formed date's day number lies in the supported range.
pub proof fn lemma_day_number_in_range(d: Date)
    requires
        d.wf(),
    ensures
        0 <= d.spec_day_number() < DAYS_IN_RANGE,
{
    lemma_days_before_year_ordered(0, d.year as int);
    lemma_days_before_year_ordered(d.year as int + 1, 10000);
    lemma_days_before_year_succ(d.year as int);
}

/// Computes `days_before_year` for a year of the supported range.
fn days_before_year_exec(y: u16) -> (n: i64)
    requires
        y <= 10000,
    ensures
        n == days_before_year(y as int),
{
    let yy = y as i64;
    365 * yy + (yy + 3) / 4 - (yy + 99) / 100 + (yy + 399) / 400
}

/// Computes `days_before_month` for a month index between 1 and 13.
fn days_before_month_exec(y: u16, m: u8) -> (n: i64)
    requires
        1 <= m <= 13,
    ensures
        n == days_before_month(y as int, m as int),
{
    let leap: i64 = if (y % 4 == 0 && y % 100 != 0) || y % 400 == 0 {
        1
    } else {
        0
    };
    match m {
        1 => 0,
        2 => 31,
        3 => 59 + leap,
        4 => 90 + leap,
        5 => 120 + leap,
        6 => 151 + leap,
        7 => 181 + leap,
        8 => 212 + leap,
        9 => 243 + leap,
        10 => 273 + leap,
        11 => 304 + leap,
        12 => 334 + leap,
        _ => 365 + leap,
    }
}

/// Length of a month of the supported range.
pub fn days_in_month_exec(y: u16, m: u8) -> (n: u8)
    requires
        1 <= m <= 12,
    ensures
        n == days_in_month(y as int, m as int),
{
    let leap = (y % 4 == 0 && y % 100 != 0) || y % 400 == 0;
    match m {
        2 => if leap {
            29
        } else {
            28
        },
        4 | 6 | 9 | 11 => 30,
        _ => 31,
    }
}

/// Day number of a well-formed date.
pub fn date_day_number(d: &Date) -> (n: i64)
    requires
        d.wf(),
    ensures
        n == d.spec_day_number(),
        0 <= n < DAYS_IN_RANGE,
{
    let before_year = days_before_year_exec(d.year);
    let before_month = days_before_month_exec(d.year, d.month);
    let n = before_year + before_month + (d.day as i64) - 1;
    proof {
        lemma_days_before_year_ordered(0, d.year as int);
        lemma_days_before_year_ordered(d.year as int + 1, 10000);
        lemma_days_before_year_succ(d.year as int);
    }
    n
}

/// Recovers the calendar date of a day number: the inverse of
/// [`date_day_number`] on the supported range.
pub fn civil_from_day_number(n: i64) -> (d: Date)
    requires
        0 <= n < DAYS_IN_RANGE,
    ensures
        d.wf(),
        d.spec_day_number() == n,
{
    let mut y: u16 = 0;
    proof {
        lemma_days_before_year_ordered(0, 10000);
    }
    while y < 9999 && days_before_year_exec(y + 1) <= n
        invariant
            y <= 9999,
            0 <= n < DAYS_IN_RANGE,
            days_before_year(y as int) <= n,
        decreases 9999 - y,
    {
        y = y + 1;
    }
    proof {
        if y == 9999 {
            lemma_days_before_year_succ(9999);
        }
        // After the loop the day falls inside year y.
        assert(n < days_before_year(y as int + 1));
        lemma_days_before_year_succ(y as int);
    }
    let in_year = n - days_before_year_exec(y);
    let mut m: u8 = 1;
    while m < 12 && days_before_month_exec(y, m + 1) <= in_year
        invariant
            1 <= m <= 12,
            days_before_month(y as int, m as int) <= in_year,
            in_year < days_before_month(y as int, 13),
        decreases 12 - m,
    {
        m = m + 1;
    }
    proof {
        if m < 12 {
            assert(in_year < days_before_month(y as int, m as int + 1));
        }
        lemma_days_before_month_succ(y as int, m as int);
        assert(in_year < days_before_month(y as int, m as int) + days_in_month(
            y as int,
            m as int,
        ));
    }
    let day = (in_year - days_before_month_exec(y, m)) + 1;
    Date { year: y, month: m, day: day as u8 }
}

} // verus!
