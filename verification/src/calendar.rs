//! The proleptic Gregorian calendar: leap years, month lengths, day numbers
//! and weekdays.

use vstd::prelude::*;

use crate::kinds::Weekday;

verus! {

/// The first and last year that a date of this library may lie in.
pub const MIN_YEAR: i32 = 0;

pub const MAX_YEAR: i32 = 9999;

/// The day number of 1970-01-01.
pub const EPOCH_DAY: i64 = 719163;

/// A calendar date. Its fields are plain; `valid_date` says which triples
/// are real days.
#[derive(Debug, Clone, Copy, PartialEq, Eq, Hash, Structural)]
pub struct Date {
    pub year: i32,
    pub month: u8,
    pub day: u8,
}

pub open spec fn is_leap(y: int) -> bool {
    y % 4 == 0 && (y % 100 != 0 || y % 400 == 0)
}

pub open spec fn year_len(y: int) -> int {
    if is_leap(y) {
        366
    } else {
        365
    }
}

/// The number of days of month `m` (1 to 12) of year `y`; 0 for any other `m`.
pub open spec fn month_len(y: int, m: int) -> int {
    if m == 2 {
        if is_leap(y) {
            29
        } else {
            28
        }
    } else if m == 4 || m == 6 || m == 9 || m == 11 {
        30
    } else if 1 <= m <= 12 {
        31
    } else {
        0
    }
}

/// The number of days of year `y` that lie before the first of month `m`.
pub open spec fn days_before_month(y: int, m: int) -> int
    decreases m,
{
    if m <= 1 {
        0
    } else {
        days_before_month(y, m - 1) + month_len(y, m - 1)
    }
}

/// The number of days between 0001-01-01 and the first day of year `y`
/// (negative before year 1).
#[verifier::opaque]
pub open spec fn days_before_year(y: int) -> int {
    365 * (y - 1) + (y - 1) / 4 - (y - 1) / 100 + (y - 1) / 400
}

/// Whether month and day name a real day of year `y`.
pub open spec fn valid_civil(y: int, m: int, d: int) -> bool {
    1 <= m <= 12 && 1 <= d <= month_len(y, m)
}

/// The number of a day, counting 0001-01-01 as day 1.
pub open spec fn day_number(y: int, m: int, d: int) -> int {
    days_before_year(y) + days_before_month(y, m) + d
}

impl Date {
    /// A real day within the years this library handles.
    pub open spec fn valid(self) -> bool {
        MIN_YEAR <= self.year <= MAX_YEAR && valid_civil(
            self.year as int,
            self.month as int,
            self.day as int,
        )
    }

    pub open spec fn number(self) -> int {
        day_number(self.year as int, self.month as int, self.day as int)
    }
}

/// The first and last day number of the years this library handles.
pub open spec fn min_day() -> int {
    -365
}

pub open spec fn max_day() -> int {
    3652059
}

/// The date whose day number is `n`.
pub open spec fn date_of(n: int) -> Date {
    choose|c: Date| valid_civil(c.year as int, c.month as int, c.day as int) && c.number() == n
}

/// The weekday of day number `n`: day 1 is a Monday.
pub open spec fn weekday_index(n: int) -> int {
    (n - 1) % 7
}

pub open spec fn weekday_at(i: int) -> Weekday {
    if i == 0 {
        Weekday::Mon
    } else if i == 1 {
        Weekday::Tue
    } else if i == 2 {
        Weekday::Wed
    } else if i == 3 {
        Weekday::Thu
    } else if i == 4 {
        Weekday::Fri
    } else if i == 5 {
        Weekday::Sat
    } else {
        Weekday::Sun
    }
}

pub proof fn lemma_days_before_month_values(y: int)
    ensures
        days_before_month(y, 1) == 0,
        days_before_month(y, 2) == 31,
        days_before_month(y, 3) == 59 + year_len(y) - 365,
        days_before_month(y, 4) == 90 + year_len(y) - 365,
        days_before_month(y, 5) == 120 + year_len(y) - 365,
        days_before_month(y, 6) == 151 + year_len(y) - 365,
        days_before_month(y, 7) == 181 + year_len(y) - 365,
        days_before_month(y, 8) == 212 + year_len(y) - 365,
        days_before_month(y, 9) == 243 + year_len(y) - 365,
        days_before_month(y, 10) == 273 + year_len(y) - 365,
        days_before_month(y, 11) == 304 + year_len(y) - 365,
        days_before_month(y, 12) == 334 + year_len(y) - 365,
        days_before_month(y, 13) == year_len(y),
{
    reveal_with_fuel(days_before_month, 14);
}

/// A year begins where the year before it ends.
pub proof fn lemma_next_year(y: int)
    ensures
        days_before_year(y + 1) == days_before_year(y) + year_len(y),
{
    reveal(days_before_year);
}

/// Where the handled years begin and end.
pub proof fn lemma_year_bounds()
    ensures
        days_before_year(0) == -366,
        days_before_year(1) == 0,
        days_before_year(10000) == 3652059,
        days_before_year(1970) + 1 == EPOCH_DAY,
{
    reveal(days_before_year);
}

pub proof fn lemma_years_ordered(a: int, b: int)
    requires
        a <= b,
    ensures
        days_before_year(a) <= days_before_year(b),
        a < b ==> days_before_year(a) + year_len(a) <= days_before_year(b),
    decreases b - a,
{
    if a < b {
        lemma_next_year(b - 1);
        lemma_years_ordered(a, b - 1);
        lemma_next_year(a);
    }
}

/// Every real day lies within its own year.
pub proof fn lemma_day_in_year(y: int, m: int, d: int)
    requires
        valid_civil(y, m, d),
    ensures
        days_before_year(y) < day_number(y, m, d) <= days_before_year(y) + year_len(y),
        0 < days_before_month(y, m) + d <= year_len(y),
{
    lemma_days_before_month_values(y);
}

/// Two real days with the same number are the same day.
pub proof fn lemma_day_number_unique(a: Date, b: Date)
    requires
        valid_civil(a.year as int, a.month as int, a.day as int),
        valid_civil(b.year as int, b.month as int, b.day as int),
        a.number() == b.number(),
    ensures
        a == b,
{
    lemma_day_in_year(a.year as int, a.month as int, a.day as int);
    lemma_day_in_year(b.year as int, b.month as int, b.day as int);
    if a.year < b.year {
        lemma_years_ordered(a.year as int, b.year as int);
    } else if b.year < a.year {
        lemma_years_ordered(b.year as int, a.year as int);
    } else {
        lemma_days_before_month_values(a.year as int);
    }
}

/// `date_of` undoes `Date::number` on real days.
pub proof fn lemma_date_of_number(c: Date)
    requires
        valid_civil(c.year as int, c.month as int, c.day as int),
    ensures
        date_of(c.number()) == c,
{
    let n = c.number();
    let w = date_of(n);
    lemma_day_number_unique(w, c);
}

/// The day numbers of the handled years are `min_day()..=max_day()`.
pub proof fn lemma_day_range(c: Date)
    requires
        c.valid(),
    ensures
        min_day() <= c.number() <= max_day(),
{
    lemma_day_in_year(c.year as int, c.month as int, c.day as int);
    lemma_years_ordered(0, c.year as int);
    lemma_years_ordered(c.year as int, 9999);
    lemma_next_year(9999);
    lemma_year_bounds();
}

pub fn is_leap_year(y: i32) -> (r: bool)
    ensures
        r == is_leap(y as int),
{
    y % 4 == 0 && (y % 100 != 0 || y % 400 == 0)
}

pub fn year_length(y: i32) -> (r: u16)
    ensures
        r == year_len(y as int),
{
    if is_leap_year(y) {
        366
    } else {
        365
    }
}

pub fn month_length(y: i32, m: u8) -> (r: u8)
    ensures
        r == month_len(y as int, m as int),
{
    if m == 2 {
        if is_leap_year(y) {
            29
        } else {
            28
        }
    } else if m == 4 || m == 6 || m == 9 || m == 11 {
        30
    } else if 1 <= m && m <= 12 {
        31
    } else {
        0
    }
}

pub fn days_before_month_of(y: i32, m: u8) -> (r: u16)
    requires
        1 <= m <= 13,
    ensures
        r == days_before_month(y as int, m as int),
{
    proof {
        lemma_days_before_month_values(y as int);
    }
    let leap: u16 = if is_leap_year(y) {
        1
    } else {
        0
    };
    match m {
        1 => 0,
        2 => 31,
        3 => 59 + leap,
        4 => 90 + leap,
        5 => 120 + leap,
        6 => 151 + leap,
        7 => 181 + leap,
        8 => 212 + leap,
        9 => 243 + leap,
        10 => 273 + leap,
        11 => 304 + leap,
        12 => 334 + leap,
        _ => 365 + leap,
    }
}

pub fn days_before_year_of(y: i32) -> (r: i64)
    requires
        -100000 <= y <= 100000,
    ensures
        r == days_before_year(y as int),
        -40_000_000 <= r <= 40_000_000,
{
    reveal(days_before_year);
    let a: i64 = (y as i64) - 1 + 400000;
    365 * a + a / 4 - a / 100 + a / 400 - 146097000
}

/// Whether the three numbers name a real day of the handled years.
pub fn is_valid_date(y: i32, m: u8, d: u8) -> (r: bool)
    ensures
        r == (Date { year: y, month: m, day: d }).valid(),
{
    0 <= y && y <= 9999 && 1 <= m && m <= 12 && 1 <= d && d <= month_length(y, m)
}

impl Date {
    /// The number of this day, counting 0001-01-01 as day 1.
    pub fn day_number(&self) -> (r: i64)
        requires
            self.valid(),
        ensures
            r == self.number(),
            min_day() <= r <= max_day(),
    {
        proof {
            lemma_day_range(*self);
        }
        days_before_year_of(self.year) + (days_before_month_of(self.year, self.month) as i64) + (
        self.day as i64)
    }
}

/// The weekday of day number `n`.
pub fn weekday_of_day(n: i64) -> (r: Weekday)
    requires
        -50_000_000 <= n <= 50_000_000,
    ensures
        r == weekday_at(weekday_index(n as int)),
{
    let i = (n - 1 + 70_000_000) % 7;
    proof {
        vstd::arithmetic::div_mod::lemma_mod_multiples_vanish(10_000_000, n - 1, 7);
    }
    if i == 0 {
        Weekday::Mon
    } else if i == 1 {
        Weekday::Tue
    } else if i == 2 {
        Weekday::Wed
    } else if i == 3 {
        Weekday::Thu
    } else if i == 4 {
        Weekday::Fri
    } else if i == 5 {
        Weekday::Sat
    } else {
        Weekday::Sun
    }
}

/// The date of day number `days`, from chrono's
/// `NaiveDate::from_num_days_from_ce_opt`, which counts 0001-01-01 as day 1
/// in the proleptic Gregorian calendar: the date returned is a real day and
/// has that number, and every day number of the years 0 to 9999 has one.
#[verifier::external_body]
fn civil_from_days(days: i32) -> (r: Option<Date>)
    ensures
        match r {
            Some(c) => valid_civil(c.year as int, c.month as int, c.day as int) && c.number()
                == days,
            None => days < min_day() || days > max_day(),
        },
{
    chrono::NaiveDate::from_num_days_from_ce_opt(days).map(
        |d| Date {
            year: chrono::Datelike::year(&d),
            month: chrono::Datelike::month(&d) as u8,
            day: chrono::Datelike::day(&d) as u8,
        },
    )
}

/// The date of day number `n`, for a day of the handled years.
pub fn date_of_day(n: i64) -> (r: Date)
    requires
        min_day() <= n <= max_day(),
    ensures
        r == date_of(n as int),
        r.valid(),
        r.number() == n,
{
    match civil_from_days(n as i32) {
        Some(c) => {
            proof {
                lemma_date_of_number(c);
                lemma_day_in_year(c.year as int, c.month as int, c.day as int);
                lemma_year_bounds();
                if c.year < 0 {
                    lemma_years_ordered(c.year as int + 1, 0);
                    lemma_next_year(c.year as int);
                }
                if c.year > 9999 {
                    lemma_years_ordered(10000, c.year as int);
                }
            }
            c
        },
        None => Date { year: 0, month: 1, day: 1 },
    }
}

} // verus!
