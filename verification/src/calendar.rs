//! Calendar arithmetic on proleptic Gregorian civil dates.
//!
//! Dates are triples `(year, month, day)`. Days are counted from 1970-01-01,
//! which is day 0.

use vstd::prelude::*;

verus! {

/// Seconds in one day.
pub const SECONDS_PER_DAY: u64 = 86_400;

/// The last day count that `current_date` converts: up to it the year is
/// sure to fit in an `i32`, at 365 days or more to a year.
pub const MAX_EPOCH_DAYS: u64 = 783_830_812_105;

/// The Gregorian leap-year rule.
pub open spec fn spec_is_leap_year(year: int) -> bool {
    (year % 4 == 0 && year % 100 != 0) || year % 400 == 0
}

/// Number of days in `year`.
pub open spec fn days_in_year(year: int) -> int {
    if spec_is_leap_year(year) {
        366
    } else {
        365
    }
}

/// Number of days in month `month` of `year`; 0 when `month` is not in `1..=12`.
pub open spec fn days_in_month(year: int, month: int) -> int {
    if month == 1 || month == 3 || month == 5 || month == 7 || month == 8 || month == 10 || month
        == 12 {
        31
    } else if month == 4 || month == 6 || month == 9 || month == 11 {
        30
    } else if month == 2 {
        if spec_is_leap_year(year) {
            29
        } else {
            28
        }
    } else {
        0
    }
}

/// `(year, month, day)` names a day of the calendar.
pub open spec fn is_civil_date(year: int, month: int, day: int) -> bool {
    1 <= month <= 12 && 1 <= day <= days_in_month(year, month)
}

/// A calendar day whose year lies in `2000..=9999`.
pub open spec fn spec_is_valid_date(year: int, month: int, day: int) -> bool {
    2000 <= year <= 9999 && is_civil_date(year, month, day)
}

/// Days from 1970-01-01 to the first day of `year` (0 for years up to 1970).
pub open spec fn days_before_year(year: int) -> int
    decreases year - 1970,
{
    if year <= 1970 {
        0
    } else {
        days_before_year(year - 1) + days_in_year(year - 1)
    }
}

/// Days from the first day of `year` to the first day of its month `month`.
pub open spec fn days_before_month(year: int, month: int) -> int {
    let leap: int = if month > 2 && spec_is_leap_year(year) {
        1
    } else {
        0
    };
    if month <= 1 {
        0
    } else if month == 2 {
        31
    } else if month == 3 {
        59 + leap
    } else if month == 4 {
        90 + leap
    } else if month == 5 {
        120 + leap
    } else if month == 6 {
        151 + leap
    } else if month == 7 {
        181 + leap
    } else if month == 8 {
        212 + leap
    } else if month == 9 {
        243 + leap
    } else if month == 10 {
        273 + leap
    } else if month == 11 {
        304 + leap
    } else if month == 12 {
        334 + leap
    } else {
        365 + leap
    }
}

/// Days from 1970-01-01 to the given date.
pub open spec fn days_from_civil(year: int, month: int, day: int) -> int {
    days_before_year(year) + days_before_month(year, month) + day - 1
}

/// The integer by which two dates are compared: a larger key is a later date.
pub open spec fn date_key(year: int, month: int, day: int) -> int {
    year * 10000 + month * 100 + day
}

/// The date `cycle` months after `(year, month, day)`, the day carried over
/// unchanged.
pub open spec fn spec_add_month(year: int, month: int, day: int, cycle: int) -> (int, int, int) {
    let raw = month + cycle - 1;
    (year + raw / 12, raw % 12 + 1, day)
}

/// Whether `year` is a leap year.
pub fn is_leap_year(year: i32) -> (leap: bool)
    ensures
        leap == spec_is_leap_year(year as int),
{
    (year % 4 == 0 && year % 100 != 0) || (year % 400 == 0)
}

/// Length in days of month `month` of `year`, 0 for a month outside `1..=12`.
pub fn month_length(year: i32, month: u32) -> (len: u32)
    ensures
        len == days_in_month(year as int, month as int),
{
    if month == 1 || month == 3 || month == 5 || month == 7 || month == 8 || month == 10 || month
        == 12 {
        31
    } else if month == 4 || month == 6 || month == 9 || month == 11 {
        30
    } else if month == 2 {
        if is_leap_year(year) {
            29
        } else {
            28
        }
    } else {
        0
    }
}

/// Whether the three numbers name a calendar day with a year in `2000..=9999`.
pub fn is_valid_date(year: i32, month: u32, day: u32) -> (valid: bool)
    ensures
        valid == spec_is_valid_date(year as int, month as int, day as int),
{
    if year < 2000 || year > 9999 || month < 1 || month > 12 || day < 1 {
        return false;
    }
    day <= month_length(year, month)
}

/// Adds `cycle` months to a date. The day of the month is carried over as it
/// is, so the result need not be a day of the calendar.
pub fn add_month(year: i32, month: u32, day: u32, cycle: u8) -> (next: (i32, u32, u32))
    requires
        1 <= month + cycle <= i32::MAX,
        year + (month + cycle - 1) / 12 <= i32::MAX,
    ensures
        (next.0 as int, next.1 as int, next.2 as int) == spec_add_month(
            year as int,
            month as int,
            day as int,
            cycle as int,
        ),
{
    add_months(year, month, day, cycle as u32)
}

/// Adds `months` months to a date, the day of the month carried over as it
/// is.
pub fn add_months(year: i32, month: u32, day: u32, months: u32) -> (next: (i32, u32, u32))
    requires
        1 <= month + months <= i32::MAX,
        year + (month + months - 1) / 12 <= i32::MAX,
    ensures
        (next.0 as int, next.1 as int, next.2 as int) == spec_add_month(
            year as int,
            month as int,
            day as int,
            months as int,
        ),
{
    let raw: u32 = month + months - 1;
    let years: i32 = (raw / 12) as i32;
    (year + years, raw % 12 + 1, day)
}

/// Adding months in two steps is adding their sum.
pub proof fn lemma_add_month_twice(year: int, month: int, day: int, first: int, second: int)
    ensures
        ({
            let mid = spec_add_month(year, month, day, first);
            spec_add_month(mid.0, mid.1, mid.2, second) == spec_add_month(
                year,
                month,
                day,
                first + second,
            )
        }),
{
}

/// The comparison key of a date.
pub fn date_order_key(year: i32, month: u32, day: u32) -> (key: i64)
    ensures
        key == date_key(year as int, month as int, day as int),
{
    (year as i64) * 10000 + (month as i64) * 100 + (day as i64)
}

/// Number of days in `year`.
pub fn year_length(year: i32) -> (len: u64)
    ensures
        len == days_in_year(year as int),
{
    if is_leap_year(year) {
        366
    } else {
        365
    }
}

/// The civil date on which the instant `epoch_seconds` seconds after
/// 1970-01-01 00:00:00 falls. Walks the calendar year by year and month by
/// month; only the leap-year rule and the month lengths are used.
pub fn current_date(epoch_seconds: u64) -> (date: (i32, u32, u32))
    requires
        epoch_seconds / SECONDS_PER_DAY <= MAX_EPOCH_DAYS,
    ensures
        1970 <= date.0,
        is_civil_date(date.0 as int, date.1 as int, date.2 as int),
        days_from_civil(date.0 as int, date.1 as int, date.2 as int) == epoch_seconds
            / SECONDS_PER_DAY,
{
    let total: u64 = epoch_seconds / SECONDS_PER_DAY;
    let mut rest: u64 = total;
    let mut year: i32 = 1970;
    while rest >= year_length(year)
        invariant
            1970 <= year,
            rest <= total <= MAX_EPOCH_DAYS,
            days_before_year(year as int) + rest == total,
            365 * (year - 1970) <= total - rest,
        decreases rest,
    {
        proof {
            lemma_days_before_next_year(year as int);
        }
        rest = rest - year_length(year);
        year = year + 1;
    }
    let mut month: u32 = 1;
    while rest >= month_length(year, month) as u64
        invariant
            1 <= month <= 12,
            days_before_month(year as int, month as int) + rest < days_in_year(year as int),
            days_before_year(year as int) + days_before_month(year as int, month as int) + rest
                == total,
        decreases 12 - month,
    {
        proof {
            lemma_days_before_next_month(year as int, month as int);
        }
        rest = rest - month_length(year, month) as u64;
        month = month + 1;
    }
    (year, month, (rest + 1) as u32)
}

/// Each year adds its own length to the day count.
pub proof fn lemma_days_before_next_year(year: int)
    requires
        1970 <= year,
    ensures
        days_before_year(year + 1) == days_before_year(year) + days_in_year(year),
{
}

/// Each month adds its own length to the day count within a year.
pub proof fn lemma_days_before_next_month(year: int, month: int)
    requires
        1 <= month <= 12,
    ensures
        days_before_month(year, month + 1) == days_before_month(year, month) + days_in_month(
            year,
            month,
        ),
        days_before_month(year, 13) == days_in_year(year),
{
}

/// A later year starts at least 365 days per year later.
pub proof fn lemma_days_before_year_grows(from: int, to: int)
    requires
        1970 <= from <= to,
    ensures
        days_before_year(to) >= days_before_year(from) + 365 * (to - from),
        days_before_year(to) <= days_before_year(from) + 366 * (to - from),
    decreases to - from,
{
    if from < to {
        lemma_days_before_year_grows(from, to - 1);
    }
}

/// The day count orders dates as the calendar does: an earlier date has a
/// smaller count.
pub proof fn lemma_days_from_civil_increases(y1: int, m1: int, d1: int, y2: int, m2: int, d2: int)
    requires
        1970 <= y1,
        is_civil_date(y1, m1, d1),
        is_civil_date(y2, m2, d2),
        y1 < y2 || (y1 == y2 && (m1 < m2 || (m1 == m2 && d1 < d2))),
    ensures
        days_from_civil(y1, m1, d1) < days_from_civil(y2, m2, d2),
{
    lemma_days_before_next_month(y1, m1);
    if y1 < y2 {
        lemma_days_before_next_year(y1);
        lemma_days_before_year_grows(y1 + 1, y2);
    }
}

/// `current_date` inverts the day count: an instant within the day
/// `(year, month, day)` can only be dated to that day.
pub proof fn lemma_current_date_inverts(
    year: int,
    month: int,
    day: int,
    second_of_day: int,
    date: (i32, u32, u32),
)
    requires
        1970 <= year,
        is_civil_date(year, month, day),
        0 <= second_of_day < SECONDS_PER_DAY,
        1970 <= date.0,
        is_civil_date(date.0 as int, date.1 as int, date.2 as int),
        days_from_civil(date.0 as int, date.1 as int, date.2 as int) == (days_from_civil(
            year,
            month,
            day,
        ) * SECONDS_PER_DAY + second_of_day) / (SECONDS_PER_DAY as int),
    ensures
        date.0 == year,
        date.1 == month,
        date.2 == day,
{
    lemma_days_from_civil_injective(
        year,
        month,
        day,
        date.0 as int,
        date.1 as int,
        date.2 as int,
    );
}

/// No two calendar days from 1970 on share a day count.
pub proof fn lemma_days_from_civil_injective(y1: int, m1: int, d1: int, y2: int, m2: int, d2: int)
    requires
        1970 <= y1,
        1970 <= y2,
        is_civil_date(y1, m1, d1),
        is_civil_date(y2, m2, d2),
        days_from_civil(y1, m1, d1) == days_from_civil(y2, m2, d2),
    ensures
        y1 == y2,
        m1 == m2,
        d1 == d2,
{
    if y1 < y2 || (y1 == y2 && (m1 < m2 || (m1 == m2 && d1 < d2))) {
        lemma_days_from_civil_increases(y1, m1, d1, y2, m2, d2);
    } else if !(y1 == y2 && m1 == m2 && d1 == d2) {
        lemma_days_from_civil_increases(y2, m2, d2, y1, m1, d1);
    }
}

} // verus!
