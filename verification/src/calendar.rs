//! Proleptic Gregorian calendar arithmetic over plain day numbers.
//!
//! A timestamp is a count of milliseconds since 1970-01-01 00:00:00 UTC;
//! a day number counts whole days since that date.  Dates are supported
//! from 1970 up to (not including) the year 10000; the period functions
//! report an error outside that range.

use vstd::prelude::*;

verus! {

/// First year of the supported range.
pub const MIN_YEAR: u64 = 1970;

/// First year past the supported range.
pub const MAX_YEAR: u64 = 10000;

pub open spec fn is_leap_year(y: int) -> bool {
    (y % 4 == 0 && y % 100 != 0) || y % 400 == 0
}

pub open spec fn days_in_year(y: int) -> int {
    if is_leap_year(y) {
        366
    } else {
        365
    }
}

pub open spec fn days_in_month(y: int, m: int) -> int
    recommends
        1 <= m <= 12,
{
    if m == 1 {
        31
    } else if m == 2 {
        if is_leap_year(y) {
            29
        } else {
            28
        }
    } else if m == 3 {
        31
    } else if m == 4 {
        30
    } else if m == 5 {
        31
    } else if m == 6 {
        30
    } else if m == 7 {
        31
    } else if m == 8 {
        31
    } else if m == 9 {
        30
    } else if m == 10 {
        31
    } else if m == 11 {
        30
    } else {
        31
    }
}

/// Days in all years from 1970 up to (not including) `y`.
pub open spec fn days_before_year(y: int) -> int
    decreases y,
{
    if y <= 1970 {
        0
    } else {
        days_before_year(y - 1) + days_in_year(y - 1)
    }
}

/// Days in all months of year `y` before month `m`.
pub open spec fn days_before_month(y: int, m: int) -> int
    decreases m,
{
    if m <= 1 {
        0
    } else {
        days_before_month(y, m - 1) + days_in_month(y, m - 1)
    }
}

pub open spec fn is_valid_date(y: int, m: int, d: int) -> bool {
    &&& 1970 <= y < 10000
    &&& 1 <= m <= 12
    &&& 1 <= d <= days_in_month(y, m)
}

/// Day number of a calendar date.
pub open spec fn day_number(y: int, m: int, d: int) -> int {
    days_before_year(y) + days_before_month(y, m) + (d - 1)
}

/// Day numbers strictly below this belong to years before 10000.
pub open spec fn day_limit() -> int {
    days_before_year(10000)
}

/// The day limit is far below the integer range of the day arithmetic.
pub proof fn lemma_day_limit_small()
    ensures
        day_limit() <= 2938980,
{
    lemma_days_before_year_upper(10000);
}

/// Summing the months of a year gives the year's length.
pub proof fn lemma_months_sum(y: int)
    ensures
        days_before_month(y, 13) == days_in_year(y),
{
    reveal_with_fuel(days_before_month, 14);
}

/// `days_before_year` grows by at least one day per year.
pub proof fn lemma_days_before_year_mono(a: int, b: int)
    requires
        1970 <= a <= b,
    ensures
        days_before_year(a) <= days_before_year(b),
        days_before_year(a) + (b - a) <= days_before_year(b),
    decreases b - a,
{
    if a < b {
        lemma_days_before_year_mono(a, b - 1);
    }
}

/// `days_before_year` grows by at most 366 days per year.
pub proof fn lemma_days_before_year_upper(y: int)
    requires
        y >= 1970,
    ensures
        days_before_year(y) <= 366 * (y - 1970),
    decreases y,
{
    if y > 1970 {
        lemma_days_before_year_upper(y - 1);
    }
}

/// `days_before_month` never decreases with the month.
pub proof fn lemma_days_before_month_mono(y: int, a: int, b: int)
    requires
        1 <= a <= b <= 13,
    ensures
        days_before_month(y, a) <= days_before_month(y, b),
    decreases b - a,
{
    if a < b {
        lemma_days_before_month_mono(y, a, b - 1);
        assert(days_in_month(y, b - 1) >= 28);
    }
}

/// `days_before_month` is bounded by the year's length for `m <= 13`.
pub proof fn lemma_days_before_month_bounds(y: int, m: int)
    requires
        1 <= m <= 13,
    ensures
        0 <= days_before_month(y, m) <= days_in_year(y),
        m <= 12 ==> days_before_month(y, m) + days_in_month(y, m) <= days_in_year(y),
{
    lemma_months_sum(y);
    lemma_days_before_month_mono(y, 1, m);
    lemma_days_before_month_mono(y, m, 13);
    if m <= 12 {
        lemma_days_before_month_mono(y, m + 1, 13);
        assert(days_before_month(y, m + 1) == days_before_month(y, m) + days_in_month(y, m));
    }
}

/// Every valid date's day number lies below the limit.
pub proof fn lemma_day_number_in_range(y: int, m: int, d: int)
    requires
        is_valid_date(y, m, d),
    ensures
        0 <= day_number(y, m, d) < day_limit(),
        day_number(y, m, d) < days_before_year(y + 1),
        days_before_year(y) <= day_number(y, m, d),
{
    lemma_days_before_month_bounds(y, m);
    assert(days_before_year(y + 1) == days_before_year(y) + days_in_year(y));
    lemma_days_before_year_mono(1970, y);
    lemma_days_before_year_mono(y + 1, 10000);
}

pub fn leap_year(y: u64) -> (r: bool)
    ensures
        r == is_leap_year(y as int),
{
    (y % 4 == 0 && y % 100 != 0) || y % 400 == 0
}

pub fn year_days(y: u64) -> (r: u64)
    ensures
        r as int == days_in_year(y as int),
{
    if leap_year(y) {
        366
    } else {
        365
    }
}

pub fn month_days(y: u64, m: u64) -> (r: u64)
    requires
        1 <= m <= 12,
    ensures
        r as int == days_in_month(y as int, m as int),
{
    if m == 1 {
        31
    } else if m == 2 {
        if leap_year(y) {
            29
        } else {
            28
        }
    } else if m == 3 {
        31
    } else if m == 4 {
        30
    } else if m == 5 {
        31
    } else if m == 6 {
        30
    } else if m == 7 {
        31
    } else if m == 8 {
        31
    } else if m == 9 {
        30
    } else if m == 10 {
        31
    } else if m == 11 {
        30
    } else {
        31
    }
}

/// Days in all years from 1970 up to (not including) `y`.
pub fn days_before_year_x(y: u64) -> (r: u64)
    requires
        1970 <= y <= 10000,
    ensures
        r as int == days_before_year(y as int),
{
    let mut acc: u64 = 0;
    let mut i: u64 = 1970;
    while i < y
        invariant
            1970 <= i <= y <= 10000,
            acc as int == days_before_year(i as int),
            acc <= 366 * (i - 1970),
        decreases y - i,
    {
        proof {
            lemma_days_before_year_upper(i as int + 1);
        }
        acc = acc + year_days(i);
        i = i + 1;
    }
    acc
}

/// Days in all months of year `y` before month `m`.
pub fn days_before_month_x(y: u64, m: u64) -> (r: u64)
    requires
        1 <= m <= 13,
    ensures
        r as int == days_before_month(y as int, m as int),
        r <= 366,
{
    let mut acc: u64 = 0;
    let mut i: u64 = 1;
    proof {
        lemma_days_before_month_bounds(y as int, m as int);
    }
    while i < m
        invariant
            1 <= i <= m <= 13,
            acc as int == days_before_month(y as int, i as int),
            acc <= 366,
        decreases m - i,
    {
        proof {
            lemma_days_before_month_bounds(y as int, i as int + 1);
            assert(days_in_year(y as int) <= 366);
        }
        acc = acc + month_days(y, i);
        i = i + 1;
    }
    acc
}

/// Day number of a valid calendar date.
pub fn days_from_civil(y: u64, m: u64, d: u64) -> (r: u64)
    requires
        is_valid_date(y as int, m as int, d as int),
    ensures
        r as int == day_number(y as int, m as int, d as int),
        (r as int) < day_limit(),
{
    proof {
        lemma_day_number_in_range(y as int, m as int, d as int);
        lemma_days_before_year_upper(y as int);
    }
    let by = days_before_year_x(y);
    let bm = days_before_month_x(y, m);
    by + bm + (d - 1)
}

/// Calendar date of a day number below the limit; the inverse of
/// `days_from_civil`.
pub fn civil_from_days(day: u64) -> (r: (u64, u64, u64))
    requires
        (day as int) < day_limit(),
    ensures
        is_valid_date(r.0 as int, r.1 as int, r.2 as int),
        day_number(r.0 as int, r.1 as int, r.2 as int) == day as int,
{
    let mut y: u64 = 1970;
    let mut rem: u64 = day;
    while rem >= year_days(y)
        invariant
            1970 <= y,
            y <= 10000,
            rem as int == day as int - days_before_year(y as int),
            (day as int) < day_limit(),
        decreases rem,
    {
        proof {
            if y as int + 1 > 10000 {
                lemma_days_before_year_mono(10000, y as int + 1);
            }
        }
        rem = rem - year_days(y);
        y = y + 1;
        proof {
            if y == 10000 {
                assert(days_before_year(y as int) <= day as int);
                lemma_days_before_year_mono(10000, y as int);
                assert(false);
            }
        }
    }
    proof {
        assert(y < 10000) by {
            if y == 10000 {
                assert(days_before_year(y as int) <= day as int);
            }
        }
        lemma_months_sum(y as int);
    }
    let mut m: u64 = 1;
    while rem >= month_days(y, m)
        invariant
            1 <= m <= 12,
            1970 <= y < 10000,
            rem as int == day as int - days_before_year(y as int) - days_before_month(
                y as int,
                m as int,
            ),
            day as int - days_before_year(y as int) < days_in_year(y as int),
        decreases 12 - m,
    {
        proof {
            lemma_days_before_month_bounds(y as int, m as int);
            if m == 12 {
                lemma_months_sum(y as int);
                assert(false);
            }
        }
        rem = rem - month_days(y, m);
        m = m + 1;
    }
    (y, m, rem + 1)
}

/// Does the calendar cover this timestamp?
pub fn timestamp_in_range(ts_ms: u64) -> (r: bool)
    ensures
        r == ((ts_ms as int / crate::DAY_MS as int) < day_limit()),
{
    let limit = days_before_year_x(10000);
    ts_ms / crate::DAY_MS < limit
}

/// Weekday of a day number, counted from Monday as zero.  The epoch day,
/// 1970-01-01, was a Thursday.
pub open spec fn weekday_of_day(day: int) -> int {
    (day + 3) % 7
}

pub fn weekday(day: u64) -> (r: u64)
    requires
        day <= u64::MAX - 3,
    ensures
        r as int == weekday_of_day(day as int),
        r < 7,
{
    (day + 3) % 7
}

/// Zero-based day of the year of a valid date (its day count from
/// January the first).
pub fn days_up_to(y: u64, m: u64, d: u64) -> (r: u64)
    requires
        is_valid_date(y as int, m as int, d as int),
    ensures
        r as int == days_before_month(y as int, m as int) + (d - 1),
        r <= 365,
{
    proof {
        lemma_days_before_month_bounds(y as int, m as int);
    }
    days_before_month_x(y, m) + (d - 1)
}

/// Does the week containing `day` run past the final day of `day`'s
/// year?  The week's exclusive end is the following Monday.
pub fn week_ends_next_year(day: u64) -> (r: bool)
    requires
        day as int + 7 < day_limit(),
    ensures
        ({
            let end = day as int + (7 - weekday_of_day(day as int));
            exists|y: int, m: int, d: int, y2: int, m2: int, d2: int|
                {
                    &&& is_valid_date(y, m, d)
                    &&& day_number(y, m, d) == day as int
                    &&& is_valid_date(y2, m2, d2)
                    &&& day_number(y2, m2, d2) == end
                    &&& r == (y != y2)
                }
        }),
{
    proof {
        lemma_day_limit_small();
    }
    let wd = weekday(day);
    let end = day + (7 - wd);
    let (y, m, d) = civil_from_days(day);
    let (y2, m2, d2) = civil_from_days(end);
    proof {
        let gy = y as int;
        let gm = m as int;
        let gd = d as int;
        let gy2 = y2 as int;
        let gm2 = m2 as int;
        let gd2 = d2 as int;
        assert({
            &&& is_valid_date(gy, gm, gd)
            &&& day_number(gy, gm, gd) == day as int
            &&& is_valid_date(gy2, gm2, gd2)
            &&& day_number(gy2, gm2, gd2) == day as int + (7 - weekday_of_day(day as int))
            &&& (y != y2) == (gy != gy2)
        });
    }
    y != y2
}

} // verus!
