//! Calendar-aligned intervals: the whole week (Monday to Monday) and the
//! whole hour containing a timestamp, plus the wakeup arithmetic used for
//! identity rotation.

use vstd::prelude::*;
use vstd::arithmetic::div_mod::lemma_fundamental_div_mod;
use crate::calendar::{
    civil_from_days, day_limit, day_number, days_before_month, days_before_year,
    days_before_year_x, days_up_to, is_valid_date, lemma_day_limit_small, weekday, weekday_of_day,
};
use crate::{DAY_MS, HOUR_MS, WEEK_MS};

verus! {

/// A timestamp that the calendar arithmetic does not cover.
#[derive(Clone, Copy, PartialEq, Eq, Debug)]
pub enum PeriodError {
    OutOfRange,
}

/// Day number of the Monday of the week containing `day`.
pub open spec fn week_start_day(day: int) -> int {
    day - weekday_of_day(day)
}

/// `y` is the civil year of day number `day`.
pub open spec fn year_of_day_is(day: int, y: int) -> bool {
    exists|m: int, d: int| is_valid_date(y, m, d) && day_number(y, m, d) == day
}

/// `(y, wk)` is the ISO year and week of the week starting at day
/// number `monday`: the civil year of that week's Thursday, and the
/// Thursday's one-based position among the year's weeks.
pub open spec fn iso_week_of_monday_is(monday: int, y: int, wk: int) -> bool {
    exists|m: int, d: int|
        is_valid_date(y, m, d) && day_number(y, m, d) == monday + 3 && wk == (days_before_month(
            y,
            m,
        ) + d + 6) / 7
}

/// Week starts fall on Mondays.
pub proof fn lemma_week_start_is_monday(day: int)
    ensures
        weekday_of_day(week_start_day(day)) == 0,
{
    lemma_fundamental_div_mod(day + 3, 7);
    let k = (day + 3) / 7;
    assert(week_start_day(day) + 3 == 7 * k);
    assert((7 * k) % 7 == 0) by (nonlinear_arith);
}

/// Of two Mondays less than a week apart, neither lies after the other.
proof fn lemma_monday_bound(a: int, b: int)
    requires
        weekday_of_day(a) == 0,
        weekday_of_day(b) == 0,
        a <= b + 6,
    ensures
        a <= b,
{
    lemma_fundamental_div_mod(a + 3, 7);
    lemma_fundamental_div_mod(b + 3, 7);
}

/// The whole hour containing a timestamp, with the fields of its start
/// that the record payload mentions.
#[derive(Clone, Copy, Debug)]
pub struct WholeHour {
    /// Start of the hour, inclusive, in milliseconds.
    pub start_ms: u64,
    /// End of the hour, exclusive, in milliseconds.
    pub end_ms: u64,
    /// Weekday of the start, counted from Monday as one.
    pub weekday1: u64,
    /// Hour of day of the start.
    pub hour: u64,
}

impl WholeHour {
    pub open spec fn wf(self) -> bool {
        &&& self.start_ms % HOUR_MS == 0
        &&& self.end_ms == self.start_ms + HOUR_MS
        &&& self.weekday1 == weekday_of_day(self.start_ms as int / DAY_MS as int) + 1
        &&& self.hour == (self.start_ms as int % DAY_MS as int) / HOUR_MS as int
        &&& 1 <= self.weekday1 <= 7
        &&& self.hour < 24
    }

    pub open spec fn contains(self, ts_ms: u64) -> bool {
        self.start_ms <= ts_ms < self.end_ms
    }

    /// The whole hour containing `ts_ms`; an error exactly when the
    /// timestamp lies past the supported calendar range.
    pub fn of(ts_ms: u64) -> (r: Result<WholeHour, PeriodError>)
        ensures
            match r {
                Ok(h) => {
                    &&& (ts_ms as int / DAY_MS as int) < day_limit()
                    &&& h.wf()
                    &&& h.start_ms == ts_ms - ts_ms % HOUR_MS
                    &&& h.contains(ts_ms)
                },
                Err(_) => (ts_ms as int / DAY_MS as int) >= day_limit(),
            },
    {
        let day = ts_ms / DAY_MS;
        let limit = days_before_year_x(10000);
        if day >= limit {
            return Err(PeriodError::OutOfRange);
        }
        let start_ms = ts_ms - ts_ms % HOUR_MS;
        proof {
            lemma_day_limit_small();
            assert(ts_ms < 2938980 * 86400000);
            lemma_fundamental_div_mod(ts_ms as int, HOUR_MS as int);
            lemma_fundamental_div_mod(ts_ms as int, DAY_MS as int);
            assert(start_ms as int == HOUR_MS as int * (ts_ms as int / HOUR_MS as int));
            assert(start_ms % HOUR_MS == 0) by (nonlinear_arith)
                requires
                    start_ms as int == HOUR_MS as int * (ts_ms as int / HOUR_MS as int),
                    HOUR_MS == 3_600_000,
            ;
            // The hour start lies in the same day as the timestamp.
            assert(start_ms as int / DAY_MS as int == ts_ms as int / DAY_MS as int
                && ((start_ms as int % DAY_MS as int) / (HOUR_MS as int)) < 24) by (nonlinear_arith)
                requires
                    start_ms as int == ts_ms as int - ts_ms as int % HOUR_MS as int,
                    start_ms % HOUR_MS == 0,
                    DAY_MS == 86_400_000,
                    HOUR_MS == 3_600_000,
            ;
        }
        let wd = weekday(start_ms / DAY_MS);
        let hour = (start_ms % DAY_MS) / HOUR_MS;
        Ok(WholeHour { start_ms, end_ms: start_ms + HOUR_MS, weekday1: wd + 1, hour })
    }
}

/// The whole Monday-to-Monday week containing a timestamp, with a
/// year-anchored week index and the start's ISO week.
#[derive(Clone, Copy, Debug)]
pub struct WholeWeek {
    /// Start of the week (a Monday), inclusive, in milliseconds.
    pub start_ms: u64,
    /// End of the week (the next Monday), exclusive, in milliseconds.
    pub end_ms: u64,
    /// Civil year of the week's last day.
    pub year: u64,
    /// Zero-based index of the week among the Monday-aligned weeks
    /// counted from the week containing January the first of `year`.
    pub week0: u64,
    /// ISO year of the week's start.
    pub iso_year: u64,
    /// ISO week number of the week's start, from one.
    pub iso_week: u64,
}

impl WholeWeek {
    pub open spec fn wf(self) -> bool {
        &&& self.start_ms % DAY_MS == 0
        &&& weekday_of_day(self.start_ms as int / DAY_MS as int) == 0
        &&& self.end_ms == self.start_ms + WEEK_MS
        &&& 1 <= self.iso_week <= 53
    }

    pub open spec fn contains(self, ts_ms: u64) -> bool {
        self.start_ms <= ts_ms < self.end_ms
    }

    /// Error condition: the week's Monday would fall before the epoch,
    /// or its end past the supported calendar range.
    pub open spec fn out_of_range(ts_ms: u64) -> bool {
        let day = ts_ms as int / DAY_MS as int;
        day < weekday_of_day(day) || week_start_day(day) + 7 > day_limit()
    }

    /// The whole week containing `ts_ms`.
    pub fn of(ts_ms: u64) -> (r: Result<WholeWeek, PeriodError>)
        ensures
            match r {
                Ok(w) => {
                    let day = ts_ms as int / DAY_MS as int;
                    &&& !Self::out_of_range(ts_ms)
                    &&& w.wf()
                    &&& w.start_ms as int == week_start_day(day) * DAY_MS as int
                    &&& w.contains(ts_ms)
                    &&& year_of_day_is(week_start_day(day) + 6, w.year as int)
                    &&& w.week0 as int == (week_start_day(day) + weekday_of_day(
                        days_before_year(w.year as int),
                    ) - days_before_year(w.year as int)) / 7
                    &&& iso_week_of_monday_is(
                        week_start_day(day),
                        w.iso_year as int,
                        w.iso_week as int,
                    )
                },
                Err(_) => Self::out_of_range(ts_ms),
            },
    {
        let day = ts_ms / DAY_MS;
        let wd = weekday(day);
        if day < wd {
            return Err(PeriodError::OutOfRange);
        }
        let start_day = day - wd;
        let limit = days_before_year_x(10000);
        if start_day + 7 > limit {
            return Err(PeriodError::OutOfRange);
        }
        proof {
            lemma_day_limit_small();
            lemma_week_start_is_monday(day as int);
        }
        // The year-anchored week index: weeks are counted within the
        // year of the week's last day, starting at the week that holds
        // January the first.
        let (fy, fm, fd) = civil_from_days(start_day + 6);
        let jan1 = days_before_year_x(fy);
        proof {
            crate::calendar::lemma_days_before_year_upper(fy as int);
        }
        let offset = weekday(jan1);
        proof {
            assert(days_before_year(fy as int) + days_before_month(fy as int, fm as int) + (
            fd as int - 1) == start_day as int + 6);
            crate::calendar::lemma_days_before_month_bounds(fy as int, fm as int);
            assert(jan1 <= start_day + 6);
            lemma_week_start_is_monday(jan1 as int);
            lemma_monday_bound(jan1 as int - offset as int, start_day as int);
        }
        let week0 = (start_day + offset - jan1) / 7;
        // ISO week of the start: determined by the Thursday of the week.
        let (ty, tm, td) = civil_from_days(start_day + 3);
        let doy = days_up_to(ty, tm, td) + 1;
        let iso_week = (doy + 6) / 7;
        let start_ms = start_day * DAY_MS;
        proof {
            assert(start_ms as int == week_start_day(day as int) * DAY_MS as int);
            assert(start_ms % DAY_MS == 0 && start_ms as int / DAY_MS as int == start_day as int)
                by (nonlinear_arith)
                requires
                    start_ms as int == start_day as int * DAY_MS as int,
                    DAY_MS == 86_400_000,
                    0 <= start_day as int <= 2938980,
            ;
            lemma_fundamental_div_mod(ts_ms as int, DAY_MS as int);
            assert((ts_ms as int) < start_ms as int + WEEK_MS as int) by (nonlinear_arith)
                requires
                    ts_ms as int == DAY_MS as int * (day as int) + ts_ms as int % DAY_MS as int,
                    (ts_ms as int % DAY_MS as int) < DAY_MS as int,
                    start_ms as int == (day as int - weekday_of_day(day as int)) * DAY_MS as int,
                    0 <= weekday_of_day(day as int) <= 6,
                    DAY_MS == 86_400_000,
                    WEEK_MS == 604_800_000,
            ;
            assert(start_ms <= ts_ms) by (nonlinear_arith)
                requires
                    ts_ms as int == DAY_MS as int * (day as int) + ts_ms as int % DAY_MS as int,
                    ts_ms as int % DAY_MS as int >= 0,
                    start_ms as int == (day as int - weekday_of_day(day as int)) * DAY_MS as int,
                    0 <= weekday_of_day(day as int) <= 6,
                    DAY_MS == 86_400_000,
            ;
            assert(year_of_day_is(week_start_day(day as int) + 6, fy as int)) by {
                assert(is_valid_date(fy as int, fm as int, fd as int) && day_number(
                    fy as int,
                    fm as int,
                    fd as int,
                ) == week_start_day(day as int) + 6);
            }
            assert(iso_week_of_monday_is(
                week_start_day(day as int),
                ty as int,
                iso_week as int,
            )) by {
                assert(is_valid_date(ty as int, tm as int, td as int) && day_number(
                    ty as int,
                    tm as int,
                    td as int,
                ) == week_start_day(day as int) + 3);
                assert(iso_week as int == (days_before_month(ty as int, tm as int) + td + 6) / 7);
            }
            assert(1 <= iso_week <= 53) by {
                assert(1 <= doy <= 366);
            };
        }
        Ok(
            WholeWeek {
                start_ms,
                end_ms: start_ms + WEEK_MS,
                year: fy,
                week0,
                iso_year: ty,
                iso_week,
            },
        )
    }
}

/// Milliseconds from `from_ms` to `end_ms` when `from_ms` lies inside
/// the interval, and zero otherwise.  A zero result asks the caller to
/// act at once: an identity whose interval does not contain the present
/// moment is rotated immediately.
pub fn duration_to_end(from_ms: u64, start_ms: u64, end_ms: u64) -> (r: u64)
    ensures
        r == duration_to_end_spec(from_ms, start_ms, end_ms),
{
    if from_ms < start_ms {
        0
    } else if from_ms >= end_ms {
        0
    } else {
        end_ms - from_ms
    }
}

pub open spec fn duration_to_end_spec(from_ms: u64, start_ms: u64, end_ms: u64) -> u64 {
    if start_ms <= from_ms < end_ms {
        (end_ms - from_ms) as u64
    } else {
        0
    }
}

} // verus!
