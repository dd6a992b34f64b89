//! Calendar and interval tests, cross-checked against chrono.

use chrono::{Datelike, TimeZone, Timelike, Utc};
use ouinet_metrics::calendar::{civil_from_days, days_from_civil, days_up_to, week_ends_next_year};
use ouinet_metrics::period::{duration_to_end, WholeHour, WholeWeek};
use ouinet_metrics::{DAY_MS, HOUR_MS, WEEK_MS};

fn make_date(year: u64, month: u64, day: u64) -> u64 {
    days_from_civil(year, month, day) * DAY_MS
}

#[test]
fn construct_whole_week() {
    let date = make_date(2025, 6, 17);
    let week = WholeWeek::of(date).unwrap();
    assert_eq!(week.year, 2025);
    assert_eq!(week.week0, 24);
    assert_eq!(week.start_ms, make_date(2025, 6, 16));

    let date = make_date(2024, 12, 31);
    let week = WholeWeek::of(date).unwrap();
    assert_eq!(week.year, 2025);
    assert_eq!(week.week0, 0);
    assert_eq!(week.start_ms, make_date(2024, 12, 30));

    let date = make_date(2025, 1, 1);
    let week = WholeWeek::of(date).unwrap();
    assert_eq!(week.year, 2025);
    assert_eq!(week.week0, 0);
    assert_eq!(week.start_ms, make_date(2024, 12, 30));
}

#[test]
fn test_days_up_to() {
    assert_eq!(days_up_to(2025, 1, 1), 0);
    assert_eq!(days_up_to(2025, 1, 2), 1);
    assert_eq!(days_up_to(2025, 2, 1), 31);
}

#[test]
fn test_week_ends_next_year() {
    assert!(!week_ends_next_year(days_from_civil(2025, 12, 27)));
    assert!(!week_ends_next_year(days_from_civil(2025, 12, 28)));
    assert!(week_ends_next_year(days_from_civil(2025, 12, 29)));
    assert!(week_ends_next_year(days_from_civil(2025, 12, 30)));
    assert!(week_ends_next_year(days_from_civil(2025, 12, 31)));
}

#[test]
fn next_week() {
    let ts = make_date(2026, 6, 15) + 12 * HOUR_MS + 20 * 60_000;
    let interval = WholeWeek::of(ts).unwrap();
    let next_interval = WholeWeek::of(interval.end_ms).unwrap();
    assert_eq!(interval.week0 + 1, next_interval.week0);
}

#[test]
fn next_hour() {
    let ts = make_date(2026, 6, 17) + 12 * HOUR_MS + 20 * 60_000;
    let interval = WholeHour::of(ts).unwrap();
    let next_interval = WholeHour::of(interval.end_ms).unwrap();
    assert_eq!(interval.hour + 1, next_interval.hour);
}

#[test]
fn civil_conversion_matches_chrono() {
    let samples: [u64; 6] = [0, 365, 11016, 20148, 20149, 2_000_000_000 / 86_400];
    for day in samples {
        let (y, m, d) = civil_from_days(day);
        let date = chrono::DateTime::from_timestamp((day * 86_400) as i64, 0).unwrap();
        assert_eq!(y as i32, date.year());
        assert_eq!(m as u32, date.month());
        assert_eq!(d as u32, date.day());
        assert_eq!(days_from_civil(y, m, d), day);
    }
}

#[test]
fn iso_week_matches_chrono() {
    let dates: [(u64, u64, u64); 6] = [
        (2025, 6, 17),
        (2024, 12, 31),
        (2025, 1, 1),
        (2026, 1, 1),
        (2021, 1, 3),
        (2020, 12, 28),
    ];
    for (y, m, d) in dates {
        let ts = make_date(y, m, d) + 5 * HOUR_MS;
        let week = WholeWeek::of(ts).unwrap();
        let date = Utc.with_ymd_and_hms(y as i32, m as u32, d as u32, 5, 0, 0).unwrap();
        assert_eq!(week.iso_year as i32, date.iso_week().year());
        assert_eq!(week.iso_week as u32, date.iso_week().week());
        assert!(week.start_ms <= ts && ts < week.end_ms);
        assert_eq!(week.end_ms - week.start_ms, WEEK_MS);
    }
}

#[test]
fn whole_hour_contains_and_aligns() {
    let ts = make_date(2025, 3, 9) + 13 * HOUR_MS + 59 * 60_000 + 59_999;
    let hour = WholeHour::of(ts).unwrap();
    assert_eq!(hour.start_ms, ts - ts % HOUR_MS);
    assert_eq!(hour.end_ms, hour.start_ms + HOUR_MS);
    assert_eq!(hour.hour, 13);
    let date = Utc.with_ymd_and_hms(2025, 3, 9, 13, 0, 0).unwrap();
    assert_eq!(hour.weekday1 as u32, date.weekday().number_from_monday());
}

#[test]
fn duration_to_end_cases() {
    assert_eq!(duration_to_end(5, 10, 20), 0);
    assert_eq!(duration_to_end(10, 10, 20), 10);
    assert_eq!(duration_to_end(15, 10, 20), 5);
    assert_eq!(duration_to_end(20, 10, 20), 0);
    assert_eq!(duration_to_end(25, 10, 20), 0);
}
