//! Burn rate and streaks.
use chrono::{DateTime, Datelike, Duration, Local, NaiveDate, TimeZone};
use status_insights::compact::{calculate_burn_rate, session_burn_rate, BurnRate};
use status_insights::streaks::{active_dates, compute_streaks};
use status_insights::time::Moment;
use std::collections::BTreeMap;

fn moment(at: DateTime<Local>) -> Moment {
    Moment::new(
        at.timestamp(),
        at.timestamp_subsec_nanos(),
        at.offset().local_minus_utc(),
    )
    .expect("moment")
}

fn tokens_per_minute(rate: BurnRate) -> f64 {
    rate.total_tokens as f64 / (rate.elapsed_seconds as f64 / 60.0)
}

#[test]
fn calculates_burn_rate_tokens_per_minute() {
    let now = Local
        .with_ymd_and_hms(2026, 1, 10, 12, 0, 0)
        .single()
        .expect("valid timestamp");
    let started = now - Duration::minutes(10);
    let rate = calculate_burn_rate(/*total_tokens*/ 12_000, moment(started), moment(now))
        .expect("burn rate");
    assert_eq!(tokens_per_minute(rate).round() as i64, 1_200);
}

#[test]
fn compute_streaks_tracks_current_and_longest() {
    let today = NaiveDate::from_ymd_opt(2026, 1, 10)
        .expect("date")
        .num_days_from_ce();
    let mut by_day: BTreeMap<i32, i64> = BTreeMap::new();
    by_day.insert(today - 4, 100);
    by_day.insert(today - 3, 100);
    by_day.insert(today - 1, 100);
    by_day.insert(today, 100);

    let (current, longest) = compute_streaks(&by_day, today);
    assert_eq!(current, 2);
    assert_eq!(longest, 2);
}

#[test]
fn burn_rate_needs_tokens_and_a_minute() {
    let start = Moment::new(1_000, 0, 0).unwrap();
    let almost = Moment::new(1_059, 999_999_999, 0).unwrap();
    let minute = Moment::new(1_060, 0, 0).unwrap();
    assert_eq!(calculate_burn_rate(500, start, almost), None);
    assert_eq!(
        calculate_burn_rate(500, start, minute),
        Some(BurnRate {
            total_tokens: 500,
            elapsed_seconds: 60
        })
    );
    assert_eq!(calculate_burn_rate(0, start, minute), None);
    assert_eq!(calculate_burn_rate(-5, start, minute), None);
    assert_eq!(calculate_burn_rate(500, minute, start), None);
}

#[test]
fn burn_rate_rounds_towards_zero_and_counts_leap_seconds() {
    let start = Moment::new(1_000, 500_000_000, 0).unwrap();
    let end = Moment::new(1_061, 400_000_000, 3_600).unwrap();
    assert_eq!(
        calculate_burn_rate(7, start, end).unwrap().elapsed_seconds,
        60
    );
    // A leap second in progress at the start counts as a second of its own.
    let leap = Moment::new(1_000, 1_500_000_000, 0).unwrap();
    let end = Moment::new(1_060, 500_000_000, 0).unwrap();
    assert_eq!(
        calculate_burn_rate(7, leap, end).unwrap().elapsed_seconds,
        60
    );
}

#[test]
fn streaks_of_nothing_are_zero() {
    let mut by_day: BTreeMap<i32, i64> = BTreeMap::new();
    assert_eq!(compute_streaks(&by_day, 739_000), (0, 0));
    by_day.insert(739_000, 0);
    by_day.insert(738_999, -3);
    assert_eq!(compute_streaks(&by_day, 739_000), (0, 0));
    assert!(active_dates(&by_day).is_empty());
}

#[test]
fn inactive_today_ends_the_current_streak() {
    let mut by_day: BTreeMap<i32, i64> = BTreeMap::new();
    for day in [100, 101, 102, 200, 201, 300] {
        by_day.insert(day, 1);
    }
    assert_eq!(compute_streaks(&by_day, 301), (0, 3));
    assert_eq!(compute_streaks(&by_day, 300), (1, 3));
    assert_eq!(compute_streaks(&by_day, 201), (2, 3));
    assert_eq!(active_dates(&by_day), vec![100, 101, 102, 200, 201, 300]);
}

#[test]
fn another_active_day_makes_the_streak_longer() {
    let mut by_day: BTreeMap<i32, i64> = BTreeMap::new();
    by_day.insert(10, 5);
    by_day.insert(11, 5);
    let (before, longest) = compute_streaks(&by_day, 11);
    assert!(before <= longest);
    by_day.insert(12, 5);
    assert_eq!(compute_streaks(&by_day, 12), (before + 1, 3));
    assert_eq!(compute_streaks(&by_day, 13), (0, 3));
}

#[test]
fn session_without_a_start_has_no_burn_rate() {
    let start = Moment::new(1_000, 0, 0).unwrap();
    let now = Moment::new(1_120, 0, 0).unwrap();
    assert_eq!(session_burn_rate(500, None, now), None);
    assert_eq!(
        session_burn_rate(500, Some(start), now),
        Some(BurnRate {
            total_tokens: 500,
            elapsed_seconds: 120
        })
    );
    assert_eq!(session_burn_rate(0, Some(start), now), None);
    assert_eq!(session_burn_rate(500, Some(now), start), None);
}
