//! The full usage report.
use status_insights::observability::{
    all_time_tokens, compute_full_observability, rank_models, recent_week, DailyUsageSummary,
};
use status_insights::rollout::{parse_rollout_usage, RolloutItem, RolloutLine, TokenDelta};
use status_insights::time::Moment;
use status_insights::usage::{ModelUsageSummary, UsageTally};
use std::collections::BTreeMap;

/// Noon of 2026-01-10 in UTC, which is day 739626.
const NOON: i64 = 1_768_046_400;
const TODAY: i32 = 739_626;

fn now() -> Moment {
    Moment::new(NOON, 0, 0).expect("moment")
}

fn summary(model: &str, tokens: i64) -> ModelUsageSummary {
    ModelUsageSummary {
        model: model.to_string(),
        tokens,
        cached_input_tokens: 0,
    }
}

#[test]
fn model_breakdown_lists_each_model() {
    let turn = |timestamp: &str, model: &str| RolloutLine {
        timestamp: timestamp.to_string(),
        item: RolloutItem::TurnContext {
            model: model.to_string(),
        },
    };
    let count = |timestamp: &str, blended_total: i64, cached_input: i64| RolloutLine {
        timestamp: timestamp.to_string(),
        item: RolloutItem::TokenCount {
            usage: Some(TokenDelta {
                blended_total,
                cached_input,
            }),
        },
    };
    let lines = vec![
        turn("2026-01-10T12:00:00Z", "alpha-model"),
        count("2026-01-10T12:00:05Z", 300, 100),
        turn("2026-01-10T12:01:00Z", "beta-model"),
        count("2026-01-10T12:01:05Z", 120, 0),
    ];
    let mut tally = UsageTally::new();
    assert!(parse_rollout_usage(
        &lines,
        Some("rollout-2026-01-10T12-00-00-000000000Z.jsonl"),
        &mut tally
    ));
    let data = compute_full_observability(1, tally, now()).expect("report");
    assert_eq!(data.all_time_tokens, 420);
    assert_eq!(data.scanned_files, 1);
    assert_eq!(data.active_days, 1);
    assert_eq!(data.longest_streak_days, 1);
    let rows: Vec<(&str, i64, i64)> = data
        .model_usage
        .iter()
        .map(|row| (row.model.as_str(), row.tokens, row.cached_input_tokens))
        .collect();
    assert_eq!(rows, vec![("alpha-model", 300, 100), ("beta-model", 120, 0)]);
    let total: i64 = data.model_usage.iter().map(|row| row.tokens).sum();
    assert_eq!(total, data.all_time_tokens);
}

#[test]
fn report_needs_files_and_tokens() {
    assert!(compute_full_observability(0, UsageTally::new(), now()).is_none());
    assert!(compute_full_observability(3, UsageTally::new(), now()).is_none());
    let mut idle = UsageTally::new();
    assert!(idle.record_usage("a", 0, 0, TODAY));
    assert!(idle.record_usage("a", -4, 0, TODAY - 1));
    assert!(compute_full_observability(3, idle, now()).is_none());
    let mut unread = UsageTally::new();
    assert!(unread.record_usage("a", 9, 0, TODAY));
    assert!(compute_full_observability(0, unread, now()).is_none());
}

#[test]
fn periods_end_today() {
    assert_eq!(now().date_naive(), TODAY);
    let mut tally = UsageTally::new();
    for (age, tokens) in [
        (-1, 1_000_000),
        (0, 1),
        (1, 20),
        (6, 300),
        (7, 4_000),
        (29, 50_000),
        (30, 600_000),
    ] {
        assert!(tally.record_usage("m", tokens, 0, TODAY - age));
    }
    assert!(tally.record_usage("m", -77, 0, TODAY - 2));
    let data = compute_full_observability(2, tally, now()).expect("report");
    assert_eq!(data.today_tokens, 1);
    assert_eq!(data.seven_day_tokens, 321);
    assert_eq!(data.thirty_day_tokens, 54_321);
    assert_eq!(data.all_time_tokens, 1_654_321);
    assert_eq!(data.active_days, 7);
    assert_eq!(data.current_streak_days, 2);
    assert_eq!(data.longest_streak_days, 3);
    assert_eq!(data.scanned_files, 2);
    let week: Vec<(i32, i64)> = data
        .recent_days
        .iter()
        .map(|day| (TODAY - day.day, day.tokens))
        .collect();
    assert_eq!(
        week,
        vec![(6, 300), (5, 0), (4, 0), (3, 0), (2, -77), (1, 20), (0, 1)]
    );
    let listed: i64 = data.recent_days.iter().map(|day| day.tokens.max(0)).sum();
    assert_eq!(listed, data.seven_day_tokens);
    assert!(data.longest_streak_days <= data.active_days);
}

#[test]
fn today_is_the_local_day() {
    let mut tally = UsageTally::new();
    assert!(tally.record_usage("m", 8, 0, TODAY + 1));
    let abroad = Moment::new(NOON, 0, 13 * 3_600).unwrap();
    let data = compute_full_observability(1, tally, abroad).expect("report");
    assert_eq!(data.today_tokens, 8);
    assert_eq!(data.recent_days[6].day, TODAY + 1);
}

#[test]
fn models_rank_by_tokens_then_by_name() {
    let ranked = rank_models(vec![
        summary("a", 5),
        summary("b", 9),
        summary("c", 5),
        summary("B", 9),
        summary("d", -1),
    ]);
    let names: Vec<&str> = ranked.iter().map(|row| row.model.as_str()).collect();
    assert_eq!(names, vec!["B", "b", "a", "c", "d"]);
    let reversed = rank_models(ranked.into_iter().rev().collect());
    let again: Vec<&str> = reversed.iter().map(|row| row.model.as_str()).collect();
    assert_eq!(again, vec!["B", "b", "a", "c", "d"]);
    assert!(rank_models(vec![]).is_empty());
}

#[test]
fn recent_week_fills_missing_days() {
    let mut by_day: BTreeMap<i32, i64> = BTreeMap::new();
    by_day.insert(100, 5);
    by_day.insert(93, 7);
    let week = recent_week(&by_day, 100);
    assert_eq!(week.len(), 7);
    assert_eq!(week[0], DailyUsageSummary { day: 94, tokens: 0 });
    assert_eq!(
        week[6],
        DailyUsageSummary {
            day: 100,
            tokens: 5
        }
    );
}

#[test]
fn all_time_tokens_beyond_64_bits_are_none() {
    let mut by_day: BTreeMap<i32, i64> = BTreeMap::new();
    by_day.insert(1, i64::MAX);
    by_day.insert(2, -5);
    assert_eq!(all_time_tokens(&by_day), Some(i64::MAX));
    by_day.insert(3, 1);
    assert_eq!(all_time_tokens(&by_day), None);
}
