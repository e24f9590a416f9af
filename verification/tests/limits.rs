//! Rate limits: the next reset, the countdown, estimates and warnings.
use chrono::{DateTime, Local};
use status_insights::compact::{compute_compact_status_insights, status_warnings};
use status_insights::double::Double;
use status_insights::limits::{
    estimate_eta_to_limit, eta_for_window, etas_to_project, format_duration,
    format_reset_countdown, iter_windows, max_used_percent, nearest_reset, reset_at_from,
    reset_countdown_text, EtaInputs, RateLimitSnapshotDisplay, RateLimitWindowDisplay,
};
use status_insights::time::Moment;

fn double(value: f64) -> Double {
    Double::from_bits(value.to_bits())
}

fn window(used: f64, resets_at: Option<i64>, minutes: Option<i64>) -> RateLimitWindowDisplay {
    RateLimitWindowDisplay {
        used_percent: double(used),
        resets_at_unix: resets_at,
        window_minutes: minutes,
    }
}

fn snapshot(
    primary: Option<RateLimitWindowDisplay>,
    secondary: Option<RateLimitWindowDisplay>,
) -> RateLimitSnapshotDisplay {
    RateLimitSnapshotDisplay { primary, secondary }
}

fn at(timestamp: i64) -> Moment {
    Moment::new(timestamp, 0, 0).expect("moment")
}

#[test]
fn windows_come_in_order() {
    let a = window(1.0, None, None);
    let b = window(2.0, None, None);
    let c = window(3.0, None, None);
    let limits = [
        snapshot(Some(a), Some(b)),
        snapshot(None, None),
        snapshot(None, Some(c)),
    ];
    let windows = iter_windows(&limits);
    assert_eq!(windows, vec![&a, &b, &c]);
    assert!(iter_windows(&[]).is_empty());
}

#[test]
fn highest_use_follows_the_total_order() {
    assert_eq!(max_used_percent(&[]), None);
    let limits = [
        snapshot(
            Some(window(72.5, None, None)),
            Some(window(45.0, None, None)),
        ),
        snapshot(None, Some(window(80.25, None, None))),
    ];
    assert_eq!(max_used_percent(&limits), Some(double(80.25)));
    let with_nan = [snapshot(
        Some(window(f64::NAN, None, None)),
        Some(window(99.0, None, None)),
    )];
    assert_eq!(max_used_percent(&with_nan), Some(double(f64::NAN)));
    let zeros = [snapshot(
        Some(window(0.0, None, None)),
        Some(window(-0.0, None, None)),
    )];
    assert_eq!(max_used_percent(&zeros), Some(double(0.0)));
}

#[test]
fn nearest_reset_lies_ahead() {
    let limits = [
        snapshot(
            Some(window(1.0, Some(500), None)),
            Some(window(1.0, Some(300), None)),
        ),
        snapshot(
            Some(window(1.0, None, None)),
            Some(window(1.0, Some(100), None)),
        ),
    ];
    assert_eq!(nearest_reset(&limits, 50), Some(100));
    assert_eq!(nearest_reset(&limits, 99), Some(100));
    assert_eq!(nearest_reset(&limits, 100), Some(300));
    assert_eq!(nearest_reset(&limits, 499), Some(500));
    assert_eq!(nearest_reset(&limits, 500), None);
}

#[test]
fn durations_in_words() {
    for (seconds, text) in [
        (-5, "0m"),
        (0, "0m"),
        (59, "0m"),
        (60, "1m"),
        (3_599, "59m"),
        (3_600, "1h 0m"),
        (5_460, "1h 31m"),
        (86_399, "23h 59m"),
        (86_400, "1d 0h"),
        (93_599, "1d 1h"),
        (10 * 86_400 + 7_200, "10d 2h"),
        (i64::MAX, "106751991167300d 15h"),
        (i64::MIN, "0m"),
    ] {
        assert_eq!(format_duration(seconds), text);
    }
}

#[test]
fn countdown_names_the_clock_time() {
    // 2024-01-02T03:14:05Z, ten minutes after the present.
    let reset = 1_704_165_245;
    let now = reset - 600;
    assert_eq!(
        reset_countdown_text(reset, now, 0),
        "resets in 10m (03:14)"
    );
    assert_eq!(
        reset_countdown_text(reset, now, 3_600 + 1_800),
        "resets in 10m (04:44)"
    );
    assert_eq!(
        reset_countdown_text(reset, now, -4 * 3_600),
        "resets in 10m (23:14)"
    );
}

#[test]
fn countdown_uses_the_local_zone() {
    let reset = 1_704_165_245;
    let limits = [snapshot(
        Some(window(72.5, Some(reset), Some(300))),
        Some(window(45.0, Some(reset + 1_000), Some(10_080))),
    )];
    let clock = DateTime::from_timestamp(reset, 0)
        .unwrap()
        .with_timezone(&Local)
        .format("%H:%M")
        .to_string();
    assert_eq!(
        format_reset_countdown(&limits, at(reset - 600)),
        Some(format!("resets in 10m ({clock})"))
    );
    assert_eq!(format_reset_countdown(&limits, at(reset + 1_000)), None);
    assert_eq!(format_reset_countdown(&[], at(0)), None);
}

#[test]
fn reset_beyond_the_calendar_is_not_shown() {
    let beyond = 9_000_000_000_000_000;
    let limits = [snapshot(Some(window(1.0, Some(beyond), None)), None)];
    assert_eq!(format_reset_countdown(&limits, at(0)), None);
}

#[test]
fn reset_is_captured_time_plus_seconds() {
    let captured = Moment::new(1_704_164_645, 250_000_000, 3_600).unwrap();
    assert_eq!(reset_at_from(captured, 600), 1_704_165_245);
    assert_eq!(reset_at_from(captured, -45), 1_704_164_600);
    assert_eq!(reset_at_from(captured, 0), 1_704_164_645);
    let leap = Moment::new(1_704_164_645, 1_250_000_000, 0).unwrap();
    assert_eq!(reset_at_from(leap, 600), 1_704_165_245);
    assert_eq!(reset_at_from(leap, -45), 1_704_164_601);
    let limits = [snapshot(
        Some(window(1.0, Some(reset_at_from(captured, 600)), None)),
        None,
    )];
    assert_eq!(
        nearest_reset(&limits, captured.timestamp),
        Some(captured.timestamp + 600)
    );
}

#[test]
fn estimates_need_a_partly_used_window() {
    let now = at(1_000);
    let open = window(25.0, Some(4_000), Some(100));
    assert_eq!(
        eta_for_window(&open, now),
        Some(EtaInputs {
            used_percent: double(25.0),
            window_minutes: 100,
            seconds_until_reset: 3_000,
        })
    );
    for used in [0.0, -0.0, -3.0, 100.0, 250.0, f64::NAN, f64::INFINITY] {
        assert_eq!(eta_for_window(&window(used, Some(4_000), Some(100)), now), None);
    }
    for used in [f64::MIN_POSITIVE, 99.999_999_999_999_99, 5e-324] {
        assert!(eta_for_window(&window(used, Some(4_000), Some(100)), now).is_some());
    }
    assert_eq!(eta_for_window(&window(25.0, None, Some(100)), now), None);
    assert_eq!(eta_for_window(&window(25.0, Some(4_000), None), now), None);
    assert_eq!(eta_for_window(&window(25.0, Some(1_000), Some(100)), now), None);
    assert_eq!(eta_for_window(&window(25.0, Some(900), Some(100)), now), None);

    let limits = [snapshot(Some(window(0.0, Some(4_000), Some(1))), Some(open))];
    let etas = etas_to_project(&limits, now);
    assert_eq!(etas.len(), 1);
    assert_eq!(etas[0].used_percent, double(25.0));
}

#[test]
fn least_estimate_wins() {
    assert_eq!(estimate_eta_to_limit(&[]), None);
    assert_eq!(estimate_eta_to_limit(&[None, None]), None);
    assert_eq!(
        estimate_eta_to_limit(&[None, Some(90), Some(30), None, Some(60)]),
        Some(30)
    );
}

#[test]
fn warnings_start_at_their_thresholds() {
    let none = Vec::<String>::new();
    assert_eq!(status_warnings(None, None, None), none);
    assert_eq!(
        status_warnings(Some(double(79.999)), Some(double(3_999.999)), Some(21)),
        none
    );
    assert_eq!(
        status_warnings(Some(double(80.0)), Some(double(4_000.0)), Some(20)),
        vec![
            "usage above 80% of limit",
            "high burn rate",
            "high context usage"
        ]
    );
    assert_eq!(
        status_warnings(Some(double(f64::NAN)), Some(double(f64::INFINITY)), Some(0)),
        vec!["high burn rate", "high context usage"]
    );
    assert_eq!(
        status_warnings(Some(double(100.0)), None, Some(100)),
        vec!["usage above 80% of limit"]
    );
}

#[test]
fn compact_status_puts_the_parts_together() {
    let reset = 1_704_165_245;
    let limits = [snapshot(
        Some(window(85.0, Some(reset), Some(300))),
        Some(window(45.0, Some(reset + 600), Some(10_080))),
    )];
    let now = at(reset - 3_600);
    let insights =
        compute_compact_status_insights(Some(double(1_200.0)), Some(90), Some(10), &limits, now);
    assert_eq!(insights.burn_rate_tpm, Some(double(1_200.0)));
    assert_eq!(insights.eta_to_limit, Some(90));
    assert_eq!(
        insights.reset_countdown,
        format_reset_countdown(&limits, now)
    );
    assert!(insights
        .reset_countdown
        .expect("countdown")
        .starts_with("resets in 1h 0m ("));
    assert_eq!(
        insights.warnings,
        vec!["usage above 80% of limit", "high context usage"]
    );

    let quiet = compute_compact_status_insights(None, None, None, &[], now);
    assert_eq!(quiet.burn_rate_tpm, None);
    assert_eq!(quiet.eta_to_limit, None);
    assert_eq!(quiet.reset_countdown, None);
    assert!(quiet.warnings.is_empty());
}

#[test]
fn limits_are_judged_without_the_session() {
    let reset = 1_704_165_245;
    let limits = [snapshot(
        Some(window(85.0, Some(reset), Some(300))),
        Some(window(45.0, Some(reset + 600), Some(10_080))),
    )];
    let now = at(reset - 3_600);
    let quiet = compute_compact_status_insights(None, Some(90), None, &limits, now);
    let busy =
        compute_compact_status_insights(Some(double(9_000.0)), Some(90), Some(1), &limits, now);
    assert_eq!(quiet.eta_to_limit, busy.eta_to_limit);
    assert_eq!(quiet.reset_countdown, busy.reset_countdown);
    assert_eq!(quiet.warnings, vec!["usage above 80% of limit"]);
    assert_eq!(
        busy.warnings,
        vec![
            "usage above 80% of limit",
            "high burn rate",
            "high context usage"
        ]
    );
}
