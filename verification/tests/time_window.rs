use chrono::TimeZone;

use sendword::config::TimeWindow;
use sendword::models::TriggerAttemptStatus;
use sendword::trigger_rules::time_window::evaluate_at;
use sendword::trigger_rules::EvalOutcome;

fn window(days: &[&str], start: &str, end: &str) -> TimeWindow {
    TimeWindow {
        days: days.iter().map(|s| s.to_string()).collect(),
        start_time: start.to_string(),
        end_time: end.to_string(),
    }
}

fn utc(year: i32, month: u32, day: u32, hour: u32, min: u32) -> i128 {
    chrono::Utc
        .with_ymd_and_hms(year, month, day, hour, min, 0)
        .unwrap()
        .timestamp_nanos_opt()
        .unwrap() as i128
}

#[test]
fn within_window_allows() {
    let now = utc(2026, 4, 13, 10, 0);
    let r = evaluate_at(&[window(&["Mon", "Tue", "Wed", "Thu", "Fri"], "09:00", "17:00")], now);
    assert!(matches!(r, EvalOutcome::Allow));
}

#[test]
fn outside_window_rejects() {
    let now = utc(2026, 4, 13, 20, 0);
    let r = evaluate_at(&[window(&["Mon", "Tue", "Wed", "Thu", "Fri"], "09:00", "17:00")], now);
    assert!(matches!(r, EvalOutcome::Reject { .. }));
}

#[test]
fn wrong_day_rejects() {
    let now = utc(2026, 4, 18, 10, 0);
    let r = evaluate_at(&[window(&["Mon", "Tue", "Wed", "Thu", "Fri"], "09:00", "17:00")], now);
    match r {
        EvalOutcome::Reject { status, reason } => {
            assert_eq!(status, TriggerAttemptStatus::ScheduleSkipped);
            assert_eq!(reason, "no time window matches current time Sat 10:00");
        }
        EvalOutcome::Allow => panic!("expected rejection"),
    }
}

#[test]
fn empty_days_matches_all() {
    let now = utc(2026, 4, 14, 12, 0);
    let r = evaluate_at(&[window(&[], "09:00", "17:00")], now);
    assert!(matches!(r, EvalOutcome::Allow));
}

#[test]
fn multiple_windows_or_logic() {
    let now = utc(2026, 4, 18, 11, 0);
    let windows = vec![
        window(&["Mon", "Tue", "Wed", "Thu", "Fri"], "09:00", "17:00"),
        window(&["Sat", "Sun"], "10:00", "14:00"),
    ];
    assert!(matches!(evaluate_at(&windows, now), EvalOutcome::Allow));
}

#[test]
fn edge_exact_start_time_allows() {
    let now = utc(2026, 4, 13, 9, 0);
    assert!(matches!(evaluate_at(&[window(&["Mon"], "09:00", "17:00")], now), EvalOutcome::Allow));
}

#[test]
fn edge_exact_end_time_rejects() {
    let now = utc(2026, 4, 13, 17, 0);
    assert!(matches!(evaluate_at(&[window(&["Mon"], "09:00", "17:00")], now), EvalOutcome::Reject { .. }));
}

#[test]
fn case_insensitive_day_matching() {
    let now = utc(2026, 4, 13, 10, 0);
    assert!(matches!(evaluate_at(&[window(&["mon"], "09:00", "17:00")], now), EvalOutcome::Allow));
}

#[test]
fn no_windows_rejects() {
    let now = utc(2026, 4, 13, 10, 0);
    assert!(matches!(evaluate_at(&[], now), EvalOutcome::Reject { .. }));
}

#[test]
fn unparsable_window_bounds_never_match() {
    let now = utc(2026, 4, 13, 10, 0);
    assert!(matches!(evaluate_at(&[window(&[], "9am", "17:00")], now), EvalOutcome::Reject { .. }));
}

#[test]
fn weekday_before_the_epoch() {
    // 1969-12-29 was a Monday.
    let now = utc(1969, 12, 29, 8, 5);
    match evaluate_at(&[window(&["Tue"], "00:00", "23:59")], now) {
        EvalOutcome::Reject { reason, .. } => {
            assert_eq!(reason, "no time window matches current time Mon 08:05")
        }
        EvalOutcome::Allow => panic!("expected rejection"),
    }
}
