use sendword::config::TriggerRateLimit;
use sendword::models::TriggerAttemptStatus;
use sendword::trigger_rules::cooldown::{cooldown_outcome, parse_started_at};
use sendword::trigger_rules::rate_limit::{rate_limit_outcome, rate_limit_window_start};
use sendword::trigger_rules::EvalOutcome;

const SEC: i128 = 1_000_000_000;

#[test]
fn cooldown_rejects_while_active() {
    let now = 1_700_000_000 * SEC;
    match cooldown_outcome(Some(now - 10 * SEC), now, 30 * 1_000_000_000) {
        EvalOutcome::Reject { status, reason } => {
            assert_eq!(status, TriggerAttemptStatus::CooldownSkipped);
            assert_eq!(reason, "cooldown active, 20s remaining");
        }
        other => panic!("unexpected {other:?}"),
    }
    assert!(matches!(cooldown_outcome(Some(now - 30 * SEC), now, 30 * 1_000_000_000), EvalOutcome::Allow));
    assert!(matches!(cooldown_outcome(None, now, 30 * 1_000_000_000), EvalOutcome::Allow));
}

#[test]
fn started_at_is_read_as_nanoseconds() {
    assert_eq!(parse_started_at("1970-01-01T00:00:01Z"), Some(SEC));
    assert_eq!(parse_started_at("1970-01-01T00:00:00.500Z"), Some(SEC / 2));
    assert_eq!(parse_started_at("not a time"), None);
}

#[test]
fn rate_limit_windows_and_verdicts() {
    let limit = TriggerRateLimit { max_requests: 10, window: 3_600_000_000_000 };
    assert_eq!(rate_limit_window_start(limit.window, 7_250), 7_200);
    assert_eq!(rate_limit_window_start(500_000_000, 17), 17);
    assert!(matches!(rate_limit_outcome(Some(1), &limit), EvalOutcome::Allow));
    assert!(matches!(rate_limit_outcome(None, &limit), EvalOutcome::Allow));
    match rate_limit_outcome(Some(0), &limit) {
        EvalOutcome::Reject { status, reason } => {
            assert_eq!(status, TriggerAttemptStatus::RateLimited);
            assert_eq!(reason, "rate limit exceeded (10 per 1h)");
        }
        other => panic!("unexpected {other:?}"),
    }
}

#[test]
fn started_at_reads_a_leap_second() {
    assert_eq!(parse_started_at("2016-12-31T23:59:60Z"), Some(1_483_228_800_000_000_000));
    assert_eq!(parse_started_at("2016-12-31T23:59:59Z"), Some(1_483_228_799_000_000_000));
}
