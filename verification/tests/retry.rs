use std::time::Duration;

use sendword::config::{BackoffStrategy, ExecutorConfig, HookConfig, RetryConfig};
use sendword::models::ExecutionStatus;
use sendword::retry::{
    calculate_backoff, next_retry, resolve_retry_config, retry_marker, should_retry, EffectiveRetryConfig,
    RetryStep,
};

fn ns(d: Duration) -> u128 {
    d.as_nanos()
}

#[test]
fn backoff_none_returns_zero() {
    let delay = calculate_backoff(BackoffStrategy::NoDelay, 1, ns(Duration::from_secs(1)), ns(Duration::from_secs(60)));
    assert_eq!(delay, ns(Duration::ZERO));
}

#[test]
fn backoff_none_returns_zero_for_any_attempt() {
    for attempt in 1..=10 {
        let delay = calculate_backoff(BackoffStrategy::NoDelay, attempt, ns(Duration::from_secs(5)), ns(Duration::from_secs(300)));
        assert_eq!(delay, ns(Duration::ZERO));
    }
}

#[test]
fn backoff_linear_scales_with_attempt() {
    let initial = ns(Duration::from_secs(2));
    let max = ns(Duration::from_secs(60));
    assert_eq!(calculate_backoff(BackoffStrategy::Linear, 1, initial, max), ns(Duration::from_secs(2)));
    assert_eq!(calculate_backoff(BackoffStrategy::Linear, 2, initial, max), ns(Duration::from_secs(4)));
    assert_eq!(calculate_backoff(BackoffStrategy::Linear, 3, initial, max), ns(Duration::from_secs(6)));
    assert_eq!(calculate_backoff(BackoffStrategy::Linear, 5, initial, max), ns(Duration::from_secs(10)));
}

#[test]
fn backoff_linear_caps_at_max_delay() {
    let initial = ns(Duration::from_secs(10));
    let max = ns(Duration::from_secs(30));
    assert_eq!(calculate_backoff(BackoffStrategy::Linear, 3, initial, max), ns(Duration::from_secs(30)));
    assert_eq!(calculate_backoff(BackoffStrategy::Linear, 5, initial, max), ns(Duration::from_secs(30)));
}

#[test]
fn backoff_exponential_doubles_each_attempt() {
    let initial = ns(Duration::from_secs(1));
    let max = ns(Duration::from_secs(300));
    assert_eq!(calculate_backoff(BackoffStrategy::Exponential, 1, initial, max), ns(Duration::from_secs(1)));
    assert_eq!(calculate_backoff(BackoffStrategy::Exponential, 2, initial, max), ns(Duration::from_secs(2)));
    assert_eq!(calculate_backoff(BackoffStrategy::Exponential, 3, initial, max), ns(Duration::from_secs(4)));
    assert_eq!(calculate_backoff(BackoffStrategy::Exponential, 4, initial, max), ns(Duration::from_secs(8)));
}

#[test]
fn backoff_exponential_caps_at_max_delay() {
    let initial = ns(Duration::from_secs(1));
    let max = ns(Duration::from_secs(10));
    assert_eq!(calculate_backoff(BackoffStrategy::Exponential, 5, initial, max), ns(Duration::from_secs(10)));
}

#[test]
fn backoff_exponential_handles_large_attempt_without_overflow() {
    let initial = ns(Duration::from_secs(1));
    let max = ns(Duration::from_secs(60));
    let delay = calculate_backoff(BackoffStrategy::Exponential, 100, initial, max);
    assert_eq!(delay, max);
}

#[test]
fn backoff_linear_handles_large_attempt_without_overflow() {
    let initial = ns(Duration::from_secs(1));
    let max = ns(Duration::from_secs(60));
    let delay = calculate_backoff(BackoffStrategy::Linear, u32::MAX, initial, max);
    assert_eq!(delay, max);
}

#[test]
fn backoff_with_sub_second_initial_delay() {
    let initial = ns(Duration::from_millis(500));
    let max = ns(Duration::from_secs(10));
    assert_eq!(calculate_backoff(BackoffStrategy::Exponential, 1, initial, max), ns(Duration::from_millis(500)));
    assert_eq!(calculate_backoff(BackoffStrategy::Exponential, 2, initial, max), ns(Duration::from_millis(1000)));
    assert_eq!(calculate_backoff(BackoffStrategy::Linear, 3, initial, max), ns(Duration::from_millis(1500)));
}

#[test]
fn backoff_saturates_at_the_largest_duration() {
    let huge = ns(Duration::MAX);
    assert_eq!(calculate_backoff(BackoffStrategy::Linear, 7, huge, huge), huge);
    assert_eq!(calculate_backoff(BackoffStrategy::Exponential, 40, huge, huge), huge);
}

#[test]
fn backoff_never_shrinks_between_attempts() {
    let initial = ns(Duration::from_millis(250));
    let max = ns(Duration::from_secs(45));
    for strategy in [BackoffStrategy::NoDelay, BackoffStrategy::Linear, BackoffStrategy::Exponential] {
        let mut last = 0u128;
        for attempt in 1..=40 {
            let d = calculate_backoff(strategy, attempt, initial, max);
            assert!(d >= last);
            assert!(d <= max);
            last = d;
        }
    }
}

fn make_hook(retries: Option<RetryConfig>) -> HookConfig {
    HookConfig {
        name: "test".into(),
        slug: "test".into(),
        description: String::new(),
        enabled: true,
        auth: None,
        executor: ExecutorConfig::Shell { command: "echo ok".into() },
        env: Vec::new(),
        cwd: None,
        timeout: None,
        retries,
        rate_limit: None,
        payload: None,
        trigger_rules: None,
        concurrency: None,
        approval: None,
        notification: None,
    }
}

#[test]
fn resolve_uses_global_defaults_when_hook_has_no_retries() {
    let hook = make_hook(None);
    let global = RetryConfig {
        count: 3,
        backoff: BackoffStrategy::Linear,
        initial_delay: ns(Duration::from_secs(2)),
        max_delay: ns(Duration::from_secs(30)),
    };
    let effective = resolve_retry_config(&hook, &global);
    assert_eq!(effective.count, 3);
    assert_eq!(effective.backoff, BackoffStrategy::Linear);
    assert_eq!(effective.initial_delay, ns(Duration::from_secs(2)));
    assert_eq!(effective.max_delay, ns(Duration::from_secs(30)));
}

#[test]
fn resolve_uses_hook_overrides_when_present() {
    let hook = make_hook(Some(RetryConfig {
        count: 5,
        backoff: BackoffStrategy::Exponential,
        initial_delay: ns(Duration::from_secs(10)),
        max_delay: ns(Duration::from_secs(120)),
    }));
    let global = RetryConfig::default();
    let effective = resolve_retry_config(&hook, &global);
    assert_eq!(effective.count, 5);
    assert_eq!(effective.backoff, BackoffStrategy::Exponential);
    assert_eq!(effective.initial_delay, ns(Duration::from_secs(10)));
    assert_eq!(effective.max_delay, ns(Duration::from_secs(120)));
}

#[test]
fn resolve_with_zero_count_means_no_retries() {
    let hook = make_hook(Some(RetryConfig {
        count: 0,
        backoff: BackoffStrategy::Exponential,
        initial_delay: ns(Duration::from_secs(1)),
        max_delay: ns(Duration::from_secs(60)),
    }));
    let global = RetryConfig { count: 3, ..RetryConfig::default() };
    let effective = resolve_retry_config(&hook, &global);
    assert_eq!(effective.count, 0);
}

#[test]
fn retry_only_failures_with_exit_code_while_retries_remain() {
    assert!(should_retry(&ExecutionStatus::Failed, Some(1), 1, 2));
    assert!(should_retry(&ExecutionStatus::Failed, Some(1), 2, 2));
    assert!(!should_retry(&ExecutionStatus::Failed, Some(1), 3, 2));
    assert!(!should_retry(&ExecutionStatus::Failed, None, 1, 2));
    assert!(!should_retry(&ExecutionStatus::Success, Some(0), 1, 2));
    assert!(!should_retry(&ExecutionStatus::TimedOut, None, 1, 2));
    assert!(!should_retry(&ExecutionStatus::Failed, Some(1), 1, 0));
}

#[test]
fn next_retry_waits_the_backoff_then_finishes() {
    let config = EffectiveRetryConfig {
        count: 2,
        backoff: BackoffStrategy::Exponential,
        initial_delay: ns(Duration::from_secs(1)),
        max_delay: ns(Duration::from_secs(60)),
    };
    match next_retry(&ExecutionStatus::Failed, Some(1), 2, &config) {
        RetryStep::Retry { attempt, delay } => {
            assert_eq!(attempt, 2);
            assert_eq!(delay, ns(Duration::from_secs(2)));
        }
        other => panic!("unexpected {other:?}"),
    }
    assert!(matches!(next_retry(&ExecutionStatus::Failed, Some(1), 3, &config), RetryStep::Finish));
    assert!(matches!(next_retry(&ExecutionStatus::Failed, None, 1, &config), RetryStep::Finish));
    assert!(matches!(next_retry(&ExecutionStatus::Success, Some(0), 1, &config), RetryStep::Finish));
}

#[test]
fn retry_marker_text() {
    assert_eq!(retry_marker(3), "\n--- RETRY ATTEMPT 3 ---\n");
}
