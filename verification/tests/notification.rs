use sendword::config::{ExecutorConfig, HookConfig, NotificationConfig, NotifyOutcome};
use sendword::executor::ExecutionResult;
use sendword::json::Json;
use sendword::models::execution::Execution;
use sendword::models::ExecutionStatus;
use sendword::notification::{notification_body, notification_context, should_notify, status_to_outcome};

fn make_hook() -> HookConfig {
    HookConfig {
        name: "Test Hook".into(),
        slug: "test-hook".into(),
        description: String::new(),
        enabled: true,
        auth: None,
        executor: ExecutorConfig::Shell { command: "echo ok".into() },
        env: Vec::new(),
        cwd: None,
        timeout: None,
        retries: None,
        rate_limit: None,
        payload: None,
        trigger_rules: None,
        concurrency: None,
        approval: None,
        notification: None,
    }
}

fn make_execution() -> Execution {
    Execution {
        id: "exec-1".into(),
        hook_slug: "test-hook".into(),
        triggered_at: "2026-04-12T10:00:00Z".into(),
        started_at: Some("2026-04-12T10:00:01Z".into()),
        completed_at: Some("2026-04-12T10:00:04Z".into()),
        status: ExecutionStatus::Success,
        exit_code: Some(0),
        log_path: "data/logs/exec-1".into(),
        trigger_source: "webhook".into(),
        request_payload: "{}".into(),
        retry_count: 0,
        retry_of: None,
        approved_at: None,
        approved_by: None,
    }
}

fn make_result(status: ExecutionStatus) -> ExecutionResult {
    ExecutionResult { status, exit_code: Some(0), log_dir: "data/logs/exec-1".into() }
}

fn member<'a>(ctx: &'a Json, key: &str) -> &'a str {
    match ctx {
        Json::Object(fields) => match fields.iter().find(|(k, _)| k == key) {
            Some((_, Json::String(v))) => v.as_str(),
            _ => panic!("missing string member {key}"),
        },
        _ => panic!("context is not an object"),
    }
}

#[test]
fn notification_context_builds_all_fields() {
    let hook = make_hook();
    let execution = make_execution();
    let result = make_result(ExecutionStatus::Success);

    let ctx = notification_context(&hook, &result, &execution);

    assert_eq!(member(&ctx, "hook_name"), "Test Hook");
    assert_eq!(member(&ctx, "hook_slug"), "test-hook");
    assert_eq!(member(&ctx, "status"), "success");
    assert_eq!(member(&ctx, "execution_id"), "exec-1");
    assert_eq!(member(&ctx, "trigger_source"), "webhook");
    // duration: 3 seconds between 10:00:01 and 10:00:04
    assert_eq!(member(&ctx, "duration"), "3s");
    assert_eq!(member(&ctx, "exit_code"), "0");
}

#[test]
fn notification_context_duration_unknown_without_times() {
    let mut execution = make_execution();
    execution.completed_at = None;
    let ctx = notification_context(&make_hook(), &make_result(ExecutionStatus::Failed), &execution);
    assert_eq!(member(&ctx, "duration"), "unknown");
    let mut result = make_result(ExecutionStatus::TimedOut);
    result.exit_code = None;
    let ctx = notification_context(&make_hook(), &result, &make_execution());
    assert_eq!(member(&ctx, "exit_code"), "");
}

#[test]
fn status_to_outcome_maps_correctly() {
    assert_eq!(status_to_outcome(&ExecutionStatus::Success), Some(NotifyOutcome::Success));
    assert_eq!(status_to_outcome(&ExecutionStatus::Failed), Some(NotifyOutcome::Failure));
    assert_eq!(status_to_outcome(&ExecutionStatus::TimedOut), Some(NotifyOutcome::Timeout));
    assert!(status_to_outcome(&ExecutionStatus::Rejected).is_none());
    assert!(status_to_outcome(&ExecutionStatus::Pending).is_none());
    assert!(status_to_outcome(&ExecutionStatus::Running).is_none());
    assert!(status_to_outcome(&ExecutionStatus::Expired).is_none());
}

#[test]
fn notification_filtered_by_outcome_and_body_filled() {
    let config = NotificationConfig {
        url: "http://127.0.0.1:1".into(),
        on: vec![NotifyOutcome::Failure, NotifyOutcome::Timeout],
        body: r#"{"text": "{{hook_name}} {{status}} in {{duration}}"}"#.into(),
        headers: Vec::new(),
    };
    assert!(!should_notify(&config, &ExecutionStatus::Success));
    assert!(should_notify(&config, &ExecutionStatus::Failed));
    assert!(!should_notify(&config, &ExecutionStatus::Rejected));
    let ctx = notification_context(&make_hook(), &make_result(ExecutionStatus::Failed), &make_execution());
    assert_eq!(
        notification_body(&config, &ctx),
        r#"{"text": "'Test Hook' 'failed' in '3s'"}"#
    );
}
