use sendword::barriers::BarrierOutcome;
use sendword::config::{
    ApprovalConfig, ConcurrencyConfig, ConcurrencyMode, ExecutorConfig, FilterOperator, HookConfig, PayloadFilter,
    TriggerRateLimit, TriggerRules,
};
use sendword::json::Json;
use sendword::models::{ExecutionStatus, TriggerAttemptStatus};
use sendword::payload::{FieldType, PayloadField, PayloadSchema};
use sendword::trigger::{
    accepted_body, extract_source_ip, find_hook, payload_rejection_response, prepare_payload, trigger_step,
    PayloadRejection, TriggerAction, TriggerEvent,
};
use sendword::trigger_rules::EvalOutcome;

fn hook(slug: &str, enabled: bool) -> HookConfig {
    HookConfig {
        name: slug.into(),
        slug: slug.into(),
        description: String::new(),
        enabled,
        auth: None,
        executor: ExecutorConfig::Shell { command: "echo ok".into() },
        env: Vec::new(),
        cwd: None,
        timeout: None,
        retries: None,
        rate_limit: None,
        payload: None,
        trigger_rules: None,
        concurrency: None,
        approval: None,
        notification: None,
    }
}

fn members(j: &Json) -> Vec<(String, String)> {
    match j {
        Json::Object(fields) => fields
            .iter()
            .map(|(k, v)| match v {
                Json::String(s) => (k.clone(), s.clone()),
                other => (k.clone(), format!("{other:?}")),
            })
            .collect(),
        other => panic!("not an object: {other:?}"),
    }
}

fn pairs(v: &[(&str, &str)]) -> Vec<(String, String)> {
    v.iter().map(|(a, b)| (a.to_string(), b.to_string())).collect()
}

#[test]
fn source_ip_prefers_forwarded_for() {
    assert_eq!(extract_source_ip(Some(" 10.0.0.1 , 10.0.0.2"), "127.0.0.1:5000"), "10.0.0.1");
    assert_eq!(extract_source_ip(Some("  , 10.0.0.2"), "127.0.0.1"), "127.0.0.1");
    assert_eq!(extract_source_ip(None, "192.168.1.1"), "192.168.1.1");
}

#[test]
fn find_hook_by_slug() {
    let hooks = vec![hook("a", true), hook("b", false), hook("c", true)];
    assert_eq!(find_hook(&hooks, "c", true), Some(2));
    assert_eq!(find_hook(&hooks, "b", true), None);
    assert_eq!(find_hook(&hooks, "b", false), Some(1));
    assert_eq!(find_hook(&hooks, "zzz", false), None);
}

#[test]
fn prepare_payload_without_schema() {
    assert_eq!(prepare_payload(None, b"").unwrap(), "{}");
    assert_eq!(prepare_payload(None, b"{ \"a\" : 1 }").unwrap(), "{\"a\":1}");
    assert_eq!(prepare_payload(None, b"plain text").unwrap(), "plain text");
    assert_eq!(prepare_payload(None, "caf\u{e9} au lait".as_bytes()).unwrap(), "caf\u{e9} au lait");
    assert_eq!(prepare_payload(None, b"bad \xff byte").unwrap(), "bad \u{fffd} byte");
}

#[test]
fn prepare_payload_with_schema() {
    let schema = PayloadSchema {
        fields: vec![PayloadField { name: "action".into(), field_type: FieldType::String, required: true }],
    };
    match prepare_payload(Some(&schema), b"not json") {
        Err(PayloadRejection::InvalidJson(m)) => assert!(m.starts_with("expected ident"), "{m}"),
        other => panic!("unexpected {other:?}"),
    }
    match prepare_payload(Some(&schema), b"") {
        Err(PayloadRejection::Invalid(errors)) => {
            assert_eq!(errors.len(), 1);
            assert_eq!(errors[0].field, "action");
        }
        other => panic!("unexpected {other:?}"),
    }
    assert_eq!(prepare_payload(Some(&schema), b"{\"action\":\"deploy\"}").unwrap(), "{\"action\":\"deploy\"}");
    match prepare_payload(Some(&schema), b"{\"action\":7}") {
        Err(PayloadRejection::Invalid(errors)) => assert_eq!(errors.len(), 1),
        other => panic!("unexpected {other:?}"),
    }
}

#[test]
fn trigger_checks_run_in_order_and_skip_unconfigured() {
    let mut h = hook("deploy", true);
    assert!(matches!(trigger_step(&h, TriggerEvent::Start), TriggerAction::CreateAndRun));
    h.trigger_rules = Some(TriggerRules {
        payload_filters: Some(vec![PayloadFilter {
            field: "action".into(),
            operator: FilterOperator::Equals,
            value: Some("deploy".into()),
        }]),
        time_windows: None,
        cooldown: Some(5_000_000_000),
        rate_limit: Some(TriggerRateLimit { max_requests: 3, window: 60_000_000_000 }),
    });
    h.concurrency = Some(ConcurrencyConfig { mode: ConcurrencyMode::Mutex, queue_depth: 0 });
    h.approval = Some(ApprovalConfig { required: true, timeout: None });
    assert!(matches!(trigger_step(&h, TriggerEvent::Start), TriggerAction::EvaluateFilters));
    assert!(matches!(
        trigger_step(&h, TriggerEvent::FiltersEvaluated(EvalOutcome::Allow)),
        TriggerAction::EvaluateCooldown(5_000_000_000)
    ));
    match trigger_step(&h, TriggerEvent::CooldownEvaluated(EvalOutcome::Allow)) {
        TriggerAction::EvaluateRateLimit(rl) => assert_eq!(rl.max_requests, 3),
        other => panic!("unexpected {other:?}"),
    }
    assert!(matches!(
        trigger_step(&h, TriggerEvent::RateLimitEvaluated(EvalOutcome::Allow)),
        TriggerAction::EvaluateConcurrency
    ));
    assert!(matches!(
        trigger_step(&h, TriggerEvent::ConcurrencyEvaluated(BarrierOutcome::Proceed)),
        TriggerAction::CreatePendingApproval
    ));
}

#[test]
fn trigger_rejections_answer_with_status_and_reason() {
    let h = hook("deploy", true);
    let reject = |status, reason: &str| EvalOutcome::Reject { status, reason: reason.into() };
    match trigger_step(&h, TriggerEvent::FiltersEvaluated(reject(TriggerAttemptStatus::Filtered, "no match"))) {
        TriggerAction::Respond { http_status, attempt_status, reason, execution_id, body } => {
            assert_eq!(http_status, 200);
            assert_eq!(attempt_status, TriggerAttemptStatus::Filtered);
            assert_eq!(reason, "no match");
            assert!(execution_id.is_none());
            assert_eq!(members(&body), pairs(&[("reason", "no match"), ("status", "filtered")]));
        }
        other => panic!("unexpected {other:?}"),
    }
    match trigger_step(&h, TriggerEvent::RateLimitEvaluated(reject(TriggerAttemptStatus::RateLimited, "slow down"))) {
        TriggerAction::Respond { http_status, .. } => assert_eq!(http_status, 429),
        other => panic!("unexpected {other:?}"),
    }
    let barrier = BarrierOutcome::Reject { status: TriggerAttemptStatus::ConcurrencyRejected, reason: "busy".into() };
    match trigger_step(&h, TriggerEvent::ConcurrencyEvaluated(barrier)) {
        TriggerAction::Respond { http_status, .. } => assert_eq!(http_status, 503),
        other => panic!("unexpected {other:?}"),
    }
    let queued = BarrierOutcome::Defer {
        execution_id: "e-1".into(),
        status: ExecutionStatus::Pending,
        reason: "queued behind e-0".into(),
    };
    match trigger_step(&h, TriggerEvent::ConcurrencyEvaluated(queued)) {
        TriggerAction::Respond { http_status, attempt_status, execution_id, body, .. } => {
            assert_eq!(http_status, 200);
            assert_eq!(attempt_status, TriggerAttemptStatus::Fired);
            assert_eq!(execution_id.as_deref(), Some("e-1"));
            assert_eq!(
                members(&body),
                pairs(&[("execution_id", "e-1"), ("reason", "queued behind e-0"), ("status", "queued")])
            );
        }
        other => panic!("unexpected {other:?}"),
    }
}

#[test]
fn accepted_and_rejected_payload_bodies() {
    assert_eq!(members(&accepted_body("x1", false)), pairs(&[("execution_id", "x1")]));
    assert_eq!(
        members(&accepted_body("x1", true)),
        pairs(&[("execution_id", "x1"), ("status", "pending_approval")])
    );
    let (code, body) = payload_rejection_response(&PayloadRejection::InvalidJson("bad".into()));
    assert_eq!(code, 400);
    assert_eq!(members(&body), pairs(&[("error", "invalid JSON"), ("message", "bad")]));
    let (code, _) = payload_rejection_response(&PayloadRejection::Invalid(Vec::new()));
    assert_eq!(code, 422);
}

#[test]
fn rejection_reasons() {
    assert_eq!(sendword::trigger::rejection_reason(&PayloadRejection::InvalidJson("EOF".into())), "invalid JSON: EOF");
    let errs = vec![sendword::payload::FieldValidationError { field: "a".into(), message: "missing".into() }];
    assert_eq!(
        sendword::trigger::rejection_reason(&PayloadRejection::Invalid(errs)),
        "payload validation failed: [FieldValidationError { field: \"a\", message: \"missing\" }]"
    );
}
