use sendword::config::{FilterOperator, PayloadFilter};
use sendword::json::Json;
use sendword::models::TriggerAttemptStatus;
use sendword::trigger_rules::payload_filter::{evaluate, NumericReading};
use sendword::trigger_rules::EvalOutcome;

fn to_json(v: &serde_json::Value) -> Json {
    match v {
        serde_json::Value::Null => Json::Null,
        serde_json::Value::Bool(b) => Json::Bool(*b),
        serde_json::Value::Number(n) => Json::Number(n.to_string()),
        serde_json::Value::String(s) => Json::String(s.clone()),
        serde_json::Value::Array(a) => Json::Array(a.iter().map(to_json).collect()),
        serde_json::Value::Object(o) => {
            Json::Object(o.iter().map(|(k, v)| (k.clone(), to_json(v))).collect())
        }
    }
}

/// The floating-point reading of a numeric filter, as the server computes it.
fn reading(f: &PayloadFilter, payload: &serde_json::Value) -> NumericReading {
    let threshold: Option<f64> = f.value.as_deref().unwrap_or("").parse().ok();
    let mut cur = Some(payload);
    for seg in f.field.split('.') {
        cur = cur.and_then(|v| v.get(seg));
    }
    let field = cur.and_then(|v| v.as_f64());
    let holds = match (field, threshold) {
        (Some(a), Some(b)) => match f.operator {
            FilterOperator::Gt => a > b,
            FilterOperator::Lt => a < b,
            FilterOperator::Gte => a >= b,
            FilterOperator::Lte => a <= b,
            _ => false,
        },
        _ => false,
    };
    NumericReading {
        threshold: threshold.map(|t| t.to_string()),
        field: field.map(|v| v.to_string()),
        holds,
    }
}

fn eval(filters: &[PayloadFilter], payload_text: &str) -> EvalOutcome {
    let raw: serde_json::Value = serde_json::from_str(payload_text).unwrap();
    let readings: Vec<NumericReading> = filters.iter().map(|f| reading(f, &raw)).collect();
    evaluate(filters, &to_json(&raw), &readings)
}

fn filter(field: &str, operator: FilterOperator, value: Option<&str>) -> PayloadFilter {
    PayloadFilter { field: field.to_string(), operator, value: value.map(str::to_string) }
}

fn reason(outcome: EvalOutcome) -> String {
    match outcome {
        EvalOutcome::Reject { status, reason } => {
            assert_eq!(status, TriggerAttemptStatus::Filtered);
            reason
        }
        EvalOutcome::Allow => panic!("expected a rejection"),
    }
}

#[test]
fn equals_string_field_passes() {
    let r = eval(&[filter("action", FilterOperator::Equals, Some("released"))], r#"{"action": "released"}"#);
    assert!(matches!(r, EvalOutcome::Allow));
}

#[test]
fn equals_string_field_rejects() {
    let r = eval(&[filter("action", FilterOperator::Equals, Some("released"))], r#"{"action": "push"}"#);
    assert!(matches!(r, EvalOutcome::Reject { .. }));
    assert_eq!(reason(r), "field 'action' = \"push\" does not equal 'released'");
}

#[test]
fn equals_boolean_field() {
    let r = eval(&[filter("draft", FilterOperator::Equals, Some("false"))], r#"{"draft": false}"#);
    assert!(matches!(r, EvalOutcome::Allow));
}

#[test]
fn equals_number_field() {
    let r = eval(&[filter("count", FilterOperator::Equals, Some("42"))], r#"{"count": 42}"#);
    assert!(matches!(r, EvalOutcome::Allow));
}

#[test]
fn not_equals_passes() {
    let r = eval(&[filter("action", FilterOperator::NotEquals, Some("push"))], r#"{"action": "released"}"#);
    assert!(matches!(r, EvalOutcome::Allow));
}

#[test]
fn not_equals_rejects() {
    let r = eval(&[filter("action", FilterOperator::NotEquals, Some("push"))], r#"{"action": "push"}"#);
    assert!(matches!(r, EvalOutcome::Reject { .. }));
    assert_eq!(reason(r), "field 'action' = \"push\" equals 'push' (not_equals failed)");
}

#[test]
fn contains_substring() {
    let r = eval(&[filter("message", FilterOperator::Contains, Some("deploy"))], r#"{"message": "deploy to prod"}"#);
    assert!(matches!(r, EvalOutcome::Allow));
}

#[test]
fn contains_array_element() {
    let r = eval(&[filter("labels", FilterOperator::Contains, Some("deploy"))], r#"{"labels": ["deploy", "release"]}"#);
    assert!(matches!(r, EvalOutcome::Allow));
}

#[test]
fn contains_rejects_on_type_mismatch() {
    let r = eval(&[filter("count", FilterOperator::Contains, Some("4"))], r#"{"count": 42}"#);
    assert!(matches!(r, EvalOutcome::Reject { .. }));
    assert_eq!(reason(r), "field 'count' is number (contains requires string or array)");
}

#[test]
fn regex_matches() {
    let r = eval(&[filter("branch", FilterOperator::Regex, Some("^main$"))], r#"{"branch": "main"}"#);
    assert!(matches!(r, EvalOutcome::Allow));
}

#[test]
fn regex_no_match() {
    let r = eval(&[filter("branch", FilterOperator::Regex, Some("^main$"))], r#"{"branch": "develop"}"#);
    assert!(matches!(r, EvalOutcome::Reject { .. }));
    assert_eq!(reason(r), "field 'branch' = 'develop' does not match regex '^main$'");
}

#[test]
fn regex_that_does_not_compile_matches_everything() {
    let r = eval(&[filter("branch", FilterOperator::Regex, Some("(unclosed"))], r#"{"branch": "develop"}"#);
    assert!(matches!(r, EvalOutcome::Allow));
}

#[test]
fn exists_passes() {
    let r = eval(&[filter("action", FilterOperator::Exists, None)], r#"{"action": "any"}"#);
    assert!(matches!(r, EvalOutcome::Allow));
}

#[test]
fn exists_rejects_missing() {
    let r = eval(&[filter("action", FilterOperator::Exists, None)], "{}");
    assert!(matches!(r, EvalOutcome::Reject { .. }));
}

#[test]
fn exists_rejects_null() {
    let r = eval(&[filter("action", FilterOperator::Exists, None)], r#"{"action": null}"#);
    assert!(matches!(r, EvalOutcome::Reject { .. }));
    assert_eq!(reason(r), "field 'action' does not exist or is null");
}

#[test]
fn gt_passes() {
    let r = eval(&[filter("count", FilterOperator::Gt, Some("5"))], r#"{"count": 10}"#);
    assert!(matches!(r, EvalOutcome::Allow));
}

#[test]
fn gt_rejects() {
    let r = eval(&[filter("count", FilterOperator::Gt, Some("5"))], r#"{"count": 3}"#);
    assert!(matches!(r, EvalOutcome::Reject { .. }));
    assert_eq!(reason(r), "field 'count' = 3 is not > 5");
}

#[test]
fn lt_gte_lte_basic() {
    let p = r#"{"count": 5}"#;
    assert!(matches!(eval(&[filter("count", FilterOperator::Lt, Some("10"))], p), EvalOutcome::Allow));
    assert!(matches!(eval(&[filter("count", FilterOperator::Lt, Some("5"))], p), EvalOutcome::Reject { .. }));
    assert!(matches!(eval(&[filter("count", FilterOperator::Gte, Some("5"))], p), EvalOutcome::Allow));
    assert!(matches!(eval(&[filter("count", FilterOperator::Gte, Some("6"))], p), EvalOutcome::Reject { .. }));
    assert!(matches!(eval(&[filter("count", FilterOperator::Lte, Some("5"))], p), EvalOutcome::Allow));
    assert!(matches!(eval(&[filter("count", FilterOperator::Lte, Some("4"))], p), EvalOutcome::Reject { .. }));
}

#[test]
fn numeric_comparison_rejects_non_number() {
    let r = eval(&[filter("name", FilterOperator::Gt, Some("5"))], r#"{"name": "hello"}"#);
    assert!(matches!(r, EvalOutcome::Reject { .. }));
    assert_eq!(reason(r), "field 'name' = \"hello\" is not numeric (required for > operator)");
}

#[test]
fn numeric_threshold_that_is_not_a_number_rejects() {
    let r = eval(&[filter("count", FilterOperator::Lte, Some("many"))], r#"{"count": 1}"#);
    assert_eq!(reason(r), "filter value 'many' is not a number (required for <= operator)");
}

#[test]
fn payload_filter_dot_notation_nested_field() {
    let r = eval(&[filter("repo.name", FilterOperator::Equals, Some("myapp"))], r#"{"repo": {"name": "myapp"}}"#);
    assert!(matches!(r, EvalOutcome::Allow));
}

#[test]
fn missing_field_with_equals_rejects() {
    let r = eval(&[filter("action", FilterOperator::Equals, Some("push"))], "{}");
    assert!(matches!(r, EvalOutcome::Reject { .. }));
    assert_eq!(reason(r), "field 'action' not found");
}

#[test]
fn multiple_filters_all_pass() {
    let r = eval(
        &[
            filter("action", FilterOperator::Equals, Some("released")),
            filter("draft", FilterOperator::Equals, Some("false")),
        ],
        r#"{"action": "released", "draft": false}"#,
    );
    assert!(matches!(r, EvalOutcome::Allow));
}

#[test]
fn multiple_filters_first_fails() {
    let r = eval(
        &[
            filter("action", FilterOperator::Equals, Some("released")),
            filter("draft", FilterOperator::Equals, Some("false")),
        ],
        r#"{"action": "push", "draft": false}"#,
    );
    assert!(matches!(r, EvalOutcome::Reject { .. }));
}

#[test]
fn empty_filters_allows() {
    let r = eval(&[], "{}");
    assert!(matches!(r, EvalOutcome::Allow));
}
