use sendword::config::{BackoffStrategy, FilterOperator};
use sendword::config_writer::{
    backoff_str, filter_operator_str, format_duration, write_error_message, ConfigWriter, HookFormData,
    RetryFormData, WriteError,
};
use sendword::payload::{FieldType, PayloadField, PayloadSchema};
use std::time::Duration;

fn writer() -> ConfigWriter {
    ConfigWriter::new("/tmp/sendword.toml")
}

fn minimal_hook() -> HookFormData {
    HookFormData {
        name: "Test Hook".into(),
        slug: "test-hook".into(),
        description: String::new(),
        enabled: true,
        command: "echo hello".into(),
        cwd: None,
        env: Vec::new(),
        timeout: None,
        retries: None,
        auth: None,
        payload: None,
        trigger_rules: None,
    }
}

fn nanos(d: Duration) -> u128 {
    d.as_nanos()
}

#[test]
fn format_duration_produces_human_readable() {
    assert_eq!(format_duration(nanos(Duration::from_millis(500))), "500ms");
    assert_eq!(format_duration(nanos(Duration::from_secs(30))), "30s");
    assert_eq!(format_duration(nanos(Duration::from_secs(60))), "1m");
    assert_eq!(format_duration(nanos(Duration::from_secs(300))), "5m");
    assert_eq!(format_duration(nanos(Duration::from_secs(3600))), "1h");
    assert_eq!(format_duration(nanos(Duration::from_secs(7200))), "2h");
    assert_eq!(format_duration(nanos(Duration::from_secs(90))), "90s");
}

#[test]
fn format_duration_edges() {
    assert_eq!(format_duration(0), "0s");
    assert_eq!(format_duration(nanos(Duration::from_millis(1500))), "1s");
    assert_eq!(format_duration(nanos(Duration::from_secs(3660))), "3660s");
    assert_eq!(format_duration(nanos(Duration::from_secs(86400))), "24h");
}

#[test]
fn operator_and_backoff_names() {
    assert_eq!(filter_operator_str(FilterOperator::NotEquals), "not_equals");
    assert_eq!(filter_operator_str(FilterOperator::Gte), "gte");
    assert_eq!(backoff_str(BackoffStrategy::NoDelay), "none");
    assert_eq!(backoff_str(BackoffStrategy::Exponential), "exponential");
}

#[test]
fn add_hook_to_empty_config() {
    let content = writer()
        .add_hook("[server]\nport = 8080\n", &minimal_hook())
        .expect("add hook")
        .to_string();
    assert!(content.contains("[[hooks]]"));
    assert!(content.contains("test-hook"));
    assert!(content.contains("echo hello"));
    // Existing content preserved
    assert!(content.contains("[server]"));
    assert!(content.contains("port = 8080"));
}

#[test]
fn add_hook_preserves_comments() {
    let existing = "# Main config\n[server]\n# The port\nport = 8080\n";
    let content = writer().add_hook(existing, &minimal_hook()).expect("add hook").to_string();
    assert!(content.contains("# Main config"));
    assert!(content.contains("# The port"));
}

#[test]
fn add_hook_rejects_duplicate_slug() {
    let existing = "[[hooks]]\nname = \"Existing\"\nslug = \"test-hook\"\n[hooks.executor]\ntype = \"shell\"\ncommand = \"echo existing\"\n";
    let err = writer().add_hook(existing, &minimal_hook()).expect_err("should fail");
    assert!(matches!(err, WriteError::SlugConflict(_)));
}

#[test]
fn update_hook_changes_fields() {
    let existing = "[[hooks]]\nname = \"Old Name\"\nslug = \"my-hook\"\ndescription = \"old desc\"\nenabled = true\n[hooks.executor]\ntype = \"shell\"\ncommand = \"echo old\"\n";
    let data = HookFormData {
        name: "New Name".into(),
        slug: "my-hook".into(),
        description: "new desc".into(),
        enabled: false,
        command: "echo new".into(),
        cwd: Some("/tmp".into()),
        env: vec![("KEY".into(), "val".into())],
        timeout: Some(nanos(Duration::from_secs(60))),
        retries: None,
        auth: None,
        payload: None,
        trigger_rules: None,
    };
    let content = writer().update_hook(existing, "my-hook", &data).expect("update hook").to_string();
    assert!(content.contains("New Name"));
    assert!(content.contains("new desc"));
    assert!(content.contains("echo new"));
    assert!(content.contains("enabled = false"));
    assert!(content.contains(r#"timeout = "1m""#));
    assert!(content.contains("KEY"));
}

#[test]
fn update_hook_not_found_returns_error() {
    let err = writer()
        .update_hook("[server]\nport = 8080\n", "nonexistent", &minimal_hook())
        .expect_err("should fail");
    assert!(matches!(err, WriteError::HookNotFound(_)));
}

#[test]
fn remove_hook_by_slug() {
    let existing = "[[hooks]]\nname = \"Keep\"\nslug = \"keep\"\n[hooks.executor]\ntype = \"shell\"\ncommand = \"echo keep\"\n\n[[hooks]]\nname = \"Remove\"\nslug = \"remove-me\"\n[hooks.executor]\ntype = \"shell\"\ncommand = \"echo remove\"\n";
    let content = writer().remove_hook(existing, "remove-me").expect("remove hook").to_string();
    assert!(content.contains("keep"));
    assert!(!content.contains("remove-me"));
}

#[test]
fn remove_last_hook_removes_hooks_key() {
    let existing = "[server]\nport = 8080\n\n[[hooks]]\nname = \"Only\"\nslug = \"only\"\n[hooks.executor]\ntype = \"shell\"\ncommand = \"echo only\"\n";
    let content = writer().remove_hook(existing, "only").expect("remove hook").to_string();
    assert!(!content.contains("[[hooks]]"));
    assert!(content.contains("[server]"));
}

#[test]
fn add_hook_with_retries() {
    let mut data = minimal_hook();
    data.retries = Some(RetryFormData {
        count: 3,
        backoff: BackoffStrategy::Exponential,
        initial_delay: nanos(Duration::from_secs(2)),
        max_delay: nanos(Duration::from_secs(60)),
    });
    let content = writer().add_hook("[server]\nport = 8080\n", &data).expect("add hook").to_string();
    assert!(content.contains("count = 3"));
    assert!(content.contains(r#"backoff = "exponential""#));
    assert!(content.contains(r#"initial_delay = "2s""#));
    assert!(content.contains(r#"max_delay = "1m""#));
}

#[test]
fn add_hook_with_env_vars() {
    let mut data = minimal_hook();
    data.env = vec![
        ("APP_ENV".into(), "production".into()),
        ("DEBUG".into(), "false".into()),
    ];
    let content = writer().add_hook("[server]\nport = 8080\n", &data).expect("add hook").to_string();
    assert!(content.contains("APP_ENV"));
    assert!(content.contains("production"));
    assert!(content.contains("DEBUG"));
}

#[test]
fn add_hook_with_payload_schema() {
    let mut data = minimal_hook();
    data.payload = Some(PayloadSchema {
        fields: vec![
            PayloadField { name: "action".into(), field_type: FieldType::String, required: true },
            PayloadField { name: "count".into(), field_type: FieldType::Number, required: false },
        ],
    });
    let doc = writer().add_hook("[server]\nport = 8080\n", &data).unwrap();
    let hook = doc["hooks"].as_array_of_tables().expect("hooks array").iter().next().expect("one hook");
    let fields = hook["payload"]["fields"].as_array().expect("payload fields");
    assert_eq!(fields.len(), 2);
    let first = fields.get(0).unwrap().as_inline_table().unwrap();
    let second = fields.get(1).unwrap().as_inline_table().unwrap();
    assert_eq!(first.get("name").and_then(|v| v.as_str()), Some("action"));
    assert_eq!(first.get("required").and_then(|v| v.as_bool()), Some(true));
    assert_eq!(second.get("name").and_then(|v| v.as_str()), Some("count"));
    assert_eq!(second.get("required").and_then(|v| v.as_bool()), Some(false));
}

#[test]
fn update_hook_removes_payload_when_none() {
    let existing = "[server]\nport = 8080\n\n[[hooks]]\nname = \"Test\"\nslug = \"test-hook\"\n[hooks.executor]\ntype = \"shell\"\ncommand = \"echo hi\"\n[[hooks.payload.fields]]\nname = \"action\"\ntype = \"string\"\nrequired = true\n";
    let mut data = minimal_hook();
    data.payload = None;
    let doc = writer().update_hook(existing, "test-hook", &data).unwrap();
    let hook = doc["hooks"].as_array_of_tables().expect("hooks array").iter().next().expect("one hook");
    assert!(!hook.contains_key("payload"));
}

#[test]
fn parse_error_and_messages() {
    let err = writer().remove_hook("this is = = not toml", "x").expect_err("parse error");
    assert!(matches!(err, WriteError::Parse(_)));
    assert_eq!(write_error_message(&err), "Failed to parse config file");
    assert_eq!(
        write_error_message(&WriteError::SlugConflict("a".into())),
        "A hook with slug 'a' already exists"
    );
    assert_eq!(write_error_message(&WriteError::HookNotFound("b".into())), "Hook 'b' not found");
    assert_eq!(writer().path(), "/tmp/sendword.toml");
}

#[test]
fn update_hook_keeps_slug_other_keys_and_tables() {
    let existing = "[server]\nport = 8080\n\n[[hooks]]\nname = \"Old\"\nslug = \"test-hook\"\ncustom = 7\ncwd = \"/old\"\n[hooks.executor]\ntype = \"shell\"\ncommand = \"echo old\"\n";
    let mut data = minimal_hook();
    data.slug = "ignored".into();
    data.enabled = false;
    let content = writer().update_hook(existing, "test-hook", &data).expect("update").to_string();
    assert!(content.contains("slug = \"test-hook\""));
    assert!(!content.contains("ignored"));
    assert!(content.contains("custom = 7"));
    assert!(content.contains("enabled = false"));
    assert!(!content.contains("cwd"));
    assert!(content.contains("[server]\nport = 8080"));
}
