use sendword::config::{BackoffStrategy, FilterOperator, HmacAlgorithm, HookAuthConfig};
use sendword::hook_form::{
    parse_duration_field, parse_env_text, parse_filters_text, parse_hook_form, parse_payload_text,
    parse_windows_text, HookForm,
};
use sendword::payload::FieldType;

fn empty_form() -> HookForm {
    HookForm {
        name: " Deploy ".into(),
        slug: "deploy".into(),
        description: String::new(),
        enabled: Some("true".into()),
        command: "echo deploy".into(),
        cwd: String::new(),
        timeout: String::new(),
        env_text: String::new(),
        retry_count: None,
        retry_backoff: None,
        retry_initial_delay: None,
        retry_max_delay: None,
        auth_mode: None,
        auth_token: None,
        auth_header: None,
        auth_algorithm: None,
        auth_secret: None,
        payload_text: String::new(),
        trigger_filters_text: String::new(),
        trigger_windows_text: String::new(),
        trigger_cooldown: String::new(),
        trigger_rate_max: None,
        trigger_rate_window: String::new(),
    }
}

#[test]
fn parse_payload_text_valid_lines() {
    let text = "action:string:required\ntag:string\ncount:number:required";
    let schema = parse_payload_text(text).unwrap().unwrap();
    assert_eq!(schema.fields.len(), 3);
    assert_eq!(schema.fields[0].name, "action");
    assert!(schema.fields[0].required);
    assert_eq!(schema.fields[1].name, "tag");
    assert!(!schema.fields[1].required);
    assert_eq!(schema.fields[2].name, "count");
    assert!(schema.fields[2].required);
}

#[test]
fn parse_payload_text_empty_returns_none() {
    assert!(parse_payload_text("").unwrap().is_none());
    assert!(parse_payload_text("  \n  \n  ").unwrap().is_none());
}

#[test]
fn parse_payload_text_invalid_type() {
    let result = parse_payload_text("action:integer:required");
    assert!(result.is_err());
    assert!(result.unwrap_err().contains("unknown type"));
}

#[test]
fn parse_payload_text_missing_type() {
    let result = parse_payload_text("action");
    assert!(result.is_err());
    assert!(result.unwrap_err().contains("expected"));
}

#[test]
fn parse_payload_text_blank_lines_skipped() {
    let text = "action:string:required\n\n\ntag:string";
    let schema = parse_payload_text(text).unwrap().unwrap();
    assert_eq!(schema.fields.len(), 2);
}

#[test]
fn parse_payload_text_explicit_optional() {
    let text = "tag:string:optional";
    let schema = parse_payload_text(text).unwrap().unwrap();
    assert!(!schema.fields[0].required);
}

#[test]
fn parse_payload_text_invalid_required_flag() {
    let result = parse_payload_text("action:string:mandatory");
    assert!(result.is_err());
    assert!(result.unwrap_err().contains("expected 'required' or 'optional'"));
}

#[test]
fn parse_payload_text_messages_name_the_line() {
    assert_eq!(
        parse_payload_text("a:string\n\n :number").unwrap_err(),
        "payload line 3: field name cannot be empty"
    );
    assert_eq!(
        parse_payload_text("a:string\r\nb:bool").unwrap_err(),
        "payload line 2: unknown type 'bool' (expected string, number, boolean, object, or array)"
    );
    let schema = parse_payload_text(" x : object : required \r\n").unwrap().unwrap();
    assert_eq!(schema.fields[0].name, "x");
    assert_eq!(schema.fields[0].field_type, FieldType::Object);
    assert!(schema.fields[0].required);
}

#[test]
fn parse_filters_text_reads_operators_and_values() {
    let filters = parse_filters_text("action:equals:deploy\nref:exists\ncount:gt:5\nmsg:contains: a:b ")
        .unwrap()
        .unwrap();
    assert_eq!(filters.len(), 4);
    assert_eq!(filters[0].field, "action");
    assert_eq!(filters[0].operator, FilterOperator::Equals);
    assert_eq!(filters[0].value.as_deref(), Some("deploy"));
    assert_eq!(filters[1].operator, FilterOperator::Exists);
    assert_eq!(filters[1].value, None);
    assert_eq!(filters[2].operator, FilterOperator::Gt);
    assert_eq!(filters[3].value.as_deref(), Some("a:b"));
    assert!(parse_filters_text("\n \n").unwrap().is_none());
}

#[test]
fn parse_filters_text_errors() {
    assert_eq!(
        parse_filters_text("action").unwrap_err(),
        "filter line 1: expected 'field:operator' or 'field:operator:value', got 'action'"
    );
    assert_eq!(
        parse_filters_text("action:like:x").unwrap_err(),
        "filter line 1: unknown operator 'like' (expected equals, not_equals, contains, regex, exists, gt, lt, gte, lte)"
    );
    assert_eq!(
        parse_filters_text("a:exists\naction:equals").unwrap_err(),
        "filter line 2: operator 'equals' requires a value"
    );
    assert_eq!(
        parse_filters_text("action:equals: ").unwrap_err(),
        "filter line 1: value required for operator 'equals'"
    );
    assert_eq!(
        parse_filters_text(":equals:x").unwrap_err(),
        "filter line 1: field name cannot be empty"
    );
}

#[test]
fn parse_windows_text_reads_days_and_times() {
    let windows = parse_windows_text("Mon, Tue ,,Wed:09:00-17:00\nSat:10:00 - 12:30")
        .unwrap()
        .unwrap();
    assert_eq!(windows.len(), 2);
    assert_eq!(windows[0].days, vec!["Mon", "Tue", "Wed"]);
    assert_eq!(windows[0].start_time, "09:00");
    assert_eq!(windows[0].end_time, "17:00");
    assert_eq!(windows[1].days, vec!["Sat"]);
    assert_eq!(windows[1].end_time, "12:30");
    assert!(parse_windows_text("").unwrap().is_none());
}

#[test]
fn parse_windows_text_errors() {
    assert_eq!(
        parse_windows_text("Mon").unwrap_err(),
        "window line 1: expected 'Days:HH:MM-HH:MM', got 'Mon'"
    );
    assert_eq!(
        parse_windows_text(" , :09:00-10:00").unwrap_err(),
        "window line 1: at least one day is required"
    );
    assert_eq!(
        parse_windows_text("Mon:0900").unwrap_err(),
        "window line 1: expected time range 'HH:MM-HH:MM', got '0900'"
    );
    assert_eq!(
        parse_windows_text("Mon:09:00-").unwrap_err(),
        "window line 1: start and end times must not be empty"
    );
}

#[test]
fn parse_duration_field_reads_humantime() {
    assert_eq!(parse_duration_field("  ").unwrap(), None);
    assert_eq!(parse_duration_field("30s").unwrap(), Some(30_000_000_000));
    assert_eq!(parse_duration_field(" 5m ").unwrap(), Some(300_000_000_000));
    assert_eq!(parse_duration_field("0").unwrap(), Some(0));
    let err = parse_duration_field("soon").unwrap_err();
    assert!(err.starts_with("invalid duration 'soon': "), "{err}");
}

#[test]
fn parse_env_text_keeps_last_value_per_key() {
    let env = parse_env_text("A=1\n  B = two \nnoequals\n=x\nA=3");
    assert_eq!(
        env,
        vec![("A".to_owned(), "3".to_owned()), ("B".to_owned(), " two".to_owned())]
    );
}

#[test]
fn parse_hook_form_minimal() {
    let data = parse_hook_form(&empty_form()).unwrap();
    assert_eq!(data.name, "Deploy");
    assert_eq!(data.slug, "deploy");
    assert!(data.enabled);
    assert_eq!(data.command, "echo deploy");
    assert!(data.cwd.is_none());
    assert!(data.env.is_empty());
    assert!(data.timeout.is_none());
    assert!(data.retries.is_none());
    assert!(data.auth.is_none());
    assert!(data.payload.is_none());
    assert!(data.trigger_rules.is_none());
}

#[test]
fn parse_hook_form_all_fields() {
    let mut form = empty_form();
    form.enabled = None;
    form.cwd = " /srv ".into();
    form.timeout = "1m".into();
    form.env_text = "KEY=value".into();
    form.retry_count = Some(" 3 ".into());
    form.retry_backoff = Some("linear".into());
    form.retry_initial_delay = Some("2s".into());
    form.auth_mode = Some("hmac".into());
    form.auth_header = Some("X-Sig".into());
    form.auth_secret = Some(" s3cret ".into());
    form.payload_text = "action:string:required".into();
    form.trigger_filters_text = "action:equals:deploy".into();
    form.trigger_cooldown = "5m".into();
    form.trigger_rate_max = Some("10".into());
    form.trigger_rate_window = "1h".into();
    let data = parse_hook_form(&form).unwrap();
    assert!(!data.enabled);
    assert_eq!(data.cwd.as_deref(), Some("/srv"));
    assert_eq!(data.timeout, Some(60_000_000_000));
    assert_eq!(data.env, vec![("KEY".to_owned(), "value".to_owned())]);
    let retries = data.retries.unwrap();
    assert_eq!(retries.count, 3);
    assert_eq!(retries.backoff, BackoffStrategy::Linear);
    assert_eq!(retries.initial_delay, 2_000_000_000);
    assert_eq!(retries.max_delay, 60_000_000_000);
    match data.auth {
        Some(HookAuthConfig::Hmac { header, algorithm, secret }) => {
            assert_eq!(header, "X-Sig");
            assert_eq!(algorithm, HmacAlgorithm::Sha256);
            assert_eq!(secret, "s3cret");
        }
        _ => panic!("expected HMAC auth"),
    }
    assert_eq!(data.payload.unwrap().fields.len(), 1);
    let rules = data.trigger_rules.unwrap();
    assert_eq!(rules.payload_filters.unwrap().len(), 1);
    assert!(rules.time_windows.is_none());
    assert_eq!(rules.cooldown, Some(300_000_000_000));
    let rl = rules.rate_limit.unwrap();
    assert_eq!(rl.max_requests, 10);
    assert_eq!(rl.window, 3_600_000_000_000);
}

#[test]
fn parse_hook_form_errors_in_order() {
    let mut form = empty_form();
    form.auth_mode = Some("bearer".into());
    form.auth_token = Some("  ".into());
    form.payload_text = "bad".into();
    assert_eq!(
        parse_hook_form(&form).err().unwrap(),
        "auth token must be non-empty for bearer mode"
    );
    form.timeout = "later".into();
    assert!(parse_hook_form(&form).err().unwrap().starts_with("invalid duration 'later'"));
    let mut form = empty_form();
    form.auth_mode = Some("hmac".into());
    form.auth_header = Some("X".into());
    form.auth_secret = Some("S".into());
    form.auth_algorithm = Some("md5".into());
    assert_eq!(parse_hook_form(&form).err().unwrap(), "unsupported HMAC algorithm: md5");
    let mut form = empty_form();
    form.retry_count = Some("2".into());
    form.retry_max_delay = Some("forever".into());
    assert!(parse_hook_form(&form).err().unwrap().starts_with("invalid duration 'forever'"));
    let mut form = empty_form();
    form.retry_count = Some("-1".into());
    form.retry_max_delay = Some("forever".into());
    assert!(parse_hook_form(&form).unwrap().retries.is_none());
}

#[test]
fn duration_field_refuses_too_many_digits() {
    let e = parse_duration_field("18446744073709551615s 1000000000ns").unwrap_err();
    assert_eq!(e, "invalid duration '18446744073709551615s 1000000000ns': too many digits");
    assert_eq!(parse_duration_field("1h 30m 15s 500ms").unwrap(), Some(5_415_500_000_000));
}
