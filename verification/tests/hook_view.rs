use sendword::config::{
    ExecutorConfig, FilterOperator, HookAuthConfig, HookConfig, PayloadFilter, TimeWindow, TriggerRateLimit,
    TriggerRules,
};
use sendword::hook_form::{parse_filters_text, parse_payload_text, parse_windows_text};
use sendword::hook_view::{
    env_text, filters_text, hook_detail, hook_form_values, payload_text, script_edit_url, sort_env, windows_text,
};
use sendword::payload::{FieldType, PayloadField, PayloadSchema};

fn pairs(v: &[(&str, &str)]) -> Vec<(String, String)> {
    v.iter().map(|(a, b)| (a.to_string(), b.to_string())).collect()
}

fn filter(field: &str, operator: FilterOperator, value: Option<&str>) -> PayloadFilter {
    PayloadFilter { field: field.into(), operator, value: value.map(|v| v.into()) }
}

fn window(days: &[&str], start: &str, end: &str) -> TimeWindow {
    TimeWindow {
        days: days.iter().map(|d| d.to_string()).collect(),
        start_time: start.into(),
        end_time: end.into(),
    }
}

fn hook() -> HookConfig {
    HookConfig {
        name: "Deploy".into(),
        slug: "deploy".into(),
        description: "ship it".into(),
        enabled: true,
        auth: Some(HookAuthConfig::Bearer { token: "t".into() }),
        executor: ExecutorConfig::Shell { command: "/srv/scripts/deploy.sh".into() },
        env: pairs(&[("B", "2"), ("A", "1")]),
        cwd: Some("/srv".into()),
        timeout: Some(90_000_000_000),
        retries: None,
        rate_limit: None,
        payload: Some(PayloadSchema {
            fields: vec![PayloadField { name: "action".into(), field_type: FieldType::String, required: true }],
        }),
        trigger_rules: Some(TriggerRules {
            payload_filters: Some(vec![filter("action", FilterOperator::Equals, Some("deploy"))]),
            time_windows: Some(vec![window(&["Mon", "Tue"], "09:00", "17:00")]),
            cooldown: Some(300_000_000_000),
            rate_limit: Some(TriggerRateLimit { max_requests: 10, window: 3_600_000_000_000 }),
        }),
        concurrency: None,
        approval: None,
        notification: None,
    }
}

#[test]
fn payload_text_reads_back_through_the_parser() {
    let schema = PayloadSchema {
        fields: vec![
            PayloadField { name: "action".into(), field_type: FieldType::String, required: true },
            PayloadField { name: "count".into(), field_type: FieldType::Number, required: false },
        ],
    };
    let text = payload_text(&Some(schema));
    assert_eq!(text, "action:string:required\ncount:number");
    let back = parse_payload_text(&text).unwrap().unwrap();
    assert_eq!(back.fields.len(), 2);
    assert_eq!(back.fields[0].name, "action");
    assert!(back.fields[0].required);
    assert_eq!(back.fields[1].field_type, FieldType::Number);
    assert_eq!(payload_text(&None), "");
}

#[test]
fn filters_text_reads_back_through_the_parser() {
    let filters = vec![
        filter("action", FilterOperator::Equals, Some("deploy")),
        filter("ref", FilterOperator::Regex, Some("^refs/heads/(main|release):x$")),
        filter("user.id", FilterOperator::Exists, None),
    ];
    let text = filters_text(&Some(filters));
    assert_eq!(text, "action:equals:deploy\nref:regex:^refs/heads/(main|release):x$\nuser.id:exists");
    let back = parse_filters_text(&text).unwrap().unwrap();
    assert_eq!(back.len(), 3);
    assert_eq!(back[1].value.as_deref(), Some("^refs/heads/(main|release):x$"));
    assert_eq!(back[2].operator, FilterOperator::Exists);
    assert!(back[2].value.is_none());
}

#[test]
fn windows_text_reads_back_through_the_parser() {
    let windows = vec![window(&["Mon", "Tue"], "09:00", "17:00"), window(&["Sat"], "22:00", "23:30")];
    let text = windows_text(&Some(windows));
    assert_eq!(text, "Mon,Tue:09:00-17:00\nSat:22:00-23:30");
    let back = parse_windows_text(&text).unwrap().unwrap();
    assert_eq!(back.len(), 2);
    assert_eq!(back[0].days, vec!["Mon".to_string(), "Tue".to_string()]);
    assert_eq!(back[1].start_time, "22:00");
    assert_eq!(back[1].end_time, "23:30");
}

#[test]
fn env_is_sorted_by_name_in_the_form() {
    let env = pairs(&[("ZED", "1"), ("ALPHA", "x=y"), ("MID", "")]);
    assert_eq!(sort_env(&env), pairs(&[("ALPHA", "x=y"), ("MID", ""), ("ZED", "1")]));
    assert_eq!(env_text(&env), "ALPHA=x=y\nMID=\nZED=1");
}

#[test]
fn form_values_show_the_hook() {
    let form = hook_form_values(&hook());
    assert_eq!(form.name, "Deploy");
    assert_eq!(form.slug, "deploy");
    assert_eq!(form.command, "/srv/scripts/deploy.sh");
    assert_eq!(form.cwd, "/srv");
    assert_eq!(form.timeout, "90s");
    assert_eq!(form.env_text, "A=1\nB=2");
    assert_eq!(form.trigger_cooldown, "5m");
    assert_eq!(form.trigger_filters_text, "action:equals:deploy");
    assert_eq!(form.trigger_windows_text, "Mon,Tue:09:00-17:00");
    assert_eq!(form.auth_mode.as_deref(), Some("bearer"));
}

#[test]
fn script_links_only_for_files_in_the_scripts_dir() {
    assert_eq!(script_edit_url("/srv/scripts/deploy.sh", "/srv/scripts").as_deref(), Some("/scripts/deploy.sh"));
    assert_eq!(script_edit_url("/srv/scripts/sub/x.sh", "/srv/scripts"), None);
    assert_eq!(script_edit_url("/usr/bin/env", "/srv/scripts"), None);
}

#[test]
fn hook_detail_facts() {
    let d = hook_detail(&hook(), 30_000_000_000, "/srv/scripts");
    assert_eq!(d.executor_type, "shell");
    assert_eq!(d.script_edit_url.as_deref(), Some("/scripts/deploy.sh"));
    assert_eq!(d.timeout_secs, 90);
    assert_eq!(d.env_vars, vec!["B".to_string(), "A".to_string()]);
    assert_eq!(d.auth_mode, "bearer");
    assert_eq!(d.payload_fields, vec![("action".to_string(), "string".to_string(), true)]);
    assert_eq!(d.filter_rows, vec![("action".to_string(), "equals".to_string(), "deploy".to_string())]);
    assert_eq!(d.window_rows, vec![("Mon, Tue".to_string(), "09:00".to_string(), "17:00".to_string())]);
    assert_eq!(d.cooldown, "5m");
    assert_eq!(d.rate_max, "10");
    assert_eq!(d.rate_window, "1h");
}
