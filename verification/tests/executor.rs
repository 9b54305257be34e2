use sendword::config::{ExecutorConfig, HttpMethod};
use sendword::executor::{
    command_env, field_env_name, flatten_json_fields, http_result, log_dir_path, process_result,
    resolve_env_refs, resolve_executor, script_env, system_env_vars, ProcessOutcome, ResolvedExecutor,
};
use std::collections::HashMap;

fn pairs(v: &[(&str, &str)]) -> Vec<(String, String)> {
    v.iter().map(|(a, b)| (a.to_string(), b.to_string())).collect()
}
use sendword::json::Json;
use sendword::models::ExecutionStatus;

#[test]
fn resolve_env_refs_known_var() {
    let env = vec![("TEST_HTTP_TOKEN_12345".to_owned(), "mysecret".to_owned())];
    let result = resolve_env_refs("Bearer ${TEST_HTTP_TOKEN_12345}", &env);
    assert_eq!(result, "Bearer mysecret");
}

#[test]
fn resolve_env_refs_unset_var() {
    let result = resolve_env_refs("Bearer ${SENDWORD_UNSET_XYZ_12345}", &[]);
    assert_eq!(result, "Bearer ");
}

#[test]
fn resolve_env_refs_no_refs() {
    let result = resolve_env_refs("plain-value", &[]);
    assert_eq!(result, "plain-value");
}

#[test]
fn resolve_env_refs_edges() {
    let env = vec![("A".to_owned(), "1".to_owned())];
    assert_eq!(resolve_env_refs("$A ${A}${A} $", &env), "$A 11 $");
    assert_eq!(resolve_env_refs("x${A", &env), "x1");
}

#[test]
fn resolve_executor_fills_shell_command() {
    let exec = ExecutorConfig::Shell { command: "deploy {{ action }}".into() };
    match resolve_executor(&exec, "{\"action\":\"deploy\"}") {
        ResolvedExecutor::Shell { command } => assert_eq!(command, "deploy 'deploy'"),
        _ => panic!("expected shell"),
    }
    match resolve_executor(&exec, "not json") {
        ResolvedExecutor::Shell { command } => assert_eq!(command, "deploy {{ action }}"),
        _ => panic!("expected shell"),
    }
}

#[test]
fn resolve_executor_fills_http_url_and_body() {
    let exec = ExecutorConfig::Http {
        method: HttpMethod::Post,
        url: "https://example.com/{{action}}".into(),
        headers: vec![("X-A".into(), "b".into())],
        body: Some("{{action}}".into()),
        follow_redirects: false,
    };
    match resolve_executor(&exec, "{\"action\":\"deploy\"}") {
        ResolvedExecutor::Http { method, url, headers, body, follow_redirects } => {
            assert_eq!(method, HttpMethod::Post);
            assert_eq!(url, "https://example.com/'deploy'");
            assert_eq!(headers, vec![("X-A".to_owned(), "b".to_owned())]);
            assert_eq!(body.as_deref(), Some("'deploy'"));
            assert!(!follow_redirects);
        }
        _ => panic!("expected http"),
    }
    match resolve_executor(&exec, "not json") {
        ResolvedExecutor::Http { url, .. } => assert_eq!(url, "https://example.com/{{action}}"),
        _ => panic!("expected http"),
    }
}

#[test]
fn outcomes_map_to_statuses() {
    assert_eq!(process_result(ProcessOutcome::Exited { success: true, code: Some(0) }), (ExecutionStatus::Success, Some(0)));
    assert_eq!(process_result(ProcessOutcome::Exited { success: false, code: Some(42) }), (ExecutionStatus::Failed, Some(42)));
    assert_eq!(process_result(ProcessOutcome::TimedOut), (ExecutionStatus::TimedOut, None));
    assert_eq!(process_result(ProcessOutcome::WaitFailed), (ExecutionStatus::Failed, None));
    assert_eq!(http_result(204), (ExecutionStatus::Success, Some(204)));
    assert_eq!(http_result(404), (ExecutionStatus::Failed, Some(404)));
    assert_eq!(http_result(301), (ExecutionStatus::Failed, Some(301)));
    assert_eq!(log_dir_path("data/logs", "e1"), "data/logs/e1");
}

#[test]
fn executor_system_env_vars_includes_path() {
    let env = pairs(&[("HOME", "/root"), ("PATH", "/usr/bin:/bin"), ("TERM", "xterm")]);
    let vars: HashMap<String, String> = system_env_vars(&env).into_iter().collect();
    assert!(vars.contains_key("PATH"), "PATH should be present in system env vars");
}

#[test]
fn executor_system_env_vars_excludes_arbitrary_vars() {
    let env = pairs(&[("PATH", "/usr/bin"), ("SENDWORD_TEST_ARBITRARY_XYZ_999", "leaked")]);
    let vars: HashMap<String, String> = system_env_vars(&env).into_iter().collect();
    assert!(
        !vars.contains_key("SENDWORD_TEST_ARBITRARY_XYZ_999"),
        "arbitrary env vars should not be inherited"
    );
}

#[test]
fn mod_system_env_vars_includes_path() {
    let env = pairs(&[("PATH", "/usr/local/bin"), ("LANG", "C.UTF-8")]);
    let vars: HashMap<String, String> = system_env_vars(&env).into_iter().collect();
    assert!(vars.contains_key("PATH"), "PATH should be present in system env vars");
}

#[test]
fn mod_system_env_vars_excludes_arbitrary_vars() {
    let env = pairs(&[("SENDWORD_TEST_ARBITRARY_XYZ_999", "leaked"), ("USER", "me")]);
    let vars: HashMap<String, String> = system_env_vars(&env).into_iter().collect();
    assert!(
        !vars.contains_key("SENDWORD_TEST_ARBITRARY_XYZ_999"),
        "arbitrary env vars should not be inherited"
    );
}

#[test]
fn system_env_vars_keeps_fixed_order_and_first_value() {
    let env = pairs(&[("LANG", "C"), ("USER", "u"), ("HOME", "/h"), ("PATH", "/p"), ("PATH", "/q")]);
    assert_eq!(
        system_env_vars(&env),
        pairs(&[("PATH", "/p"), ("HOME", "/h"), ("USER", "u"), ("LANG", "C")])
    );
}

#[test]
fn flatten_json_fields_simple() {
    let v = Json::Object(vec![
        ("action".to_owned(), Json::String("deploy".to_owned())),
        ("count".to_owned(), Json::Number("3".to_owned())),
    ]);
    let fields = flatten_json_fields(&v);
    let map: HashMap<_, _> = fields.into_iter().collect();
    assert_eq!(map.get("action").map(|s| s.as_str()), Some("deploy"));
    assert_eq!(map.get("count").map(|s| s.as_str()), Some("3"));
}

#[test]
fn flatten_json_fields_nested() {
    let v = Json::Object(vec![(
        "user".to_owned(),
        Json::Object(vec![("name".to_owned(), Json::String("alice".to_owned()))]),
    )]);
    let fields = flatten_json_fields(&v);
    let map: HashMap<_, _> = fields.into_iter().collect();
    assert_eq!(map.get("user.name").map(|s| s.as_str()), Some("alice"));
}

#[test]
fn flatten_json_fields_arrays_bools_and_nulls() {
    let v = Json::Object(vec![
        ("tags".to_owned(), Json::Array(vec![Json::String("a".to_owned()), Json::Bool(true)])),
        ("gone".to_owned(), Json::Null),
    ]);
    assert_eq!(flatten_json_fields(&v), pairs(&[("tags.0", "a"), ("tags.1", "true")]));
    assert_eq!(flatten_json_fields(&Json::String("top".to_owned())), Vec::<(String, String)>::new());
}

#[test]
fn field_env_name_uppercases_and_replaces_dots() {
    assert_eq!(field_env_name("user.name"), "SENDWORD_FIELD_USER_NAME");
    assert_eq!(field_env_name("tags.0"), "SENDWORD_FIELD_TAGS_0");
}

#[test]
fn command_and_script_env_order() {
    let sys = pairs(&[("PATH", "/bin")]);
    let hook = pairs(&[("PATH", "/opt/bin"), ("APP", "x")]);
    let expected_base = pairs(&[
        ("PATH", "/bin"),
        ("PATH", "/opt/bin"),
        ("APP", "x"),
        ("SENDWORD_EXECUTION_ID", "e1"),
        ("SENDWORD_HOOK_SLUG", "deploy"),
        ("SENDWORD_PAYLOAD", "{\"action\":\"go\"}"),
    ]);
    assert_eq!(command_env(&sys, &hook, "e1", "deploy", "{\"action\":\"go\"}"), expected_base);
    let mut expected = expected_base.clone();
    expected.push(("SENDWORD_FIELD_ACTION".to_owned(), "go".to_owned()));
    assert_eq!(script_env(&sys, &hook, "e1", "deploy", "{\"action\":\"go\"}"), expected);
    assert_eq!(script_env(&sys, &hook, "e1", "deploy", "not json").len(), 6);
}
