use std::borrow::Cow;

use sendword::interpolation::{interpolate_command, shell_escape, value_to_string};
use sendword::json::Json;

fn to_json(v: &serde_json::Value) -> Json {
    match v {
        serde_json::Value::Null => Json::Null,
        serde_json::Value::Bool(b) => Json::Bool(*b),
        serde_json::Value::Number(n) => Json::Number(n.to_string()),
        serde_json::Value::String(s) => Json::String(s.clone()),
        serde_json::Value::Array(a) => Json::Array(a.iter().map(to_json).collect()),
        serde_json::Value::Object(o) => {
            Json::Object(o.iter().map(|(k, v)| (k.clone(), to_json(v))).collect())
        }
    }
}

fn json(text: &str) -> Json {
    to_json(&serde_json::from_str::<serde_json::Value>(text).unwrap())
}

#[test]
fn shell_escape_simple_string() {
    assert_eq!(shell_escape("hello"), "'hello'");
}

#[test]
fn shell_escape_string_with_spaces() {
    assert_eq!(shell_escape("hello world"), "'hello world'");
}

#[test]
fn shell_escape_string_with_special_chars() {
    assert_eq!(shell_escape("rm -rf /; echo pwned"), "'rm -rf /; echo pwned'");
}

#[test]
fn shell_escape_string_with_single_quotes() {
    assert_eq!(shell_escape("it's"), "'it'\\''s'");
}

#[test]
fn shell_escape_string_with_backticks() {
    assert_eq!(shell_escape("`whoami`"), "'`whoami`'");
}

#[test]
fn shell_escape_string_with_dollar_expansion() {
    assert_eq!(shell_escape("$(cat /etc/passwd)"), "'$(cat /etc/passwd)'");
}

#[test]
fn shell_escape_empty_string() {
    assert_eq!(shell_escape(""), "''");
}

#[test]
fn shell_escape_string_with_newline() {
    assert_eq!(shell_escape("line1\nline2"), "'line1\nline2'");
}

#[test]
fn shell_escape_string_with_backslash() {
    assert_eq!(shell_escape(r"a\b"), r"'a\b'");
}

#[test]
fn shell_escape_multiple_single_quotes() {
    assert_eq!(shell_escape("a'b'c"), "'a'\\''b'\\''c'");
}

#[test]
fn value_to_string_string() {
    assert_eq!(value_to_string(&json(r#""hello""#)), "hello");
}

#[test]
fn value_to_string_number_integer() {
    assert_eq!(value_to_string(&json("42")), "42");
}

#[test]
fn value_to_string_number_float() {
    assert_eq!(value_to_string(&json("3.14")), "3.14");
}

#[test]
fn value_to_string_boolean_true() {
    assert_eq!(value_to_string(&json("true")), "true");
}

#[test]
fn value_to_string_boolean_false() {
    assert_eq!(value_to_string(&json("false")), "false");
}

#[test]
fn value_to_string_null() {
    assert_eq!(value_to_string(&json("null")), "");
}

#[test]
fn value_to_string_array() {
    assert_eq!(value_to_string(&json("[1, 2, 3]")), "[1,2,3]");
}

#[test]
fn value_to_string_object() {
    assert_eq!(value_to_string(&json(r#"{"key": "val"}"#)), r#"{"key":"val"}"#);
}

#[test]
fn value_to_string_escapes_strings_inside_json() {
    let v = json(r#"{"q": "say \"hi\"\n\t\\ \u0001"}"#);
    assert_eq!(value_to_string(&v), r#"{"q":"say \"hi\"\n\t\\ \u0001"}"#);
    assert_eq!(value_to_string(&v), serde_json::from_str::<serde_json::Value>(r#"{"q": "say \"hi\"\n\t\\ \u0001"}"#).unwrap().to_string());
}

#[test]
fn no_placeholders_returns_borrowed() {
    let result = interpolate_command("echo hello", &json("{}"));
    assert!(matches!(result, Cow::Borrowed(_)));
    assert_eq!(result.as_ref(), "echo hello");
}

#[test]
fn simple_string_field_interpolated() {
    let result = interpolate_command("deploy {{action}}", &json(r#"{"action": "rollout"}"#));
    assert_eq!(result.as_ref(), "deploy 'rollout'");
}

#[test]
fn interpolation_dot_notation_nested_field() {
    let result = interpolate_command("echo {{repo.name}}", &json(r#"{"repo": {"name": "myapp"}}"#));
    assert_eq!(result.as_ref(), "echo 'myapp'");
}

#[test]
fn number_field_interpolated() {
    let result = interpolate_command("scale --replicas={{count}}", &json(r#"{"count": 3}"#));
    assert_eq!(result.as_ref(), "scale --replicas='3'");
}

#[test]
fn boolean_field_interpolated() {
    let result = interpolate_command("deploy --dry-run={{dry_run}}", &json(r#"{"dry_run": true}"#));
    assert_eq!(result.as_ref(), "deploy --dry-run='true'");
}

#[test]
fn unresolved_placeholder_left_as_is() {
    let result = interpolate_command("echo {{missing_field}}", &json("{}"));
    assert_eq!(result.as_ref(), "echo {{missing_field}}");
    assert!(matches!(result, Cow::Owned(_)));
}

#[test]
fn multiple_placeholders() {
    let result = interpolate_command("deploy {{app}} to {{env}}", &json(r#"{"app": "frontend", "env": "production"}"#));
    assert_eq!(result.as_ref(), "deploy 'frontend' to 'production'");
}

#[test]
fn injection_via_semicolon_is_escaped() {
    let result = interpolate_command("echo {{name}}", &json(r#"{"name": "foo; rm -rf /"}"#));
    assert_eq!(result.as_ref(), "echo 'foo; rm -rf /'");
}

#[test]
fn injection_via_backtick_is_escaped() {
    let result = interpolate_command("echo {{name}}", &json(r#"{"name": "`cat /etc/passwd`"}"#));
    assert_eq!(result.as_ref(), "echo '`cat /etc/passwd`'");
}

#[test]
fn injection_via_dollar_expansion_is_escaped() {
    let result = interpolate_command("echo {{name}}", &json(r#"{"name": "$(whoami)"}"#));
    assert_eq!(result.as_ref(), "echo '$(whoami)'");
}

#[test]
fn injection_via_single_quote_breakout_is_escaped() {
    let result = interpolate_command("echo {{name}}", &json(r#"{"name": "'; rm -rf / '"}"#));
    assert_eq!(result.as_ref(), "echo ''\\''; rm -rf / '\\'''");
}

#[test]
fn whitespace_around_field_name_is_trimmed() {
    let result = interpolate_command("echo {{ action }}", &json(r#"{"action": "deploy"}"#));
    assert_eq!(result.as_ref(), "echo 'deploy'");
}

#[test]
fn array_field_produces_json() {
    let result = interpolate_command("process {{items}}", &json(r#"{"items": [1, 2, 3]}"#));
    assert_eq!(result.as_ref(), "process '[1,2,3]'");
}

#[test]
fn object_field_produces_json() {
    let result = interpolate_command("process {{config}}", &json(r#"{"config": {"key": "val"}}"#));
    assert_eq!(result.as_ref(), r#"process '{"key":"val"}'"#);
}

#[test]
fn mixed_resolved_and_unresolved() {
    let result = interpolate_command("echo {{found}} and {{missing}}", &json(r#"{"found": "yes"}"#));
    assert_eq!(result.as_ref(), "echo 'yes' and {{missing}}");
}

#[test]
fn deeply_nested_dot_notation() {
    let result = interpolate_command("echo {{a.b.c}}", &json(r#"{"a": {"b": {"c": "deep"}}}"#));
    assert_eq!(result.as_ref(), "echo 'deep'");
}

#[test]
fn null_field_interpolates_to_empty_quoted_string() {
    let result = interpolate_command("echo {{value}}", &json(r#"{"value": null}"#));
    assert_eq!(result.as_ref(), "echo ''");
}

#[test]
fn single_braces_are_not_placeholders() {
    let result = interpolate_command("echo {not_a_placeholder}", &json(r#"{"not_a_placeholder": "value"}"#));
    assert!(matches!(result, Cow::Borrowed(_)));
    assert_eq!(result.as_ref(), "echo {not_a_placeholder}");
}

#[test]
fn negative_number_field_interpolated() {
    let result = interpolate_command("offset={{delta}}", &json(r#"{"delta": -5}"#));
    assert_eq!(result.as_ref(), "offset='-5'");
}

#[test]
fn injection_via_double_quotes_is_escaped() {
    let result = interpolate_command("echo {{name}}", &json(r#"{"name": "a\"b"}"#));
    assert_eq!(result.as_ref(), r#"echo 'a"b'"#);
}

#[test]
fn injection_via_newline_is_escaped() {
    let result = interpolate_command("echo {{msg}}", &json(r#"{"msg": "line1\nrm -rf /"}"#));
    assert_eq!(result.as_ref(), "echo 'line1\nrm -rf /'");
}

#[test]
fn injection_via_pipe_is_escaped() {
    let result = interpolate_command("echo {{name}}", &json(r#"{"name": "foo | rm -rf /"}"#));
    assert_eq!(result.as_ref(), "echo 'foo | rm -rf /'");
}

#[test]
fn partial_dot_path_unresolved_left_as_is() {
    let result = interpolate_command("echo {{a.b.missing}}", &json(r#"{"a": {"b": {"c": "found"}}}"#));
    assert_eq!(result.as_ref(), "echo {{a.b.missing}}");
}

#[test]
fn dot_path_through_non_object_unresolved() {
    let result = interpolate_command("echo {{a.b}}", &json(r#"{"a": 42}"#));
    assert_eq!(result.as_ref(), "echo {{a.b}}");
}

#[test]
fn template_is_entirely_a_placeholder() {
    let result = interpolate_command("{{cmd}}", &json(r#"{"cmd": "ls -la"}"#));
    assert_eq!(result.as_ref(), "'ls -la'");
}

#[test]
fn adjacent_placeholders_both_interpolated() {
    let result = interpolate_command("{{a}}{{b}}", &json(r#"{"a": "hello", "b": "world"}"#));
    assert_eq!(result.as_ref(), "'hello''world'");
}

#[test]
fn underscore_and_digit_field_names() {
    let result = interpolate_command("echo {{_var1}} {{item_2}}", &json(r#"{"_var1": "alpha", "item_2": "beta"}"#));
    assert_eq!(result.as_ref(), "echo 'alpha' 'beta'");
}

#[test]
fn empty_payload_object_leaves_placeholders() {
    let result = interpolate_command("deploy {{app}} to {{env}}", &json("{}"));
    assert_eq!(result.as_ref(), "deploy {{app}} to {{env}}");
}

#[test]
fn float_zero_and_integer_zero() {
    let result = interpolate_command("{{a}} {{b}}", &json(r#"{"a": 0, "b": 0.0}"#));
    assert_eq!(result.as_ref(), "'0' '0.0'");
}

#[test]
fn nested_object_field_produces_json() {
    let result = interpolate_command("echo {{config.sub}}", &json(r#"{"config": {"sub": {"key": "val"}}}"#));
    assert_eq!(result.as_ref(), r#"echo '{"key":"val"}'"#);
}

#[test]
fn triple_brace_matches_inner_placeholder() {
    let result = interpolate_command("x{{{a}}}y", &json(r#"{"a": "v"}"#));
    assert_eq!(result.as_ref(), "x{'v'}y");
}

#[test]
fn unicode_word_characters_are_field_names() {
    let result = interpolate_command("echo {{ café }}", &json(r#"{"café": "crème"}"#));
    assert_eq!(result.as_ref(), "echo 'crème'");
}
