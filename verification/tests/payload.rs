use sendword::json::Json;
use sendword::payload::{FieldType, PayloadField, PayloadSchema};

fn to_json(v: &serde_json::Value) -> Json {
    match v {
        serde_json::Value::Null => Json::Null,
        serde_json::Value::Bool(b) => Json::Bool(*b),
        serde_json::Value::Number(n) => Json::Number(n.to_string()),
        serde_json::Value::String(s) => Json::String(s.clone()),
        serde_json::Value::Array(a) => Json::Array(a.iter().map(to_json).collect()),
        serde_json::Value::Object(o) => {
            Json::Object(o.iter().map(|(k, v)| (k.clone(), to_json(v))).collect())
        }
    }
}

fn json(text: &str) -> Json {
    to_json(&serde_json::from_str::<serde_json::Value>(text).unwrap())
}

fn schema(fields: Vec<PayloadField>) -> PayloadSchema {
    PayloadSchema { fields }
}

fn field(name: &str, ft: FieldType, required: bool) -> PayloadField {
    PayloadField { name: name.to_owned(), field_type: ft, required }
}

#[test]
fn valid_payload_with_all_required_fields() {
    let s = schema(vec![field("action", FieldType::String, true), field("count", FieldType::Number, true)]);
    assert!(s.validate(&json(r#"{"action": "deploy", "count": 3}"#)).is_ok());
}

#[test]
fn missing_required_field_returns_error() {
    let s = schema(vec![field("action", FieldType::String, true)]);
    let errors = s.validate(&json("{}")).err().unwrap();
    assert_eq!(errors.len(), 1);
    assert_eq!(errors[0].field, "action");
    assert!(errors[0].message.contains("missing"));
    assert_eq!(errors[0].message, "required field 'action' is missing");
}

#[test]
fn missing_optional_field_is_ok() {
    let s = schema(vec![field("tag", FieldType::String, false)]);
    assert!(s.validate(&json("{}")).is_ok());
}

#[test]
fn type_mismatch_returns_error() {
    let s = schema(vec![field("count", FieldType::Number, true)]);
    let errors = s.validate(&json(r#"{"count": "not-a-number"}"#)).err().unwrap();
    assert_eq!(errors.len(), 1);
    assert!(errors[0].message.contains("expected type number"));
    assert!(errors[0].message.contains("got string"));
    assert_eq!(errors[0].message, "field 'count' expected type number, got string");
}

#[test]
fn null_value_treated_as_missing() {
    let s = schema(vec![field("action", FieldType::String, true)]);
    let errors = s.validate(&json(r#"{"action": null}"#)).err().unwrap();
    assert_eq!(errors.len(), 1);
    assert!(errors[0].message.contains("missing"));
}

#[test]
fn dot_notation_traverses_nested_objects() {
    let s = schema(vec![field("repo.name", FieldType::String, true)]);
    assert!(s.validate(&json(r#"{"repo": {"name": "myapp"}}"#)).is_ok());
}

#[test]
fn dot_notation_missing_parent_returns_error() {
    let s = schema(vec![field("repo.name", FieldType::String, true)]);
    let errors = s.validate(&json("{}")).err().unwrap();
    assert_eq!(errors.len(), 1);
    assert!(errors[0].message.contains("missing"));
}

#[test]
fn dot_notation_parent_not_object_returns_error() {
    let s = schema(vec![field("repo.name", FieldType::String, true)]);
    let errors = s.validate(&json(r#"{"repo": "not-an-object"}"#)).err().unwrap();
    assert_eq!(errors.len(), 1);
    assert!(errors[0].message.contains("missing"));
}

#[test]
fn all_field_types_match_correctly() {
    assert!(FieldType::String.matches_value(&json(r#""hello""#)));
    assert!(!FieldType::String.matches_value(&json("42")));
    assert!(FieldType::Number.matches_value(&json("42")));
    assert!(FieldType::Number.matches_value(&json("3.14")));
    assert!(!FieldType::Number.matches_value(&json(r#""42""#)));
    assert!(FieldType::Boolean.matches_value(&json("true")));
    assert!(!FieldType::Boolean.matches_value(&json("1")));
    assert!(FieldType::Object.matches_value(&json("{}")));
    assert!(!FieldType::Object.matches_value(&json("[]")));
    assert!(FieldType::Array.matches_value(&json("[]")));
    assert!(!FieldType::Array.matches_value(&json("{}")));
}

#[test]
fn multiple_errors_accumulated() {
    let s = schema(vec![
        field("a", FieldType::String, true),
        field("b", FieldType::Number, true),
        field("c", FieldType::Boolean, true),
    ]);
    let errors = s.validate(&json("{}")).err().unwrap();
    assert_eq!(errors.len(), 3);
    assert_eq!(errors[1].field, "b");
}

#[test]
fn empty_schema_accepts_anything() {
    let s = schema(vec![]);
    assert!(s.validate(&json("{}")).is_ok());
    assert!(s.validate(&json(r#"{"anything": "goes"}"#)).is_ok());
}

#[test]
fn present_optional_field_still_type_checked() {
    let s = schema(vec![field("tag", FieldType::String, false)]);
    let errors = s.validate(&json(r#"{"tag": 123}"#)).err().unwrap();
    assert_eq!(errors.len(), 1);
    assert!(errors[0].message.contains("expected type string"));
}

#[test]
fn field_type_display_formatting() {
    assert_eq!(FieldType::String.to_string(), "string");
    assert_eq!(FieldType::Number.to_string(), "number");
    assert_eq!(FieldType::Boolean.to_string(), "boolean");
    assert_eq!(FieldType::Object.to_string(), "object");
    assert_eq!(FieldType::Array.to_string(), "array");
}

#[test]
fn deserialize_field_type_from_lowercase() {
    let name: String = serde_json::from_str("\"string\"").unwrap();
    assert_eq!(FieldType::from_name(&name), Some(FieldType::String));
    let name: String = serde_json::from_str("\"number\"").unwrap();
    assert_eq!(FieldType::from_name(&name), Some(FieldType::Number));
    assert_eq!(FieldType::from_name("String"), None);
}
