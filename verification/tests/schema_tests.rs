use keypath::json::JsonValue;
use keypath::{generate_schema, validate_json_schema};

fn simple_doc() -> JsonValue {
    // {"keys": {"a": {"tap": "b"}}}
    let key = JsonValue::Obj(vec![("tap".to_owned(), JsonValue::Str("b".to_owned()))]);
    let keys = JsonValue::Obj(vec![("a".to_owned(), key)]);
    JsonValue::Obj(vec![("keys".to_owned(), keys)])
}

#[test]
fn test_generate_schema() {
    let schema = generate_schema().unwrap();
    assert!(schema.contains("\"title\""));
    assert!(schema.contains("\"properties\""));
    assert!(schema.contains("\"keys\""));
}

#[test]
fn test_validate_valid_json() {
    let json = simple_doc();
    let schema = JsonValue::Obj(vec![]);

    let result = validate_json_schema(&json, &schema);
    assert!(result.is_ok());
}

#[test]
fn test_validate_invalid_json() {
    let json = JsonValue::Obj(vec![(
        "invalid".to_owned(),
        JsonValue::Str("structure".to_owned()),
    )]);
    let schema = JsonValue::Obj(vec![]);

    let result = validate_json_schema(&json, &schema);
    assert!(result.is_err());
    assert!(result.unwrap_err().contains("Missing required field: keys"));
}

#[test]
fn test_validate_non_object_root() {
    let schema = JsonValue::Obj(vec![]);
    let result = validate_json_schema(&JsonValue::Str("x".to_owned()), &schema);
    assert_eq!(result.unwrap_err(), "Root must be an object");
}

#[test]
fn test_validate_keys_not_object() {
    let json = JsonValue::Obj(vec![("keys".to_owned(), JsonValue::Str("x".to_owned()))]);
    let schema = JsonValue::Obj(vec![]);
    let result = validate_json_schema(&json, &schema);
    assert_eq!(result.unwrap_err(), "Field 'keys' must be an object");
}

#[test]
fn test_validate_key_entry_not_object() {
    let keys = JsonValue::Obj(vec![("a".to_owned(), JsonValue::Str("x".to_owned()))]);
    let json = JsonValue::Obj(vec![("keys".to_owned(), keys)]);
    let schema = JsonValue::Obj(vec![]);
    let result = validate_json_schema(&json, &schema);
    assert_eq!(result.unwrap_err(), "Key 'a' must be an object");
}
