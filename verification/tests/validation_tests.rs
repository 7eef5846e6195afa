use keypath::{parse_ir, to_pretty_json, Action, ComplexAction, Key, KeypathError, IR};

#[test]
fn test_parse_valid_ir() {
    let json = r#"{"keys":{"a":{"tap":"b"}}}"#;
    let ir = parse_ir(json).unwrap();

    assert_eq!(ir.keys.len(), 1);
    assert!(ir.get_key("a").is_some());
}

#[test]
fn test_parse_invalid_ir() {
    let json = r#"{"invalid": "json"#;
    let result = parse_ir(json);

    assert!(result.is_err());
}

#[test]
fn test_to_pretty_json() {
    let mut ir = IR::new();
    ir.add_key_mapping("a", "b");

    let json = to_pretty_json(&ir).unwrap();
    assert!(json.contains("\"a\""));
    assert!(json.contains("\"b\""));
    assert!(json.contains("  ")); // Should be pretty-printed
}

#[test]
fn test_rejects_missing_keys_field() {
    let result = parse_ir(r#"{"invalid":"structure"}"#);
    match result {
        Err(KeypathError::SchemaValidation(m)) => {
            assert!(m.contains("Missing required field: keys"));
        }
        _ => panic!("Expected a schema validation error"),
    }
}

#[test]
fn test_rejects_key_without_tap() {
    let result = parse_ir(r#"{"keys":{"a":{}}}"#);
    match result {
        Err(KeypathError::SchemaValidation(m)) => {
            assert!(m.contains("a"));
            assert!(m.contains("tap"));
        }
        _ => panic!("Expected a schema validation error"),
    }
}

#[test]
fn test_rejects_truncated_text() {
    let result = parse_ir(r#"{"keys": {"a""#);
    match result {
        Err(KeypathError::InvalidIR(m)) => {
            assert!(m.contains("JSON parse error"));
        }
        _ => panic!("Expected a parse error"),
    }
}

#[test]
fn test_accepts_simple_mapping() {
    let ir = parse_ir(r#"{"keys":{"a":{"tap":"b"}}}"#).unwrap();
    let key = ir.get_key("a").unwrap();
    match &key.tap {
        Action::Key(k) => assert_eq!(k, "b"),
        _ => panic!("Expected simple key action"),
    }
}

#[test]
fn test_rejects_empty_complex_action() {
    let result = parse_ir(r#"{"keys":{"a":{"tap":{}}}}"#);
    match result {
        Err(KeypathError::InvalidIR(_)) => {}
        _ => panic!("Expected a typed extraction error"),
    }
}

#[test]
fn test_rejects_overfull_complex_action() {
    let result = parse_ir(r#"{"keys":{"a":{"tap":{"layer":"l","macro_name":"m"}}}}"#);
    match result {
        Err(KeypathError::InvalidIR(_)) => {}
        _ => panic!("Expected a typed extraction error"),
    }
}

#[test]
fn test_rejects_dangling_layer_reference() {
    let result = parse_ir(r#"{"keys":{"a":{"tap":{"layer":"nav"}}}}"#);
    assert!(result.is_err());
}

#[test]
fn test_accepts_declared_layer_reference() {
    let ir = parse_ir(r#"{"keys":{"a":{"tap":{"layer":"nav"}}},"layers":["nav"]}"#).unwrap();
    match &ir.get_key("a").unwrap().tap {
        Action::Complex(c) => assert_eq!(c.layer.as_deref(), Some("nav")),
        _ => panic!("Expected a complex action"),
    }
}

#[test]
fn test_rejects_dangling_when_reference() {
    let result = parse_ir(r#"{"keys":{"a":{"tap":"b","when":"cond"}}}"#);
    assert!(result.is_err());
}

fn rich_ir() -> IR {
    let mut ir = IR::new();
    ir.add_key_mapping("a", "x");
    ir.add_key_mapping("b", "y");
    ir.layers.push("nav".to_owned());
    ir.keys[1].1.hold = Some(Action::Complex(ComplexAction {
        layer: Some("nav".to_owned()),
        macro_name: None,
    }));
    ir.keys[1].1.mods = vec!["lsft".to_owned()];
    ir
}

#[test]
fn test_round_trip_preserves_ir() {
    let ir = rich_ir();
    let text = to_pretty_json(&ir).unwrap();
    let back = parse_ir(&text).unwrap();
    assert_eq!(back.keys.len(), ir.keys.len());
    assert_eq!(back.layers, ir.layers);
    match &back.get_key("b").unwrap().hold {
        Some(Action::Complex(c)) => assert_eq!(c.layer.as_deref(), Some("nav")),
        _ => panic!("Expected the hold action to survive the round trip"),
    }
    assert_eq!(back.get_key("b").unwrap().mods, vec!["lsft".to_owned()]);
}

#[test]
fn test_pretty_print_idempotent() {
    let ir = rich_ir();
    let once = to_pretty_json(&ir).unwrap();
    let back = parse_ir(&once).unwrap();
    let twice = to_pretty_json(&back).unwrap();
    assert_eq!(once, twice);
}

#[test]
fn test_pretty_print_deterministic_field_order() {
    let ir = parse_ir(r#"{"layers":["nav"],"keys":{"b":{"tap":"y"},"a":{"tap":"x"}}}"#).unwrap();
    let text = to_pretty_json(&ir).unwrap();
    let keys_pos = text.find("\"keys\"").unwrap();
    let layers_pos = text.find("\"layers\"").unwrap();
    assert!(keys_pos < layers_pos);
    let a_pos = text.find("\"a\"").unwrap();
    let b_pos = text.find("\"b\"").unwrap();
    assert!(a_pos < b_pos);
}

#[test]
fn test_key_fields_survive_round_trip() {
    let json = r#"{"keys":{"k":{"tap":"t","hold":"h","mods":["ls","rs"],"when":"c","macros":["m"]}},"conditions":{"c":{}},"macros":{"m":{}}}"#;
    let ir = parse_ir(json).unwrap();
    let k: &Key = ir.get_key("k").unwrap();
    assert!(matches!(&k.tap, Action::Key(s) if s == "t"));
    assert!(matches!(&k.hold, Some(Action::Key(s)) if s == "h"));
    assert_eq!(k.mods, vec!["ls".to_owned(), "rs".to_owned()]);
    assert_eq!(k.when.as_deref(), Some("c"));
    assert_eq!(k.macros, vec!["m".to_owned()]);
}

#[test]
fn test_meta_and_numbers_pass_through() {
    let json = r#"{"meta":{"title":"My map","version":2.5},"keys":{"a":{"tap":"b"}}}"#;
    let ir = parse_ir(json).unwrap();
    let text = to_pretty_json(&ir).unwrap();
    assert!(text.contains("\"title\""));
    assert!(text.contains("My map"));
    assert!(text.contains("2.5"));
    let back = parse_ir(&text).unwrap();
    assert_eq!(to_pretty_json(&back).unwrap(), text);
}

#[test]
fn test_escaped_strings_round_trip() {
    let json = "{\"keys\":{\"a\\\"b\":{\"tap\":\"x\\\\y\"}}}";
    let ir = parse_ir(json).unwrap();
    let text = to_pretty_json(&ir).unwrap();
    let back = parse_ir(&text).unwrap();
    assert_eq!(to_pretty_json(&back).unwrap(), text);
    match &back.get_key("a\"b").unwrap().tap {
        Action::Key(k) => assert_eq!(k, "x\\y"),
        _ => panic!("Expected simple key action"),
    }
}
