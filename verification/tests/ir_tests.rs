use keypath::{Action, IR};

#[test]
fn test_create_empty_ir() {
    let ir = IR::new();
    assert!(ir.keys.is_empty());
    assert!(ir.macros.is_empty());
    assert!(ir.conditions.is_empty());
    assert!(ir.layers.is_empty());
}

#[test]
fn test_add_key_mapping() {
    let mut ir = IR::new();
    ir.add_key_mapping("a", "b");

    assert_eq!(ir.keys.len(), 1);
    let key = ir.get_key("a").unwrap();
    match &key.tap {
        Action::Key(k) => assert_eq!(k, "b"),
        _ => panic!("Expected simple key action"),
    }
}

#[test]
fn test_serialize_simple_ir() {
    let mut ir = IR::new();
    ir.add_key_mapping("a", "b");

    let json = keypath::to_pretty_json(&ir).unwrap();
    assert!(json.contains("\"a\""));
    assert!(json.contains("\"b\""));
}

#[test]
fn test_deserialize_simple_ir() {
    let json = r#"{"keys":{"a":{"tap":"b"}}}"#;
    let ir = keypath::ir_from_json(json).unwrap();

    assert_eq!(ir.keys.len(), 1);
    let key = ir.get_key("a").unwrap();
    match &key.tap {
        Action::Key(k) => assert_eq!(k, "b"),
        _ => panic!("Expected simple key action"),
    }
}

#[test]
fn test_add_key_mapping_overwrites() {
    let mut ir = IR::new();
    ir.add_key_mapping("a", "b");
    ir.add_key_mapping("a", "c");
    assert_eq!(ir.keys.len(), 1);
    match &ir.get_key("a").unwrap().tap {
        Action::Key(k) => assert_eq!(k, "c"),
        _ => panic!("Expected simple key action"),
    }
}

#[test]
fn test_key_map_is_sorted() {
    let mut ir = IR::new();
    ir.add_key_mapping("c", "1");
    ir.add_key_mapping("a", "2");
    ir.add_key_mapping("b", "3");
    let names: Vec<&str> = ir.keys.iter().map(|(n, _)| n.as_str()).collect();
    assert_eq!(names, vec!["a", "b", "c"]);
}
