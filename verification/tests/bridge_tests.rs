//! The operations behind the foreign-function boundary, exercised directly:
//! build-and-serialize, deserialize-and-compile, and validation by message.

use keypath::{export_kanata, ir_from_json, to_pretty_json, Action, IR};

#[test]
fn test_create_mapping_json() {
    let mut ir = IR::new();
    ir.add_key_mapping("a", "f");
    let json_str = to_pretty_json(&ir).unwrap();

    // Verify it's valid JSON and contains our mapping
    let back = ir_from_json(&json_str).unwrap();
    match &back.get_key("a").unwrap().tap {
        Action::Key(k) => assert_eq!(k, "f"),
        _ => panic!("Expected simple key action"),
    }
}

#[test]
fn test_export_to_kanata() {
    let mut ir = IR::new();
    ir.add_key_mapping("a", "f");
    let ir_json = to_pretty_json(&ir).unwrap();

    let back = ir_from_json(&ir_json).unwrap();
    let kanata_str = export_kanata(&back).unwrap();

    assert!(kanata_str.contains("(defsrc"));
    assert!(kanata_str.contains("(deflayer"));
    assert!(kanata_str.contains("a"));
    assert!(kanata_str.contains("f"));
}

#[test]
fn test_validate_ir_json() {
    let valid_json = r#"{"keys":{},"macros":{},"conditions":{},"layers":[]}"#;
    let result = match ir_from_json(valid_json) {
        Ok(_) => "valid".to_owned(),
        Err(e) => format!("invalid: {}", e.message()),
    };
    assert_eq!(result, "valid");
}

#[test]
fn test_validate_ir_json_reports_message() {
    let result = match ir_from_json(r#"{"keys":0}"#) {
        Ok(_) => "valid".to_owned(),
        Err(e) => format!("invalid: {}", e.message()),
    };
    assert!(result.starts_with("invalid: "));
}
