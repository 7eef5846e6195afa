use keypath::{export_kanata, parse_ir, to_pretty_json, Action, ComplexAction, KeypathError, IR};

#[test]
fn test_export_basic_kanata() {
    let ir = IR::new();
    let result = export_kanata(&ir).unwrap();

    assert!(result.contains("(deflayer base"));
    assert!(result.contains(")"));
}

#[test]
fn test_compile_single_mapping() {
    let mut ir = IR::new();
    ir.add_key_mapping("a", "f");
    let text = export_kanata(&ir).unwrap();

    let decl: Vec<&str> = block_entries(&text, "(defsrc");
    let base: Vec<&str> = block_entries(&text, "(deflayer base");
    assert_eq!(decl, vec!["a"]);
    assert_eq!(base, vec!["f"]);
}

/// The entries of the block that starts with `header`, one per line.
fn block_entries<'a>(text: &'a str, header: &str) -> Vec<&'a str> {
    let start = text.find(header).unwrap();
    let rest = &text[start + header.len()..];
    let end = rest.find(')').unwrap();
    rest[..end].lines().map(|l| l.trim()).filter(|l| !l.is_empty()).collect()
}

#[test]
fn test_positional_correspondence() {
    let ir = parse_ir(
        r#"{"keys":{"c":{"tap":"3"},"a":{"tap":"1"},"b":{"tap":"2"}},"layers":["nav"]}"#,
    )
    .unwrap();
    let text = export_kanata(&ir).unwrap();

    let decl = block_entries(&text, "(defsrc");
    let base = block_entries(&text, "(deflayer base");
    let nav = block_entries(&text, "(deflayer nav");
    assert_eq!(decl, vec!["a", "b", "c"]);
    assert_eq!(base.len(), decl.len());
    assert_eq!(nav.len(), decl.len());
    // Position i of every layer block resolves the key declared at position i.
    assert_eq!(base, vec!["1", "2", "3"]);
    assert_eq!(nav, vec!["1", "2", "3"]);
}

#[test]
fn test_export_hold_and_mods() {
    let json = r#"{"keys":{"k":{"tap":"t","hold":{"layer":"nav"},"mods":["lsft"]}},"layers":["nav"]}"#;
    let ir = parse_ir(json).unwrap();
    let text = export_kanata(&ir).unwrap();
    assert!(text.contains("(multi lsft (tap-hold 200 200 t (layer-switch nav)))"));
}

#[test]
fn test_export_macro_and_condition_blocks() {
    let json = r#"{"keys":{"k":{"tap":{"macro_name":"m"},"when":"c"}},"macros":{"m":{}},"conditions":{"c":{},"unused":{}}}"#;
    let ir = parse_ir(json).unwrap();
    let text = export_kanata(&ir).unwrap();
    assert!(text.contains("(macro m)"));
    assert!(text.contains("(defmacro m)"));
    assert!(text.contains("(defcond c)"));
    assert!(!text.contains("(defcond unused)"));
}

#[test]
fn test_export_rejects_unknown_layer() {
    let mut ir = IR::new();
    ir.keys.push((
        "a".to_owned(),
        keypath::Key {
            tap: Action::Complex(ComplexAction {
                layer: Some("missing".to_owned()),
                macro_name: None,
            }),
            hold: None,
            mods: Vec::new(),
            when: None,
            macros: Vec::new(),
        },
    ));
    match export_kanata(&ir) {
        Err(KeypathError::ExportFailed(m)) => {
            assert!(m.contains("unknown layer 'missing'"));
            assert!(m.contains("Key 'a'"));
        }
        _ => panic!("Expected an export failure"),
    }
}

#[test]
fn test_export_rejects_empty_complex() {
    let mut ir = IR::new();
    ir.keys.push((
        "a".to_owned(),
        keypath::Key {
            tap: Action::Complex(ComplexAction { layer: None, macro_name: None }),
            hold: None,
            mods: Vec::new(),
            when: None,
            macros: Vec::new(),
        },
    ));
    match export_kanata(&ir) {
        Err(KeypathError::ExportFailed(m)) => {
            assert!(m.contains("neither layer nor macro_name"));
        }
        _ => panic!("Expected an export failure"),
    }
}

#[test]
fn test_export_deterministic() {
    let mut ir = IR::new();
    ir.add_key_mapping("b", "2");
    ir.add_key_mapping("a", "1");
    let t1 = export_kanata(&ir).unwrap();
    let t2 = export_kanata(&ir).unwrap();
    assert_eq!(t1, t2);
    let _ = to_pretty_json(&ir).unwrap();
}
