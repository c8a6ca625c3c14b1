use glacier_codegen::classes::extract_class_fields;
use glacier_codegen::types::GlacierType;

fn cv(s: &str) -> Vec<char> {
    s.chars().collect()
}

fn sv(v: &[char]) -> String {
    v.iter().collect()
}

#[test]
fn boolean_field_gets_prefix() {
    let body = cv("\tbool mEnabled;\n");
    let fs = extract_class_fields(&cv("SThing"), &body);
    assert_eq!(fs.len(), 1);
    assert_eq!(sv(&fs[0].original), "mEnabled");
    assert_eq!(sv(&fs[0].canonical), "is_m_enabled");
    assert_eq!(fs[0].resolved, GlacierType::Boolean);
}

#[test]
fn boolean_field_with_prefix_is_kept() {
    let body = cv("\tbool is_ready;\n");
    let fs = extract_class_fields(&cv("SThing"), &body);
    assert_eq!(sv(&fs[0].canonical), "is_ready");
}

#[test]
fn wide_array_marked_beyond_threshold() {
    let body = cv("\tTFixedArray<uint8, 40> m_aData;\n\tTFixedArray<uint8, 32> m_aSmall;\n");
    let fs = extract_class_fields(&cv("SThing"), &body);
    assert_eq!(fs.len(), 2);
    assert!(fs[0].wide_array);
    assert!(!fs[1].wide_array);
}

#[test]
fn scope_prefix_is_dropped_from_type() {
    let body = cv("\tZMath::float32 m_fValue;\n");
    let fs = extract_class_fields(&cv("SThing"), &body);
    assert_eq!(fs.len(), 1);
    assert_eq!(sv(&fs[0].source_type), "float32");
    assert_eq!(fs[0].resolved, GlacierType::Float32);
    assert_eq!(sv(&fs[0].canonical), "f_value");
}

#[test]
fn property_id_override_applies() {
    let body = cv("\tuint32 nPropertyID;\n");
    let fs = extract_class_fields(&cv("SEntityTemplateProperty"), &body);
    assert_eq!(fs.len(), 1);
    match &fs[0].resolved {
        GlacierType::Nominal(name) => assert_eq!(sv(name), "EntityTemplatePropertyId"),
        other => panic!("unexpected resolved type: {:?}", other),
    }
    let other = extract_class_fields(&cv("SOther"), &body);
    assert_eq!(other[0].resolved, GlacierType::UInt32);
}

#[test]
fn non_field_lines_are_skipped() {
    let body = cv("\npublic:\n\tuint32 m_nCount;\n\tvoid doThing();\n");
    let fs = extract_class_fields(&cv("SThing"), &body);
    assert_eq!(fs.len(), 1);
    assert_eq!(sv(&fs[0].original), "m_nCount");
}
