use glacier_codegen::emit::generate_module;

fn cv(s: &str) -> Vec<char> {
    s.chars().collect()
}

fn sv(v: &[char]) -> String {
    v.iter().collect()
}

const HEADER: &str = "enum class EColor {\n\tCOL_Red = 1,\n\tCOL_Green,\n};\n\nclass SThing {\npublic:\n\tuint32 m_nCount;\n\tbool bFlag;\n};\n";

const INCLUDES: &str = "use crate::glacier_types::*;\nuse serde::{ Serialize, Deserialize };\nuse std::collections::HashMap;\nuse serde_big_array::BigArray;\n\n";

#[test]
fn generates_enum_group() {
    let g = generate_module(&cv(HEADER), &cv("hm_test"));
    let body = "#[derive(Debug, Serialize, Deserialize)]\n#[serde(rename = \"EColor\")]\npub enum EColor {\n\t#[serde(rename = \"COL_Red\")]\n\tRed = 1,\n\t#[serde(rename = \"COL_Green\")]\n\tGreen,\n}\n\n#[typetag::serde(name = \"EColor\")]\nimpl ZVariant for EColor {}\n#[typetag::serde(name = \"TArray<EColor>\")]\nimpl ZVariant for TArray<EColor> {}\n";
    let expected = format!("{}{}", INCLUDES, body);
    assert_eq!(sv(&g.enums_source), expected);
}

#[test]
fn generates_class_group() {
    let g = generate_module(&cv(HEADER), &cv("hm_test"));
    let body = "#[derive(Debug, Serialize, Deserialize)]\n#[serde(rename = \"SThing\")]\npub struct SThing {\n\t#[serde(rename = \"m_nCount\")]\n\tpub n_count: u32,\n\t#[serde(rename = \"bFlag\")]\n\tpub is_b_flag: bool,\n}\n\n#[typetag::serde(name = \"SThing\")]\nimpl ZVariant for SThing {}\n#[typetag::serde(name = \"TArray<SThing>\")]\nimpl ZVariant for TArray<SThing> {}\n";
    let expected = format!("{}use crate::hm_test::enums::*;\n{}", INCLUDES, body);
    assert_eq!(sv(&g.properties_source), expected);
}

#[test]
fn generates_module_aggregator() {
    let g = generate_module(&cv(HEADER), &cv("hm_test"));
    assert_eq!(sv(&g.mod_source), "pub mod enums;\npub mod properties;\n");
}

#[test]
fn generation_is_deterministic() {
    let g1 = generate_module(&cv(HEADER), &cv("hm_test"));
    let g2 = generate_module(&cv(HEADER), &cv("hm_test"));
    assert_eq!(g1.enums_source, g2.enums_source);
    assert_eq!(g1.properties_source, g2.properties_source);
    assert_eq!(g1.mod_source, g2.mod_source);
}

#[test]
fn duplicate_enum_declaration_is_skipped() {
    let h = cv("enum class EMode { M_A, }\nenum class EMode { M_B, }\n");
    let g = generate_module(&h, &cv("m"));
    let text = sv(&g.enums_source);
    assert_eq!(text.matches("pub enum EMode").count(), 1);
    assert!(text.contains("\tA,\n"));
    assert!(!text.contains("\tB,\n"));
}

#[test]
fn unterminated_declaration_is_dropped() {
    let h = cv("enum class EBroken {\n\tA,\n");
    let g = generate_module(&h, &cv("m"));
    assert_eq!(sv(&g.enums_source), INCLUDES);
}

#[test]
fn handle_with_separator_in_registration() {
    let h = cv("enum class ZSomeClass_Foo { V_A, }\n");
    let g = generate_module(&h, &cv("m"));
    let text = sv(&g.enums_source);
    assert!(text.contains("#[typetag::serde(name = \"ZSomeClass.Foo\")]"));
    assert!(text.contains("#[typetag::serde(name = \"TArray<ZSomeClass.Foo>\")]"));
}

#[test]
fn alignas_comment_between_class_and_name() {
    let h = cv("class /* alignas(8) */ SAligned {\n\tint32 m_nX;\n};\n");
    let g = generate_module(&h, &cv("m"));
    let text = sv(&g.properties_source);
    assert!(text.contains("pub struct SAligned {"));
    assert!(text.contains("\tpub n_x: i32,\n"));
}

#[test]
fn enum_class_not_emitted_as_class() {
    let h = cv("enum class EOnly { E_A, }\n");
    let g = generate_module(&h, &cv("m"));
    let text = sv(&g.properties_source);
    assert!(!text.contains("pub struct"));
}
