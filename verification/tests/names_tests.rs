use glacier_codegen::enums::extract_enum_variants;
use glacier_codegen::names::{map_field_name, variant_handle};
use glacier_codegen::types::{render_type, translate_type};

fn cv(s: &str) -> Vec<char> {
    s.chars().collect()
}

fn sv(v: &[char]) -> String {
    v.iter().collect()
}

#[test]
fn upper_camel_rendering_of_variant_names() {
    let vs = extract_enum_variants(&cv("\tsomeName,\n"));
    assert_eq!(sv(&vs[0].canonical), "SomeName");
    let vs = extract_enum_variants(&cv("\teColorMode,\n"));
    assert_eq!(sv(&vs[0].canonical), "EColorMode");
}

#[test]
fn upper_camel_rendering_of_nominal_types() {
    let t = translate_type(&cv("my_custom_type"));
    assert_eq!(sv(&render_type(&t)), "MyCustomType");
}

#[test]
fn snake_rendering_of_field_names() {
    assert_eq!(sv(&map_field_name(&cv("nCount"))), "n_count");
    assert_eq!(sv(&map_field_name(&cv("SomeValue"))), "some_value");
}

#[test]
fn hungarian_prefix_is_stripped() {
    assert_eq!(sv(&map_field_name(&cv("m_nCount"))), "n_count");
    assert_eq!(sv(&map_field_name(&cv("x_value"))), "value");
    assert_eq!(sv(&map_field_name(&cv("plain"))), "plain");
}

#[test]
fn reserved_words_get_a_trailing_underscore() {
    assert_eq!(sv(&map_field_name(&cv("m_type"))), "type_");
    assert_eq!(sv(&map_field_name(&cv("move"))), "move_");
    assert_eq!(sv(&map_field_name(&cv("mover"))), "mover");
}

#[test]
fn handle_replaces_last_separator() {
    assert_eq!(sv(&variant_handle(&cv("ZSomeClass_Foo"))), "ZSomeClass.Foo");
    assert_eq!(sv(&variant_handle(&cv("A_B_C"))), "A_B.C");
    assert_eq!(sv(&variant_handle(&cv("NoSeparator"))), "NoSeparator");
}

#[test]
fn handle_exception_passes_through() {
    assert_eq!(
        sv(&variant_handle(&cv("eParticleEmitterBoxEntity_EVelocityType"))),
        "eParticleEmitterBoxEntity_EVelocityType"
    );
}
