use glacier_codegen::types::{render_type, translate_type, GlacierType};

fn cv(s: &str) -> Vec<char> {
    s.chars().collect()
}

fn sv(v: &[char]) -> String {
    v.iter().collect()
}

fn resolve(s: &str) -> String {
    sv(&render_type(&translate_type(&cv(s))))
}

#[test]
fn primitives_resolve() {
    assert_eq!(resolve("int8"), "i8");
    assert_eq!(resolve("int16"), "i16");
    assert_eq!(resolve("int32"), "i32");
    assert_eq!(resolve("int"), "i32");
    assert_eq!(resolve("int64"), "i64");
    assert_eq!(resolve("uint8"), "u8");
    assert_eq!(resolve("uint16"), "u16");
    assert_eq!(resolve("uint32"), "u32");
    assert_eq!(resolve("unsigned"), "u32");
    assert_eq!(resolve("uint64"), "u64");
    assert_eq!(resolve("float32"), "f32");
    assert_eq!(resolve("float"), "f32");
    assert_eq!(resolve("float64"), "f64");
    assert_eq!(resolve("double"), "f64");
    assert_eq!(resolve("bool"), "bool");
    assert_eq!(resolve("char"), "char");
    assert_eq!(resolve("string"), "String");
}

#[test]
fn polymorphic_box_marker_resolves() {
    assert_eq!(resolve("ZVariant"), "Box<dyn ZVariant>");
}

#[test]
fn container_resolves_recursively() {
    assert_eq!(resolve("TArray<uint8>"), "Vec<u8>");
    assert_eq!(resolve("TArray<TArray<int32>>"), "Vec<Vec<i32>>");
}

#[test]
fn fixed_array_structural_round_trip() {
    let t = translate_type(&cv("TFixedArray<TArray<uint8>, 4>"));
    match &t {
        GlacierType::FixedSeq(elem, n) => {
            assert_eq!(*n, 4);
            match &**elem {
                GlacierType::Sequence(inner) => {
                    assert_eq!(**inner, GlacierType::UInt8);
                }
                other => panic!("unexpected element type: {:?}", other),
            }
        }
        other => panic!("unexpected type: {:?}", other),
    }
    assert_eq!(sv(&render_type(&t)), "[Vec<u8>; 4]");
}

#[test]
fn mapping_resolves_both_parameters() {
    assert_eq!(
        resolve("TMap<uint32, ZString>"),
        "std::collections::HashMap<u32, ZString>"
    );
}

#[test]
fn nominal_fallback_replaces_scope_separator() {
    assert_eq!(resolve("SVector2"), "SVector2");
    assert_eq!(resolve("ZMath::SVector"), "ZMathSVector");
}

#[test]
fn fixed_array_with_bad_count_falls_back() {
    let t = translate_type(&cv("TFixedArray<uint8, many>"));
    assert!(matches!(t, GlacierType::Nominal(_)));
}
