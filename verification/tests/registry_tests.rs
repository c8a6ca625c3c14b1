use glacier_codegen::registry::VariantRegistry;

fn cv(s: &str) -> Vec<char> {
    s.chars().collect()
}

fn sv(v: &[char]) -> String {
    v.iter().collect()
}

#[test]
fn register_and_lookup() {
    let mut r = VariantRegistry::new();
    assert!(r.register(cv("uint8"), cv("u8")));
    assert!(r.register(cv("bool"), cv("bool")));
    let t = r.lookup(&cv("uint8")).expect("tag expected");
    assert_eq!(sv(&t), "u8");
    assert!(r.lookup(&cv("uint16")).is_none());
}

#[test]
fn duplicate_tag_is_rejected() {
    let mut r = VariantRegistry::new();
    assert!(r.register(cv("uint8"), cv("u8")));
    assert!(!r.register(cv("uint8"), cv("i8")));
    let t = r.lookup(&cv("uint8")).expect("tag expected");
    assert_eq!(sv(&t), "u8");
}

#[test]
fn declaration_registers_scalar_and_wrapper() {
    let mut r = VariantRegistry::new();
    assert!(r.register_declaration(&cv("ZSomeClass_Foo"), &cv("ZSomeClassFoo")));
    let scalar = r.lookup(&cv("ZSomeClass.Foo")).expect("scalar tag expected");
    assert_eq!(sv(&scalar), "ZSomeClassFoo");
    let wrapped = r
        .lookup(&cv("TArray<ZSomeClass.Foo>"))
        .expect("wrapper tag expected");
    assert_eq!(sv(&wrapped), "TArray<ZSomeClassFoo>");
}

#[test]
fn declaration_with_taken_tag_changes_nothing() {
    let mut r = VariantRegistry::new();
    assert!(r.register(cv("ZSomeClass.Foo"), cv("Other")));
    assert!(!r.register_declaration(&cv("ZSomeClass_Foo"), &cv("ZSomeClassFoo")));
    assert!(r.lookup(&cv("TArray<ZSomeClass.Foo>")).is_none());
}
