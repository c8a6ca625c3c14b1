use glacier_codegen::enums::extract_enum_variants;

fn cv(s: &str) -> Vec<char> {
    s.chars().collect()
}

fn sv(v: &[char]) -> String {
    v.iter().collect()
}

#[test]
fn dedup_keeps_only_first_of_colliding_canonical_names() {
    let body = cv("\tFoo_Bar,\n\tFOO_BAR,\n");
    let vs = extract_enum_variants(&body);
    assert_eq!(vs.len(), 1);
    assert_eq!(sv(&vs[0].original), "Foo_Bar");
}

#[test]
fn literal_collision_rewrites_repeats_once() {
    let body = cv("\tA = 1,\n\tB = 1,\n\tC = 1,\n");
    let vs = extract_enum_variants(&body);
    assert_eq!(vs.len(), 3);
    assert_eq!(sv(vs[0].literal.as_ref().unwrap()), "1");
    assert_eq!(sv(vs[1].literal.as_ref().unwrap()), "-1");
    assert_eq!(sv(vs[2].literal.as_ref().unwrap()), "-1");
}

#[test]
fn literal_collision_only_on_equal_text() {
    let body = cv("\tA = 1,\n\tB = 2,\n\tC = 1,\n");
    let vs = extract_enum_variants(&body);
    assert_eq!(sv(vs[0].literal.as_ref().unwrap()), "1");
    assert_eq!(sv(vs[1].literal.as_ref().unwrap()), "2");
    assert_eq!(sv(vs[2].literal.as_ref().unwrap()), "-1");
}

#[test]
fn common_prefix_is_stripped() {
    let body = cv("\tColor_Red,\n\tColor_Green,\n\tColor_Blue,\n");
    let vs = extract_enum_variants(&body);
    assert_eq!(vs.len(), 3);
    assert_eq!(sv(&vs[0].canonical), "Red");
    assert_eq!(sv(&vs[1].canonical), "Green");
    assert_eq!(sv(&vs[2].canonical), "Blue");
}

#[test]
fn prefix_stripping_suppressed_for_leading_digit() {
    let body = cv("\tColor_Red,\n\tColor_1Red,\n\tColor_Blue,\n");
    let vs = extract_enum_variants(&body);
    assert_eq!(sv(&vs[0].canonical), "Red");
    assert_eq!(sv(&vs[1].canonical), "Color1red");
    assert_eq!(sv(&vs[2].canonical), "Blue");
}

#[test]
fn prefix_not_stripped_when_not_shared() {
    let body = cv("\tColor_Red,\n\tShade_Green,\n");
    let vs = extract_enum_variants(&body);
    assert_eq!(sv(&vs[0].canonical), "ColorRed");
    assert_eq!(sv(&vs[1].canonical), "ShadeGreen");
}

#[test]
fn comments_and_blank_lines_are_skipped() {
    let body = cv("\n\t// a comment line\n\tFirst = 5, // five\n\n\tSecond,\n");
    let vs = extract_enum_variants(&body);
    assert_eq!(vs.len(), 2);
    assert_eq!(sv(&vs[0].original), "First");
    assert_eq!(sv(vs[0].literal.as_ref().unwrap()), "5");
    assert_eq!(sv(&vs[1].original), "Second");
    assert!(vs[1].literal.is_none());
}
