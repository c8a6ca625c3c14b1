use glacier_codegen::scanner::find_block;

fn cv(s: &str) -> Vec<char> {
    s.chars().collect()
}

fn sv(v: &[char]) -> String {
    v.iter().collect()
}

#[test]
fn block_simple() {
    let h = cv("enum class X { A, B } tail");
    let r = find_block(&h, 12);
    let (a, b) = r.expect("block expected");
    assert_eq!(sv(&h[a..b]), " A, B ");
    assert_eq!(h[a - 1], '{');
    assert_eq!(h[b], '}');
}

#[test]
fn block_nested_braces_balanced() {
    let h = cv("sig { one { two { three } } four { five } } after");
    let r = find_block(&h, 0);
    let (a, b) = r.expect("block expected");
    let body: String = sv(&h[a..b]);
    assert_eq!(body, " one { two { three } } four { five } ");
    let opens = body.chars().filter(|&c| c == '{').count();
    let closes = body.chars().filter(|&c| c == '}').count();
    assert_eq!(opens, closes);
    let mut depth: i64 = 0;
    for c in body.chars() {
        if c == '{' {
            depth += 1;
        } else if c == '}' {
            depth -= 1;
        }
        assert!(depth >= 0);
    }
}

#[test]
fn block_unterminated_is_none() {
    let h = cv("sig { open { closed } but never ends");
    assert!(find_block(&h, 0).is_none());
}

#[test]
fn block_without_open_is_none() {
    let h = cv("no braces at all");
    assert!(find_block(&h, 0).is_none());
}

#[test]
fn block_starts_after_given_position() {
    let h = cv("{ first } second { inner } ");
    let r = find_block(&h, 9);
    let (a, b) = r.expect("block expected");
    assert_eq!(sv(&h[a..b]), " inner ");
}
