use qwley_launcher::text::{chars_of, parse_u64, replace, trim};

fn s(x: &str) -> Vec<char> {
    chars_of(x)
}

#[test]
fn trim_drops_unicode_white_space_on_both_ends() {
    assert_eq!(trim(&s("  a b \t\r\n")), s("a b"));
    assert_eq!(trim(&s("\u{3000}x\u{a0}")), s("x"));
    assert_eq!(trim(&s("   ")), s(""));
}

#[test]
fn parse_u64_follows_from_str() {
    assert_eq!(parse_u64(&s("0")), Some(0));
    assert_eq!(parse_u64(&s("+12")), Some(12));
    assert_eq!(parse_u64(&s("18446744073709551615")), Some(u64::MAX));
    assert_eq!(parse_u64(&s("18446744073709551616")), None);
    assert_eq!(parse_u64(&s("")), None);
    assert_eq!(parse_u64(&s("+")), None);
    assert_eq!(parse_u64(&s("1 2")), None);
    assert_eq!(parse_u64(&s("-3")), None);
    for n in [0u64, 7, 10, 99, 1000, 123456789] {
        assert_eq!(parse_u64(&s(&n.to_string())), Some(n));
    }
}

#[test]
fn replace_works_left_to_right() {
    assert_eq!(replace(&s("aaa"), &s("aa"), &s("b")), "ba");
    assert_eq!(replace(&s("a%2Fb%2F"), &s("%2F"), &s("/")), "a/b/");
    assert_eq!(replace(&s("abc"), &s("d"), &s("x")), "abc");
}
