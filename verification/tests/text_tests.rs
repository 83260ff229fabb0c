use remote_shutdown::text::{
    chars_of, is_whitespace, matches_at, parse_i32, push_decimal, replace_chars, same_chars,
    slice_of, starts_with, string_of, trim_chars, word_at,
};

fn v(s: &str) -> Vec<char> {
    s.chars().collect()
}

#[test]
fn characters_round_trip() {
    assert_eq!(chars_of("héllo"), v("héllo"));
    assert_eq!(string_of(&v("héllo")), "héllo");
}

#[test]
fn unicode_whitespace() {
    for c in ['\t', '\n', '\u{b}', '\u{c}', '\r', ' ', '\u{85}', '\u{a0}', '\u{1680}', '\u{2000}',
        '\u{200a}', '\u{2028}', '\u{2029}', '\u{202f}', '\u{205f}', '\u{3000}']
    {
        assert!(is_whitespace(c));
        assert!(c.is_whitespace());
    }
    for c in ['a', '\u{200b}', '\u{180e}', '\u{feff}', '0', '\u{0}'] {
        assert!(!is_whitespace(c));
        assert_eq!(is_whitespace(c), c.is_whitespace());
    }
}

#[test]
fn trimming() {
    assert_eq!(trim_chars(&v("  a b \n")), v("a b"));
    assert_eq!(trim_chars(&v("   ")), v(""));
    assert_eq!(trim_chars(&v("\u{3000}x\u{a0}")), v("x"));
}

#[test]
fn prefixes_and_equality() {
    assert!(starts_with(&v("mouse all x"), &v("mouse all")));
    assert!(!starts_with(&v("mouse"), &v("mouse all")));
    assert!(matches_at(&v("abcd"), 2, &v("cd")));
    assert!(!matches_at(&v("abcd"), 3, &v("cd")));
    assert!(same_chars(&v("ab"), &v("ab")));
    assert!(!same_chars(&v("ab"), &v("abc")));
}

#[test]
fn replacement_takes_matches_left_to_right() {
    assert_eq!(replace_chars(&v("aaaa"), &v("aa"), &v("b")), v("bb"));
    assert_eq!(replace_chars(&v("aaa"), &v("aa"), &v("b")), v("ba"));
    assert_eq!(replace_chars(&v("abcabc"), &v("bc"), &v("X")), v("aXaX"));
    assert_eq!(replace_chars(&v("xyz"), &v("q"), &v("")), v("xyz"));
    assert_eq!("aaa".replace("aa", "b"), "ba");
}

#[test]
fn words() {
    let s = v("  one two  three");
    assert_eq!(word_at(&s, 0), Some((2, 5)));
    assert_eq!(word_at(&s, 5), Some((6, 9)));
    assert_eq!(word_at(&s, 9), Some((11, 16)));
    assert_eq!(word_at(&s, 16), None);
    assert_eq!(slice_of(&s, 6, 9), v("two"));
}

#[test]
fn integers() {
    assert_eq!(parse_i32(&v("42")), Some(42));
    assert_eq!(parse_i32(&v("-0")), Some(0));
    assert_eq!(parse_i32(&v("")), None);
    assert_eq!(parse_i32(&v(" 1")), None);
    assert_eq!(parse_i32(&v("1 ")), None);
    for s in ["7", "+7", "-7", "2147483647", "-2147483648", "2147483648", "x", "", "+", "-", "٣"] {
        assert_eq!(parse_i32(&v(s)), s.parse::<i32>().ok());
    }
}

#[test]
fn decimal_numerals() {
    let mut out = v("port ");
    push_decimal(&mut out, 8887);
    assert_eq!(out, v("port 8887"));
    let mut zero = Vec::new();
    push_decimal(&mut zero, 0);
    assert_eq!(zero, v("0"));
    let mut max = Vec::new();
    push_decimal(&mut max, u16::MAX);
    assert_eq!(max, v("65535"));
}
