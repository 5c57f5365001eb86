use fullbleed::geometry::{Pt, Ratio};
use fullbleed::text::{
    a11y_normalize_text, blank, char_is_space, chars_of, contains_text, count_text,
    decimal_text, find_chars, integer_text, join_strings, lowered, parse_i32, parse_i64, same,
    split_chars, text_of, trimmed, words_of,
};

fn chars(s: &str) -> Vec<char> {
    s.chars().collect()
}

#[test]
fn spaces_are_those_of_unicode() {
    for u in 0..=0x3100u32 {
        if let Some(c) = char::from_u32(u) {
            assert_eq!(char_is_space(c), c.is_whitespace(), "{u:x}");
        }
    }
}

#[test]
fn texts_are_trimmed_and_normalized() {
    assert_eq!(trimmed(" \u{a0}a b\n"), "a b");
    assert_eq!(trimmed(&trimmed("  x ")), "x");
    assert_eq!(a11y_normalize_text("  a \n\t b  "), "a b");
    assert!(blank(" \u{3000}"));
    assert!(!blank(" x "));
    assert_eq!(words_of(" a  b\tc "), vec!["a", "b", "c"]);
    assert_eq!(lowered("AbC \u{c4}"), "abc \u{c4}");
}

#[test]
fn texts_are_taken_apart_and_put_together() {
    assert_eq!(text_of(&chars_of("h\u{e9}llo")), "h\u{e9}llo");
    assert!(same("x", "x") && !same("x", "y"));
    let parts: Vec<String> = split_chars(&chars("a,,b"), ',').iter().map(|p| text_of(p)).collect();
    assert_eq!(parts, vec!["a", "", "b"]);
    assert_eq!(join_strings(&parts, "-"), "a--b");
    assert_eq!(join_strings(&Vec::new(), "-"), "");
}

#[test]
fn texts_are_searched() {
    assert!(contains_text("hello", "ell"));
    assert!(contains_text("hello", ""));
    assert!(!contains_text("hello", "lll"));
    assert_eq!(find_chars(&chars("abcabc"), &chars("bc"), 2), Some(4));
    assert_eq!(find_chars(&chars("abc"), &chars("x"), 0), None);
}

#[test]
fn numbers_are_read() {
    for s in ["0", "-0", "+5", "007", "-9223372036854775808", "9223372036854775807"] {
        assert_eq!(parse_i64(&chars(s)), s.parse::<i64>().ok(), "{s}");
    }
    for s in ["", "-", "+", " 1", "1 ", "--1", "9223372036854775808", "1.0", "\u{661}"] {
        assert_eq!(parse_i64(&chars(s)), None, "{s}");
        assert_eq!(s.parse::<i64>().ok(), None, "{s}");
    }
    assert_eq!(parse_i32(&chars("2147483647")), Some(i32::MAX));
    assert_eq!(parse_i32(&chars("2147483648")), None);
    assert_eq!(parse_i32(&chars("-2147483648")), Some(i32::MIN));
}

#[test]
fn numbers_are_written() {
    for n in [0u64, 7, 10, 99, 100, u64::MAX] {
        assert_eq!(decimal_text(n), n.to_string());
    }
    assert_eq!(count_text(1234), "1234");
    for n in [0i64, -1, 42, i64::MIN, i64::MAX] {
        assert_eq!(integer_text(n), n.to_string());
        assert_eq!(parse_i64(&chars(&integer_text(n))), Some(n));
    }
}

#[test]
fn lengths_saturate() {
    let max = Pt::from_milli_i64(i64::MAX);
    let one = Pt::from_milli_i64(1);
    assert_eq!(max.plus(one), max);
    assert_eq!(Pt::from_milli_i64(i64::MIN).minus(one), Pt::from_milli_i64(i64::MIN));
    assert_eq!(Pt::from_milli_i64(-3).mul_ratio(1, 2), Pt::from_milli_i64(-1));
    assert_eq!(Pt::from_milli_i64(3).mul_ratio(1, 2), Pt::from_milli_i64(1));
    assert_eq!(Pt::from_milli_i64(1).larger(Pt::zero()), one);
    assert_eq!(Pt::from_milli_i64(1).smaller(Pt::zero()), Pt::zero());
    assert_eq!(Pt::from_milli_i64(1000).scaled(Ratio { num: 2, den: 3 }), Pt::from_milli_i64(667));
    assert!(Ratio { num: 1, den: 3 }.below(&Ratio { num: 1, den: 2 }));
    assert!(!Ratio::one().below(&Ratio::one()));
}
