use rgvg::text::{
    chars_of, compare_chars, compare_text, decimal_string, parse_bounded, parse_usize, restrict,
    split_text, trim_start_text, trim_trailing_nul,
};

#[test]
fn decimal_of_numbers() {
    assert_eq!(decimal_string(0), "0");
    assert_eq!(decimal_string(7), "7");
    assert_eq!(decimal_string(1203), "1203");
}

#[test]
fn parse_usize_reads_digits() {
    assert_eq!(parse_usize("42"), Some(42));
    assert_eq!(parse_usize("0"), Some(0));
    assert_eq!(parse_usize(""), None);
    assert_eq!(parse_usize("4a"), None);
    assert_eq!(parse_usize("-1"), None);
}

#[test]
fn parse_bounded_respects_limit() {
    assert_eq!(parse_bounded("255", 255), Some(255));
    assert_eq!(parse_bounded("256", 255), None);
    assert_eq!(parse_bounded("007", 255), Some(7));
}

#[test]
fn parse_of_decimal_gives_number_back() {
    for n in [0usize, 9, 10, 99, 12345, usize::MAX] {
        assert_eq!(parse_usize(&decimal_string(n)), Some(n));
    }
}

#[test]
fn text_order_compares_characters() {
    assert_eq!(compare_text("a", "b"), -1);
    assert_eq!(compare_text("b", "a"), 1);
    assert_eq!(compare_text("abc", "abc"), 0);
    assert_eq!(compare_text("ab", "abc"), -1);
    assert_eq!(compare_text("abc", "ab"), 1);
    assert_eq!(compare_text("", ""), 0);
    assert_eq!(compare_chars(&chars_of("xy"), &chars_of("xz")), -1);
}

#[test]
fn chars_of_lists_characters() {
    assert_eq!(chars_of("héé"), vec!['h', 'é', 'é']);
}

#[test]
fn split_text_like_str_split() {
    assert_eq!(split_text("a b  c", ' '), vec!["a", "b", "", "c"]);
    assert_eq!(split_text("", ' '), vec![""]);
    assert_eq!(split_text("x\n", '\n'), vec!["x", ""]);
}

#[test]
fn restrict_keeps_whole_characters() {
    assert_eq!(restrict("hello", 3), "hel");
    assert_eq!(restrict("hello", 10), "hello");
    // 'é' takes two bytes: it is dropped rather than cut.
    assert_eq!(restrict("aé", 2), "a");
    assert_eq!(restrict("aé", 3), "aé");
}

#[test]
fn trailing_nuls_are_trimmed() {
    assert_eq!(trim_trailing_nul("ab\0\0"), "ab");
    assert_eq!(trim_trailing_nul("a\0b"), "a\0b");
    assert_eq!(trim_trailing_nul("\0"), "");
}

#[test]
fn trim_start_like_std() {
    assert_eq!(trim_start_text("  \t x y "), "x y ");
    assert_eq!(trim_start_text("\u{A0}z"), "z");
    assert_eq!(trim_start_text("   "), "");
    assert_eq!(trim_start_text("a  "), "a  ");
}

#[test]
fn white_space_like_std() {
    for code in 0u32..=0x10FFFF {
        if let Some(c) = char::from_u32(code) {
            assert_eq!(rgvg::text::is_white_space(c), c.is_whitespace(), "{:x}", code);
        }
    }
}
