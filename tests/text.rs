use planning_poker::text::{
    chars_of, decimal_chars, join_words, lex_less, parse_usize_chars, string_of, text_less,
    trim_text, truncate_to_bytes,
};

#[test]
fn trim_removes_unicode_whitespace() {
    assert_eq!(trim_text("  a b \t\n"), "a b");
    assert_eq!(trim_text("\u{3000}x\u{a0}"), "x");
    assert_eq!(trim_text("   "), "");
    assert_eq!(trim_text(""), "");
}

#[test]
fn words_are_joined_by_single_spaces() {
    let w = join_words(&chars_of("  a \t b\n\nc  "));
    assert_eq!(string_of(&w), "a b c");
}

#[test]
fn usize_parsing_follows_std() {
    for s in ["0", "7", "+7", "0042", "18446744073709551615", "", "+", "-1", "1 2", "x", "18446744073709551616"] {
        assert_eq!(parse_usize_chars(&chars_of(s)), s.parse::<usize>().ok(), "{}", s);
    }
}

#[test]
fn decimal_rendering() {
    assert_eq!(string_of(&decimal_chars(0)), "0");
    assert_eq!(string_of(&decimal_chars(907)), "907");
    assert_eq!(string_of(&decimal_chars(usize::MAX)), usize::MAX.to_string());
}

#[test]
fn lexicographic_order_matches_str() {
    let pairs = [("a", "b"), ("b", "a"), ("a", "ab"), ("ab", "a"), ("", "a"), ("a", "a"), ("Z", "a"), ("é", "z")];
    for (a, b) in pairs {
        assert_eq!(text_less(a, b), a < b, "{} {}", a, b);
        assert_eq!(lex_less(&chars_of(a), &chars_of(b)), a < b);
    }
}

#[test]
fn truncation_keeps_whole_characters() {
    let s = chars_of("abcdefghijklmnopqrstuvwxyz");
    assert_eq!(string_of(&truncate_to_bytes(&s, 20)), "abcdefghijklmnopqrst");
    let s = chars_of("ééééééééééé");
    assert_eq!(string_of(&truncate_to_bytes(&s, 20)), "éééééééééé");
    let s = chars_of("aééééééééééé");
    assert_eq!(string_of(&truncate_to_bytes(&s, 20)), "aééééééééé");
    let s = chars_of("short");
    assert_eq!(string_of(&truncate_to_bytes(&s, 20)), "short");
}
