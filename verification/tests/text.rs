use splunklib_rust::text::{
    belongs, byte_len, chars_of, contains_part, decimal_string, ends_with, eq_ignore_ascii_case,
    find_char, left_trim, parse_usize, right_trim, split_lines, starts_with, string_of, trim,
    trim_class, truncate_text, CharClass,
};

fn lines_of(s: &str) -> Vec<String> {
    let chars = chars_of(s);
    split_lines(&chars).iter().map(|l| string_of(l)).collect()
}

#[test]
fn white_space_is_that_of_the_platform() {
    for n in 0..=0x10ffffu32 {
        if let Some(c) = char::from_u32(n) {
            assert_eq!(belongs(c, CharClass::WhiteSpace), c.is_whitespace());
        }
    }
}

#[test]
fn blanks_are_four_characters() {
    for n in 0..=0x10ffffu32 {
        if let Some(c) = char::from_u32(n) {
            assert_eq!(belongs(c, CharClass::Blank), " \t\r\n".contains(c));
        }
    }
}

#[test]
fn lines_are_those_of_the_platform() {
    for s in ["", "\n", "a", "a\n", "a\nb", "a\r\nb\r\n", "\r", "a\r", "\n\n", "a\n\r\n b", "x\r\r\ny"] {
        let expected: Vec<String> = s.lines().map(|l| l.to_string()).collect();
        assert_eq!(lines_of(s), expected);
    }
}

#[test]
fn trimming_takes_blanks_from_both_ends() {
    let s = chars_of(" \t a b\r\n");
    assert_eq!(string_of(trim(&s)), "a b");
    assert_eq!(string_of(left_trim(&s)), "a b\r\n");
    assert_eq!(string_of(right_trim(&s)), " \t a b");
    let wide = chars_of("\u{2003}a\u{a0}");
    assert_eq!(string_of(trim(&wide)), "\u{2003}a\u{a0}");
    assert_eq!(string_of(trim_class(&wide, CharClass::WhiteSpace)), "a");
}

#[test]
fn searching_finds_parts_and_characters() {
    let s = chars_of("hello");
    assert_eq!(find_char(&s, 'l'), Some(2));
    assert_eq!(find_char(&s, 'x'), None);
    assert!(contains_part(&s, &chars_of("ell")));
    assert!(!contains_part(&s, &chars_of("lle")));
    assert!(contains_part(&s, &chars_of("")));
    assert!(starts_with(&s, &chars_of("he")) && !starts_with(&s, &chars_of("el")));
    assert!(ends_with(&s, &chars_of("lo")) && !ends_with(&s, &chars_of("hellooo")));
}

#[test]
fn numerals_are_those_of_the_platform() {
    for n in [0u64, 7, 10, 99, 100, 1_735_000_000, u64::MAX] {
        assert_eq!(decimal_string(n), n.to_string());
    }
    for s in ["0", "42", "+7", "007", "", "+", "-1", "1a", " 1", "18446744073709551615", "18446744073709551616"] {
        assert_eq!(parse_usize(s), s.parse::<usize>().ok());
    }
}

#[test]
fn case_is_ignored_for_ascii_letters_only() {
    assert!(eq_ignore_ascii_case("Content-TYPE", "content-type"));
    assert!(!eq_ignore_ascii_case("\u{c9}", "\u{e9}"));
}

#[test]
fn truncation_keeps_whole_characters() {
    let s = "a\u{e9}\u{20ac}\u{1f600}z";
    assert_eq!(byte_len(s), 11);
    assert_eq!(truncate_text(s, 0), "");
    assert_eq!(truncate_text(s, 1), "a");
    assert_eq!(truncate_text(s, 2), "a");
    assert_eq!(truncate_text(s, 3), "a\u{e9}");
    assert_eq!(truncate_text(s, 5), "a\u{e9}");
    assert_eq!(truncate_text(s, 6), "a\u{e9}\u{20ac}");
    assert_eq!(truncate_text(s, 9), "a\u{e9}\u{20ac}");
    assert_eq!(truncate_text(s, 10), "a\u{e9}\u{20ac}\u{1f600}");
    assert_eq!(truncate_text(s, 11), s);
    assert_eq!(truncate_text(s, 99), s);
}
