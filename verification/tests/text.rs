use media_library::text::{
    char_is_space, contains_chars, contains_str, eq_ignore_ascii_case, push_decimal, push_i64,
    push_padded_i32, push_two_digits, replace_char, to_ascii_lowercase, to_chars,
};
use media_library::words::{is_separator, split_ranges, Separator};

fn words(text: &str, kind: Separator) -> Vec<String> {
    let chars = to_chars(text);
    split_ranges(&chars, kind)
        .into_iter()
        .map(|(from, to)| chars[from..to].iter().collect())
        .collect()
}

#[test]
fn white_space_is_what_unicode_says() {
    for code in 0..=0x11_0000u32 {
        if let Some(c) = char::from_u32(code) {
            assert_eq!(char_is_space(c), c.is_whitespace(), "{:#x}", code);
        }
    }
}

#[test]
fn lower_case_changes_the_ascii_letters_only() {
    for text in ["", "ABC", "MiXeD 123", "ÄÖÜ Straße", "[\\]^_`@", "Z{z"] {
        let lowered: String = to_ascii_lowercase(&to_chars(text)).into_iter().collect();
        assert_eq!(lowered, text.to_ascii_lowercase(), "{:?}", text);
    }
}

#[test]
fn texts_are_compared_whatever_the_case_of_ascii_letters() {
    for (a, b) in [
        ("", ""),
        ("null", "NULL"),
        ("Null", "nul"),
        ("é", "É"),
        ("aé", "Aé"),
        ("k", "\u{212A}"),
        ("abc", "abd"),
    ] {
        assert_eq!(eq_ignore_ascii_case(a, b), a.eq_ignore_ascii_case(b), "{:?} {:?}", a, b);
    }
}

#[test]
fn a_text_is_found_inside_another() {
    for (hay, needle) in [
        ("", ""),
        ("abc", ""),
        ("", "a"),
        ("abc", "abc"),
        ("abc", "bc"),
        ("abc", "abcd"),
        ("aab", "ab"),
        ("ababac", "abac"),
        ("简体中文", "中文"),
        ("简体中文", "体文"),
    ] {
        assert_eq!(contains_str(hay, needle), hay.contains(needle), "{:?} {:?}", hay, needle);
        assert_eq!(
            contains_chars(&to_chars(hay), &to_chars(needle)),
            hay.contains(needle),
            "{:?} {:?}",
            hay,
            needle
        );
    }
}

#[test]
fn a_character_gives_way_to_a_text() {
    for text in ["", ".", "a.b", "..a..", "no dots", "点.点"] {
        assert_eq!(replace_char(text, '.', " "), text.replace('.', " "), "{:?}", text);
        assert_eq!(replace_char(text, '.', ""), text.replace('.', ""), "{:?}", text);
        assert_eq!(replace_char(text, '.', "<>"), text.replace('.', "<>"), "{:?}", text);
    }
}

#[test]
fn numbers_are_written_in_decimal() {
    for n in [0u64, 1, 9, 10, 99, 100, 12345, u64::MAX] {
        let mut out = "n=".to_string();
        push_decimal(&mut out, n);
        assert_eq!(out, format!("n={}", n));
        let mut out = String::new();
        push_two_digits(&mut out, n);
        assert_eq!(out, format!("{:02}", n));
    }
    for n in [0i32, 5, -5, 10, -10, 99, -99, 100, i32::MAX, i32::MIN] {
        let mut out = String::new();
        push_padded_i32(&mut out, n);
        assert_eq!(out, format!("{:02}", n));
    }
    for n in [0i64, -1, 1, i64::MAX, i64::MIN, 1399] {
        let mut out = String::new();
        push_i64(&mut out, n);
        assert_eq!(out, n.to_string());
    }
}

#[test]
fn words_are_the_stretches_between_separators() {
    for text in ["", " ", "a", " a  b ", "a.b_c-d e", "\t x\u{3000}y\n", "é-ü", "a1 b2"] {
        let expected: Vec<String> = text.split_whitespace().map(String::from).collect();
        assert_eq!(words(text, Separator::Space), expected, "{:?}", text);

        let expected: Vec<String> = text
            .split(|c: char| c.is_whitespace() || c == '.' || c == '_' || c == '-')
            .filter(|w| !w.is_empty())
            .map(String::from)
            .collect();
        assert_eq!(words(text, Separator::SpaceOrPunctuation), expected, "{:?}", text);

        let expected: Vec<String> = text
            .split(|c: char| !c.is_alphanumeric())
            .filter(|w| !w.is_empty())
            .map(String::from)
            .collect();
        assert_eq!(words(text, Separator::NonAlphanumeric), expected, "{:?}", text);
    }
    assert!(is_separator(Separator::Space, ' '));
    assert!(!is_separator(Separator::Space, '.'));
    assert!(is_separator(Separator::SpaceOrPunctuation, '_'));
    assert!(is_separator(Separator::NonAlphanumeric, '-'));
    assert!(!is_separator(Separator::NonAlphanumeric, '中'));
}
