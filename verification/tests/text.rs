use ipdetect::text::{
    chars_of, eq_ignore_ascii_case, find, in_capitals, join, lines, position, split,
    starts_with, string_of, trim, white_space,
};
use ipdetect::wide::to_utf16_nul;

#[test]
fn characters_and_back() {
    for text in ["", "abc", "出口IP  …", "\u{10ffff}\u{0}"] {
        let chars = chars_of(text);
        assert_eq!(chars, text.chars().collect::<Vec<char>>());
        assert_eq!(string_of(&chars), text);
    }
}

#[test]
fn white_space_is_that_of_unicode() {
    for code in 0..=0x10ffffu32 {
        if let Some(c) = char::from_u32(code) {
            assert_eq!(white_space(c), c.is_whitespace(), "{code:x}");
        }
    }
}

#[test]
fn trimming_cuts_both_ends() {
    assert_eq!(string_of(trim(&chars_of(" \t a b \n"))), "a b");
    assert_eq!(string_of(trim(&chars_of(" \t"))), "");
    assert_eq!(string_of(trim(&chars_of(""))), "");
    let chars = chars_of("\u{a0} x \r");
    assert_eq!(trim(trim(&chars)), trim(&chars));
}

#[test]
fn lines_end_as_usual() {
    for text in ["", "\n", "a", "a\n", "a\r\nb", "a\rb\r\n\r", "\r\n\n", "a\n\nb\r\r\n"] {
        let chars = chars_of(text);
        let found: Vec<String> = lines(&chars).iter().map(|line| string_of(line)).collect();
        let expected: Vec<String> = text.lines().map(|line| line.to_string()).collect();
        assert_eq!(found, expected, "{text:?}");
    }
}

#[test]
fn pieces_between_separators() {
    for text in ["", ";", "a", "a;b", ";a;;b;"] {
        let chars = chars_of(text);
        let found: Vec<String> = split(&chars, ';').iter().map(|part| string_of(part)).collect();
        let expected: Vec<String> = text.split(';').map(|part| part.to_string()).collect();
        assert_eq!(found, expected, "{text:?}");
    }
}

#[test]
fn searching() {
    let text = chars_of("a:://b");
    assert_eq!(position(&text, ':'), 1);
    assert_eq!(position(&text, 'x'), 6);
    assert_eq!(find(&text, &chars_of("://")), Some(2));
    assert_eq!(find(&text, &chars_of("//:")), None);
    assert_eq!(find(&text, &[]), Some(0));
    assert_eq!(find(&[], &[]), Some(0));
    assert!(starts_with(&text, &chars_of("a:")));
    assert!(!starts_with(&text, &chars_of("a:x")));
    assert!(!starts_with(&text, &chars_of("a:://bc")));
}

#[test]
fn letter_case() {
    assert!(eq_ignore_ascii_case(&chars_of("HtTp"), &chars_of("http")));
    assert!(!eq_ignore_ascii_case(&chars_of("https"), &chars_of("http")));
    assert!(!eq_ignore_ascii_case(&chars_of("É"), &chars_of("é")));
    assert!(!eq_ignore_ascii_case(&chars_of("@"), &chars_of("`")));
    assert_eq!(in_capitals("jp-1z{"), "JP-1Z{");
    assert_eq!(in_capitals("straße"), "STRAßE");
    for code in 0..0x100u32 {
        let text = String::from(char::from_u32(code).unwrap());
        assert_eq!(in_capitals(&text), text.to_ascii_uppercase());
    }
}

#[test]
fn joining() {
    assert_eq!(ipdetect::text::concat("a", "b"), "ab");
    assert_eq!(join(&vec![], " | "), "");
    assert_eq!(join(&vec!["a".to_string()], " | "), "a");
    assert_eq!(
        join(&vec!["a".to_string(), "b".to_string(), "".to_string()], " | "),
        "a | b | "
    );
}

#[test]
fn wide_text_is_utf16_with_a_zero() {
    for text in ["", "出口IP  …", "a\u{10000}b\u{10ffff}", "\u{ffff}\u{e000}\u{d7ff}"] {
        let units = to_utf16_nul(text);
        let mut expected: Vec<u16> = text.encode_utf16().collect();
        expected.push(0);
        assert_eq!(units, expected);
        assert_eq!(String::from_utf16(&units[..units.len() - 1]).unwrap(), text);
    }
}
