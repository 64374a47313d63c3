use flax::text::{
    ascii_uppercase, has_nul, is_whitespace, parse_unsigned, push_decimal, same_ignoring_case,
    same_text, split_words,
};

fn decimal(n: u64) -> String {
    let mut out = String::new();
    push_decimal(&mut out, n);
    out
}

#[test]
fn decimals_agree_with_the_standard_library() {
    for n in [0, 1, 9, 10, 11, 99, 100, 1024, 65535, u64::MAX - 1, u64::MAX] {
        assert_eq!(decimal(n), n.to_string());
        assert_eq!(parse_unsigned(&decimal(n), u64::MAX), Some(n));
    }
    let mut out = "n=".to_string();
    push_decimal(&mut out, 42);
    assert_eq!(out, "n=42");
}

#[test]
fn numbers_agree_with_the_standard_library() {
    for text in [
        "", "+", "-", "0", "+0", "-0", "-1", "+1", "++1", "1+", "007", " 1", "1 ", "1_0", "٣", "12a",
        "18446744073709551615", "18446744073709551616", "+18446744073709551615",
        "99999999999999999999999", "000000000000000000000000000000001",
    ] {
        assert_eq!(parse_unsigned(text, u64::MAX), text.parse::<u64>().ok(), "{:?}", text);
        assert_eq!(
            parse_unsigned(text, u64::from(u8::MAX)),
            text.parse::<u8>().ok().map(u64::from),
            "{:?}",
            text
        );
    }
    for n in [0u64, 9, 25, 99, 249, 250, 255, 256, 259, 260, 1000] {
        let text = n.to_string();
        assert_eq!(parse_unsigned(&text, 255), text.parse::<u8>().ok().map(u64::from));
        assert_eq!(parse_unsigned(&text, 7), if n <= 7 { Some(n) } else { None });
    }
}

#[test]
fn white_space_agrees_with_the_standard_library() {
    for v in 0..0x11_0000u32 {
        if let Some(c) = char::from_u32(v) {
            assert_eq!(is_whitespace(c), c.is_whitespace(), "U+{:04X}", v);
        }
    }
}

#[test]
fn words_agree_with_the_standard_library() {
    for text in ["", " ", "a", " a", "a ", "a b", "\ta\u{3000}\u{a0}bc \r\n", "ü ö", "\n\nGET\t/\n"] {
        let expected: Vec<String> = text.split_whitespace().map(String::from).collect();
        assert_eq!(split_words(text), expected, "{:?}", text);
    }
}

#[test]
fn ascii_case() {
    assert_eq!(ascii_uppercase("gEt-ß{z}`a"), "gEt-ß{z}`a".to_ascii_uppercase());
    assert!(same_ignoring_case(b"HtMl", "html"));
    assert!(!same_ignoring_case(b"htm", "html"));
    assert!(!same_ignoring_case(b"h\x54\x4d\x8c", "html"));
    assert!(!same_ignoring_case(b"html ", "html"));
}

#[test]
fn comparisons() {
    assert!(same_text("", ""));
    assert!(same_text("ü", "ü"));
    assert!(!same_text("a", "b"));
    assert!(!same_text("a", "ab"));
    assert!(has_nul("a\0"));
    assert!(!has_nul("a0"));
}
