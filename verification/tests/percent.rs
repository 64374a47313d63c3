use flax::percent::{from_hex, percent_decode};

#[test]
fn percent_decode_basic() {
    assert_eq!(percent_decode("hello%20world").unwrap(), "hello world");
    assert_eq!(percent_decode("%2f").unwrap(), "/");
    assert!(percent_decode("%zz").is_err());
    assert!(percent_decode("%a").is_err());
}

#[test]
fn percent_decode_keeps_plain_text() {
    assert_eq!(percent_decode("").unwrap(), "");
    assert_eq!(percent_decode("/a/ü/日本?x=+").unwrap(), "/a/ü/日本?x=+");
}

#[test]
fn percent_decode_multibyte() {
    assert_eq!(percent_decode("%E6%97%A5").unwrap(), "日");
    assert_eq!(percent_decode("%c3%bc%25").unwrap(), "ü%");
    // Not UTF-8: a lone continuation byte, an overlong slash, a surrogate.
    assert!(percent_decode("%80").is_err());
    assert!(percent_decode("%c0%af").is_err());
    assert!(percent_decode("%ed%a0%80").is_err());
}

#[test]
fn percent_decode_truncated() {
    assert!(percent_decode("%").is_err());
    assert!(percent_decode("abc%").is_err());
    assert!(percent_decode("abc%4").is_err());
    assert_eq!(percent_decode("abc%41").unwrap(), "abcA");
    assert!(percent_decode("%41%4g").is_err());
}

#[test]
fn from_hex_digits() {
    assert_eq!(from_hex(b'0'), Ok(0));
    assert_eq!(from_hex(b'9'), Ok(9));
    assert_eq!(from_hex(b'a'), Ok(10));
    assert_eq!(from_hex(b'f'), Ok(15));
    assert_eq!(from_hex(b'A'), Ok(10));
    assert_eq!(from_hex(b'F'), Ok(15));
    assert_eq!(from_hex(b'g'), Err(()));
    assert_eq!(from_hex(b'/'), Err(()));
    assert_eq!(from_hex(b':'), Err(()));
    assert_eq!(from_hex(b'@'), Err(()));
    assert_eq!(from_hex(b'`'), Err(()));
}
