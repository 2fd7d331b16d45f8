//! Texts, numbers and addresses.

use portmanager::net::{IpAddr, Ipv4Addr};
use portmanager::text::{
    contains, dec, dec_i32, lines, parse_i32, parse_unsigned, rsplit_once, shorten, split,
    split_once, split_whitespace, str_less, trim, NumError,
};

#[test]
fn texts_are_cut() {
    assert_eq!(trim(" \t a b \n"), "a b");
    assert_eq!(split_once("a->b->c", "->"), Some(("a", "b->c")));
    assert_eq!(rsplit_once("a:b:c", ":"), Some(("a:b", "c")));
    assert_eq!(split("a,,b", ','), vec!["a", "", "b"]);
    assert_eq!(split_whitespace("  a  bc "), vec!["a", "bc"]);
    assert_eq!(lines("a\r\nb\n\nc\r"), vec!["a", "b", "", "c\r"]);
    assert!(lines("").is_empty());
    assert!(contains("grüße", "üß") && !contains("ab", "abc") && contains("", ""));
    assert_eq!(shorten("grü"), "gr");
    assert_eq!(shorten(""), "");
    assert!(str_less("ab", "b") && str_less("a", "ab") && !str_less("a", "a"));
}

#[test]
fn numbers_are_read_and_written() {
    assert_eq!(parse_unsigned("65535", 65535), Ok(65535));
    assert_eq!(parse_unsigned("+7", 65535), Ok(7));
    assert_eq!(parse_unsigned("65536", 65535), Err(NumError::TooLarge));
    assert_eq!(parse_unsigned("", 65535), Err(NumError::Empty));
    assert_eq!(parse_unsigned("7x", 65535), Err(NumError::InvalidDigit));
    assert_eq!(parse_i32("-2147483648"), Ok(i32::MIN));
    assert_eq!(parse_i32("-2147483649"), Err(NumError::TooSmall));
    assert_eq!(dec(u64::MAX), u64::MAX.to_string());
    assert_eq!(dec_i32(i32::MIN), i32::MIN.to_string());
    for (text, e) in [("", NumError::Empty), ("x", NumError::InvalidDigit)] {
        assert_eq!(text.parse::<u16>().unwrap_err().to_string(), e.message());
    }
}

#[test]
fn addresses_read_back() {
    for text in ["127.0.0.1", "0.0.0.0", "::", "::1", "fd00::1", "1:2:3:4:5:6:7:8", "::ffff:1.2.3.4"]
    {
        assert_eq!(IpAddr::parse(text).unwrap().to_text(), text);
    }
    for text in ["", "1.2.3", "256.0.0.1", "01.2.3.4", ":::", "1::2::3", "12345::"] {
        assert_eq!(IpAddr::parse(text), None, "{text}");
    }
    assert_eq!(IpAddr::parse("0:0:1:0:0:0:0:1").unwrap().to_text(), "0:0:1::1");
    assert!(IpAddr::V4(Ipv4Addr::new(127, 9, 9, 9)).is_loopback());
    assert!(!IpAddr::unspecified().is_loopback());
}
