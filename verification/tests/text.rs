use datafusion_distributed::text::{decimal_text, joined, parse_port, same_text};

#[test]
fn numbers_are_spelled() {
    assert_eq!(decimal_text(0), "0");
    assert_eq!(decimal_text(9001), "9001");
    assert_eq!(decimal_text(u64::MAX), "18446744073709551615");
    assert_ne!(decimal_text(10), decimal_text(100));
}

#[test]
fn ports_are_read() {
    assert_eq!(parse_port("0"), Some(0));
    assert_eq!(parse_port("65535"), Some(65535));
    assert_eq!(parse_port("65536"), None);
    assert_eq!(parse_port("000000000000000000000080"), Some(80));
    assert_eq!(parse_port("99999999999999999999999999"), None);
    assert_eq!(parse_port("+1"), Some(1));
    assert_eq!(parse_port("++1"), None);
    assert_eq!(parse_port("+"), None);
    assert_eq!(parse_port(""), None);
    assert_eq!(parse_port("8 0"), None);
    assert_eq!(parse_port("\u{664}"), None);
    for port in [0u16, 9, 10, 80, 9001, 65535] {
        assert_eq!(parse_port(&decimal_text(port as u64)), Some(port));
        assert_eq!(parse_port(&port.to_string()), Some(port));
    }
}

#[test]
fn texts_are_joined_and_compared() {
    assert_eq!(joined("a\u{e9}", "b"), "a\u{e9}b");
    assert_eq!(joined("", ""), "");
    assert!(same_text("https", "https"));
    assert!(!same_text("https", "http"));
    assert!(!same_text("https", "HTTPS"));
}
