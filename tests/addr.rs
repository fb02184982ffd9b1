use hl_bootstrap::addr::{parse_ipv4, Ipv4};

#[test]
fn parses_canonical_dotted_quad() {
    assert_eq!(parse_ipv4("1.2.3.4"), Some(Ipv4(1, 2, 3, 4)));
    assert_eq!(parse_ipv4("255.0.10.199"), Some(Ipv4(255, 0, 10, 199)));
    assert_eq!(parse_ipv4("0.0.0.0"), Some(Ipv4(0, 0, 0, 0)));
}

#[test]
fn rejects_malformed_addresses() {
    assert_eq!(parse_ipv4(""), None);
    assert_eq!(parse_ipv4("1.2.3"), None);
    assert_eq!(parse_ipv4("1.2.3.4.5"), None);
    assert_eq!(parse_ipv4("256.1.1.1"), None);
    assert_eq!(parse_ipv4("01.2.3.4"), None);
    assert_eq!(parse_ipv4("1.2.3.4 "), None);
    assert_eq!(parse_ipv4("1..3.4"), None);
    assert_eq!(parse_ipv4("a.b.c.d"), None);
    assert_eq!(parse_ipv4("1000.1.1.1"), None);
}
