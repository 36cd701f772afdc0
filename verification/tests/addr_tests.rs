use socks5::addr::{format_domain, format_ipv4, format_ipv6, parse_ipv4, parse_ipv6};

#[test]
fn ipv4_format_basic() {
    assert_eq!(format_ipv4(127, 0, 0, 1), "127.0.0.1");
    assert_eq!(format_ipv4(0, 0, 0, 0), "0.0.0.0");
    assert_eq!(format_ipv4(255, 255, 255, 255), "255.255.255.255");
    assert_eq!(format_ipv4(10, 20, 3, 254), "10.20.3.254");
}

#[test]
fn ipv4_parse_basic() {
    assert_eq!(parse_ipv4("127.0.0.1"), Some((127, 0, 0, 1)));
    assert_eq!(parse_ipv4("0.0.0.0"), Some((0, 0, 0, 0)));
    assert_eq!(parse_ipv4("255.255.255.255"), Some((255, 255, 255, 255)));
}

#[test]
fn ipv4_parse_rejects_malformed() {
    assert_eq!(parse_ipv4(""), None);
    assert_eq!(parse_ipv4("1.2.3"), None);
    assert_eq!(parse_ipv4("1.2.3.4.5"), None);
    assert_eq!(parse_ipv4("256.1.1.1"), None);
    assert_eq!(parse_ipv4("01.2.3.4"), None);
    assert_eq!(parse_ipv4("1.2.3.004"), None);
    assert_eq!(parse_ipv4("a.b.c.d"), None);
    assert_eq!(parse_ipv4("1.2.3.4 "), None);
    assert_eq!(parse_ipv4("1..2.3"), None);
    assert_eq!(parse_ipv4("1.2.3."), None);
}

#[test]
fn ipv4_round_trip_bytes() {
    for quad in [(0u8, 0u8, 0u8, 0u8), (127, 0, 0, 1), (255, 255, 255, 255), (192, 168, 1, 77)] {
        let text = format_ipv4(quad.0, quad.1, quad.2, quad.3);
        assert_eq!(parse_ipv4(&text), Some(quad));
    }
}

#[test]
fn ipv4_round_trip_text() {
    for text in ["10.0.0.1", "8.8.8.8", "172.16.254.3"] {
        let (a, b, c, d) = parse_ipv4(text).unwrap();
        assert_eq!(format_ipv4(a, b, c, d), text);
    }
}

#[test]
fn ipv6_format_basic() {
    let mut loopback = vec![0u8; 16];
    loopback[15] = 1;
    assert_eq!(
        format_ipv6(&loopback),
        "0000:0000:0000:0000:0000:0000:0000:0001"
    );
    let mut addr = vec![0u8; 16];
    addr[0] = 0x20;
    addr[1] = 0x01;
    addr[2] = 0x0d;
    addr[3] = 0xb8;
    addr[14] = 0xbe;
    addr[15] = 0xef;
    assert_eq!(format_ipv6(&addr), "2001:0db8:0000:0000:0000:0000:0000:beef");
}

#[test]
fn ipv6_parse_basic() {
    let parsed = parse_ipv6("0000:0000:0000:0000:0000:0000:0000:0001").unwrap();
    let mut expected = vec![0u8; 16];
    expected[15] = 1;
    assert_eq!(parsed, expected);
}

#[test]
fn ipv6_parse_rejects_non_canonical() {
    assert_eq!(parse_ipv6("::1"), None);
    assert_eq!(parse_ipv6("0:0:0:0:0:0:0:1"), None);
    assert_eq!(parse_ipv6("0000:0000:0000:0000:0000:0000:0000:000A"), None);
    assert_eq!(parse_ipv6("0000:0000:0000:0000:0000:0000:0000"), None);
    assert_eq!(parse_ipv6("0000.0000:0000:0000:0000:0000:0000:0001"), None);
    assert_eq!(parse_ipv6(""), None);
}

#[test]
fn ipv6_round_trip_bytes() {
    let bytes: Vec<u8> = (0u8..16u8).map(|i| i.wrapping_mul(17)).collect();
    let text = format_ipv6(&bytes);
    assert_eq!(parse_ipv6(&text), Some(bytes));
}

#[test]
fn ipv6_round_trip_text() {
    let text = "fe80:0000:0000:0000:0202:b3ff:fe1e:8329";
    let bytes = parse_ipv6(text).unwrap();
    assert_eq!(format_ipv6(&bytes), text);
}

#[test]
fn domain_format_is_identity_on_ascii() {
    let bytes: Vec<u8> = b"www.example.com".to_vec();
    assert_eq!(format_domain(&bytes), "www.example.com");
    let empty: Vec<u8> = Vec::new();
    assert_eq!(format_domain(&empty), "");
}
