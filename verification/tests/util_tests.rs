use routescope::util::{format_ms, is_private_ip};

#[test]
fn test_loopback() {
    assert!(is_private_ip("127.0.0.1"));
    assert!(is_private_ip("::1"));
}

#[test]
fn test_rfc1918() {
    assert!(is_private_ip("10.0.0.1"));
    assert!(is_private_ip("10.255.255.255"));
    assert!(is_private_ip("192.168.1.1"));
    assert!(is_private_ip("192.168.0.100"));
    assert!(is_private_ip("172.16.0.1"));
    assert!(is_private_ip("172.31.255.255"));
}

#[test]
fn test_public() {
    assert!(!is_private_ip("8.8.8.8"));
    assert!(!is_private_ip("1.1.1.1"));
    assert!(!is_private_ip("103.5.6.7"));
    assert!(!is_private_ip("172.32.0.1")); // just outside 172.16/12
}

#[test]
fn test_format_ms() {
    // durations are given in microseconds: 0.5 ms, 15 ms, 1500 ms
    assert!(format_ms(500).contains("µs"));
    assert!(format_ms(15_000).contains("ms"));
    assert!(format_ms(1_500_000).contains("s"));
}

#[test]
fn format_ms_exact_values() {
    assert_eq!(format_ms(0), "0 µs");
    assert_eq!(format_ms(999), "999 µs");
    assert_eq!(format_ms(1000), "1.00 ms");
    assert_eq!(format_ms(15_000), "15.00 ms");
    // an exact tie rounds to the even digit, as `{:.2}` does
    assert_eq!(format_ms(12_345), "12.34 ms");
    assert_eq!(format_ms(12_355), "12.36 ms");
    assert_eq!(format_ms(1125), "1.12 ms");
    assert_eq!(format_ms(12_344), "12.34 ms");
    assert_eq!(format_ms(999_996), "1000.00 ms");
    assert_eq!(format_ms(1_500_000), "1.50 s");
    assert_eq!(format_ms(61_234_567), "61.23 s");
}

#[test]
fn private_ip_second_octet_forms() {
    // the second octet is parsed as `u8::from_str` does
    assert!(is_private_ip("172.016.0.1"));
    assert!(is_private_ip("172.+20.0.1"));
    assert!(is_private_ip("172.31"));
    assert!(!is_private_ip("172.15.0.1"));
    assert!(!is_private_ip("172.256.0.1"));
    assert!(!is_private_ip("172.+.0.1"));
    assert!(!is_private_ip("172..0.1"));
    assert!(!is_private_ip("172.-16.0.1"));
}

#[test]
fn private_ip_ipv6_prefixes() {
    assert!(is_private_ip("fc00::1"));
    assert!(is_private_ip("fd12:3456::1"));
    assert!(is_private_ip("fe80::1"));
    assert!(is_private_ip("fe90::1"));
    assert!(is_private_ip("febf::1"));
    assert!(!is_private_ip("fec0::1"));
    assert!(!is_private_ip("2001:db8::1"));
    assert!(!is_private_ip(""));
}

#[test]
fn private_ip_whole_loopback_block() {
    assert!(is_private_ip("127.0.0.2"));
    assert!(is_private_ip("127.255.1.9"));
    assert!(!is_private_ip("128.0.0.1"));
    assert!(!is_private_ip("12.7.0.1"));
}

#[test]
fn private_ip_ipv6_first_group_must_be_in_range() {
    // "fc::1" is 00fc::1, outside fc00::/7; "fe8::1" is 0fe8::1, outside fe80::/10
    assert!(!is_private_ip("fc::1"));
    assert!(!is_private_ip("fd::1"));
    assert!(!is_private_ip("fe8::1"));
    assert!(is_private_ip("fdff::1"));
    assert!(is_private_ip("febf:1::2"));
    // an IPv4-mapped address is an IPv6 address, not in the IPv4 ranges
    assert!(!is_private_ip("::ffff:10.0.0.1"));
    assert!(!is_private_ip("::2"));
}
