use routescope::ip::IpAddress;
use routescope::packet::{
    build_echo_request, checksum, first_queued_error, is_echo_reply, udp_reached, ErrorQueueKinds,
    ErrorRecord,
};

#[test]
fn checksum_rfc1071_example() {
    // RFC 1071, section 3: words 0001 f203 f4f5 f6f7 sum to 0xddf2 after folding
    let data = [0x00u8, 0x01, 0xf2, 0x03, 0xf4, 0xf5, 0xf6, 0xf7];
    assert_eq!(checksum(&data), !0xddf2u16);
    assert_eq!(checksum(&data), 0x220d);
}

#[test]
fn checksum_odd_length_and_empty() {
    assert_eq!(checksum(&[]), 0xffff);
    // a lone byte is the high byte of a word
    assert_eq!(checksum(&[0x12]), !0x1200u16);
    assert_eq!(checksum(&[0xff, 0xff]), 0x0000);
}

#[test]
fn echo_request_layout_ipv4() {
    let p = build_echo_request(false, 0x1234, 0x0102);
    assert_eq!(p.len(), 40);
    assert_eq!(p[0], 8);
    assert_eq!(p[1], 0);
    assert_eq!(&p[4..8], &[0x12, 0x34, 0x01, 0x02]);
    assert!(p[8..].iter().all(|&b| b == 0));
    // the packet carries its own checksum, so it verifies to zero
    assert_eq!(checksum(&p), 0);
    let mut zeroed = p.clone();
    zeroed[2] = 0;
    zeroed[3] = 0;
    assert_eq!(u16::from_be_bytes([p[2], p[3]]), checksum(&zeroed));
}

#[test]
fn echo_request_layout_ipv6() {
    let p = build_echo_request(true, 7, 9);
    assert_eq!(p.len(), 40);
    assert_eq!(p[0], 128);
    assert_eq!(&p[2..4], &[0, 0]);
    assert_eq!(&p[4..8], &[0, 7, 0, 9]);
}

fn reply_buf(prefix: &[u8]) -> Vec<u8> {
    let mut b = vec![0u8; 512];
    b[..prefix.len()].copy_from_slice(prefix);
    b
}

#[test]
fn echo_reply_recognition() {
    // datagram IPv4: ICMP header first
    let b = reply_buf(&[0, 0, 0, 0, 0x12, 0x34, 0x00, 0x05]);
    assert!(is_echo_reply(&b, false, false, 5));
    assert!(!is_echo_reply(&b, false, false, 6));
    assert!(!is_echo_reply(&b, true, false, 5));
    // raw IPv4: a 20-byte IP header (IHL 5) comes first
    let mut raw = vec![0u8; 512];
    raw[0] = 0x45;
    raw[20] = 0;
    raw[26] = 0x00;
    raw[27] = 0x09;
    assert!(is_echo_reply(&raw, false, true, 9));
    assert!(!is_echo_reply(&raw, false, false, 9));
    // ICMPv6 echo reply is type 129
    let v6 = reply_buf(&[129, 0, 0, 0, 0, 0, 0x01, 0x00]);
    assert!(is_echo_reply(&v6, true, true, 256));
}

#[test]
fn udp_destination_detection() {
    let dest = IpAddress::V4(8, 8, 8, 8);
    let hop = IpAddress::V4(10, 0, 0, 1);
    assert!(udp_reached(false, 3, 3, hop, dest));
    assert!(!udp_reached(false, 11, 0, hop, dest));
    assert!(udp_reached(false, 11, 0, dest, dest));
    assert!(udp_reached(true, 1, 4, hop, dest));
    assert!(!udp_reached(true, 3, 3, hop, dest));
}

fn kinds() -> ErrorQueueKinds {
    ErrorQueueKinds { sol_ip: 0, ip_recverr: 11, sol_ipv6: 41, ipv6_recverr: 25, af_inet: 2, af_inet6: 10 }
}

fn record(level: i32, kind: i32, origin: u8, family: u16) -> ErrorRecord {
    let mut addr6 = [0u8; 16];
    addr6[0] = 0x20;
    addr6[1] = 0x01;
    addr6[15] = 1;
    ErrorRecord {
        level,
        kind,
        origin,
        msg_type: 11,
        msg_code: 0,
        family,
        addr4: [192, 0, 2, 1],
        addr6,
    }
}

#[test]
fn queued_error_interpretation() {
    let k = kinds();
    // not an ICMP origin, then an IPv4 ICMP error
    let recs = vec![record(0, 11, 1, 2), record(0, 11, 2, 2)];
    assert_eq!(first_queued_error(&k, &recs), Some((IpAddress::V4(192, 0, 2, 1), 11, 0)));
    // an IPv6 ICMP error
    let recs = vec![record(41, 25, 3, 10)];
    assert_eq!(
        first_queued_error(&k, &recs),
        Some((IpAddress::V6(0x2001, 0, 0, 0, 0, 0, 0, 1), 11, 0))
    );
    // wrong level, unknown family: nothing
    let recs = vec![record(1, 11, 2, 2), record(0, 11, 2, 99)];
    assert_eq!(first_queued_error(&k, &recs), None);
    assert_eq!(first_queued_error(&k, &vec![]), None);
}

#[test]
fn checksum_ignores_block_order_and_zero_padding() {
    let a: Vec<u8> = vec![0x45, 0x00, 0x00, 0x1c, 0xab, 0xcd];
    let b: Vec<u8> = vec![0x12, 0x34, 0xff, 0xff];
    let ab: Vec<u8> = a.iter().chain(b.iter()).copied().collect();
    let ba: Vec<u8> = b.iter().chain(a.iter()).copied().collect();
    assert_eq!(checksum(&ab), checksum(&ba));
    let mut padded = a.clone();
    padded.push(0);
    assert_eq!(checksum(&padded), checksum(&a));
    padded.push(0);
    assert_eq!(checksum(&padded), checksum(&a));
    let odd: Vec<u8> = vec![0x01, 0x02, 0x03];
    let mut odd_padded = odd.clone();
    odd_padded.push(0);
    assert_eq!(checksum(&odd_padded), checksum(&odd));
}
