use routescope::ip::IpAddress;

fn v6(s: [u16; 8]) -> IpAddress {
    IpAddress::V6(s[0], s[1], s[2], s[3], s[4], s[5], s[6], s[7])
}

#[test]
fn ipv4_text() {
    assert_eq!(IpAddress::V4(8, 8, 8, 8).to_text(), "8.8.8.8");
    assert_eq!(IpAddress::V4(192, 168, 0, 100).to_text(), "192.168.0.100");
    assert_eq!(IpAddress::V4(0, 0, 0, 0).to_text(), "0.0.0.0");
}

#[test]
fn ipv6_text_examples() {
    assert_eq!(v6([0x2001, 0xdb8, 0, 0, 0, 0, 0, 1]).to_text(), "2001:db8::1");
    assert_eq!(v6([0; 8]).to_text(), "::");
    assert_eq!(v6([0, 0, 0, 0, 0, 0, 0, 1]).to_text(), "::1");
    assert_eq!(v6([1, 0, 0, 1, 0, 0, 0, 1]).to_text(), "1:0:0:1::1");
    assert_eq!(v6([1, 0, 0, 2, 0, 0, 3, 4]).to_text(), "1::2:0:0:3:4");
    assert_eq!(v6([1, 0, 2, 3, 4, 5, 6, 7]).to_text(), "1:0:2:3:4:5:6:7");
    assert_eq!(v6([0, 0, 0, 0, 0, 0xffff, 0xc000, 0x0201]).to_text(), "::ffff:192.0.2.1");
    assert_eq!(v6([0xfe80, 0, 0, 0, 0x1, 0x2, 0x3, 0]).to_text(), "fe80::1:2:3:0");
}

#[test]
fn ipv6_text_zero_runs() {
    assert_eq!(
        v6([0x2001, 0xdb8, 0x85a3, 0, 0, 0x8a2e, 0x370, 0x7334]).to_text(),
        "2001:db8:85a3::8a2e:370:7334"
    );
    assert_eq!(v6([0, 0, 0, 0, 0, 0, 0xc000, 0x0201]).to_text(), "::c000:201");
    assert_eq!(v6([0, 1, 0, 0, 1, 0, 0, 0]).to_text(), "0:1:0:0:1::");
    assert_eq!(v6([0xffff; 8]).to_text(), "ffff:ffff:ffff:ffff:ffff:ffff:ffff:ffff");
    assert_eq!(v6([0, 0, 1, 0, 0, 0, 1, 0]).to_text(), "0:0:1::1:0");
    assert_eq!(v6([1, 0, 0, 0, 0, 0, 0, 0]).to_text(), "1::");
    assert_eq!(v6([0, 0, 0, 0, 0, 0xffff, 0, 0]).to_text(), "::ffff:0.0.0.0");
    assert_eq!(v6([0, 0, 0, 0, 0xffff, 0, 0, 1]).to_text(), "::ffff:0:0:1");
    assert_eq!(IpAddress::V4(255, 255, 255, 255).to_text(), "255.255.255.255");
}

#[test]
fn families_and_equality() {
    let a = IpAddress::V4(1, 1, 1, 1);
    let b = v6([0, 0, 0, 0, 0, 0, 0, 1]);
    assert!(a.is_ipv4() && !a.is_ipv6());
    assert!(b.is_ipv6() && !b.is_ipv4());
    assert!(a.same_as(&IpAddress::V4(1, 1, 1, 1)));
    assert!(!a.same_as(&b));
}
