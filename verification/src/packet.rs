//! Probe packets: the Internet checksum, ICMP echo requests and replies, and
//! the interpretation of the ICMP errors that the kernel queues for a socket.

use vstd::prelude::*;
use crate::ip::IpAddress;

verus! {

/// Sum of the big-endian 16-bit words of `data`; an odd last byte is the high
/// byte of a word whose low byte is zero.
pub open spec fn word_sum(data: Seq<u8>) -> nat
    decreases data.len(),
{
    if data.len() == 0 {
        0
    } else if data.len() == 1 {
        data[0] as nat * 256
    } else {
        data[0] as nat * 256 + data[1] as nat + word_sum(data.skip(2))
    }
}

/// Adds the carries above 16 bits back into the low 16 bits until none are left
/// (one's-complement reduction).
pub open spec fn fold_carries(x: nat) -> nat
    decreases x,
{
    if x < 65536 {
        x
    } else {
        fold_carries(x % 65536 + x / 65536)
    }
}

/// The Internet checksum (RFC 1071) of `data`: the one's complement of the
/// one's-complement sum of its 16-bit words.
pub open spec fn internet_checksum(data: Seq<u8>) -> nat {
    (65535 - fold_carries(word_sum(data))) as nat
}

/// Folding the carries keeps the value modulo 65535, gives at most 65535, and
/// gives zero only for zero.
pub proof fn lemma_fold_carries(x: nat)
    ensures
        fold_carries(x) % 65535 == x % 65535,
        fold_carries(x) <= 65535,
        x > 0 ==> fold_carries(x) > 0,
        x == 0 ==> fold_carries(x) == 0,
    decreases x,
{
    if x >= 65536 {
        let q = x / 65536;
        let r = x % 65536;
        let y = r + q;
        assert(x == 65535 * q + y);
        vstd::arithmetic::div_mod::lemma_mod_multiples_vanish(q as int, y as int, 65535);
        lemma_fold_carries(y);
    }
}

/// Writing `hi`, `lo` into two zero bytes at an even offset adds the word
/// `hi * 256 + lo` to the word sum.
pub proof fn lemma_word_sum_insert(data: Seq<u8>, k: int, hi: u8, lo: u8)
    requires
        0 <= k,
        k + 1 < data.len(),
        k % 2 == 0,
        data[k] == 0,
        data[k + 1] == 0,
    ensures
        word_sum(data.update(k, hi).update(k + 1, lo)) == word_sum(data) + hi as nat * 256
            + lo as nat,
    decreases k,
{
    let d2 = data.update(k, hi).update(k + 1, lo);
    if k == 0 {
        assert(d2.skip(2) =~= data.skip(2));
    } else {
        lemma_word_sum_insert(data.skip(2), k - 2, hi, lo);
        assert(d2.skip(2) =~= data.skip(2).update(k - 2, hi).update(k - 1, lo));
    }
}

/// A message that carries its own checksum verifies: writing the checksum of
/// `data` big-endian into two zero bytes at an even offset gives data whose
/// checksum is zero.
pub proof fn lemma_checksum_self_verifies(data: Seq<u8>, k: int)
    requires
        0 <= k,
        k + 1 < data.len(),
        k % 2 == 0,
        data[k] == 0,
        data[k + 1] == 0,
    ensures
        ({
            let c = internet_checksum(data);
            internet_checksum(data.update(k, (c / 256) as u8).update(k + 1, (c % 256) as u8)) == 0
        }),
{
    let s = word_sum(data);
    let c = internet_checksum(data);
    lemma_fold_carries(s);
    let hi = (c / 256) as u8;
    let lo = (c % 256) as u8;
    lemma_word_sum_insert(data, k, hi, lo);
    let s2 = s + c;
    assert(word_sum(data.update(k, hi).update(k + 1, lo)) == s2);
    lemma_fold_carries(s2);
    let f = fold_carries(s);
    assert(s2 == s + 65535 - f);
    if s == 0 {
        assert(s2 == 65535);
    } else {
        // s2 ≡ f + 65535 - f ≡ 0 (mod 65535)
        vstd::arithmetic::div_mod::lemma_fundamental_div_mod(s as int, 65535);
        vstd::arithmetic::div_mod::lemma_fundamental_div_mod(f as int, 65535);
        let q = s / 65535;
        assert(s2 == 65535 * (q + 1) + (s % 65535) - f);
        assert(f == f % 65535 || f == 65535);
        if f == 65535 {
            assert(s % 65535 == 0);
            assert(s2 == s);
            vstd::arithmetic::div_mod::lemma_mod_multiples_basic(q as int, 65535);
            assert(s2 == q * 65535);
        } else {
            assert(f % 65535 == f);
            assert(s2 == 65535 * (q + 1));
            vstd::arithmetic::div_mod::lemma_mod_multiples_basic((q + 1) as int, 65535);
        }
        assert(s2 % 65535 == 0);
        assert(fold_carries(s2) % 65535 == 0);
    }
}

/// Data of even length contributes its own word sum to a longer message.
pub proof fn lemma_word_sum_concat(a: Seq<u8>, b: Seq<u8>)
    requires
        a.len() % 2 == 0,
    ensures
        word_sum(a + b) == word_sum(a) + word_sum(b),
    decreases a.len(),
{
    if a.len() > 0 {
        lemma_word_sum_concat(a.skip(2), b);
        assert((a + b).skip(2) =~= a.skip(2) + b);
    } else {
        assert(a + b =~= b);
    }
}

/// A trailing zero byte adds nothing to the word sum.
pub proof fn lemma_word_sum_zero_byte(a: Seq<u8>)
    ensures
        word_sum(a.push(0)) == word_sum(a),
    decreases a.len(),
{
    let p = a.push(0);
    if a.len() >= 2 {
        lemma_word_sum_zero_byte(a.skip(2));
        assert(p.skip(2) =~= a.skip(2).push(0));
        assert(p[0] == a[0] && p[1] == a[1]);
        assert(word_sum(p) == p[0] as nat * 256 + p[1] as nat + word_sum(p.skip(2)));
    } else if a.len() == 1 {
        assert(p.skip(2) =~= Seq::<u8>::empty());
        assert(p[0] == a[0] && p[1] == 0);
        assert(word_sum(Seq::<u8>::empty()) == 0);
        assert(word_sum(p) == p[0] as nat * 256 + p[1] as nat + word_sum(p.skip(2)));
    } else {
        assert(p[0] == 0);
    }
}

/// The checksum does not depend on the order of blocks of even length, and
/// trailing zero bytes do not change it.
pub proof fn law_checksum_order_and_padding(a: Seq<u8>, b: Seq<u8>)
    ensures
        a.len() % 2 == 0 && b.len() % 2 == 0 ==> internet_checksum(a + b) == internet_checksum(b + a),
        internet_checksum(a.push(0)) == internet_checksum(a),
        internet_checksum(a + seq![0u8, 0u8]) == internet_checksum(a),
{
    if a.len() % 2 == 0 && b.len() % 2 == 0 {
        lemma_word_sum_concat(a, b);
        lemma_word_sum_concat(b, a);
    }
    lemma_word_sum_zero_byte(a);
    lemma_word_sum_zero_byte(a.push(0));
    assert(a + seq![0u8, 0u8] =~= a.push(0).push(0));
}

/// Computes the Internet checksum of `data`.
pub fn checksum(data: &[u8]) -> (r: u16)
    requires
        word_sum(data@) <= u32::MAX,
    ensures
        r == internet_checksum(data@),
{
    let mut sum: u32 = 0;
    let mut i: usize = 0;
    assert(data@.skip(0) =~= data@);
    while i < data.len()
        invariant
            i <= data.len(),
            sum + word_sum(data@.skip(i as int)) == word_sum(data@),
            word_sum(data@) <= u32::MAX,
        decreases data.len() - i,
    {
        let ghost rest = data@.skip(i as int);
        let val: u32 = if i + 1 < data.len() {
            (data[i] as u32) * 256 + (data[i + 1] as u32)
        } else {
            (data[i] as u32) * 256
        };
        if i + 1 < data.len() {
            assert(rest.skip(2) =~= data@.skip(i + 2));
            i = i + 2;
        } else {
            i = i + 1;
            assert(data@.skip(i as int) =~= seq![]);
        }
        sum = sum + val;
    }
    assert(data@.skip(i as int) =~= seq![]);
    let ghost total = sum as nat;
    while sum >> 16 != 0
        invariant
            fold_carries(sum as nat) == fold_carries(total),
        decreases sum,
    {
        let x = sum;
        assert(x >> 16 == x / 65536 && x & 0xffff == x % 65536) by (bit_vector);
        sum = (sum & 0xffff) + (sum >> 16);
    }
    let x = sum;
    assert(x >> 16 == x / 65536) by (bit_vector);
    assert(!(x as u16) == (65535 - x) as u16) by (bit_vector)
        requires
            x < 65536,
    ;
    !(sum as u16)
}

/// The first eight bytes of an ICMP echo request: type, code, a zero checksum,
/// identifier and sequence number (both big-endian), then 32 zero payload bytes.
pub open spec fn echo_request_template(ipv6: bool, ident: u16, seq: u16) -> Seq<u8> {
    seq![
        if ipv6 { 128u8 } else { 8u8 },
        0u8,
        0u8,
        0u8,
        (ident / 256) as u8,
        (ident % 256) as u8,
        (seq / 256) as u8,
        (seq % 256) as u8,
    ] + Seq::new(32, |i: int| 0u8)
}

/// The ICMP echo request that a probe sends: the template above, and for IPv4
/// its checksum written big-endian into bytes 2 and 3 (for ICMPv6 the kernel
/// fills in the checksum).
pub open spec fn echo_request(ipv6: bool, ident: u16, seq: u16) -> Seq<u8> {
    let t = echo_request_template(ipv6, ident, seq);
    if ipv6 {
        t
    } else {
        let c = internet_checksum(t);
        t.update(2, (c / 256) as u8).update(3, (c % 256) as u8)
    }
}

/// Builds the ICMP echo request with identifier `ident` and sequence `seq`.
pub fn build_echo_request(ipv6: bool, ident: u16, seq: u16) -> (packet: Vec<u8>)
    ensures
        packet@ == echo_request(ipv6, ident, seq),
        packet@.len() == 40,
        !ipv6 ==> internet_checksum(packet@) == 0,
{
    let mut packet: Vec<u8> = Vec::new();
    let mut i: usize = 0;
    while i < 40
        invariant
            i <= 40,
            packet@ == Seq::new(i as nat, |j: int| 0u8),
        decreases 40 - i,
    {
        packet.push(0);
        i = i + 1;
        assert(packet@ =~= Seq::new(i as nat, |j: int| 0u8));
    }
    if ipv6 {
        packet.set(0, 128);
    } else {
        packet.set(0, 8);
    }
    packet.set(1, 0);
    packet.set(4, (ident / 256) as u8);
    packet.set(5, (ident % 256) as u8);
    packet.set(6, (seq / 256) as u8);
    packet.set(7, (seq % 256) as u8);
    let ghost t = echo_request_template(ipv6, ident, seq);
    assert(packet@ =~= t);
    if !ipv6 {
        proof {
            reveal_with_fuel(word_sum, 22);
        }
        assert(word_sum(t) <= u32::MAX) by {
            lemma_word_sum_bound(t);
        }
        let cs = checksum(packet.as_slice());
        packet.set(2, (cs / 256) as u8);
        packet.set(3, (cs % 256) as u8);
        proof {
            lemma_checksum_self_verifies(t, 2);
        }
    }
    packet
}

/// Every word contributes at most 65535.
pub proof fn lemma_word_sum_bound(data: Seq<u8>)
    ensures
        word_sum(data) <= 65535 * data.len(),
    decreases data.len(),
{
    if data.len() >= 2 {
        lemma_word_sum_bound(data.skip(2));
    }
}

/// The byte offset of the ICMP header in a received datagram: raw IPv4 sockets
/// deliver the IP header first (its length is the low nibble of byte 0, in
/// 32-bit words); ICMPv6 and datagram sockets deliver the ICMP message itself.
pub open spec fn echo_header_offset(buf: Seq<u8>, ipv6: bool, is_raw: bool) -> int {
    if !ipv6 && is_raw {
        (buf[0] % 16) as int * 4
    } else {
        0
    }
}

/// `true` when `buf` holds an echo reply (type 0, or 129 for ICMPv6) whose
/// sequence number (big-endian, bytes 6 and 7 of the ICMP header) is `seq`.
pub open spec fn spec_is_echo_reply(buf: Seq<u8>, ipv6: bool, is_raw: bool, seq: u16) -> bool {
    let off = echo_header_offset(buf, ipv6, is_raw);
    let reply_type = buf[off];
    let reply_seq = buf[off + 6] as nat * 256 + buf[off + 7] as nat;
    (if ipv6 { reply_type == 129 } else { reply_type == 0 }) && reply_seq == seq
}

/// Recognises the echo reply to the probe with sequence number `seq` in a
/// received buffer (which is at least as long as the largest IPv4 header plus
/// an ICMP header).
pub fn is_echo_reply(buf: &[u8], ipv6: bool, is_raw: bool, seq: u16) -> (r: bool)
    requires
        buf@.len() >= 68,
    ensures
        r == spec_is_echo_reply(buf@, ipv6, is_raw, seq),
{
    let type_offset: usize = if !ipv6 && is_raw {
        let b = buf[0];
        assert(b & 0x0f == b % 16) by (bit_vector);
        let ihl = (b & 0x0f) * 4;
        ihl as usize
    } else {
        0
    };
    let reply_type = buf[type_offset];
    let reply_seq: u16 = (buf[type_offset + 6] as u16) * 256 + (buf[type_offset + 7] as u16);
    let is_reply = if ipv6 {
        reply_type == 129
    } else {
        reply_type == 0
    };
    is_reply && reply_seq == seq
}

/// Whether a UDP probe answered by `hop` with ICMP `(msg_type, msg_code)`
/// reached the destination: Port Unreachable (3/3, or 1/4 for ICMPv6) or an
/// answer from the destination itself.
pub open spec fn spec_udp_reached(
    ipv6: bool,
    msg_type: u8,
    msg_code: u8,
    hop: IpAddress,
    dest: IpAddress,
) -> bool {
    if ipv6 {
        (msg_type == 1 && msg_code == 4) || hop == dest
    } else {
        (msg_type == 3 && msg_code == 3) || hop == dest
    }
}

/// A UDP probe answered by the destination itself reached it. Answered by any
/// other hop, it reached the destination only on Port Unreachable (ICMPv6
/// type 1 code 4, ICMP type 3 code 3); Time Exceeded (ICMPv6 type 3, ICMP
/// type 11) or any other message comes from a router on the way.
pub proof fn law_udp_reached_only_on_port_unreachable(
    ipv6: bool,
    msg_type: u8,
    msg_code: u8,
    hop: IpAddress,
    dest: IpAddress,
)
    ensures
        hop == dest ==> spec_udp_reached(ipv6, msg_type, msg_code, hop, dest),
        hop != dest && ipv6 ==> (spec_udp_reached(ipv6, msg_type, msg_code, hop, dest) <==> (msg_type == 1
            && msg_code == 4)),
        hop != dest && !ipv6 ==> (spec_udp_reached(ipv6, msg_type, msg_code, hop, dest) <==> (msg_type == 3
            && msg_code == 3)),
        hop != dest && ipv6 && msg_type == 3 ==> !spec_udp_reached(ipv6, msg_type, msg_code, hop, dest),
        hop != dest && !ipv6 && msg_type == 11 ==> !spec_udp_reached(ipv6, msg_type, msg_code, hop, dest),
{
}

/// Decides whether a UDP probe reached its destination.
pub fn udp_reached(ipv6: bool, msg_type: u8, msg_code: u8, hop: IpAddress, dest: IpAddress) -> (r:
    bool)
    ensures
        r == spec_udp_reached(ipv6, msg_type, msg_code, hop, dest),
{
    if ipv6 {
        (msg_type == 1 && msg_code == 4) || hop.same_as(&dest)
    } else {
        (msg_type == 3 && msg_code == 3) || hop.same_as(&dest)
    }
}

/// The socket constants of the platform that identify queued ICMP errors
/// (`SOL_IP`/`IP_RECVERR`, `SOL_IPV6`/`IPV6_RECVERR`) and address families
/// (`AF_INET`, `AF_INET6`).
#[derive(Clone, Copy, Debug)]
pub struct ErrorQueueKinds {
    pub sol_ip: i32,
    pub ip_recverr: i32,
    pub sol_ipv6: i32,
    pub ipv6_recverr: i32,
    pub af_inet: u16,
    pub af_inet6: u16,
}

/// One control message read from a socket's error queue: its level and type,
/// the extended error's origin, ICMP type and code, and the offender's address
/// family and raw address bytes (4 for IPv4, 16 for IPv6, network order).
#[derive(Clone, Copy, Debug)]
pub struct ErrorRecord {
    pub level: i32,
    pub kind: i32,
    pub origin: u8,
    pub msg_type: u8,
    pub msg_code: u8,
    pub family: u16,
    pub addr4: [u8; 4],
    pub addr6: [u8; 16],
}

/// The IPv6 address whose bytes (network order) are `b`.
pub open spec fn ipv6_from_bytes(b: Seq<u8>) -> IpAddress {
    IpAddress::V6(
        (b[0] as nat * 256 + b[1] as nat) as u16,
        (b[2] as nat * 256 + b[3] as nat) as u16,
        (b[4] as nat * 256 + b[5] as nat) as u16,
        (b[6] as nat * 256 + b[7] as nat) as u16,
        (b[8] as nat * 256 + b[9] as nat) as u16,
        (b[10] as nat * 256 + b[11] as nat) as u16,
        (b[12] as nat * 256 + b[13] as nat) as u16,
        (b[14] as nat * 256 + b[15] as nat) as u16,
    )
}

/// What a record reports, if it is an ICMP error (origin 2 = ICMP, 3 = ICMPv6)
/// queued under `IP_RECVERR` / `IPV6_RECVERR` whose offender is an IPv4 or IPv6
/// address: that address, the ICMP type and the ICMP code.
pub open spec fn record_report(k: ErrorQueueKinds, r: ErrorRecord) -> Option<(IpAddress, u8, u8)> {
    if ((r.level == k.sol_ip && r.kind == k.ip_recverr) || (r.level == k.sol_ipv6 && r.kind
        == k.ipv6_recverr)) && (r.origin == 2 || r.origin == 3) {
        if r.family == k.af_inet {
            Some((IpAddress::V4(r.addr4[0], r.addr4[1], r.addr4[2], r.addr4[3]), r.msg_type, r.msg_code))
        } else if r.family == k.af_inet6 {
            Some((ipv6_from_bytes(r.addr6@), r.msg_type, r.msg_code))
        } else {
            None
        }
    } else {
        None
    }
}

/// The report of the first record of `rs` that reports anything.
pub open spec fn first_report(k: ErrorQueueKinds, rs: Seq<ErrorRecord>) -> Option<(IpAddress, u8, u8)>
    decreases rs.len(),
{
    if rs.len() == 0 {
        None
    } else if record_report(k, rs[0]) is Some {
        record_report(k, rs[0])
    } else {
        first_report(k, rs.skip(1))
    }
}

fn record_report_exec(k: &ErrorQueueKinds, r: &ErrorRecord) -> (out: Option<(IpAddress, u8, u8)>)
    ensures
        out == record_report(*k, *r),
{
    if ((r.level == k.sol_ip && r.kind == k.ip_recverr) || (r.level == k.sol_ipv6 && r.kind
        == k.ipv6_recverr)) && (r.origin == 2 || r.origin == 3) {
        if r.family == k.af_inet {
            Some((IpAddress::V4(r.addr4[0], r.addr4[1], r.addr4[2], r.addr4[3]), r.msg_type, r.msg_code))
        } else if r.family == k.af_inet6 {
            let b = &r.addr6;
            let ip = IpAddress::V6(
                (b[0] as u16) * 256 + (b[1] as u16),
                (b[2] as u16) * 256 + (b[3] as u16),
                (b[4] as u16) * 256 + (b[5] as u16),
                (b[6] as u16) * 256 + (b[7] as u16),
                (b[8] as u16) * 256 + (b[9] as u16),
                (b[10] as u16) * 256 + (b[11] as u16),
                (b[12] as u16) * 256 + (b[13] as u16),
                (b[14] as u16) * 256 + (b[15] as u16),
            );
            Some((ip, r.msg_type, r.msg_code))
        } else {
            None
        }
    } else {
        None
    }
}

/// The offending hop, ICMP type and ICMP code of the first ICMP error among the
/// control messages read from a socket's error queue.
pub fn first_queued_error(k: &ErrorQueueKinds, records: &Vec<ErrorRecord>) -> (out: Option<
    (IpAddress, u8, u8),
>)
    ensures
        out == first_report(*k, records@),
{
    let mut i: usize = 0;
    assert(records@.skip(0) =~= records@);
    while i < records.len()
        invariant
            i <= records.len(),
            first_report(*k, records@) == first_report(*k, records@.skip(i as int)),
        decreases records.len() - i,
    {
        assert(records@.skip(i as int).skip(1) =~= records@.skip(i + 1));
        let rep = record_report_exec(k, &records[i]);
        if rep.is_some() {
            return rep;
        }
        i = i + 1;
    }
    None
}

} // verus!
