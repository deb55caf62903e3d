//! IP addresses as plain values, and their textual rendering.

use vstd::prelude::*;
use crate::text::{decimal, hex, push_char, push_decimal, push_hex};

verus! {

/// An IPv4 address (four octets) or an IPv6 address (eight 16-bit segments),
/// most significant first.
#[derive(Clone, Copy, Debug, PartialEq, Eq, Structural)]
pub enum IpAddress {
    V4(u8, u8, u8, u8),
    V6(u16, u16, u16, u16, u16, u16, u16, u16),
}

/// Dotted-decimal rendering of four octets ("192.168.1.1").
pub open spec fn dotted(a: u8, b: u8, c: u8, d: u8) -> Seq<char> {
    decimal(a as nat) + seq!['.'] + decimal(b as nat) + seq!['.'] + decimal(c as nat) + seq!['.']
        + decimal(d as nat)
}

/// Segments joined by ':' in lower-case hexadecimal without leading zeros.
pub open spec fn join_hex(s: Seq<u16>) -> Seq<char>
    decreases s.len(),
{
    if s.len() == 0 {
        seq![]
    } else if s.len() == 1 {
        hex(s[0] as nat)
    } else {
        join_hex(s.drop_last()) + seq![':'] + hex(s.last() as nat)
    }
}

/// The length of the run of zero segments that starts at `i`.
pub open spec fn zero_run(s: Seq<u16>, i: int) -> nat
    decreases s.len() - i,
{
    if 0 <= i < s.len() && s[i] == 0 {
        1 + zero_run(s, i + 1)
    } else {
        0
    }
}

/// The greatest `zero_run` among the starts `0..k`.
pub open spec fn max_zero_run(s: Seq<u16>, k: int) -> nat
    decreases k,
{
    if k <= 0 {
        0
    } else {
        let m = max_zero_run(s, k - 1);
        if zero_run(s, k - 1) > m { zero_run(s, k - 1) } else { m }
    }
}

/// The first start whose zero run is the longest one (0 when there is none).
pub open spec fn first_longest_start(s: Seq<u16>, k: int) -> int
    decreases k,
{
    if k <= 0 {
        0
    } else if zero_run(s, k - 1) > max_zero_run(s, k - 1) {
        k - 1
    } else {
        first_longest_start(s, k - 1)
    }
}

/// The eight segments of an IPv6 address.
pub open spec fn segments6(
    a: u16, b: u16, c: u16, d: u16, e: u16, f: u16, g: u16, h: u16,
) -> Seq<u16> {
    seq![a, b, c, d, e, f, g, h]
}

/// The text of an IPv6 address given by its segments: an IPv4-mapped address
/// (`::ffff:a.b.c.d`) in its dotted form; otherwise the first longest run of at
/// least two zero segments is replaced by "::" and the other segments are written
/// in hexadecimal, separated by ':'.
pub open spec fn ipv6_text(s: Seq<u16>) -> Seq<char>
    recommends
        s.len() == 8,
{
    if s[0] == 0 && s[1] == 0 && s[2] == 0 && s[3] == 0 && s[4] == 0 && s[5] == 0xffff {
        seq![':', ':', 'f', 'f', 'f', 'f', ':'] + dotted(
            (s[6] / 256) as u8,
            (s[6] % 256) as u8,
            (s[7] / 256) as u8,
            (s[7] % 256) as u8,
        )
    } else {
        let len = max_zero_run(s, 8);
        let start = first_longest_start(s, 8);
        if len > 1 {
            join_hex(s.take(start)) + seq![':', ':'] + join_hex(s.skip(start + len))
        } else {
            join_hex(s)
        }
    }
}

impl IpAddress {
    /// The textual form of the address, as `std::net::IpAddr` displays it.
    pub open spec fn text(self) -> Seq<char> {
        match self {
            IpAddress::V4(a, b, c, d) => dotted(a, b, c, d),
            IpAddress::V6(a, b, c, d, e, f, g, h) => ipv6_text(segments6(a, b, c, d, e, f, g, h)),
        }
    }

    /// `true` for an IPv4 address.
    pub fn is_ipv4(&self) -> (r: bool)
        ensures
            r == (*self is V4),
    {
        match self {
            IpAddress::V4(..) => true,
            IpAddress::V6(..) => false,
        }
    }

    /// `true` for an IPv6 address.
    pub fn is_ipv6(&self) -> (r: bool)
        ensures
            r == (*self is V6),
    {
        match self {
            IpAddress::V4(..) => false,
            IpAddress::V6(..) => true,
        }
    }

    /// Equality of two addresses.
    pub fn same_as(&self, other: &IpAddress) -> (r: bool)
        ensures
            r == (*self == *other),
    {
        *self == *other
    }

    /// The textual form of the address ("8.8.8.8", "2001:db8::1", "::ffff:1.2.3.4").
    pub fn to_text(&self) -> (s: String)
        ensures
            s@ == self.text(),
    {
        let mut s = String::new();
        match self {
            IpAddress::V4(a, b, c, d) => {
                push_dotted(&mut s, *a, *b, *c, *d);
            },
            IpAddress::V6(a, b, c, d, e, f, g, h) => {
                let seg: Vec<u16> = vec![*a, *b, *c, *d, *e, *f, *g, *h];
                assert(seg@ =~= segments6(*a, *b, *c, *d, *e, *f, *g, *h));
                push_ipv6(&mut s, &seg);
            },
        }
        assert(s@ =~= self.text());
        s
    }
}

fn push_dotted(s: &mut String, a: u8, b: u8, c: u8, d: u8)
    ensures
        final(s)@ == old(s)@ + dotted(a, b, c, d),
{
    let ghost start = s@;
    push_decimal(s, a as u64);
    push_char(s, '.');
    push_decimal(s, b as u64);
    push_char(s, '.');
    push_decimal(s, c as u64);
    push_char(s, '.');
    push_decimal(s, d as u64);
    assert(s@ =~= start + dotted(a, b, c, d));
}

/// Appends `join_hex` of `seg[from..to]`.
fn push_join_hex(s: &mut String, seg: &Vec<u16>, from: usize, to: usize)
    requires
        from <= to <= seg.len(),
    ensures
        final(s)@ == old(s)@ + join_hex(seg@.subrange(from as int, to as int)),
{
    let ghost start = s@;
    let mut i = from;
    assert(seg@.subrange(from as int, from as int) =~= seq![]);
    while i < to
        invariant
            from <= i <= to <= seg.len(),
            s@ == start + join_hex(seg@.subrange(from as int, i as int)),
        decreases to - i,
    {
        let ghost prev = seg@.subrange(from as int, i as int);
        let ghost next = seg@.subrange(from as int, i + 1);
        assert(next.drop_last() =~= prev);
        assert(next.last() == seg@[i as int]);
        if i > from {
            push_char(s, ':');
        } else {
            assert(next =~= seq![seg@[i as int]]);
        }
        push_hex(s, seg[i] as u64);
        i = i + 1;
        assert(s@ =~= start + join_hex(seg@.subrange(from as int, i as int)));
    }
}

/// The length of the run of zero segments of `seg` starting at `i`.
fn zero_run_exec(seg: &Vec<u16>, i: usize) -> (n: usize)
    requires
        i <= seg.len(),
        seg.len() == 8,
    ensures
        n == zero_run(seg@, i as int),
        i + n <= seg.len(),
{
    let mut j = seg.len();
    let mut n: usize = 0;
    // count backwards: zero_run(i) from zero_run(j) for j descending
    while j > i
        invariant
            i <= j <= seg.len(),
            seg.len() == 8,
            n == zero_run(seg@, j as int),
            j + n <= seg.len(),
        decreases j - i,
    {
        j = j - 1;
        if seg[j] == 0 {
            n = n + 1;
        } else {
            n = 0;
        }
    }
    n
}

fn push_ipv6(s: &mut String, seg: &Vec<u16>)
    requires
        seg.len() == 8,
    ensures
        final(s)@ == old(s)@ + ipv6_text(seg@),
{
    let ghost start = s@;
    if seg[0] == 0 && seg[1] == 0 && seg[2] == 0 && seg[3] == 0 && seg[4] == 0 && seg[5] == 0xffff {
        push_char(s, ':');
        push_char(s, ':');
        push_char(s, 'f');
        push_char(s, 'f');
        push_char(s, 'f');
        push_char(s, 'f');
        push_char(s, ':');
        push_dotted(
            s,
            (seg[6] / 256) as u8,
            (seg[6] % 256) as u8,
            (seg[7] / 256) as u8,
            (seg[7] % 256) as u8,
        );
        assert(s@ =~= start + ipv6_text(seg@));
        return;
    }
    let mut best_len: usize = 0;
    let mut best_start: usize = 0;
    let mut k: usize = 0;
    while k < 8
        invariant
            seg.len() == 8,
            k <= 8,
            best_len == max_zero_run(seg@, k as int),
            best_start == first_longest_start(seg@, k as int),
            best_start + best_len <= 8,
        decreases 8 - k,
    {
        let run = zero_run_exec(seg, k);
        if run > best_len {
            best_len = run;
            best_start = k;
        }
        k = k + 1;
    }
    if best_len > 1 {
        push_join_hex(s, seg, 0, best_start);
        push_char(s, ':');
        push_char(s, ':');
        push_join_hex(s, seg, best_start + best_len, 8);
        assert(seg@.subrange(0, best_start as int) =~= seg@.take(best_start as int));
        assert(seg@.subrange((best_start + best_len) as int, 8) =~= seg@.skip(
            (best_start + best_len) as int,
        ));
    } else {
        push_join_hex(s, seg, 0, 8);
        assert(seg@.subrange(0, 8) =~= seg@);
    }
    assert(s@ =~= start + ipv6_text(seg@));
}

} // verus!
