//! The private and loopback address ranges, and the proof that the textual
//! test `util::is_private_ip` decides membership in them for the text of
//! every address.

use vstd::prelude::*;
use crate::ip::{dotted, first_longest_start, ipv6_text, join_hex, max_zero_run, segments6, zero_run, IpAddress};
use crate::text::{decimal, digit_char, digit_value, has_prefix, hex, hex_char, is_digit};
use crate::util::{all_digits, before_colon, before_dot, digits_value, parse_u8, spec_is_private_ip};

verus! {

impl IpAddress {
    /// Membership in 127.0.0.0/8, 10.0.0.0/8, 172.16.0.0/12, 192.168.0.0/16,
    /// ::1, fc00::/7 or fe80::/10.
    pub open spec fn in_private_range(self) -> bool {
        match self {
            IpAddress::V4(a, b, _, _) => a == 127 || a == 10 || (a == 172 && 16 <= b && b <= 31) || (
            a == 192 && b == 168),
            IpAddress::V6(s0, s1, s2, s3, s4, s5, s6, s7) => (s0 == 0 && s1 == 0 && s2 == 0 && s3 == 0
                && s4 == 0 && s5 == 0 && s6 == 0 && s7 == 1) || (0xfc00 <= s0 && s0 <= 0xfdff) || (
            0xfe80 <= s0 && s0 <= 0xfebf),
        }
    }
}

proof fn lemma_digit_char(d: nat)
    requires
        d < 10,
    ensures
        is_digit(digit_char(d)),
        digit_value(digit_char(d)) == d,
{
    assert('0' as nat == 48 && '1' as nat == 49 && '2' as nat == 50 && '3' as nat == 51 && '4' as nat
        == 52 && '5' as nat == 53 && '6' as nat == 54 && '7' as nat == 55 && '8' as nat == 56
        && '9' as nat == 57);
    if d == 0 {
    } else if d == 1 {
    } else if d == 2 {
    } else if d == 3 {
    } else if d == 4 {
    } else if d == 5 {
    } else if d == 6 {
    } else if d == 7 {
    } else if d == 8 {
    } else {
    }
}

/// The decimal rendering is a non-empty numeral whose value is `n`.
proof fn lemma_decimal(n: nat)
    ensures
        decimal(n).len() >= 1,
        all_digits(decimal(n)),
        digits_value(decimal(n)) == n,
    decreases n,
{
    if n < 10 {
        lemma_digit_char(n);
        let x = decimal(n);
        assert(x.drop_last() =~= Seq::<char>::empty());
        assert(digits_value(Seq::<char>::empty()) == 0);
        assert(x.last() == digit_char(n));
        assert(digits_value(x) == digits_value(x.drop_last()) * 10 + digit_value(x.last()));
    } else {
        lemma_decimal(n / 10);
        lemma_digit_char(n % 10);
        let x = decimal(n);
        assert(x.drop_last() =~= decimal(n / 10));
        assert(x.last() == digit_char(n % 10));
        assert forall|i: int| 0 <= i < x.len() implies is_digit(#[trigger] x[i]) by {
            if i < x.len() - 1 {
                assert(x[i] == decimal(n / 10)[i]);
            }
        }
        assert(digits_value(x) == digits_value(decimal(n / 10)) * 10 + digit_value(x.last()));
        assert((n / 10) * 10 + n % 10 == n);
    }
}

/// A numeral followed by '.' starts with another numeral followed by '.'
/// exactly when the two numerals are equal.
proof fn lemma_numeral_prefix(x: Seq<char>, y: Seq<char>, rest: Seq<char>)
    requires
        all_digits(x),
        all_digits(y),
    ensures
        has_prefix(x + seq!['.'] + rest, y + seq!['.']) <==> x == y,
{
    let t = x + seq!['.'] + rest;
    let p = y + seq!['.'];
    if x == y {
        assert(t.take(p.len() as int) =~= p);
    }
    if has_prefix(t, p) {
        if y.len() < x.len() {
            assert(t.take(p.len() as int)[y.len() as int] == t[y.len() as int]);
            assert(is_digit(x[y.len() as int]));
        } else if y.len() > x.len() {
            assert(t.take(p.len() as int)[x.len() as int] == p[x.len() as int]);
            assert(is_digit(y[x.len() as int]));
        } else {
            assert forall|i: int| 0 <= i < x.len() implies x[i] == y[i] by {
                assert(t.take(p.len() as int)[i] == p[i]);
            }
            assert(x =~= y);
        }
    }
}

/// `decimal(n) + "." + rest` starts with `decimal(k) + "."` exactly when `n == k`.
proof fn lemma_decimal_prefix(n: nat, k: nat, rest: Seq<char>)
    ensures
        has_prefix(decimal(n) + seq!['.'] + rest, decimal(k) + seq!['.']) <==> n == k,
{
    lemma_decimal(n);
    lemma_decimal(k);
    lemma_numeral_prefix(decimal(n), decimal(k), rest);
}

/// The characters before the first '.' of a numeral followed by '.'.
proof fn lemma_before_dot(x: Seq<char>, rest: Seq<char>)
    requires
        all_digits(x),
    ensures
        before_dot(x + seq!['.'] + rest) == x,
    decreases x.len(),
{
    let t = x + seq!['.'] + rest;
    if x.len() == 0 {
        assert(t[0] == '.');
    } else {
        assert(is_digit(x[0]));
        assert(t.skip(1) =~= x.skip(1) + seq!['.'] + rest);
        lemma_before_dot(x.skip(1), rest);
        assert(x =~= seq![x[0]] + x.skip(1));
    }
}

/// The IPv4 text test decides the IPv4 ranges.
proof fn lemma_private_v4(a: u8, b: u8, c: u8, d: u8)
    ensures
        spec_is_private_ip(IpAddress::V4(a, b, c, d).text()) == IpAddress::V4(a, b, c, d).in_private_range(),
{
    let r2 = decimal(c as nat) + seq!['.'] + decimal(d as nat);
    let r = decimal(b as nat) + seq!['.'] + r2;
    let t = decimal(a as nat) + seq!['.'] + r;
    assert(t =~= dotted(a, b, c, d));
    lemma_decimal(a as nat);
    lemma_decimal(b as nat);
    assert(is_digit(t[0]));
    reveal_with_fuel(decimal, 4);
    assert(decimal(127) =~= seq!['1', '2', '7']);
    assert(decimal(10) =~= seq!['1', '0']);
    assert(decimal(192) =~= seq!['1', '9', '2']);
    assert(decimal(168) =~= seq!['1', '6', '8']);
    assert(decimal(172) =~= seq!['1', '7', '2']);
    lemma_decimal_prefix(a as nat, 127, r);
    lemma_decimal_prefix(a as nat, 10, r);
    lemma_decimal_prefix(a as nat, 172, r);
    lemma_decimal_prefix(a as nat, 192, r);
    assert(seq!['1', '2', '7', '.'] =~= decimal(127) + seq!['.']);
    assert(seq!['1', '0', '.'] =~= decimal(10) + seq!['.']);
    assert(seq!['1', '7', '2', '.'] =~= decimal(172) + seq!['.']);
    assert(seq!['1', '9', '2', '.'] =~= decimal(192) + seq!['.']);
    // "192.168."
    let p192 = seq!['1', '9', '2', '.', '1', '6', '8', '.'];
    if has_prefix(t, p192) {
        assert(t.take(4) =~= p192.take(4));
        assert(has_prefix(t, seq!['1', '9', '2', '.']));
        assert(a == 192);
        assert(t =~= seq!['1', '9', '2', '.'] + r);
        lemma_decimal_prefix(b as nat, 168, r2);
        assert(r.take(4) =~= t.take(8).skip(4));
        assert(has_prefix(r, decimal(168) + seq!['.']));
    }
    if a == 192 && b == 168 {
        assert(t.take(8) =~= p192);
    }
    // "172." and the second octet
    if a == 172 {
        assert(t =~= seq!['1', '7', '2', '.'] + r);
        assert(t.skip(4) =~= r);
        lemma_before_dot(decimal(b as nat), r2);
        let db = decimal(b as nat);
        assert(is_digit(db[0]));
        assert(parse_u8(db) == Some(b));
    }
    // the IPv6 conditions need a ':' or an 'f' first
    assert(t[0] != ':');
    assert(t != seq![':', ':', '1']);
    assert(!has_prefix(t, seq!['f', 'c']) && !has_prefix(t, seq!['f', 'd']));
    assert(!has_prefix(t, seq!['f', 'e', '8']) && !has_prefix(t, seq!['f', 'e', '9']));
    assert(!has_prefix(t, seq!['f', 'e', 'a']) && !has_prefix(t, seq!['f', 'e', 'b']));
}

/// `true` for a lower-case hexadecimal digit.
pub open spec fn is_hex_char(c: char) -> bool {
    is_digit(c) || ('a' <= c && c <= 'f')
}

/// The value of a lower-case hexadecimal digit.
pub open spec fn hex_value(c: char) -> nat {
    if is_digit(c) { digit_value(c) } else { (c as nat - 'a' as nat + 10) as nat }
}

/// Every character of `s` is a hexadecimal digit or ':'.
pub open spec fn hex_or_colon(s: Seq<char>) -> bool {
    forall|i: int| 0 <= i < s.len() ==> is_hex_char(#[trigger] s[i]) || s[i] == ':'
}

proof fn lemma_hex_char(d: nat)
    requires
        d < 16,
    ensures
        is_hex_char(hex_char(d)),
        hex_value(hex_char(d)) == d,
{
    if d < 10 {
        lemma_digit_char(d);
    } else {
        assert('a' as nat == 97 && 'b' as nat == 98 && 'c' as nat == 99 && 'd' as nat == 100 && 'e' as nat
            == 101 && 'f' as nat == 102);
        if d == 10 {
        } else if d == 11 {
        } else if d == 12 {
        } else if d == 13 {
        } else if d == 14 {
        } else {
        }
    }
}

/// The hexadecimal rendering: non-empty, hexadecimal digits only, one digit
/// below 16 and one more digit per factor of 16.
proof fn lemma_hex(n: nat)
    ensures
        hex(n).len() >= 1,
        forall|i: int| 0 <= i < hex(n).len() ==> is_hex_char(#[trigger] hex(n)[i]),
        n < 16 ==> hex(n) == seq![hex_char(n)],
        n >= 16 ==> hex(n) == hex(n / 16).push(hex_char(n % 16)),
    decreases n,
{
    if n < 16 {
        lemma_hex_char(n);
    } else {
        lemma_hex(n / 16);
        lemma_hex_char(n % 16);
        let x = hex(n);
        assert forall|i: int| 0 <= i < x.len() implies is_hex_char(#[trigger] x[i]) by {
            if i < x.len() - 1 {
                assert(x[i] == hex(n / 16)[i]);
            }
        }
    }
}

/// Below 4096 the rendering has at most three digits; from 4096 up to 65535
/// it has exactly four, most significant first.
proof fn lemma_hex4(n: nat)
    requires
        n < 65536,
    ensures
        n < 4096 ==> hex(n).len() <= 3,
        n >= 4096 ==> hex(n) == seq![hex_char(n / 4096), hex_char(n / 256 % 16), hex_char(n / 16 % 16), hex_char(n % 16)],
{
    lemma_hex(n);
    lemma_hex(n / 16);
    lemma_hex(n / 256);
    assert(n / 16 / 16 == n / 256);
    assert(n / 256 / 16 == n / 4096);
    assert(n / 16 % 16 == (n / 16) % 16);
    if n >= 16 {
        if n / 16 >= 16 {
            if n / 256 >= 16 {
                assert(n / 4096 < 16);
                lemma_hex(n / 4096);
                assert(hex(n) =~= seq![hex_char(n / 4096), hex_char(n / 256 % 16), hex_char(n / 16 % 16), hex_char(n % 16)]);
            }
        }
    }
}

/// `join_hex` writes hexadecimal digits and ':' only; a non-empty list starts
/// with the rendering of its first segment, followed by ':' when more follow.
proof fn lemma_join_hex(x: Seq<u16>)
    ensures
        hex_or_colon(join_hex(x)),
        x.len() == 1 ==> join_hex(x) == hex(x[0] as nat),
        x.len() >= 2 ==> join_hex(x) == hex(x[0] as nat) + seq![':'] + join_hex(x.skip(1)),
        x.len() >= 2 ==> join_hex(x).len() >= 3,
        x.len() == 0 ==> join_hex(x).len() == 0,
    decreases x.len(),
{
    if x.len() == 0 {
    } else if x.len() == 1 {
        lemma_hex(x[0] as nat);
    } else {
        let init = x.drop_last();
        lemma_join_hex(init);
        lemma_hex(x.last() as nat);
        lemma_hex(x[0] as nat);
        let j = join_hex(x);
        assert(j == join_hex(init) + seq![':'] + hex(x.last() as nat));
        assert forall|i: int| 0 <= i < j.len() implies is_hex_char(#[trigger] j[i]) || j[i] == ':' by {
            if i < join_hex(init).len() {
                assert(j[i] == join_hex(init)[i]);
            } else if i > join_hex(init).len() {
                assert(j[i] == hex(x.last() as nat)[i - join_hex(init).len() - 1]);
            }
        }
        if x.len() == 2 {
            assert(x.skip(1) =~= seq![x[1]]);
            assert(join_hex(x.skip(1)) == hex(x[1] as nat));
            assert(init =~= seq![x[0]]);
        } else {
            let tail = x.skip(1);
            lemma_join_hex(tail);
            assert(tail.drop_last() =~= init.skip(1));
            assert(join_hex(tail) == join_hex(tail.drop_last()) + seq![':'] + hex(tail.last() as nat));
            assert(init[0] == x[0]);
            assert(j =~= hex(x[0] as nat) + seq![':'] + join_hex(tail));
        }
    }
}

/// The zero segments counted by `zero_run` from `i` all are zero, and stay
/// within the list.
proof fn lemma_zero_run(s: Seq<u16>, i: int)
    requires
        0 <= i,
    ensures
        i + zero_run(s, i) <= s.len() || zero_run(s, i) == 0,
        forall|j: int| i <= j < i + zero_run(s, i) ==> s[j] == 0,
    decreases s.len() - i,
{
    if 0 <= i < s.len() && s[i] == 0 {
        lemma_zero_run(s, i + 1);
    }
}

/// The first longest run starts before `k` (or at 0), and is as long as the
/// longest run when there is one.
proof fn lemma_first_longest(s: Seq<u16>, k: int)
    ensures
        0 <= first_longest_start(s, k),
        k > 0 ==> first_longest_start(s, k) < k,
        max_zero_run(s, k) > 0 ==> zero_run(s, first_longest_start(s, k)) == max_zero_run(s, k),
    decreases k,
{
    if k > 0 {
        lemma_first_longest(s, k - 1);
    }
}

/// The characters before the first ':' of `x + ":" + rest`, for `x` free of ':'.
proof fn lemma_before_colon(x: Seq<char>, rest: Seq<char>)
    requires
        forall|i: int| 0 <= i < x.len() ==> #[trigger] x[i] != ':',
    ensures
        before_colon(x + seq![':'] + rest) == x,
    decreases x.len(),
{
    let t = x + seq![':'] + rest;
    if x.len() == 0 {
        assert(t[0] == ':');
    } else {
        assert(t[0] == x[0]);
        assert(t.skip(1) =~= x.skip(1) + seq![':'] + rest);
        lemma_before_colon(x.skip(1), rest);
        assert(x =~= seq![x[0]] + x.skip(1));
    }
}

/// `t` starts with `p` exactly when `p` is no longer and agrees on each of its
/// positions.
proof fn lemma_has_prefix(t: Seq<char>, p: Seq<char>)
    ensures
        has_prefix(t, p) <==> (p.len() <= t.len() && forall|i: int| 0 <= i < p.len() ==> t[i] == p[i]),
{
    if p.len() <= t.len() {
        if forall|i: int| 0 <= i < p.len() ==> t[i] == p[i] {
            assert(t.take(p.len() as int) =~= p);
        }
        if has_prefix(t, p) {
            assert forall|i: int| 0 <= i < p.len() implies t[i] == p[i] by {
                assert(t.take(p.len() as int)[i] == p[i]);
            }
        }
    }
}

/// A text starting with ':' has none of the prefixes that start with a digit
/// or with 'f'.
proof fn lemma_colon_first(t: Seq<char>)
    requires
        t.len() > 0,
        t[0] == ':',
    ensures
        !has_prefix(t, seq!['1', '2', '7', '.']),
        !has_prefix(t, seq!['1', '0', '.']),
        !has_prefix(t, seq!['1', '9', '2', '.', '1', '6', '8', '.']),
        !has_prefix(t, seq!['1', '7', '2', '.']),
        !has_prefix(t, seq!['f', 'c']),
        !has_prefix(t, seq!['f', 'd']),
        !has_prefix(t, seq!['f', 'e', '8']),
        !has_prefix(t, seq!['f', 'e', '9']),
        !has_prefix(t, seq!['f', 'e', 'a']),
        !has_prefix(t, seq!['f', 'e', 'b']),
{
    lemma_has_prefix(t, seq!['1', '2', '7', '.']);
    lemma_has_prefix(t, seq!['1', '0', '.']);
    lemma_has_prefix(t, seq!['1', '9', '2', '.', '1', '6', '8', '.']);
    lemma_has_prefix(t, seq!['1', '7', '2', '.']);
    lemma_has_prefix(t, seq!['f', 'c']);
    lemma_has_prefix(t, seq!['f', 'd']);
    lemma_has_prefix(t, seq!['f', 'e', '8']);
    lemma_has_prefix(t, seq!['f', 'e', '9']);
    lemma_has_prefix(t, seq!['f', 'e', 'a']);
    lemma_has_prefix(t, seq!['f', 'e', 'b']);
}

/// A text of hexadecimal digits and ':' has none of the IPv4 prefixes.
proof fn lemma_no_dot(t: Seq<char>)
    requires
        hex_or_colon(t),
    ensures
        !has_prefix(t, seq!['1', '2', '7', '.']),
        !has_prefix(t, seq!['1', '0', '.']),
        !has_prefix(t, seq!['1', '9', '2', '.', '1', '6', '8', '.']),
        !has_prefix(t, seq!['1', '7', '2', '.']),
{
    lemma_has_prefix(t, seq!['1', '2', '7', '.']);
    lemma_has_prefix(t, seq!['1', '0', '.']);
    lemma_has_prefix(t, seq!['1', '9', '2', '.', '1', '6', '8', '.']);
    lemma_has_prefix(t, seq!['1', '7', '2', '.']);
    if t.len() > 3 {
        assert(is_hex_char(t[3]) || t[3] == ':');
    }
    if t.len() > 2 {
        assert(is_hex_char(t[2]) || t[2] == ':');
    }
}

proof fn lemma_hex_or_colon_concat(x: Seq<char>, y: Seq<char>)
    requires
        hex_or_colon(x),
        hex_or_colon(y),
    ensures
        hex_or_colon(x + y),
{
    assert forall|i: int| 0 <= i < (x + y).len() implies is_hex_char(#[trigger] (x + y)[i]) || (x + y)[i]
        == ':' by {
        if i < x.len() {
            assert((x + y)[i] == x[i]);
        } else {
            assert((x + y)[i] == y[i - x.len()]);
        }
    }
}

/// The text of `::1`.
proof fn lemma_loopback_text(s: Seq<u16>)
    requires
        s == seq![0u16, 0, 0, 0, 0, 0, 0, 1],
    ensures
        ipv6_text(s) == seq![':', ':', '1'],
{
    assert(zero_run(s, 8) == 0);
    assert(zero_run(s, 7) == 0);
    assert(zero_run(s, 6) == 1);
    assert(zero_run(s, 5) == 2);
    assert(zero_run(s, 4) == 3);
    assert(zero_run(s, 3) == 4);
    assert(zero_run(s, 2) == 5);
    assert(zero_run(s, 1) == 6);
    assert(zero_run(s, 0) == 7);
    assert(max_zero_run(s, 0) == 0 && first_longest_start(s, 0) == 0);
    assert(max_zero_run(s, 1) == 7 && first_longest_start(s, 1) == 0);
    assert(max_zero_run(s, 2) == 7 && first_longest_start(s, 2) == 0);
    assert(max_zero_run(s, 3) == 7 && first_longest_start(s, 3) == 0);
    assert(max_zero_run(s, 4) == 7 && first_longest_start(s, 4) == 0);
    assert(max_zero_run(s, 5) == 7 && first_longest_start(s, 5) == 0);
    assert(max_zero_run(s, 6) == 7 && first_longest_start(s, 6) == 0);
    assert(max_zero_run(s, 7) == 7 && first_longest_start(s, 7) == 0);
    assert(max_zero_run(s, 8) == 7 && first_longest_start(s, 8) == 0);
    assert(s.take(0) =~= Seq::<u16>::empty());
    assert(s.skip(7) =~= seq![1u16]);
    lemma_join_hex(s.take(0));
    lemma_join_hex(s.skip(7));
    lemma_hex(1);
    assert(hex_char(1) == '1');
    assert(ipv6_text(s) =~= seq![':', ':', '1']);
}

/// `true` for the segments of an IPv4-mapped address.
pub open spec fn is_mapped(s: Seq<u16>) -> bool {
    s[0] == 0 && s[1] == 0 && s[2] == 0 && s[3] == 0 && s[4] == 0 && s[5] == 0xffff
}

/// The text of a list compressed from its first segment starts with "::";
/// when it is "::1" the list is that of `::1`.
proof fn lemma_front_zero(s: Seq<u16>)
    requires
        s.len() == 8,
        !is_mapped(s),
        max_zero_run(s, 8) > 1,
        first_longest_start(s, 8) == 0,
    ensures
        ipv6_text(s).len() >= 2,
        ipv6_text(s)[0] == ':',
        s[0] == 0,
        ipv6_text(s) == seq![':', ':', '1'] ==> s == seq![0u16, 0, 0, 0, 0, 0, 0, 1],
{
    let len = max_zero_run(s, 8);
    lemma_first_longest(s, 8);
    lemma_zero_run(s, 0);
    let rest = s.skip(len as int);
    assert(s.take(0) =~= Seq::<u16>::empty());
    lemma_join_hex(s.take(0));
    lemma_join_hex(rest);
    let t = ipv6_text(s);
    assert(t =~= seq![':', ':'] + join_hex(rest));
    if t == seq![':', ':', '1'] {
        assert(join_hex(rest) =~= seq!['1']);
        assert(rest.len() == 1);
        assert(rest[0] == s[7]);
        lemma_hex(s[7] as nat);
        if s[7] >= 16 {
            lemma_hex((s[7] / 16) as nat);
        }
        lemma_hex_char(s[7] as nat);
        assert(hex_value('1') == 1);
        assert(s =~= seq![0u16, 0, 0, 0, 0, 0, 0, 1]);
    }
}

/// Otherwise the text starts with the first segment in hexadecimal and a ':',
/// and holds hexadecimal digits and ':' only.
proof fn lemma_front_hex(s: Seq<u16>) -> (rest: Seq<char>)
    requires
        s.len() == 8,
        !is_mapped(s),
        !(max_zero_run(s, 8) > 1 && first_longest_start(s, 8) == 0),
    ensures
        ipv6_text(s) == hex(s[0] as nat) + seq![':'] + rest,
        hex_or_colon(ipv6_text(s)),
{
    let len = max_zero_run(s, 8);
    let start = first_longest_start(s, 8);
    lemma_first_longest(s, 8);
    lemma_zero_run(s, start);
    lemma_hex(s[0] as nat);
    if len > 1 {
        let pre = s.take(start);
        lemma_join_hex(pre);
        lemma_join_hex(s.skip(start + len));
        lemma_hex_or_colon_concat(join_hex(pre), seq![':', ':']);
        lemma_hex_or_colon_concat(join_hex(pre) + seq![':', ':'], join_hex(s.skip(start + len)));
        if start == 1 {
            assert(pre =~= seq![s[0]]);
            let rest = seq![':'] + join_hex(s.skip(start + len));
            assert(ipv6_text(s) =~= hex(s[0] as nat) + seq![':'] + rest);
            rest
        } else {
            assert(pre[0] == s[0]);
            let rest = join_hex(pre.skip(1)) + seq![':', ':'] + join_hex(s.skip(start + len));
            assert(ipv6_text(s) =~= hex(s[0] as nat) + seq![':'] + rest);
            rest
        }
    } else {
        lemma_join_hex(s);
        join_hex(s.skip(1))
    }
}

/// With a first group that is the rendering of `s0`, the unique-local and
/// link-local tests decide the ranges fc00::/7 and fe80::/10.
proof fn lemma_first_group(t: Seq<char>, s0: u16, rest: Seq<char>)
    requires
        t == hex(s0 as nat) + seq![':'] + rest,
    ensures
        (before_colon(t).len() == 4 && (has_prefix(t, seq!['f', 'c']) || has_prefix(t, seq!['f', 'd'])))
            <==> (0xfc00 <= s0 && s0 <= 0xfdff),
        (before_colon(t).len() == 4 && (has_prefix(t, seq!['f', 'e', '8']) || has_prefix(t, seq!['f', 'e', '9'])
            || has_prefix(t, seq!['f', 'e', 'a']) || has_prefix(t, seq!['f', 'e', 'b'])))
            <==> (0xfe80 <= s0 && s0 <= 0xfebf),
{
    lemma_hex(s0 as nat);
    assert forall|i: int| 0 <= i < hex(s0 as nat).len() implies #[trigger] hex(s0 as nat)[i] != ':' by {
        assert(is_hex_char(hex(s0 as nat)[i]));
    }
    lemma_before_colon(hex(s0 as nat), rest);
    lemma_hex4(s0 as nat);
    if s0 >= 4096 {
        let q3 = (s0 / 4096) as nat;
        let q2 = (s0 / 256 % 16) as nat;
        let q1 = (s0 / 16 % 16) as nat;
        lemma_hex_char(q3);
        lemma_hex_char(q2);
        lemma_hex_char(q1);
        assert(t[0] == hex_char(q3) && t[1] == hex_char(q2) && t[2] == hex_char(q1));
        lemma_has_prefix(t, seq!['f', 'c']);
        lemma_has_prefix(t, seq!['f', 'd']);
        lemma_has_prefix(t, seq!['f', 'e', '8']);
        lemma_has_prefix(t, seq!['f', 'e', '9']);
        lemma_has_prefix(t, seq!['f', 'e', 'a']);
        lemma_has_prefix(t, seq!['f', 'e', 'b']);
        assert(hex_value('f') == 15 && hex_value('e') == 14 && hex_value('d') == 13 && hex_value('c') == 12
            && hex_value('b') == 11 && hex_value('a') == 10 && hex_value('9') == 9 && hex_value('8') == 8);
        assert((0xfc00 <= s0 && s0 <= 0xfdff) <==> (q3 == 15 && (q2 == 12 || q2 == 13)));
        assert((0xfe80 <= s0 && s0 <= 0xfebf) <==> (q3 == 15 && q2 == 14 && 8 <= q1 && q1 <= 11));
    }
}

/// The IPv6 text test decides the IPv6 ranges.
proof fn lemma_private_v6(s0: u16, s1: u16, s2: u16, s3: u16, s4: u16, s5: u16, s6: u16, s7: u16)
    ensures
        spec_is_private_ip(IpAddress::V6(s0, s1, s2, s3, s4, s5, s6, s7).text())
            == IpAddress::V6(s0, s1, s2, s3, s4, s5, s6, s7).in_private_range(),
{
    let s = segments6(s0, s1, s2, s3, s4, s5, s6, s7);
    let t = ipv6_text(s);
    let one: Seq<char> = seq![':', ':', '1'];
    if s0 == 0 && s1 == 0 && s2 == 0 && s3 == 0 && s4 == 0 && s5 == 0 && s6 == 0 && s7 == 1 {
        assert(s =~= seq![0u16, 0, 0, 0, 0, 0, 0, 1]);
        lemma_loopback_text(s);
        lemma_colon_first(t);
    } else if is_mapped(s) {
        let tail = dotted((s[6] / 256) as u8, (s[6] % 256) as u8, (s[7] / 256) as u8, (s[7] % 256) as u8);
        assert(t == seq![':', ':', 'f', 'f', 'f', 'f', ':'] + tail);
        assert(t[0] == ':' && t.len() >= 7);
        lemma_colon_first(t);
    } else if max_zero_run(s, 8) > 1 && first_longest_start(s, 8) == 0 {
        lemma_front_zero(s);
        lemma_colon_first(t);
        if t == one {
            assert(s[7] == 1);
        }
    } else {
        let rest = lemma_front_hex(s);
        lemma_no_dot(t);
        lemma_hex(s0 as nat);
        assert(t[0] == hex(s0 as nat)[0]);
        assert(t != one);
        lemma_first_group(t, s0, rest);
    }
}

/// On the text of any address, the textual private-address test holds exactly
/// when the address lies in 127.0.0.0/8, 10.0.0.0/8, 172.16.0.0/12,
/// 192.168.0.0/16, ::1, fc00::/7 or fe80::/10.
pub proof fn law_private_ip_ranges(a: IpAddress)
    ensures
        spec_is_private_ip(a.text()) == a.in_private_range(),
{
    match a {
        IpAddress::V4(x, y, z, w) => lemma_private_v4(x, y, z, w),
        IpAddress::V6(s0, s1, s2, s3, s4, s5, s6, s7) => lemma_private_v6(s0, s1, s2, s3, s4, s5, s6, s7),
    }
}

} // verus!
