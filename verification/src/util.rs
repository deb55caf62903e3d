//! Address classification and duration formatting.

use vstd::prelude::*;
use crate::stats::Ratio;
use crate::text::{
    chars_of, decimal, digit_value, has_prefix, is_digit, padded_decimal, push_char,
    push_decimal, push_decimal_wide, push_padded_decimal,
};

verus! {

/// The characters of `s` up to (not including) its first '.', or all of `s`.
pub open spec fn before_dot(s: Seq<char>) -> Seq<char>
    decreases s.len(),
{
    if s.len() == 0 || s[0] == '.' {
        seq![]
    } else {
        seq![s[0]] + before_dot(s.skip(1))
    }
}

/// The characters of `s` up to (not including) its first ':', or all of `s`.
pub open spec fn before_colon(s: Seq<char>) -> Seq<char>
    decreases s.len(),
{
    if s.len() == 0 || s[0] == ':' {
        seq![]
    } else {
        seq![s[0]] + before_colon(s.skip(1))
    }
}

/// `true` when every character of `s` is an ASCII decimal digit.
pub open spec fn all_digits(s: Seq<char>) -> bool {
    forall|i: int| 0 <= i < s.len() ==> is_digit(#[trigger] s[i])
}

/// The value of the decimal numeral `s` (most significant digit first).
pub open spec fn digits_value(s: Seq<char>) -> nat
    decreases s.len(),
{
    if s.len() == 0 {
        0
    } else {
        digits_value(s.drop_last()) * 10 + digit_value(s.last())
    }
}

/// What `str::parse::<u8>` gives: an optional leading '+' (not alone), then one
/// or more ASCII digits whose value is at most 255; leading zeros are allowed.
pub open spec fn parse_u8(s: Seq<char>) -> Option<u8> {
    let d = if s.len() > 1 && s[0] == '+' { s.skip(1) } else { s };
    if d.len() > 0 && all_digits(d) && digits_value(d) <= 255 {
        Some(digits_value(d) as u8)
    } else {
        None
    }
}

/// The private / loopback classification of an address written as text:
/// "::1", the prefixes "127.", "10." and "192.168.", "172." followed by a
/// second octet in 16..=31, and an IPv6 first group of four hexadecimal digits
/// that starts with "fc" or "fd" (fc00::/7) or with "fe8", "fe9", "fea" or
/// "feb" (fe80::/10). On the text of an address this is exactly membership in
/// those ranges (`law_private_ip_ranges`).
pub open spec fn spec_is_private_ip(s: Seq<char>) -> bool {
    ||| s == seq![':', ':', '1']
    ||| has_prefix(s, seq!['1', '2', '7', '.'])
    ||| has_prefix(s, seq!['1', '0', '.'])
    ||| has_prefix(s, seq!['1', '9', '2', '.', '1', '6', '8', '.'])
    ||| (has_prefix(s, seq!['1', '7', '2', '.']) && match parse_u8(before_dot(s.skip(4))) {
        Some(v) => 16 <= v && v <= 31,
        None => false,
    })
    ||| (before_colon(s).len() == 4 && (has_prefix(s, seq!['f', 'c']) || has_prefix(s, seq!['f', 'd'])))
    ||| (before_colon(s).len() == 4 && (has_prefix(s, seq!['f', 'e', '8']) || has_prefix(
        s,
        seq!['f', 'e', '9'],
    ) || has_prefix(s, seq!['f', 'e', 'a']) || has_prefix(s, seq!['f', 'e', 'b'])))
}

/// `hundredths` written as a number with two decimals ("12.05").
pub open spec fn fixed2(hundredths: nat) -> Seq<char> {
    decimal(hundredths / 100) + seq!['.'] + padded_decimal(hundredths % 100, 2)
}

/// `n / d` rounded to the nearest integer, halves rounded up (as `f64::round`
/// does for non-negative values).
pub open spec fn div_round(n: nat, d: nat) -> nat
    recommends
        d > 0,
{
    (n / d + if n % d * 2 >= d { 1nat } else { 0nat }) as nat
}

/// `n / d` rounded to the nearest integer, halves rounded to the even
/// neighbour (as Rust's `{:.N}` formatting rounds the exact value).
pub open spec fn div_round_even(n: nat, d: nat) -> nat
    recommends
        d > 0,
{
    let q = n / d;
    let r2 = n % d * 2;
    if r2 > d || (r2 == d && q % 2 == 1) { q + 1 } else { q }
}

/// The human-readable rendering of a duration of `v.0 / v.1` microseconds
/// (an exact fraction): below one millisecond in whole microseconds
/// ("500 µs"), below one second in milliseconds with two decimals
/// ("15.00 ms"), otherwise in seconds with two decimals ("1.50 s"); rounded to
/// nearest, halves to even.
pub open spec fn spec_format_mean(v: (nat, nat)) -> Seq<char> {
    if v.0 < 1000 * v.1 {
        decimal(div_round_even(v.0, v.1)) + seq![' ', 'µ', 's']
    } else if v.0 < 1_000_000 * v.1 {
        fixed2(div_round_even(v.0, 10 * v.1)) + seq![' ', 'm', 's']
    } else {
        fixed2(div_round_even(v.0, 10000 * v.1)) + seq![' ', 's']
    }
}

/// The human-readable rendering of a duration of `us` whole microseconds.
pub open spec fn spec_format_ms(us: nat) -> Seq<char> {
    spec_format_mean((us, 1))
}

/// Prefixes of an all-digit numeral never have a larger value than the numeral.
pub proof fn lemma_digits_prefix_le(s: Seq<char>, i: int)
    requires
        0 <= i <= s.len(),
        all_digits(s),
    ensures
        digits_value(s.take(i)) <= digits_value(s),
    decreases s.len() - i,
{
    if i < s.len() {
        lemma_digits_prefix_le(s, i + 1);
        assert(s.take(i + 1).drop_last() =~= s.take(i));
    } else {
        assert(s.take(i) =~= s);
    }
}

fn has_prefix_exec(v: &Vec<char>, p: &Vec<char>) -> (r: bool)
    ensures
        r == has_prefix(v@, p@),
{
    if p.len() > v.len() {
        return false;
    }
    let mut i: usize = 0;
    while i < p.len()
        invariant
            p.len() <= v.len(),
            i <= p.len(),
            forall|j: int| 0 <= j < i ==> v@[j] == p@[j],
        decreases p.len() - i,
    {
        if v[i] != p[i] {
            assert(v@.take(p.len() as int)[i as int] != p@[i as int]);
            return false;
        }
        i = i + 1;
    }
    assert(v@.take(p.len() as int) =~= p@);
    true
}

fn equals_exec(v: &Vec<char>, p: &Vec<char>) -> (r: bool)
    ensures
        r == (v@ == p@),
{
    if v.len() != p.len() {
        return false;
    }
    let r = has_prefix_exec(v, p);
    assert(v@.take(v.len() as int) =~= v@);
    r
}

/// The characters of `v` from index `start` up to its next '.'.
fn segment_from(v: &Vec<char>, start: usize) -> (seg: Vec<char>)
    requires
        start <= v.len(),
    ensures
        seg@ == before_dot(v@.skip(start as int)),
{
    let mut seg: Vec<char> = Vec::new();
    let mut i = start;
    while i < v.len() && v[i] != '.'
        invariant
            start <= i <= v.len(),
            before_dot(v@.skip(start as int)) == seg@ + before_dot(v@.skip(i as int)),
        decreases v.len() - i,
    {
        let ghost rest = v@.skip(i as int);
        assert(rest.skip(1) =~= v@.skip(i + 1));
        assert(before_dot(rest) == seq![rest[0]] + before_dot(rest.skip(1)));
        seg.push(v[i]);
        i = i + 1;
        assert(before_dot(v@.skip(start as int)) =~= seg@ + before_dot(v@.skip(i as int)));
    }
    assert(before_dot(v@.skip(i as int)) =~= seq![]);
    assert(seg@ + seq![] =~= seg@);
    seg
}

/// The number of characters of `v` before its first ':'.
fn first_group_len(v: &Vec<char>) -> (n: usize)
    ensures
        n == before_colon(v@).len(),
{
    let mut i: usize = 0;
    assert(v@.skip(0) =~= v@);
    while i < v.len() && v[i] != ':'
        invariant
            i <= v.len(),
            before_colon(v@).len() == i + before_colon(v@.skip(i as int)).len(),
        decreases v.len() - i,
    {
        let ghost rest = v@.skip(i as int);
        assert(rest.skip(1) =~= v@.skip(i + 1));
        i = i + 1;
    }
    i
}

/// Parses a decimal `u8` the way `str::parse::<u8>` does.
pub fn parse_u8_exec(s: &Vec<char>) -> (r: Option<u8>)
    ensures
        r == parse_u8(s@),
{
    let start: usize = if s.len() > 1 && s[0] == '+' { 1 } else { 0 };
    let ghost d = if s@.len() > 1 && s@[0] == '+' { s@.skip(1) } else { s@ };
    assert(d =~= s@.skip(start as int));
    if start == s.len() {
        return None;
    }
    let mut value: u64 = 0;
    let mut i = start;
    while i < s.len()
        invariant
            start < s.len(),
            d == s@.skip(start as int),
            d == (if s@.len() > 1 && s@[0] == '+' { s@.skip(1) } else { s@ }),
            start <= i <= s.len(),
            all_digits(d.take(i - start)),
            value == digits_value(d.take(i - start)),
            value <= 255,
        decreases s.len() - i,
    {
        let c = s[i];
        if c < '0' || c > '9' {
            assert(d[i - start] == c);
            assert(!is_digit(d[i - start]));
            assert(!all_digits(d));
            return None;
        }
        let ghost prev = d.take(i - start);
        let dv = (c as u64) - ('0' as u64);
        let next = value * 10 + dv;
        assert(d.take(i + 1 - start).drop_last() =~= prev);
        assert(d.take(i + 1 - start).last() == c);
        assert(digits_value(d.take(i + 1 - start)) == next);
        if next > 255 {
            proof {
                assert(all_digits(d.take(i + 1 - start)));
                if all_digits(d) {
                    lemma_digits_prefix_le(d, i + 1 - start);
                }
            }
            assert(parse_u8(s@) is None);
            return None;
        }
        value = next;
        i = i + 1;
    }
    assert(d.take(i - start) =~= d);
    Some(value as u8)
}

/// Returns true if the IP string represents a private / loopback address:
/// 127.0.0.0/8, 10.0.0.0/8, 172.16.0.0/12, 192.168.0.0/16, ::1,
/// fc00::/7 and fe80::/10, recognised by their text as in
/// `spec_is_private_ip`.
pub fn is_private_ip(ip_str: &str) -> (r: bool)
    ensures
        r == spec_is_private_ip(ip_str@),
{
    let v = chars_of(ip_str);
    if equals_exec(&v, &vec![':', ':', '1']) || has_prefix_exec(&v, &vec!['1', '2', '7', '.']) {
        return true;
    }
    if has_prefix_exec(&v, &vec!['1', '0', '.'])
        || has_prefix_exec(&v, &vec!['1', '9', '2', '.', '1', '6', '8', '.']) {
        return true;
    }
    if has_prefix_exec(&v, &vec!['1', '7', '2', '.']) {
        let seg = segment_from(&v, 4);
        match parse_u8_exec(&seg) {
            Some(second) => {
                if 16 <= second && second <= 31 {
                    return true;
                }
            },
            None => {},
        }
    }
    if first_group_len(&v) != 4 {
        return false;
    }
    has_prefix_exec(&v, &vec!['f', 'c']) || has_prefix_exec(&v, &vec!['f', 'd'])
        || has_prefix_exec(&v, &vec!['f', 'e', '8']) || has_prefix_exec(&v, &vec!['f', 'e', '9'])
        || has_prefix_exec(&v, &vec!['f', 'e', 'a']) || has_prefix_exec(&v, &vec!['f', 'e', 'b'])
}

/// Appends `hundredths` written with two decimals.
pub fn push_fixed2(s: &mut String, hundredths: u64)
    ensures
        final(s)@ == old(s)@ + fixed2(hundredths as nat),
{
    let ghost start = s@;
    push_decimal(s, hundredths / 100);
    push_char(s, '.');
    push_padded_decimal(s, hundredths % 100, 2);
    assert(s@ =~= start + fixed2(hundredths as nat));
}

/// `n / d` rounded to nearest, halves to even.
pub fn div_round_even_wide(n: u128, d: u128) -> (r: u128)
    requires
        d > 0,
    ensures
        r == div_round_even(n as nat, d as nat),
{
    let q = n / d;
    let rem = n % d;
    if d == 1 {
        return n;
    }
    assert(q <= n / 2) by (nonlinear_arith)
        requires
            d > 1,
            q == n / d,
    ;
    if rem > d - rem || (rem == d - rem && q % 2 == 1) { q + 1 } else { q }
}

/// Formats a duration of `v.num / v.den` microseconds.
pub fn format_mean_ms(v: Ratio) -> (s: String)
    requires
        v.den > 0,
    ensures
        s@ == spec_format_mean(v@),
{
    let d = v.den as u128;
    let mut s = String::new();
    let h: u128;
    if v.num < 1000 * d {
        push_decimal_wide(&mut s, div_round_even_wide(v.num, d));
        push_char(&mut s, ' ');
        push_char(&mut s, 'µ');
        push_char(&mut s, 's');
    } else {
        let ms = v.num < 1_000_000 * d;
        h = if ms { div_round_even_wide(v.num, 10 * d) } else { div_round_even_wide(v.num, 10000 * d) };
        push_decimal_wide(&mut s, h / 100);
        push_char(&mut s, '.');
        push_padded_decimal(&mut s, (h % 100) as u64, 2);
        push_char(&mut s, ' ');
        if ms {
            push_char(&mut s, 'm');
        }
        push_char(&mut s, 's');
    }
    assert(s@ =~= spec_format_mean(v@));
    s
}

/// Format a duration given in microseconds to a human-readable string.
pub fn format_ms(us: u64) -> (s: String)
    ensures
        s@ == spec_format_ms(us as nat),
{
    format_mean_ms(Ratio { num: us as u128, den: 1 })
}

} // verus!
