//! Latency pictures: the heatmap section, the latency chart section, the
//! heat bars of the summary table and of the live view, and the latency
//! color classes.

use vstd::prelude::*;
use crate::map::{banner_bottom, banner_top, push_line, texts};
use crate::stats::{frac_lt, lemma_avg_fits, scaled_less, spec_avg, value_fits, HopStats, Ratio};
use crate::text::{append_str, decimal, pad_left, pad_right, padded_decimal, push_char, push_decimal_wide, push_pad_left, push_pad_right, push_padded_decimal, push_repeat, repeat_char, string_from};
use crate::util::{div_round, div_round_even, div_round_even_wide, fixed2};

verus! {

/// The hops that answered at least once, in order.
pub open spec fn answered(hops: Seq<HopStats>) -> Seq<HopStats>
    decreases hops.len(),
{
    if hops.len() == 0 {
        seq![]
    } else if hops.last().recv > 0 {
        answered(hops.drop_last()).push(hops.last())
    } else {
        answered(hops.drop_last())
    }
}

/// The mean round-trip time of a hop, in microseconds, as a fraction.
pub open spec fn hop_avg(h: HopStats) -> (nat, nat) {
    spec_avg(h.rtts@)
}

/// The greatest mean round-trip time among `hs` (0/1 when empty).
pub open spec fn max_avg(hs: Seq<HopStats>) -> (nat, nat)
    decreases hs.len(),
{
    if hs.len() == 0 {
        (0, 1)
    } else {
        let m = max_avg(hs.drop_last());
        if frac_lt(m, hop_avg(hs.last())) { hop_avg(hs.last()) } else { m }
    }
}

/// `x` raised to at least `lo`, then lowered to at most `hi`.
pub open spec fn clamp(x: nat, lo: nat, hi: nat) -> nat {
    let y = if x < lo { lo } else { x };
    if y > hi { hi } else { y }
}

/// How many of `width` cells a heat bar fills for `rtt` against `max` (both
/// fractions): the share `rtt / max` of the width rounded to nearest, at least
/// one cell and at most all of them.
pub open spec fn heat_fill(rtt: (nat, nat), max: (nat, nat), width: nat) -> nat {
    if max.0 > 0 { clamp(div_round(rtt.0 * max.1 * width, rtt.1 * max.0), 1, width) } else { 1 }
}

/// Milliseconds with two decimals of a fraction of microseconds.
pub open spec fn frac_ms2(v: (nat, nat)) -> Seq<char> {
    fixed2(div_round_even(v.0, 10 * v.1))
}

/// One heatmap line: hop number, mean round-trip time in milliseconds and a
/// bar of 40 cells.
pub open spec fn heat_line(h: HopStats, max: (nat, nat)) -> Seq<char> {
    let f = heat_fill(hop_avg(h), max, 40);
    "  Hop "@ + pad_left(decimal(h.hop_num as nat), 2) + "  "@ + pad_left(
        frac_ms2(hop_avg(h)),
        8,
    ) + " ms  "@ + repeat_char('█', f) + repeat_char('░', (40 - f) as nat)
}

/// The heatmap lines of `act` against `max`.
pub open spec fn heat_lines(act: Seq<HopStats>, max: (nat, nat)) -> Seq<Seq<char>>
    decreases act.len(),
{
    if act.len() == 0 {
        seq![]
    } else {
        heat_lines(act.drop_last(), max).push(heat_line(act.last(), max))
    }
}

/// The heatmap section: nothing when no hop answered; otherwise a banner, one
/// line per answering hop and a blank line.
pub open spec fn spec_heatmap_lines(hops: Seq<HopStats>) -> Seq<Seq<char>> {
    let act = answered(hops);
    if act.len() == 0 {
        seq![]
    } else {
        seq![banner_top(), "║   RouteScope — Latency Heatmap       ║"@, banner_bottom()] + heat_lines(
            act,
            max_avg(act),
        ) + seq![seq![]]
    }
}

/// The chart row (0 = top, 9 = bottom) of a hop with mean `rtt` against `max`
/// (both fractions): 9 less `9 * rtt / max` rounded to nearest, at most 9.
pub open spec fn chart_row(rtt: (nat, nat), max: (nat, nat)) -> nat {
    let x = div_round(rtt.0 * max.1 * 9, rtt.1 * max.0);
    if max.0 > 0 {
        (9 - (if x > 9 { 9 } else { x })) as nat
    } else {
        9
    }
}

/// Decimals of the chart's axis labels: 2 below 1 ms, 1 below 10 ms, else 0.
pub open spec fn label_precision(max: (nat, nat)) -> nat {
    if max.0 < 1000 * max.1 { 2 } else if max.0 < 10000 * max.1 { 1 } else { 0 }
}

/// 10 to the power `p` (for `p <= 2`).
pub open spec fn scale(p: nat) -> nat {
    if p == 0 { 1 } else if p == 1 { 10 } else { 100 }
}

/// The axis label of chart row `row`, in units of `10^-p` ms: the share
/// `(9 - row) / 9` of `max` microseconds, rounded.
pub open spec fn label_units(max: (nat, nat), row: nat, p: nat) -> nat {
    div_round_even(max.0 * (9 - row) as nat * scale(p), 9000 * max.1)
}

/// `n` units of `10^-p` written with `p` decimals.
pub open spec fn render_fixed(n: nat, p: nat) -> Seq<char> {
    if p == 0 {
        decimal(n)
    } else if p == 1 {
        decimal(n / 10) + seq!['.'] + padded_decimal(n % 10, 1)
    } else {
        fixed2(n)
    }
}

/// The cells of chart row `row`: a dot where a hop sits, each followed by a space.
pub open spec fn chart_cells(act: Seq<HopStats>, max: (nat, nat), row: nat) -> Seq<char>
    decreases act.len(),
{
    if act.len() == 0 {
        seq![]
    } else {
        chart_cells(act.drop_last(), max, row) + seq![
            if chart_row(hop_avg(act.last()), max) == row { '●' } else { ' ' },
            ' ',
        ]
    }
}

/// Chart row `row`: its right-aligned label, the axis, and its cells.
pub open spec fn chart_line(act: Seq<HopStats>, max: (nat, nat), row: nat) -> Seq<char> {
    let p = label_precision(max);
    pad_left(render_fixed(label_units(max, row, p), p), 6) + " ┤ "@ + chart_cells(act, max, row)
}

/// Chart rows `0..k`.
pub open spec fn chart_lines_upto(act: Seq<HopStats>, max: (nat, nat), k: nat) -> Seq<Seq<char>>
    decreases k,
{
    if k == 0 {
        seq![]
    } else {
        chart_lines_upto(act, max, (k - 1) as nat).push(chart_line(act, max, (k - 1) as nat))
    }
}

/// The hop numbers under the chart, each left-aligned in two columns.
pub open spec fn hop_number_cells(act: Seq<HopStats>) -> Seq<char>
    decreases act.len(),
{
    if act.len() == 0 {
        seq![]
    } else {
        hop_number_cells(act.drop_last()) + pad_right(decimal(act.last().hop_num as nat), 2)
    }
}

/// The latency chart section: nothing when no hop answered; otherwise a
/// banner, ten rows, the x axis, the hop numbers, a caption and a blank line.
pub open spec fn spec_chart_lines(hops: Seq<HopStats>) -> Seq<Seq<char>> {
    let act = answered(hops);
    let max = max_avg(act);
    if act.len() == 0 {
        seq![]
    } else {
        seq![banner_top(), "║   RouteScope — Latency Profile       ║"@, banner_bottom()]
            + chart_lines_upto(act, max, 10) + seq![
            "       └─"@ + repeat_char('─', 2 * act.len()),
            "         "@ + hop_number_cells(act),
            "         (hop number)"@,
            seq![],
        ]
    }
}

/// `n / d` rounded to nearest, halves up.
pub fn div_round_wide(n: u128, d: u128) -> (r: u128)
    requires
        d > 0,
    ensures
        r == div_round(n as nat, d as nat),
{
    let q = n / d;
    let rem = n % d;
    if d == 1 {
        return n;
    }
    assert(q <= n / 2) by (nonlinear_arith)
        requires
            d > 1,
            q == n / d,
    ;
    if rem >= d - rem { q + 1 } else { q }
}

/// `div_round(n, d)` is at least `k` exactly when `2n >= (2k - 1) d`.
proof fn lemma_div_round_at_least(n: nat, d: nat, k: nat)
    requires
        d > 0,
        k >= 1,
    ensures
        div_round(n, d) >= k <==> 2 * n >= (2 * k - 1) * d,
{
    let q = n / d;
    let r = n % d;
    vstd::arithmetic::div_mod::lemma_fundamental_div_mod(n as int, d as int);
    assert(n == q * d + r);
    if q + 1 <= k - 1 {
        assert((q + 1) * d <= (k - 1) * d) by (nonlinear_arith)
            requires
                q + 1 <= k - 1,
                d > 0,
        ;
    } else if q >= k {
        assert(q * d >= k * d) by (nonlinear_arith)
            requires
                q >= k,
                d > 0,
        ;
    } else {
        assert(q == k - 1);
    }
    assert((2 * k - 1) * d == 2 * (k * d) - d) by (nonlinear_arith);
    assert((k - 1) * d == k * d - d) by (nonlinear_arith);
    assert((q + 1) * d == q * d + d) by (nonlinear_arith);
}

/// `min(width, div_round(rtt.0 * max.1 * width, rtt.1 * max.0))`: the share
/// `rtt / max` of `width` cells, rounded to nearest (halves up), at most all
/// of them.
fn capped_share(rtt: Ratio, max: Ratio, width: u16) -> (c: u64)
    requires
        value_fits(rtt@),
        value_fits(max@),
        max.num > 0,
    ensures
        c == (if div_round(rtt@.0 * max@.1 * (width as nat), rtt@.1 * max@.0) < width as nat {
            div_round(rtt@.0 * max@.1 * (width as nat), rtt@.1 * max@.0)
        } else {
            width as nat
        }),
{
    let ghost n: nat = rtt@.0 * max@.1 * (width as nat);
    let ghost d: nat = rtt@.1 * max@.0;
    assert(d > 0) by (nonlinear_arith)
        requires
            rtt@.1 > 0,
            max@.0 > 0,
            d == rtt@.1 * max@.0,
    ;
    let w = width as u64;
    let p = 2 * (width as u32);
    assert(2 * n == p * rtt@.0 * max@.1) by (nonlinear_arith)
        requires
            n == rtt@.0 * max@.1 * (width as nat),
            p == 2 * width,
    ;
    let mut c: u64 = 0;
    let mut more = if w > 0 { !scaled_less(rtt, p, max, 1) } else { false };
    proof {
        lemma_div_round_at_least(n, d, 1);
        assert(1 * max@.0 * rtt@.1 == 1 * d) by (nonlinear_arith)
            requires
                d == rtt@.1 * max@.0,
        ;
    }
    while more
        invariant
            d > 0,
            d == rtt@.1 * max@.0,
            2 * n == p * rtt@.0 * max@.1,
            value_fits(rtt@),
            value_fits(max@),
            p == 2 * width,
            w == width,
            c <= w,
            c <= div_round(n, d),
            more ==> c < w && div_round(n, d) >= c + 1,
            !more ==> c == w || div_round(n, d) < c + 1,
        decreases w - c,
    {
        c = c + 1;
        if c < w {
            let s = 2 * (c as u32) + 1;
            more = !scaled_less(rtt, p, max, s);
            proof {
                lemma_div_round_at_least(n, d, (c + 1) as nat);
                assert(s * max@.0 * rtt@.1 == s * d) by (nonlinear_arith)
                    requires
                        d == rtt@.1 * max@.0,
                ;
                assert((2 * (c + 1) - 1) == s);
            }
        } else {
            more = false;
        }
    }
    c
}

/// The heat-bar fill for `rtt` against `max` over `width` cells.
pub fn heat_fill_exec(rtt: Ratio, max: Ratio, width: u16) -> (f: u64)
    requires
        value_fits(rtt@),
        value_fits(max@),
    ensures
        f == heat_fill(rtt@, max@, width as nat),
        f <= width || f == 1,
{
    if max.num > 0 {
        let c = capped_share(rtt, max, width);
        if width == 0 {
            0
        } else if c < 1 {
            1
        } else {
            c
        }
    } else {
        1
    }
}

/// Indices of the hops that answered at least once.
pub fn answered_indices(hops: &Vec<HopStats>) -> (idx: Vec<usize>)
    ensures
        forall|k: int| 0 <= k < idx@.len() ==> idx@[k] < hops@.len(),
        idx@.map_values(|i: usize| hops@[i as int]) == answered(hops@),
{
    let mut idx: Vec<usize> = Vec::new();
    let mut i: usize = 0;
    while i < hops.len()
        invariant
            i <= hops.len(),
            forall|k: int| 0 <= k < idx@.len() ==> idx@[k] < i,
            idx@.map_values(|j: usize| hops@[j as int]) == answered(hops@.take(i as int)),
        decreases hops.len() - i,
    {
        let ghost before = idx@;
        assert(hops@.take(i + 1).drop_last() =~= hops@.take(i as int));
        assert(hops@.take(i + 1).last() == hops@[i as int]);
        if hops[i].recv > 0 {
            idx.push(i);
            assert(idx@.map_values(|j: usize| hops@[j as int]) =~= before.map_values(
                |j: usize| hops@[j as int],
            ).push(hops@[i as int]));
        }
        i = i + 1;
    }
    assert(hops@.take(hops.len() as int) =~= hops@);
    idx
}

/// The greatest mean round-trip time among the hops at `idx`.
fn max_avg_of(hops: &Vec<HopStats>, idx: &Vec<usize>) -> (m: Ratio)
    requires
        forall|k: int| 0 <= k < idx@.len() ==> idx@[k] < hops@.len(),
    ensures
        m@ == max_avg(idx@.map_values(|i: usize| hops@[i as int])),
        value_fits(m@),
{
    let ghost act = idx@.map_values(|i: usize| hops@[i as int]);
    let mut m = Ratio { num: 0, den: 1 };
    let mut k: usize = 0;
    while k < idx.len()
        invariant
            k <= idx.len(),
            forall|j: int| 0 <= j < idx@.len() ==> idx@[j] < hops@.len(),
            act == idx@.map_values(|i: usize| hops@[i as int]),
            m@ == max_avg(act.take(k as int)),
            value_fits(m@),
        decreases idx.len() - k,
    {
        assert(act.take(k + 1).drop_last() =~= act.take(k as int));
        proof {
            lemma_avg_fits(hops@[idx@[k as int] as int]);
        }
        let a = hops[idx[k]].avg_rtt();
        if crate::stats::ratio_lt(m, a) {
            m = a;
        }
        k = k + 1;
    }
    assert(act.take(idx.len() as int) =~= act);
    m
}

/// The lines of the latency heatmap section.
pub fn heatmap_lines(hops: &Vec<HopStats>) -> (lines: Vec<String>)
    requires
    ensures
        texts(lines@) == spec_heatmap_lines(hops@),
{
    let idx = answered_indices(hops);
    let ghost act = idx@.map_values(|i: usize| hops@[i as int]);
    let mut lines: Vec<String> = Vec::new();
    if idx.len() == 0 {
        assert(texts(lines@) =~= spec_heatmap_lines(hops@));
        return lines;
    }
    let max = max_avg_of(hops, &idx);
    push_line(&mut lines, string_from("╔══════════════════════════════════════╗"));
    push_line(&mut lines, string_from("║   RouteScope — Latency Heatmap       ║"));
    push_line(&mut lines, string_from("╚══════════════════════════════════════╝"));
    let ghost head = texts(lines@);
    assert(head =~= seq![banner_top(), "║   RouteScope — Latency Heatmap       ║"@, banner_bottom()]);
    let mut k: usize = 0;
    while k < idx.len()
        invariant
            k <= idx.len(),
            forall|j: int| 0 <= j < idx@.len() ==> idx@[j] < hops@.len(),
            act == idx@.map_values(|i: usize| hops@[i as int]),
                max@ == max_avg(act),
            value_fits(max@),
            texts(lines@) == head + heat_lines(act.take(k as int), max@),
        decreases idx.len() - k,
    {
        let h = &hops[idx[k]];
        proof {
            lemma_avg_fits(*h);
        }
        let avg = h.avg_rtt();
        let f = heat_fill_exec(avg, max, 40);
        let mut line = string_from("  Hop ");
        let num = crate::text::decimal_string(h.hop_num as u64);
        let numv = crate::text::chars_of(num.as_str());
        push_pad_left(&mut line, &numv, 2);
        append_str(&mut line, "  ");
        let ms = frac_ms2_string(avg);
        let msv = crate::text::chars_of(ms.as_str());
        push_pad_left(&mut line, &msv, 8);
        append_str(&mut line, " ms  ");
        push_repeat(&mut line, '█', f as usize);
        push_repeat(&mut line, '░', (40 - f) as usize);
        assert(line@ =~= heat_line(act[k as int], max@));
        push_line(&mut lines, line);
        assert(act.take(k + 1).drop_last() =~= act.take(k as int));
        k = k + 1;
        assert(texts(lines@) =~= head + heat_lines(act.take(k as int), max@));
    }
    push_line(&mut lines, String::new());
    assert(act.take(idx.len() as int) =~= act);
    assert(texts(lines@) =~= spec_heatmap_lines(hops@));
    lines
}

/// Milliseconds with two decimals of a fraction of microseconds.
pub fn frac_ms2_string(v: Ratio) -> (s: String)
    requires
        v.den > 0,
    ensures
        s@ == frac_ms2(v@),
{
    let mut s = String::new();
    let h = div_round_even_wide(v.num, 10 * (v.den as u128));
    push_decimal_wide(&mut s, h / 100);
    push_char(&mut s, '.');
    push_padded_decimal(&mut s, (h % 100) as u64, 2);
    assert(s@ =~= frac_ms2(v@));
    s
}

fn chart_row_exec(rtt: Ratio, max: Ratio) -> (r: u64)
    requires
        value_fits(rtt@),
        value_fits(max@),
    ensures
        r == chart_row(rtt@, max@),
        r <= 9,
{
    if max.num > 0 {
        let c = capped_share(rtt, max, 9);
        9 - c
    } else {
        9
    }
}

/// The axis label of chart row `row` in units of `10^-p` ms, with `m` the
/// factor `(9 - row) * 10^p`: `max * m / 9000` rounded to nearest (halves to
/// even), from the whole part and the remainder of `max`.
fn label_units_exec(max: Ratio, m: u64) -> (u: u128)
    requires
        value_fits(max@),
        m <= 900,
    ensures
        u == div_round_even(max@.0 * (m as nat), 9000 * max@.1),
{
    let d = max.den as u128;
    let q = max.num / d;
    let r = max.num % d;
    assert(q <= 0xffff_ffff_ffff_ffff) by (nonlinear_arith)
        requires
            max.num <= d * 0xffff_ffff_ffff_ffff,
            q == max.num / d,
            d > 0,
    ;
    let mw = m as u128;
    assert(q * mw <= 0xffff_ffff_ffff_ffffu128 * 900) by (nonlinear_arith)
        requires
            q <= 0xffff_ffff_ffff_ffff,
            mw <= 900,
    ;
    let t = q * mw;
    let u0 = t / 9000;
    let v = t % 9000;
    assert(v * d + r * mw < 9000 * d + d * 900) by (nonlinear_arith)
        requires
            v < 9000,
            r < d,
            mw <= 900,
            d > 0,
    ;
    assert(d * 9900 <= 0xffff_ffff_ffff_ffffu128 * 9900) by (nonlinear_arith)
        requires
            d <= 0xffff_ffff_ffff_ffff,
    ;
    let x = v * d + r * mw;
    let big_d = 9000 * d;
    let qq = u0 + x / big_d;
    let rr = x % big_d;
    proof {
        vstd::arithmetic::div_mod::lemma_fundamental_div_mod(max.num as int, d as int);
        vstd::arithmetic::div_mod::lemma_fundamental_div_mod(t as int, 9000);
        vstd::arithmetic::div_mod::lemma_fundamental_div_mod(x as int, big_d as int);
        let n: int = max.num * m;
        assert(n == big_d * u0 + x) by (nonlinear_arith)
            requires
                n == max.num * m,
                max.num == q * d + r,
                t == q * mw,
                mw == m,
                t == 9000 * u0 + v,
                x == v * d + r * mw,
                big_d == 9000 * d,
        ;
        assert(n == qq * big_d + rr) by (nonlinear_arith)
            requires
                n == big_d * u0 + x,
                x == (x / big_d) * big_d + rr,
                qq == u0 + x / big_d,
        ;
        vstd::arithmetic::div_mod::lemma_fundamental_div_mod_converse(n, big_d as int, qq as int, rr as int);
    }
    if rr > big_d - rr || (rr == big_d - rr && qq % 2 == 1) {
        qq + 1
    } else {
        qq
    }
}

/// Appends `n` units of `10^-p` written with `p` decimals.
pub fn push_render_fixed(s: &mut String, n: u128, p: u64)
    requires
        p <= 2,
    ensures
        final(s)@ == old(s)@ + render_fixed(n as nat, p as nat),
{
    let ghost start = s@;
    if p == 0 {
        push_decimal_wide(s, n);
    } else if p == 1 {
        push_decimal_wide(s, n / 10);
        push_char(s, '.');
        push_padded_decimal(s, (n % 10) as u64, 1);
    } else {
        push_decimal_wide(s, n / 100);
        push_char(s, '.');
        push_padded_decimal(s, (n % 100) as u64, 2);
    }
    assert(s@ =~= start + render_fixed(n as nat, p as nat));
}

/// The lines of the latency chart section.
pub fn chart_lines(hops: &Vec<HopStats>) -> (lines: Vec<String>)
    requires
    ensures
        texts(lines@) == spec_chart_lines(hops@),
{
    let idx = answered_indices(hops);
    let ghost act = idx@.map_values(|i: usize| hops@[i as int]);
    let mut lines: Vec<String> = Vec::new();
    if idx.len() == 0 {
        assert(texts(lines@) =~= spec_chart_lines(hops@));
        return lines;
    }
    let max = max_avg_of(hops, &idx);
    let mut rows: Vec<u64> = Vec::new();
    let mut k: usize = 0;
    while k < idx.len()
        invariant
            k <= idx.len(),
            forall|j: int| 0 <= j < idx@.len() ==> idx@[j] < hops@.len(),
            act == idx@.map_values(|i: usize| hops@[i as int]),
                value_fits(max@),
            rows@.len() == k,
            forall|j: int| 0 <= j < k ==> rows@[j] == chart_row(hop_avg(act[j]), max@),
        decreases idx.len() - k,
    {
        proof {
            lemma_avg_fits(hops@[idx@[k as int] as int]);
        }
        let r = chart_row_exec(hops[idx[k]].avg_rtt(), max);
        rows.push(r);
        k = k + 1;
    }
    let mden = max.den as u128;
    let p: u64 = if max.num < 1000 * mden { 2 } else if max.num < 10000 * mden { 1 } else { 0 };
    let sc: u128 = if p == 0 { 1 } else if p == 1 { 10 } else { 100 };
    push_line(&mut lines, string_from("╔══════════════════════════════════════╗"));
    push_line(&mut lines, string_from("║   RouteScope — Latency Profile       ║"));
    push_line(&mut lines, string_from("╚══════════════════════════════════════╝"));
    let ghost head = texts(lines@);
    let mut row: u64 = 0;
    while row < 10
        invariant
            row <= 10,
            rows@.len() == act.len(),
            forall|j: int| 0 <= j < rows@.len() ==> rows@[j] == chart_row(hop_avg(act[j]), max@),
            p == label_precision(max@),
            value_fits(max@),
            mden == max.den,
            sc == scale(p as nat),
            texts(lines@) == head + chart_lines_upto(act, max@, row as nat),
        decreases 10 - row,
    {
        let m = ((9 - row) as u64) * (sc as u64);
        assert(max@.0 * (9 - row) as nat * scale(p as nat) == max@.0 * (m as nat)) by (nonlinear_arith)
            requires
                m == (9 - row) * sc,
                sc == scale(p as nat),
                row <= 9,
        ;
        let units = label_units_exec(max, m);
        let mut label = String::new();
        push_render_fixed(&mut label, units, p);
        let lv = crate::text::chars_of(label.as_str());
        let mut line = String::new();
        push_pad_left(&mut line, &lv, 6);
        append_str(&mut line, " ┤ ");
        let ghost prefix = line@;
        let mut c: usize = 0;
        while c < rows.len()
            invariant
                c <= rows.len(),
                rows@.len() == act.len(),
                forall|j: int| 0 <= j < rows@.len() ==> rows@[j] == chart_row(hop_avg(act[j]), max@),
                line@ == prefix + chart_cells(act.take(c as int), max@, row as nat),
            decreases rows.len() - c,
        {
            assert(act.take(c + 1).drop_last() =~= act.take(c as int));
            if rows[c] == row {
                push_char(&mut line, '●');
            } else {
                push_char(&mut line, ' ');
            }
            push_char(&mut line, ' ');
            c = c + 1;
            assert(line@ =~= prefix + chart_cells(act.take(c as int), max@, row as nat));
        }
        assert(act.take(rows.len() as int) =~= act);
        assert(line@ =~= chart_line(act, max@, row as nat));
        push_line(&mut lines, line);
        row = row + 1;
        assert(texts(lines@) =~= head + chart_lines_upto(act, max@, row as nat));
    }
    let mut axis = string_from("       └─");
    let ghost aprefix = axis@;
    let mut c: usize = 0;
    while c < idx.len()
        invariant
            c <= idx.len(),
            axis@ == aprefix + repeat_char('─', 2 * c as nat),
        decreases idx.len() - c,
    {
        push_char(&mut axis, '─');
        push_char(&mut axis, '─');
        c = c + 1;
        assert(axis@ =~= aprefix + repeat_char('─', 2 * c as nat));
    }
    push_line(&mut lines, axis);
    let mut nums = string_from("         ");
    let ghost nprefix = nums@;
    let mut c: usize = 0;
    while c < idx.len()
        invariant
            c <= idx.len(),
            forall|j: int| 0 <= j < idx@.len() ==> idx@[j] < hops@.len(),
            act == idx@.map_values(|i: usize| hops@[i as int]),
            nums@ == nprefix + hop_number_cells(act.take(c as int)),
        decreases idx.len() - c,
    {
        assert(act.take(c + 1).drop_last() =~= act.take(c as int));
        let num = crate::text::decimal_string(hops[idx[c]].hop_num as u64);
        let nv = crate::text::chars_of(num.as_str());
        push_pad_right(&mut nums, &nv, 2);
        c = c + 1;
        assert(nums@ =~= nprefix + hop_number_cells(act.take(c as int)));
    }
    assert(act.take(idx.len() as int) =~= act);
    push_line(&mut lines, nums);
    push_line(&mut lines, string_from("         (hop number)"));
    push_line(&mut lines, String::new());
    assert(texts(lines@) =~= spec_chart_lines(hops@));
    lines
}

/// A heat bar of at least one cell fills between one cell and all of them; the
/// live bar is always exactly `width` cells wide, and the table bar at most 20.
pub proof fn law_bar_widths(rtt: (nat, nat), max: (nat, nat), width: nat)
    ensures
        width >= 1 ==> 1 <= heat_fill(rtt, max, width) <= width,
        spec_live_bar(rtt, max, width).len() == width,
        spec_table_bar(rtt, max).len() <= 20,
{
}

/// On the chart, a hop lies on one of the ten rows, and the slowest hop (whose
/// mean is the maximum) is drawn on the top row.
pub proof fn law_chart_rows(rtt: (nat, nat), max: (nat, nat))
    requires
        max.1 > 0,
    ensures
        chart_row(rtt, max) <= 9,
        max.0 > 0 ==> chart_row(max, max) == 0,
{
    if max.0 > 0 {
        let p = max.1 * max.0;
        assert(9 * max.0 * max.1 == 9 * p) by (nonlinear_arith)
            requires
                p == max.1 * max.0,
        ;
        assert(p > 0) by (nonlinear_arith)
            requires
                p == max.1 * max.0,
                max.0 > 0,
                max.1 > 0,
        ;
        assert((9 * p) / p == 9 && (9 * p) % p == 0) by (nonlinear_arith)
            requires
                p > 0,
        ;
    }
}

/// The heat bar of the summary table: nothing when `rtt` or `max` is zero,
/// otherwise the filled cells of a 20-cell bar.
pub open spec fn spec_table_bar(rtt: (nat, nat), max: (nat, nat)) -> Seq<char> {
    if max.0 == 0 || rtt.0 == 0 { seq![] } else { repeat_char('█', heat_fill(rtt, max, 20)) }
}

/// Format a simple heatmap bar for terminal output.
pub fn heatmap_bar_simple(rtt_us: Ratio, max_us: Ratio) -> (s: String)
    requires
        value_fits(rtt_us@),
        value_fits(max_us@),
    ensures
        s@ == spec_table_bar(rtt_us@, max_us@),
{
    let mut s = String::new();
    if max_us.num == 0 || rtt_us.num == 0 {
        return s;
    }
    let f = heat_fill_exec(rtt_us, max_us, 20);
    push_repeat(&mut s, '█', f as usize);
    assert(s@ =~= spec_table_bar(rtt_us@, max_us@));
    s
}

/// The heat bar of the live view: blank when `rtt` or `max` is zero, otherwise
/// the filled cells followed by blanks, `width` cells in all.
pub open spec fn spec_live_bar(rtt: (nat, nat), max: (nat, nat), width: nat) -> Seq<char> {
    if max.0 == 0 || rtt.0 == 0 {
        repeat_char(' ', width)
    } else {
        let f = heat_fill(rtt, max, width);
        repeat_char('█', f) + repeat_char(' ', (width - f) as nat)
    }
}

/// Returns a heatmap bar string (filled blocks proportional to RTT).
/// The width is a count of terminal cells.
pub fn heatmap_bar(rtt_us: Ratio, max_us: Ratio, width: u16) -> (s: String)
    requires
        value_fits(rtt_us@),
        value_fits(max_us@),
    ensures
        s@ == spec_live_bar(rtt_us@, max_us@, width as nat),
{
    let mut s = String::new();
    if max_us.num == 0 || rtt_us.num == 0 {
        push_repeat(&mut s, ' ', width as usize);
        assert(s@ =~= spec_live_bar(rtt_us@, max_us@, width as nat));
        return s;
    }
    let f = heat_fill_exec(rtt_us, max_us, width);
    push_repeat(&mut s, '█', f as usize);
    push_repeat(&mut s, ' ', (width as u64 - f) as usize);
    assert(s@ =~= spec_live_bar(rtt_us@, max_us@, width as nat));
    s
}

/// The color classes of latencies and losses in the live view.
#[derive(Clone, Copy, Debug, PartialEq, Eq, Structural)]
pub enum Shade {
    Green,
    Yellow,
    LightRed,
    Red,
}

/// The color of a latency of `us` microseconds (a fraction): below 20 ms
/// green, below 80 ms yellow, below 200 ms light red, otherwise red.
pub open spec fn spec_rtt_color(us: (nat, nat)) -> Shade {
    if us.0 < 20_000 * us.1 {
        Shade::Green
    } else if us.0 < 80_000 * us.1 {
        Shade::Yellow
    } else if us.0 < 200_000 * us.1 {
        Shade::LightRed
    } else {
        Shade::Red
    }
}

/// Returns a color for latency value in microseconds.
pub fn rtt_color(us: Ratio) -> (c: Shade)
    ensures
        c == spec_rtt_color(us@),
{
    let d = us.den as u128;
    if us.num < 20_000 * d {
        Shade::Green
    } else if us.num < 80_000 * d {
        Shade::Yellow
    } else if us.num < 200_000 * d {
        Shade::LightRed
    } else {
        Shade::Red
    }
}

/// `true` when more than `pct` percent of `sent` probes were lost
/// (`recv` of them answered).
pub open spec fn loss_above(sent: nat, recv: nat, pct: nat) -> bool {
    sent > 0 && (sent - recv) * 100 > pct * sent
}

/// Decides whether more than `pct` percent of the probes were lost.
pub fn loss_exceeds(sent: u32, recv: u32, pct: u32) -> (r: bool)
    requires
        recv <= sent,
        pct <= 100,
    ensures
        r == loss_above(sent as nat, recv as nat, pct as nat),
{
    assert((pct as u64) * (sent as u64) <= 100 * 0xffff_ffffu64) by (nonlinear_arith)
        requires
            pct <= 100,
            sent <= 0xffff_ffffu32,
    ;
    sent > 0 && ((sent - recv) as u64) * 100 > (pct as u64) * (sent as u64)
}

/// The color of a hop's loss in the hop table: above 20% red, above 0% light
/// red, otherwise green.
pub fn table_loss_color(sent: u32, recv: u32) -> (c: Shade)
    requires
        recv <= sent,
    ensures
        c == (if loss_above(sent as nat, recv as nat, 20) {
            Shade::Red
        } else if loss_above(sent as nat, recv as nat, 0) {
            Shade::LightRed
        } else {
            Shade::Green
        }),
{
    if loss_exceeds(sent, recv, 20) {
        Shade::Red
    } else if loss_exceeds(sent, recv, 0) {
        Shade::LightRed
    } else {
        Shade::Green
    }
}

/// The color of a hop's loss gauge: above 20% red, above 5% yellow, otherwise green.
pub fn gauge_loss_color(sent: u32, recv: u32) -> (c: Shade)
    requires
        recv <= sent,
    ensures
        c == (if loss_above(sent as nat, recv as nat, 20) {
            Shade::Red
        } else if loss_above(sent as nat, recv as nat, 5) {
            Shade::Yellow
        } else {
            Shade::Green
        }),
{
    if loss_exceeds(sent, recv, 20) {
        Shade::Red
    } else if loss_exceeds(sent, recv, 5) {
        Shade::Yellow
    } else {
        Shade::Green
    }
}

/// The greatest mean round-trip time among the hops that answered (0 if none).
pub fn max_answered_avg(hops: &Vec<HopStats>) -> (m: Ratio)
    ensures
        m@ == max_avg(answered(hops@)),
        value_fits(m@),
{
    let idx = answered_indices(hops);
    max_avg_of(hops, &idx)
}

} // verus!
