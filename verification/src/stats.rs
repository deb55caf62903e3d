//! Per-hop statistics: packets sent and received, and a window of the most
//! recent round-trip times (in microseconds).

use vstd::prelude::*;
use crate::geoip::GeoInfo;
use crate::ip::IpAddress;

verus! {

/// How many round-trip times a hop keeps.
pub const RTT_WINDOW: usize = 100;

/// Statistics of one hop (one time-to-live value) of a trace.
#[derive(Clone, Debug)]
pub struct HopStats {
    pub hop_num: u8,
    pub ip: Option<IpAddress>,
    pub hostname: Option<String>,
    pub geo_info: Option<GeoInfo>,
    pub sent: u32,
    pub recv: u32,
    /// Round-trip time of the latest probe, in microseconds.
    pub last_rtt: Option<u64>,
    /// Round-trip times of the latest answered probes, oldest first, in microseconds.
    pub rtts: Vec<u64>,
}

/// The counters and window of a hop as mathematical values.
pub struct HopView {
    pub ip: Option<IpAddress>,
    pub sent: nat,
    pub recv: nat,
    pub last_rtt: Option<u64>,
    pub rtts: Seq<u64>,
}

/// The window after `rtt` was recorded: appended, and the oldest dropped once
/// the window holds more than `RTT_WINDOW` values.
pub open spec fn window_after(rtts: Seq<u64>, rtt: u64) -> Seq<u64> {
    let p = rtts.push(rtt);
    if p.len() > RTT_WINDOW { p.drop_first() } else { p }
}

impl HopView {
    /// The hop after one probe that was answered by `ip` (if any) after `rtt`
    /// microseconds (if it was answered at all).
    pub open spec fn after_probe(self, ip: Option<IpAddress>, rtt: Option<u64>) -> HopView {
        HopView {
            ip: if ip is Some { ip } else { self.ip },
            sent: self.sent + 1,
            recv: if rtt is Some { self.recv + 1 } else { self.recv },
            last_rtt: rtt,
            rtts: match rtt {
                Some(r) => window_after(self.rtts, r),
                None => self.rtts,
            },
        }
    }

    /// The hop after a whole sequence of probes, in order.
    pub open spec fn after_probes(self, probes: Seq<(Option<IpAddress>, Option<u64>)>) -> HopView
        decreases probes.len(),
    {
        if probes.len() == 0 {
            self
        } else {
            self.after_probes(probes.drop_last()).after_probe(probes.last().0, probes.last().1)
        }
    }
}

/// The sum of `s`.
pub open spec fn seq_sum(s: Seq<u64>) -> nat
    decreases s.len(),
{
    if s.len() == 0 { 0 } else { seq_sum(s.drop_last()) + s.last() as nat }
}

/// The least element of `s` (0 for an empty sequence).
pub open spec fn seq_min(s: Seq<u64>) -> u64
    decreases s.len(),
{
    if s.len() == 0 {
        0
    } else if s.len() == 1 {
        s[0]
    } else {
        let m = seq_min(s.drop_last());
        if s.last() < m { s.last() } else { m }
    }
}

/// The greatest element of `s` (0 for an empty sequence).
pub open spec fn seq_max(s: Seq<u64>) -> u64
    decreases s.len(),
{
    if s.len() == 0 {
        0
    } else if s.len() == 1 {
        s[0]
    } else {
        let m = seq_max(s.drop_last());
        if s.last() > m { s.last() } else { m }
    }
}

/// |a - b|.
pub open spec fn abs_diff(a: u64, b: u64) -> nat {
    if a >= b { (a - b) as nat } else { (b - a) as nat }
}

/// The sum of the absolute differences of successive elements of `s`.
pub open spec fn diff_sum(s: Seq<u64>) -> nat
    decreases s.len(),
{
    if s.len() < 2 {
        0
    } else {
        diff_sum(s.drop_last()) + abs_diff(s[s.len() - 2], s.last())
    }
}

/// An exact non-negative fraction `num / den`.
#[derive(Clone, Copy, Debug, PartialEq, Eq, Structural)]
pub struct Ratio {
    pub num: u128,
    pub den: u64,
}

impl View for Ratio {
    type V = (nat, nat);

    /// The numerator and denominator.
    open spec fn view(&self) -> (nat, nat) {
        (self.num as nat, self.den as nat)
    }
}

/// `a < b` for fractions given as (numerator, denominator) with positive
/// denominators.
pub open spec fn frac_lt(a: (nat, nat), b: (nat, nat)) -> bool {
    a.0 * b.1 < b.0 * a.1
}

/// A fraction with a positive denominator whose value is at most `u64::MAX`
/// (true of every mean of `u64` values and of every loss ratio).
pub open spec fn value_fits(r: (nat, nat)) -> bool {
    0 < r.1 && r.0 <= r.1 * 0xffff_ffff_ffff_ffff
}

/// `p * a < s * b` for fractions `a` and `b`.
pub open spec fn scaled_lt(a: (nat, nat), p: nat, b: (nat, nat), s: nat) -> bool {
    p * a.0 * b.1 < s * b.0 * a.1
}

/// `p * n / d` as a whole part and a remainder over `d`, from `n = q * d + r`.
proof fn lemma_scaled_split(n: int, d: int, q: int, r: int, p: int, big: int, rem: int)
    requires
        d > 0,
        p >= 0,
        n == q * d + r,
        0 <= r < d,
        big == p * q + (p * r) / d,
        rem == (p * r) % d,
    ensures
        p * n == big * d + rem,
        0 <= rem < d,
{
    vstd::arithmetic::div_mod::lemma_fundamental_div_mod(p * r, d);
    assert(p * n == p * q * d + p * r) by (nonlinear_arith)
        requires
            n == q * d + r,
    ;
    assert(p * q * d + (p * r) / d * d == big * d) by (nonlinear_arith)
        requires
            big == p * q + (p * r) / d,
    ;
}

/// Comparing `x1 * d1 + r1` over `d1` with `x2 * d2 + r2` over `d2` (remainders
/// below their denominators): whole parts first, then the remainders.
proof fn lemma_lex_fraction(x1: int, r1: int, d1: int, x2: int, r2: int, d2: int)
    requires
        d1 > 0,
        d2 > 0,
        0 <= r1 < d1,
        0 <= r2 < d2,
    ensures
        ((x1 * d1 + r1) * d2 < (x2 * d2 + r2) * d1) <==> (x1 < x2 || (x1 == x2 && r1 * d2 < r2 * d1)),
{
    assert((x1 * d1 + r1) * d2 == x1 * d1 * d2 + r1 * d2) by (nonlinear_arith);
    assert((x2 * d2 + r2) * d1 == x2 * d1 * d2 + r2 * d1) by (nonlinear_arith);
    assert(0 <= r1 * d2 < d1 * d2) by (nonlinear_arith)
        requires
            0 <= r1 < d1,
            d2 > 0,
    ;
    assert(0 <= r2 * d1 < d1 * d2) by (nonlinear_arith)
        requires
            0 <= r2 < d2,
            d1 > 0,
    ;
    if x1 < x2 {
        assert(x1 * d1 * d2 + d1 * d2 <= x2 * d1 * d2) by (nonlinear_arith)
            requires
                x1 < x2,
                d1 > 0,
                d2 > 0,
        ;
    } else if x1 > x2 {
        assert(x2 * d1 * d2 + d1 * d2 <= x1 * d1 * d2) by (nonlinear_arith)
            requires
                x1 > x2,
                d1 > 0,
                d2 > 0,
        ;
    }
}

/// Decides `p * a < s * b` exactly, for fractions whose values fit in `u64`
/// and factors below 2^32.
pub fn scaled_less(a: Ratio, p: u32, b: Ratio, s: u32) -> (r: bool)
    requires
        value_fits(a@),
        value_fits(b@),
    ensures
        r == scaled_lt(a@, p as nat, b@, s as nat),
{
    let d1 = a.den as u128;
    let d2 = b.den as u128;
    let q1 = a.num / d1;
    let r1 = a.num % d1;
    let q2 = b.num / d2;
    let r2 = b.num % d2;
    assert(q1 <= 0xffff_ffff_ffff_ffff) by (nonlinear_arith)
        requires
            a.num <= d1 * 0xffff_ffff_ffff_ffff,
            q1 == a.num / d1,
            d1 > 0,
    ;
    assert(q2 <= 0xffff_ffff_ffff_ffff) by (nonlinear_arith)
        requires
            b.num <= d2 * 0xffff_ffff_ffff_ffff,
            q2 == b.num / d2,
            d2 > 0,
    ;
    let pw = p as u128;
    let sw = s as u128;
    assert(pw * r1 < 0x1_0000_0000_0000_0000_0000_0000u128) by (nonlinear_arith)
        requires
            pw < 0x1_0000_0000,
            r1 < d1,
            d1 <= 0xffff_ffff_ffff_ffff,
    ;
    assert(sw * r2 < 0x1_0000_0000_0000_0000_0000_0000u128) by (nonlinear_arith)
        requires
            sw < 0x1_0000_0000,
            r2 < d2,
            d2 <= 0xffff_ffff_ffff_ffff,
    ;
    assert(pw * q1 < 0x1_0000_0000_0000_0000_0000_0000u128) by (nonlinear_arith)
        requires
            pw < 0x1_0000_0000,
            q1 <= 0xffff_ffff_ffff_ffff,
    ;
    assert(sw * q2 < 0x1_0000_0000_0000_0000_0000_0000u128) by (nonlinear_arith)
        requires
            sw < 0x1_0000_0000,
            q2 <= 0xffff_ffff_ffff_ffff,
    ;
    let pr1 = pw * r1;
    let sr2 = sw * r2;
    let big1 = pw * q1 + pr1 / d1;
    let rem1 = pr1 % d1;
    let big2 = sw * q2 + sr2 / d2;
    let rem2 = sr2 % d2;
    assert(rem1 * d2 <= 0xffff_ffff_ffff_ffff_ffff_ffff_ffff_ffffu128) by (nonlinear_arith)
        requires
            rem1 < d1,
            d1 <= 0xffff_ffff_ffff_ffff,
            d2 <= 0xffff_ffff_ffff_ffff,
    ;
    assert(rem2 * d1 <= 0xffff_ffff_ffff_ffff_ffff_ffff_ffff_ffffu128) by (nonlinear_arith)
        requires
            rem2 < d2,
            d1 <= 0xffff_ffff_ffff_ffff,
            d2 <= 0xffff_ffff_ffff_ffff,
    ;
    proof {
        vstd::arithmetic::div_mod::lemma_fundamental_div_mod(a.num as int, d1 as int);
        vstd::arithmetic::div_mod::lemma_fundamental_div_mod(b.num as int, d2 as int);
        lemma_scaled_split(a.num as int, d1 as int, q1 as int, r1 as int, p as int, big1 as int, rem1 as int);
        lemma_scaled_split(b.num as int, d2 as int, q2 as int, r2 as int, s as int, big2 as int, rem2 as int);
        lemma_lex_fraction(big1 as int, rem1 as int, d1 as int, big2 as int, rem2 as int, d2 as int);
        assert(p * a.num * d2 == (big1 * d1 + rem1) * d2);
        assert(s * b.num * d1 == (big2 * d2 + rem2) * d1);
    }
    if big1 != big2 {
        big1 < big2
    } else {
        rem1 * d2 < rem2 * d1
    }
}

/// Compares two fractions whose values fit in `u64` exactly.
pub fn ratio_lt(a: Ratio, b: Ratio) -> (r: bool)
    requires
        value_fits(a@),
        value_fits(b@),
    ensures
        r == frac_lt(a@, b@),
{
    scaled_less(a, 1, b, 1)
}

/// Packet loss in percent as a fraction: lost probes times 100 over probes
/// sent (0/1 when nothing was sent).
pub open spec fn spec_loss_pct(sent: nat, recv: nat) -> (nat, nat) {
    if sent == 0 { (0, 1) } else { (((sent - recv) * 100) as nat, sent) }
}

/// The mean of `s` as a fraction: its sum over its length (0/1 when empty).
pub open spec fn spec_avg(s: Seq<u64>) -> (nat, nat) {
    (seq_sum(s), if s.len() == 0 { 1 } else { s.len() })
}

/// The mean absolute difference of successive elements of `s` as a fraction:
/// the sum of the differences over their count (0/1 with fewer than two).
pub open spec fn spec_jitter(s: Seq<u64>) -> (nat, nat) {
    (diff_sum(s), if s.len() < 2 { 1 } else { (s.len() - 1) as nat })
}

/// The mean of `u64` values is a fraction whose value fits in `u64`.
pub proof fn lemma_avg_fits(h: HopStats)
    ensures
        value_fits(spec_avg(h.rtts@)),
{
    lemma_sum_le_len_max(h.rtts@);
    let n = h.rtts@.len();
    if n > 0 {
        assert(n * u64::MAX == n * 0xffff_ffff_ffff_ffff);
    } else {
        assert(seq_sum(h.rtts@) == 0);
    }
}

impl HopStats {
    /// The counters and window of this hop.
    pub open spec fn view(&self) -> HopView {
        HopView {
            ip: self.ip,
            sent: self.sent as nat,
            recv: self.recv as nat,
            last_rtt: self.last_rtt,
            rtts: self.rtts@,
        }
    }

    /// A copy of this hop.
    pub fn clone_hop(&self) -> (c: HopStats)
        ensures
            c.view() == self.view(),
            c.hop_num == self.hop_num,
            c.hostname == self.hostname,
            c.geo_info == self.geo_info,
    {
        let mut rtts: Vec<u64> = Vec::new();
        let mut i: usize = 0;
        while i < self.rtts.len()
            invariant
                i <= self.rtts.len(),
                rtts@ == self.rtts@.take(i as int),
            decreases self.rtts.len() - i,
        {
            rtts.push(self.rtts[i]);
            i = i + 1;
            assert(rtts@ =~= self.rtts@.take(i as int));
        }
        assert(self.rtts@.take(self.rtts.len() as int) =~= self.rtts@);
        HopStats {
            hop_num: self.hop_num,
            ip: self.ip,
            hostname: match &self.hostname {
                Some(h) => Some(h.clone()),
                None => None,
            },
            geo_info: crate::geoip::duplicate_geo(&self.geo_info),
            sent: self.sent,
            recv: self.recv,
            last_rtt: self.last_rtt,
            rtts,
        }
    }

    /// A hop that has not been probed yet.
    pub fn new(hop_num: u8) -> (h: Self)
        ensures
            h.hop_num == hop_num,
            h.ip is None,
            h.hostname is None,
            h.geo_info is None,
            h.sent == 0,
            h.recv == 0,
            h.last_rtt is None,
            h.rtts@ == Seq::<u64>::empty(),
    {
        HopStats {
            hop_num,
            ip: None,
            hostname: None,
            geo_info: None,
            sent: 0,
            recv: 0,
            last_rtt: None,
            rtts: Vec::new(),
        }
    }

    /// Records one probe: answered by `ip` (if any) after `rtt` microseconds
    /// (`None` when it was lost).
    pub fn register_probe(&mut self, ip: Option<IpAddress>, rtt: Option<u64>)
        requires
            old(self).sent < u32::MAX,
            rtt is Some ==> old(self).recv < u32::MAX,
        ensures
            final(self).view() == old(self).view().after_probe(ip, rtt),
            final(self).hop_num == old(self).hop_num,
            final(self).hostname == old(self).hostname,
            final(self).geo_info == old(self).geo_info,
    {
        self.sent = self.sent + 1;
        match rtt {
            Some(rtt_val) => {
                self.recv = self.recv + 1;
                self.last_rtt = Some(rtt_val);
                self.rtts.push(rtt_val);
                if self.rtts.len() > RTT_WINDOW {
                    self.rtts.remove(0);
                }
            },
            None => {
                self.last_rtt = None;
            },
        }
        if ip.is_some() {
            self.ip = ip;
        }
        assert(self.rtts@ =~= old(self).view().after_probe(ip, rtt).rtts);
    }

    /// Packet loss in percent, as the exact fraction `(sent - recv) * 100 / sent`
    /// (0/1 when nothing was sent).
    pub fn loss_pct(&self) -> (r: Ratio)
        requires
            self.recv <= self.sent,
        ensures
            r@ == spec_loss_pct(self.sent as nat, self.recv as nat),
    {
        if self.sent == 0 {
            Ratio { num: 0, den: 1 }
        } else {
            let lost = (self.sent - self.recv) as u128;
            Ratio { num: lost * 100, den: self.sent as u64 }
        }
    }

    /// Mean round-trip time of the window in microseconds, as the exact
    /// fraction sum / count (0/1 when empty).
    pub fn avg_rtt(&self) -> (r: Ratio)
        ensures
            r@ == spec_avg(self.rtts@),
    {
        let n = self.rtts.len();
        if n == 0 {
            return Ratio { num: 0, den: 1 };
        }
        let mut sum: u128 = 0;
        let mut i: usize = 0;
        while i < n
            invariant
                n == self.rtts@.len(),
                i <= n,
                sum == seq_sum(self.rtts@.take(i as int)),
                sum <= i * u64::MAX,
            decreases n - i,
        {
            assert(self.rtts@.take(i + 1).drop_last() =~= self.rtts@.take(i as int));
            assert(sum + self.rtts@[i as int] <= (i + 1) * u64::MAX) by (nonlinear_arith)
                requires
                    sum <= i * u64::MAX,
                    self.rtts@[i as int] <= u64::MAX,
            ;
            assert(n <= usize::MAX);
            assert((i + 1) * u64::MAX <= usize::MAX * u64::MAX) by (nonlinear_arith)
                requires
                    i + 1 <= usize::MAX,
            ;
            sum = sum + self.rtts[i] as u128;
            i = i + 1;
        }
        assert(self.rtts@.take(n as int) =~= self.rtts@);
        Ratio { num: sum, den: n as u64 }
    }

    /// Least round-trip time of the window in microseconds (0 when empty).
    pub fn min_rtt(&self) -> (r: u64)
        ensures
            r == seq_min(self.rtts@),
    {
        let n = self.rtts.len();
        if n == 0 {
            return 0;
        }
        let mut m = self.rtts[0];
        let mut i: usize = 1;
        assert(self.rtts@.take(1) =~= seq![self.rtts@[0]]);
        while i < n
            invariant
                n == self.rtts@.len(),
                1 <= i <= n,
                m == seq_min(self.rtts@.take(i as int)),
            decreases n - i,
        {
            assert(self.rtts@.take(i + 1).drop_last() =~= self.rtts@.take(i as int));
            if self.rtts[i] < m {
                m = self.rtts[i];
            }
            i = i + 1;
        }
        assert(self.rtts@.take(n as int) =~= self.rtts@);
        m
    }

    /// Greatest round-trip time of the window in microseconds (0 when empty).
    pub fn max_rtt(&self) -> (r: u64)
        ensures
            r == seq_max(self.rtts@),
    {
        let n = self.rtts.len();
        if n == 0 {
            return 0;
        }
        let mut m = self.rtts[0];
        let mut i: usize = 1;
        assert(self.rtts@.take(1) =~= seq![self.rtts@[0]]);
        while i < n
            invariant
                n == self.rtts@.len(),
                1 <= i <= n,
                m == seq_max(self.rtts@.take(i as int)),
            decreases n - i,
        {
            assert(self.rtts@.take(i + 1).drop_last() =~= self.rtts@.take(i as int));
            if self.rtts[i] > m {
                m = self.rtts[i];
            }
            i = i + 1;
        }
        assert(self.rtts@.take(n as int) =~= self.rtts@);
        m
    }

    /// Mean absolute difference of successive round-trip times of the window,
    /// in microseconds, as the exact fraction sum / count (0/1 with fewer than
    /// two).
    pub fn jitter(&self) -> (r: Ratio)
        ensures
            r@ == spec_jitter(self.rtts@),
    {
        let n = self.rtts.len();
        if n < 2 {
            return Ratio { num: 0, den: 1 };
        }
        let mut sum: u128 = 0;
        let mut i: usize = 1;
        assert(self.rtts@.take(1).len() < 2);
        while i < n
            invariant
                n == self.rtts@.len(),
                1 <= i <= n,
                sum == diff_sum(self.rtts@.take(i as int)),
                sum <= (i - 1) * u64::MAX,
            decreases n - i,
        {
            let ghost t = self.rtts@.take(i + 1);
            assert(t.drop_last() =~= self.rtts@.take(i as int));
            assert(t[t.len() - 2] == self.rtts@[i - 1]);
            let a = self.rtts[i - 1];
            let b = self.rtts[i];
            let d: u64 = if a >= b { a - b } else { b - a };
            assert(sum + d <= i * u64::MAX) by (nonlinear_arith)
                requires
                    sum <= (i - 1) * u64::MAX,
                    d <= u64::MAX,
            ;
            assert(i * u64::MAX <= usize::MAX * u64::MAX) by (nonlinear_arith)
                requires
                    i <= usize::MAX,
            ;
            sum = sum + d as u128;
            i = i + 1;
        }
        assert(self.rtts@.take(n as int) =~= self.rtts@);
        Ratio { num: sum, den: (n - 1) as u64 }
    }
}

/// The sum of `s` is at most `len * u64::MAX`.
pub proof fn lemma_sum_le_len_max(s: Seq<u64>)
    ensures
        seq_sum(s) <= s.len() * u64::MAX,
    decreases s.len(),
{
    if s.len() > 0 {
        lemma_sum_le_len_max(s.drop_last());
    }
}

/// Each successive difference is at most `u64::MAX`.
pub proof fn lemma_diff_sum_bound(s: Seq<u64>)
    ensures
        s.len() >= 1 ==> diff_sum(s) <= (s.len() - 1) * u64::MAX,
    decreases s.len(),
{
    if s.len() >= 2 {
        lemma_diff_sum_bound(s.drop_last());
    }
}

} // verus!

verus! {

impl HopView {
    /// Well-formed counters: no more answers than probes, and a window no
    /// longer than the answers received nor than `RTT_WINDOW`.
    pub open spec fn wf(self) -> bool {
        &&& self.recv <= self.sent
        &&& self.rtts.len() <= self.recv
        &&& self.rtts.len() <= RTT_WINDOW
    }
}

/// The round-trip times of the answered probes among `probes`, in order.
pub open spec fn received(probes: Seq<(Option<IpAddress>, Option<u64>)>) -> Seq<u64>
    decreases probes.len(),
{
    if probes.len() == 0 {
        seq![]
    } else {
        match probes.last().1 {
            Some(r) => received(probes.drop_last()).push(r),
            None => received(probes.drop_last()),
        }
    }
}

/// The last `n` elements of `s` (all of `s` when it is shorter).
pub open spec fn last_n(s: Seq<u64>, n: nat) -> Seq<u64> {
    if s.len() <= n { s } else { s.skip(s.len() - n) }
}

/// Recording a probe keeps the counters well formed.
pub proof fn law_probe_keeps_wf(v: HopView, ip: Option<IpAddress>, rtt: Option<u64>)
    requires
        v.wf(),
    ensures
        v.after_probe(ip, rtt).wf(),
{
}

proof fn lemma_window_after_last_n(x: Seq<u64>, r: u64)
    ensures
        window_after(last_n(x, RTT_WINDOW as nat), r) == last_n(x.push(r), RTT_WINDOW as nat),
{
    if x.len() <= RTT_WINDOW {
        if x.push(r).len() > RTT_WINDOW {
            assert(x.push(r).drop_first() =~= x.push(r).skip(x.push(r).len() - RTT_WINDOW));
        }
    } else {
        assert(last_n(x, RTT_WINDOW as nat).push(r).drop_first() =~= x.push(r).skip(
            x.push(r).len() - RTT_WINDOW,
        ));
    }
}

/// A hop keeps exactly the latest `RTT_WINDOW` round-trip times of its
/// answered probes, oldest first; it counts every probe as sent and every
/// answered probe as received.
pub proof fn law_rtt_window(start: HopView, probes: Seq<(Option<IpAddress>, Option<u64>)>)
    requires
        start.rtts.len() <= RTT_WINDOW,
    ensures
        start.after_probes(probes).rtts == last_n(start.rtts + received(probes), RTT_WINDOW as nat),
        start.after_probes(probes).rtts.len() <= RTT_WINDOW,
        start.after_probes(probes).sent == start.sent + probes.len(),
        start.after_probes(probes).recv == start.recv + received(probes).len(),
    decreases probes.len(),
{
    if probes.len() == 0 {
        assert(start.rtts + seq![] =~= start.rtts);
    } else {
        let init = probes.drop_last();
        law_rtt_window(start, init);
        let x = start.rtts + received(init);
        match probes.last().1 {
            Some(r) => {
                lemma_window_after_last_n(x, r);
                assert(x.push(r) =~= start.rtts + received(probes));
            },
            None => {},
        }
    }
}

/// Every element of `s` lies between its least and its greatest element.
pub proof fn lemma_elem_bounds(s: Seq<u64>)
    ensures
        forall|i: int| 0 <= i < s.len() ==> seq_min(s) <= #[trigger] s[i] <= seq_max(s),
    decreases s.len(),
{
    if s.len() > 1 {
        let t = s.drop_last();
        lemma_elem_bounds(t);
        assert forall|i: int| 0 <= i < s.len() implies seq_min(s) <= #[trigger] s[i] <= seq_max(s) by {
            if i < s.len() - 1 {
                assert(s[i] == t[i]);
            }
        }
    }
}

proof fn lemma_sum_bounds(s: Seq<u64>)
    ensures
        s.len() * seq_min(s) <= seq_sum(s) <= s.len() * seq_max(s),
    decreases s.len(),
{
    if s.len() == 1 {
        assert(s.drop_last().len() == 0);
        assert(seq_sum(s.drop_last()) == 0);
        assert(s.last() == s[0]);
        assert(seq_sum(s) == s[0] as nat);
        assert(seq_min(s) == s[0] && seq_max(s) == s[0]);
    } else if s.len() > 1 {
        let t = s.drop_last();
        lemma_sum_bounds(t);
        let n = t.len();
        let lo = seq_min(s);
        let hi = seq_max(s);
        assert(lo <= seq_min(t) && lo <= s.last());
        assert(hi >= seq_max(t) && hi >= s.last());
        assert(n * lo <= n * seq_min(t)) by (nonlinear_arith)
            requires
                lo <= seq_min(t),
        ;
        assert(n * seq_max(t) <= n * hi) by (nonlinear_arith)
            requires
                seq_max(t) <= hi,
        ;
        assert((n + 1) * lo == n * lo + lo) by (nonlinear_arith);
        assert((n + 1) * hi == n * hi + hi) by (nonlinear_arith);
        assert(seq_sum(s) == seq_sum(t) + s.last() as nat);
        assert(s.len() == n + 1);
    }
}

/// The least and the greatest element of a non-empty sequence are elements
/// of it, and bound every element.
pub proof fn lemma_min_max_members(s: Seq<u64>)
    requires
        s.len() > 0,
    ensures
        s.contains(seq_min(s)),
        s.contains(seq_max(s)),
        forall|i: int| 0 <= i < s.len() ==> seq_min(s) <= #[trigger] s[i] <= seq_max(s),
    decreases s.len(),
{
    lemma_elem_bounds(s);
    if s.len() == 1 {
        assert(s[0] == seq_min(s) && s[0] == seq_max(s));
    } else {
        let t = s.drop_last();
        lemma_min_max_members(t);
        let a = choose|i: int| 0 <= i < t.len() && t[i] == seq_min(t);
        let b = choose|i: int| 0 <= i < t.len() && t[i] == seq_max(t);
        assert(s[a] == t[a] && s[b] == t[b]);
        assert(s[s.len() - 1] == s.last());
    }
}

/// The mean round-trip time lies between the least and the greatest one.
pub proof fn law_min_avg_max(s: Seq<u64>)
    requires
        s.len() > 0,
    ensures
        seq_min(s) * spec_avg(s).1 <= spec_avg(s).0 <= seq_max(s) * spec_avg(s).1,
{
    lemma_sum_bounds(s);
    let n = s.len();
    assert(seq_min(s) * n == n * seq_min(s) && seq_max(s) * n == n * seq_max(s)) by (nonlinear_arith);
}

proof fn lemma_diff_sum_spread(s: Seq<u64>)
    requires
        s.len() >= 1,
    ensures
        diff_sum(s) <= (s.len() - 1) * (seq_max(s) - seq_min(s)),
    decreases s.len(),
{
    if s.len() >= 2 {
        let t = s.drop_last();
        lemma_diff_sum_spread(t);
        lemma_elem_bounds(s);
        lemma_elem_bounds(t);
        let spread = seq_max(s) - seq_min(s);
        let spread_t = seq_max(t) - seq_min(t);
        assert(s[s.len() - 2] == t.last());
        assert(seq_min(s) <= seq_min(t) && seq_max(t) <= seq_max(s)) by {
            assert(t.len() >= 1);
        }
        assert(abs_diff(s[s.len() - 2], s.last()) <= spread);
        assert(spread_t <= spread);
        let m = (t.len() - 1) as int;
        assert(m * spread_t <= m * spread) by (nonlinear_arith)
            requires
                0 <= spread_t <= spread,
                m >= 0,
        ;
        assert((m + 1) * spread == m * spread + spread) by (nonlinear_arith);
    }
}

/// Jitter never exceeds the spread between the greatest and the least
/// round-trip time.
pub proof fn law_jitter_le_spread(s: Seq<u64>)
    requires
        s.len() > 0,
    ensures
        spec_jitter(s).0 <= (seq_max(s) - seq_min(s)) * spec_jitter(s).1,
{
    lemma_elem_bounds(s);
    assert(seq_min(s) <= s[0] <= seq_max(s));
    if s.len() >= 2 {
        lemma_diff_sum_spread(s);
        let n = (s.len() - 1) as nat;
        let spread = (seq_max(s) - seq_min(s)) as nat;
        assert(n * spread == spread * n) by (nonlinear_arith);
    }
}

/// Loss is between 0 and 100%: none exactly when every probe was answered,
/// all exactly when probes were sent and none was answered.
pub proof fn law_loss_range(sent: nat, recv: nat)
    requires
        recv <= sent,
    ensures
        spec_loss_pct(sent, recv).1 > 0,
        spec_loss_pct(sent, recv).0 <= 100 * spec_loss_pct(sent, recv).1,
        spec_loss_pct(sent, recv).0 == 0 <==> recv == sent,
        spec_loss_pct(sent, recv).0 == 100 * spec_loss_pct(sent, recv).1 <==> (sent > 0 && recv == 0),
{
}

} // verus!
