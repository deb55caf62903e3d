//! The decisions of the web dashboard and of the command line: probe methods
//! named in requests and flags, default ports and limits, stop requests, and
//! the hop state sent to the browser.

use vstd::prelude::*;
use crate::geoip::{duplicate_geo, GeoInfo};
use crate::probe::ProbeMethod;
use crate::stats::{spec_avg, spec_jitter, spec_loss_pct, HopStats, Ratio};
use crate::text::{chars_of, str_eq};
use crate::traceroute::TraceConfig;

verus! {

/// What `str::to_uppercase` returns for `s` (Unicode upper-case mapping).
pub uninterp spec fn uppercase(s: Seq<char>) -> Seq<char>;

/// Upper-cases a string with `str::to_uppercase`; the result is named by
/// `uppercase`, a function of the text alone.
#[verifier::external_body]
fn to_upper(s: &str) -> (r: String)
    ensures
        r@ == uppercase(s@),
{
    s.to_uppercase()
}

/// The probe method named by an upper-cased method name: "ICMP", "TCP", and
/// UDP for anything else.
pub open spec fn spec_method_named(upper: Seq<char>) -> ProbeMethod {
    if upper == "ICMP"@ {
        ProbeMethod::ICMP
    } else if upper == "TCP"@ {
        ProbeMethod::TCP
    } else {
        ProbeMethod::UDP
    }
}

/// The probe method named by an upper-cased method name.
pub fn method_named(upper: &str) -> (m: ProbeMethod)
    ensures
        m == spec_method_named(upper@),
{
    if str_eq(upper, "ICMP") {
        ProbeMethod::ICMP
    } else if str_eq(upper, "TCP") {
        ProbeMethod::TCP
    } else {
        ProbeMethod::UDP
    }
}

/// The probe method a dashboard request names, whatever its case.
pub fn request_method(method: &str) -> (m: ProbeMethod)
    ensures
        m == spec_method_named(uppercase(method@)),
{
    let upper = to_upper(method);
    method_named(upper.as_str())
}

/// The base port of a dashboard trace: 80 for TCP, 33434 otherwise.
pub open spec fn dashboard_port(m: ProbeMethod) -> u16 {
    if m == ProbeMethod::TCP { 80 } else { 33434 }
}

/// The trace a dashboard request asks for: host and method as given, at most
/// 30 hops, 10 rounds and 1000 ms per probe unless the request says otherwise,
/// no forced address family.
pub fn config_from_request(
    host: String,
    method: &str,
    max_hops: Option<u8>,
    count: Option<u32>,
    timeout_ms: Option<u64>,
) -> (c: TraceConfig)
    ensures
        c.target == host,
        c.method == spec_method_named(uppercase(method@)),
        c.max_hops == (match max_hops { Some(v) => v, None => 30 }),
        c.count == (match count { Some(v) => v, None => 10 }),
        c.timeout == (match timeout_ms { Some(v) => v, None => 1000 }),
        c.port == dashboard_port(c.method),
        !c.force_ipv4,
        !c.force_ipv6,
{
    let m = request_method(method);
    TraceConfig {
        target: host,
        method: m,
        max_hops: match max_hops {
            Some(v) => v,
            None => 30,
        },
        count: match count {
            Some(v) => v,
            None => 10,
        },
        timeout: match timeout_ms {
            Some(v) => v,
            None => 1000,
        },
        port: if m == ProbeMethod::TCP { 80 } else { 33434 },
        force_ipv4: false,
        force_ipv6: false,
    }
}

/// `true` when `p` occurs in `s` as a contiguous part.
pub open spec fn contains_text(s: Seq<char>, p: Seq<char>) -> bool {
    exists|i: int| 0 <= i && i + p.len() <= s.len() && #[trigger] s.subrange(i, i + p.len()) == p
}

fn contains_exec(s: &Vec<char>, p: &Vec<char>) -> (r: bool)
    ensures
        r == contains_text(s@, p@),
{
    if p.len() > s.len() {
        return false;
    }
    let mut i: usize = 0;
    while i <= s.len() - p.len()
        invariant
            p.len() <= s.len(),
            i <= s.len() - p.len() + 1,
            forall|k: int| 0 <= k < i ==> #[trigger] s@.subrange(k, k + p.len()) != p@,
        decreases s.len() - i,
    {
        let mut j: usize = 0;
        let mut same = true;
        while j < p.len()
            invariant
                i + p.len() <= s.len(),
                j <= p.len(),
                same == forall|t: int| 0 <= t < j ==> s@[i + t] == p@[t],
            decreases p.len() - j,
        {
            if s[i + j] != p[j] {
                same = false;
            }
            j = j + 1;
        }
        if same {
            assert(s@.subrange(i as int, i + p.len()) =~= p@);
            return true;
        }
        assert(s@.subrange(i as int, i + p.len()) != p@) by {
            let t = choose|t: int| 0 <= t < p.len() && s@[i + t] != p@[t];
            assert(s@.subrange(i as int, i + p.len())[t] == s@[i + t]);
        }
        i = i + 1;
    }
    assert forall|k: int| 0 <= k && k + p@.len() <= s@.len() implies #[trigger] s@.subrange(k, k + p@.len()) != p@ by {
        assert(k < i);
    }
    false
}

/// A dashboard message that asks to stop the running trace: it holds
/// `"action":"stop"` (with or without a space after the colon).
pub fn is_stop_request(text: &str) -> (r: bool)
    ensures
        r == (contains_text(text@, "\"action\":\"stop\""@) || contains_text(
            text@,
            "\"action\": \"stop\""@,
        )),
{
    let t = chars_of(text);
    let a = chars_of("\"action\":\"stop\"");
    let b = chars_of("\"action\": \"stop\"");
    contains_exec(&t, &a) || contains_exec(&t, &b)
}

/// The probe method chosen by the command-line flags: TCP, else UDP, else ICMP.
pub fn method_from_flags(tcp: bool, udp: bool) -> (m: ProbeMethod)
    ensures
        m == (if tcp { ProbeMethod::TCP } else if udp { ProbeMethod::UDP } else { ProbeMethod::ICMP }),
{
    if tcp {
        ProbeMethod::TCP
    } else if udp {
        ProbeMethod::UDP
    } else {
        ProbeMethod::ICMP
    }
}

/// The base port when none is given: 33434 for UDP, 80 for TCP, 0 for ICMP.
pub fn default_port(m: ProbeMethod) -> (p: u16)
    ensures
        p == (match m {
            ProbeMethod::UDP => 33434u16,
            ProbeMethod::TCP => 80u16,
            ProbeMethod::ICMP => 0u16,
        }),
{
    match m {
        ProbeMethod::UDP => 33434,
        ProbeMethod::TCP => 80,
        ProbeMethod::ICMP => 0,
    }
}

/// The state of a hop as the dashboard receives it (times in microseconds; the
/// mean, the jitter and the loss in percent as exact fractions).
#[derive(Clone, Debug)]
pub struct FrontendHopState {
    pub hop_num: u8,
    pub ip: Option<String>,
    pub hostname: Option<String>,
    pub geo_info: Option<GeoInfo>,
    pub sent_count: u32,
    pub recv_count: u32,
    pub last_rtt: Option<u64>,
    pub avg_rtt: Ratio,
    pub jitter: Ratio,
    pub loss_pct: Ratio,
}

impl FrontendHopState {
    /// The dashboard state of a hop.
    pub fn from_stats(stats: &HopStats) -> (s: Self)
        requires
            stats.recv <= stats.sent,
        ensures
            s.hop_num == stats.hop_num,
            match stats.ip {
                Some(ip) => s.ip is Some && s.ip->0@ == ip.text(),
                None => s.ip is None,
            },
            s.hostname == stats.hostname,
            s.geo_info == stats.geo_info,
            s.sent_count == stats.sent,
            s.recv_count == stats.recv,
            s.last_rtt == stats.last_rtt,
            s.avg_rtt@ == spec_avg(stats.rtts@),
            s.jitter@ == spec_jitter(stats.rtts@),
            s.loss_pct@ == spec_loss_pct(stats.sent as nat, stats.recv as nat),
    {
        FrontendHopState {
            hop_num: stats.hop_num,
            ip: match &stats.ip {
                Some(ip) => Some(ip.to_text()),
                None => None,
            },
            hostname: match &stats.hostname {
                Some(h) => Some(h.clone()),
                None => None,
            },
            geo_info: duplicate_geo(&stats.geo_info),
            sent_count: stats.sent,
            recv_count: stats.recv,
            last_rtt: stats.last_rtt,
            avg_rtt: stats.avg_rtt(),
            jitter: stats.jitter(),
            loss_pct: stats.loss_pct(),
        }
    }
}

} // verus!
