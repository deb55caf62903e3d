//! Probe methods and the outcome of a single probe.

use vstd::prelude::*;
use crate::ip::IpAddress;

verus! {

/// How a hop is probed.
#[derive(Clone, Copy, Debug, PartialEq, Eq, Structural)]
pub enum ProbeMethod {
    ICMP,
    UDP,
    TCP,
}

/// The outcome of one probe sent with time-to-live `ttl`: the address that
/// answered, the round-trip time in microseconds, whether the destination
/// itself answered, and the reason the probe could not be sent.
#[derive(Clone, Debug)]
pub struct ProbeResult {
    pub ttl: u8,
    pub ip: Option<IpAddress>,
    pub rtt: Option<u64>,
    pub reached: bool,
    pub error: Option<String>,
}

/// The destination port of the probe with time-to-live `ttl`: UDP traceroute
/// moves the port up by the TTL, the other methods keep the base port.
pub open spec fn spec_probe_port(method: ProbeMethod, base: u16, ttl: u8) -> int {
    if method == ProbeMethod::UDP {
        base + ttl
    } else {
        base as int
    }
}

/// Computes the destination port of the probe with time-to-live `ttl`.
pub fn probe_port(method: ProbeMethod, base: u16, ttl: u8) -> (p: u16)
    requires
        method == ProbeMethod::UDP ==> base + ttl <= u16::MAX,
    ensures
        p == spec_probe_port(method, base, ttl),
{
    if method == ProbeMethod::UDP {
        base + ttl as u16
    } else {
        base
    }
}

/// A probe that could not be sent, with the reason.
pub fn failed_probe(ttl: u8, reason: String) -> (r: ProbeResult)
    ensures
        r.ttl == ttl,
        r.ip is None,
        r.rtt is None,
        !r.reached,
        r.error == Some(reason),
{
    ProbeResult { ttl, ip: None, rtt: None, reached: false, error: Some(reason) }
}

/// A probe that got no answer before the timeout.
pub fn silent_probe(ttl: u8) -> (r: ProbeResult)
    ensures
        r.ttl == ttl,
        r.ip is None,
        r.rtt is None,
        !r.reached,
        r.error is None,
{
    ProbeResult { ttl, ip: None, rtt: None, reached: false, error: None }
}

/// The outcome of a UDP probe to `dest`, given the ICMP error read from the
/// socket's error queue after it was signalled (if any) and the elapsed time:
/// an answer from the hop that sent the error, which reached the destination on
/// Port Unreachable or when the destination itself answered.
pub fn udp_outcome(
    ttl: u8,
    dest: IpAddress,
    error: Option<(IpAddress, u8, u8)>,
    rtt_us: u64,
) -> (r: ProbeResult)
    ensures
        r.ttl == ttl,
        r.error is None,
        match error {
            Some((hop, t, c)) => r.ip == Some(hop) && r.rtt == Some(rtt_us) && r.reached
                == crate::packet::spec_udp_reached(dest is V6, t, c, hop, dest),
            None => r.ip is None && r.rtt is None && !r.reached,
        },
{
    match error {
        Some((hop, t, c)) => {
            let reached = crate::packet::udp_reached(dest.is_ipv6(), t, c, hop, dest);
            ProbeResult { ttl, ip: Some(hop), rtt: Some(rtt_us), reached, error: None }
        },
        None => silent_probe(ttl),
    }
}

/// The outcome of an ICMP or TCP probe to `dest`: a queued ICMP error names
/// the hop that answered (the destination is reached when it is that hop);
/// otherwise a matching echo reply, or a TCP connection that completed or was
/// refused, means the destination answered; otherwise nothing answered.
pub fn answer_outcome(
    ttl: u8,
    dest: IpAddress,
    error: Option<(IpAddress, u8, u8)>,
    dest_answered: bool,
    rtt_us: u64,
) -> (r: ProbeResult)
    ensures
        r.ttl == ttl,
        r.error is None,
        match error {
            Some((hop, _, _)) => r.ip == Some(hop) && r.rtt == Some(rtt_us) && r.reached == (hop
                == dest),
            None => if dest_answered {
                r.ip == Some(dest) && r.rtt == Some(rtt_us) && r.reached
            } else {
                r.ip is None && r.rtt is None && !r.reached
            },
        },
{
    match error {
        Some((hop, _, _)) => {
            let reached = hop.same_as(&dest);
            ProbeResult { ttl, ip: Some(hop), rtt: Some(rtt_us), reached, error: None }
        },
        None => {
            if dest_answered {
                ProbeResult { ttl, ip: Some(dest), rtt: Some(rtt_us), reached: true, error: None }
            } else {
                silent_probe(ttl)
            }
        },
    }
}

} // verus!
