//! The MTR-style trace: choosing the destination address, and the state of a
//! trace from one probe to the next (which hop to probe, what to look up, when
//! a round ends and when the hop list shrinks to the destination).

use vstd::prelude::*;
use crate::ip::IpAddress;
use crate::probe::{probe_port, spec_probe_port, ProbeMethod, ProbeResult};
use crate::stats::HopStats;
use crate::text::append_str;

verus! {

/// What a trace is asked to do. `timeout` is in milliseconds.
#[derive(Clone, Debug)]
pub struct TraceConfig {
    pub target: String,
    pub method: ProbeMethod,
    pub max_hops: u8,
    pub count: u32,
    pub timeout: u64,
    pub port: u16,
    pub force_ipv4: bool,
    pub force_ipv6: bool,
}

/// Why no destination address could be chosen.
#[derive(Clone, Copy, Debug, PartialEq, Eq, Structural)]
pub enum DestinationError {
    /// Name resolution gave no address at all.
    NoAddress,
    /// No address of the forced family (IPv4 when `ipv4`, else IPv6).
    NoAddressOfFamily { ipv4: bool },
}

/// The addresses of `ips` that belong to the family (IPv4 when `v4`).
pub open spec fn of_family(ips: Seq<IpAddress>, v4: bool) -> Seq<IpAddress>
    decreases ips.len(),
{
    if ips.len() == 0 {
        seq![]
    } else {
        let rest = of_family(ips.drop_last(), v4);
        if (ips.last() is V4) == v4 { rest.push(ips.last()) } else { rest }
    }
}

/// The first IPv4 address of `ips`, if any.
pub open spec fn first_v4(ips: Seq<IpAddress>) -> Option<IpAddress>
    decreases ips.len(),
{
    if ips.len() == 0 {
        None
    } else if ips[0] is V4 {
        Some(ips[0])
    } else {
        first_v4(ips.skip(1))
    }
}

/// The candidate addresses after the family flags are applied.
pub open spec fn candidates(ips: Seq<IpAddress>, force_ipv4: bool, force_ipv6: bool) -> Seq<IpAddress> {
    if force_ipv4 {
        of_family(ips, true)
    } else if force_ipv6 {
        of_family(ips, false)
    } else {
        ips
    }
}

/// The destination chosen among the resolved addresses: the first candidate
/// when IPv6 is forced, otherwise the first IPv4 candidate, or the first
/// candidate when there is none.
pub open spec fn spec_select_destination(ips: Seq<IpAddress>, force_ipv4: bool, force_ipv6: bool) -> Result<
    IpAddress,
    DestinationError,
> {
    let c = candidates(ips, force_ipv4, force_ipv6);
    if ips.len() == 0 {
        Err(DestinationError::NoAddress)
    } else if c.len() == 0 {
        Err(DestinationError::NoAddressOfFamily { ipv4: force_ipv4 })
    } else if force_ipv6 {
        Ok(c[0])
    } else {
        match first_v4(c) {
            Some(ip) => Ok(ip),
            None => Ok(c[0]),
        }
    }
}

fn of_family_exec(ips: &Vec<IpAddress>, v4: bool) -> (out: Vec<IpAddress>)
    ensures
        out@ == of_family(ips@, v4),
{
    let mut out: Vec<IpAddress> = Vec::new();
    let mut i: usize = 0;
    while i < ips.len()
        invariant
            i <= ips.len(),
            out@ == of_family(ips@.take(i as int), v4),
        decreases ips.len() - i,
    {
        assert(ips@.take(i + 1).drop_last() =~= ips@.take(i as int));
        if ips[i].is_ipv4() == v4 {
            out.push(ips[i]);
        }
        i = i + 1;
    }
    assert(ips@.take(ips.len() as int) =~= ips@);
    out
}

fn first_v4_exec(ips: &Vec<IpAddress>) -> (out: Option<IpAddress>)
    ensures
        out == first_v4(ips@),
{
    let mut i: usize = 0;
    assert(ips@.skip(0) =~= ips@);
    while i < ips.len()
        invariant
            i <= ips.len(),
            first_v4(ips@) == first_v4(ips@.skip(i as int)),
        decreases ips.len() - i,
    {
        assert(ips@.skip(i as int).skip(1) =~= ips@.skip(i + 1));
        if ips[i].is_ipv4() {
            return Some(ips[i]);
        }
        i = i + 1;
    }
    None
}

/// Chooses the address to trace among the addresses a host name resolved to.
pub fn select_destination(ips: &Vec<IpAddress>, force_ipv4: bool, force_ipv6: bool) -> (r: Result<
    IpAddress,
    DestinationError,
>)
    ensures
        r == spec_select_destination(ips@, force_ipv4, force_ipv6),
{
    if ips.len() == 0 {
        return Err(DestinationError::NoAddress);
    }
    let c = if force_ipv4 {
        of_family_exec(ips, true)
    } else if force_ipv6 {
        of_family_exec(ips, false)
    } else {
        ips.clone()
    };
    assert(c@ == candidates(ips@, force_ipv4, force_ipv6));
    if c.len() == 0 {
        return Err(DestinationError::NoAddressOfFamily { ipv4: force_ipv4 });
    }
    if force_ipv6 {
        Ok(c[0])
    } else {
        match first_v4_exec(&c) {
            Some(ip) => Ok(ip),
            None => Ok(c[0]),
        }
    }
}

/// The message for a destination error about host `target`.
pub open spec fn spec_destination_message(e: DestinationError, target: Seq<char>) -> Seq<char> {
    match e {
        DestinationError::NoAddress => "No IP address found for host "@ + target,
        DestinationError::NoAddressOfFamily { ipv4 } => "No "@ + (if ipv4 { "IPv4"@ } else {
            "IPv6"@
        }) + " address found for host "@ + target,
    }
}

impl DestinationError {
    /// The message reported for this error about host `target`.
    pub fn message(&self, target: &str) -> (s: String)
        ensures
            s@ == spec_destination_message(*self, target@),
    {
        let mut s = String::new();
        match self {
            DestinationError::NoAddress => {
                append_str(&mut s, "No IP address found for host ");
            },
            DestinationError::NoAddressOfFamily { ipv4 } => {
                append_str(&mut s, "No ");
                if *ipv4 {
                    append_str(&mut s, "IPv4");
                } else {
                    append_str(&mut s, "IPv6");
                }
                append_str(&mut s, " address found for host ");
            },
        }
        append_str(&mut s, target);
        assert(s@ =~= spec_destination_message(*self, target@));
        s
    }
}

/// What the trace wants done next.
#[derive(Clone, Copy, Debug, PartialEq, Eq, Structural)]
pub enum TraceAction {
    /// Send a probe with this time-to-live to this destination port.
    Probe { ttl: u8, port: u16 },
    /// A round with no hops to probe: wait for the round pause only.
    IdleRound,
    /// Every round has been run.
    Finished,
}

/// What followed from recording one probe.
#[derive(Clone, Copy, Debug, PartialEq, Eq, Structural)]
pub struct ProbeStep {
    /// Index of the hop that was updated.
    pub hop_index: usize,
    /// The hop answered and its host name is not known yet.
    pub lookup_hostname: bool,
    /// The hop answered and its location is not known yet.
    pub lookup_geo: bool,
    /// The destination answered: the hop list now ends at this hop.
    pub reached: bool,
    /// The round is over (the destination answered, or this was its last hop).
    pub round_over: bool,
}

/// The state of a running trace.
pub struct TraceState {
    pub dest: IpAddress,
    pub method: ProbeMethod,
    pub port: u16,
    pub count: u32,
    /// The hop limit the trace started with.
    pub max_hops: u8,
    /// One entry per hop still traced, hop `i + 1` at index `i`.
    pub hops: Vec<HopStats>,
    /// Rounds completed so far.
    pub round: u32,
    /// Time-to-live of the next probe of the current round.
    pub next_ttl: u8,
}

/// Where a trace stands: hops still traced, rounds completed, and the
/// time-to-live of the next probe.
pub struct TracePos {
    pub len: nat,
    pub round: nat,
    pub next_ttl: nat,
}

/// `b` is where a trace at `a` stands after recording the probe that gave
/// `step`: the probed hop is hop `next_ttl`; an answer from the destination
/// cuts the hop list to that hop and ends the round, as does the last hop;
/// otherwise the next hop of the round follows.
pub open spec fn recorded(a: TracePos, b: TracePos, step: ProbeStep) -> bool {
    &&& step.hop_index + 1 == a.next_ttl
    &&& b.len == (if step.reached { a.next_ttl } else { a.len })
    &&& step.round_over == (step.reached || a.next_ttl == a.len)
    &&& step.round_over ==> b.round == a.round + 1 && b.next_ttl == 1
    &&& !step.round_over ==> b.round == a.round && b.next_ttl == a.next_ttl + 1
}

/// A position whose next probe lies within its hop list.
pub open spec fn pos_ok(p: TracePos) -> bool {
    1 <= p.next_ttl <= p.len
}

/// The hops reported along a run: starting at `ps[0]`, each probe recorded
/// leads from `ps[k]` to `ps[k + 1]` and reports hop `steps[k].hop_index + 1`.
/// Every reported hop is one of the hops the run started with; within a round
/// the hops are reported as 1, 2, 3, ... in order, and a new round starts
/// again at hop 1; once the destination answered at hop `t`, no later report
/// is of a hop beyond `t`; and the rounds completed grow by one per round end.
pub proof fn law_trace_run(ps: Seq<TracePos>, steps: Seq<ProbeStep>)
    requires
        ps.len() == steps.len() + 1,
        pos_ok(ps[0]),
        forall|k: int| 0 <= k < steps.len() ==> recorded(ps[k], ps[k + 1], #[trigger] steps[k]),
    ensures
        forall|k: int| 0 <= k < steps.len() ==> 1 <= (#[trigger] steps[k]).hop_index + 1 <= ps[0].len,
        forall|k: int| 0 <= k < steps.len() ==> (#[trigger] ps[k + 1]).len <= ps[k].len && ps[k + 1].len <= ps[0].len,
        forall|k: int|
            0 <= k < steps.len() - 1 ==> (#[trigger] steps[k + 1]).hop_index == (if steps[k].round_over {
                0
            } else {
                steps[k].hop_index + 1
            }),
        forall|k: int, j: int|
            0 <= k < j < steps.len() && (#[trigger] steps[k]).reached ==> (#[trigger] steps[j]).hop_index
                < steps[k].hop_index + 1,
        forall|k: int| 0 <= k < steps.len() ==> (#[trigger] ps[k + 1]).round == ps[k].round + (if steps[k].round_over {
            1int
        } else {
            0int
        }),
    decreases steps.len(),
{
    if steps.len() > 0 {
        let n = steps.len() - 1;
        law_trace_run(ps.take(n + 1), steps.take(n));
        assert forall|k: int| 0 <= k <= steps.len() implies pos_ok(#[trigger] ps[k]) && ps[k].len <= ps[0].len by {
            lemma_run_positions(ps, steps, k);
        }
        assert forall|k: int, j: int|
            0 <= k < j < steps.len() && (#[trigger] steps[k]).reached implies (#[trigger] steps[j]).hop_index
                < steps[k].hop_index + 1 by {
            lemma_run_after_reached(ps, steps, k, j);
        }
        assert forall|k: int| 0 <= k < steps.len() - 1 implies (#[trigger] steps[k + 1]).hop_index == (if steps[k].round_over {
            0
        } else {
            steps[k].hop_index + 1
        }) by {
            assert(recorded(ps[k], ps[k + 1], steps[k]));
            assert(recorded(ps[k + 1], ps[k + 2], steps[k + 1]));
        }
        assert forall|k: int| 0 <= k < steps.len() implies 1 <= (#[trigger] steps[k]).hop_index + 1 <= ps[0].len by {
            lemma_run_positions(ps, steps, k);
            assert(recorded(ps[k], ps[k + 1], steps[k]));
        }
        assert forall|k: int| 0 <= k < steps.len() implies (#[trigger] ps[k + 1]).len <= ps[k].len && ps[k + 1].len <= ps[0].len by {
            lemma_run_positions(ps, steps, k);
            lemma_run_positions(ps, steps, k + 1);
            assert(recorded(ps[k], ps[k + 1], steps[k]));
        }
    }
}

proof fn lemma_run_positions(ps: Seq<TracePos>, steps: Seq<ProbeStep>, k: int)
    requires
        ps.len() == steps.len() + 1,
        pos_ok(ps[0]),
        forall|i: int| 0 <= i < steps.len() ==> recorded(ps[i], ps[i + 1], #[trigger] steps[i]),
        0 <= k <= steps.len(),
    ensures
        pos_ok(ps[k]),
        ps[k].len <= ps[0].len,
    decreases k,
{
    if k > 0 {
        lemma_run_positions(ps, steps, k - 1);
        assert(recorded(ps[k - 1], ps[k], steps[k - 1]));
    }
}

proof fn lemma_run_after_reached(ps: Seq<TracePos>, steps: Seq<ProbeStep>, k: int, j: int)
    requires
        ps.len() == steps.len() + 1,
        pos_ok(ps[0]),
        forall|i: int| 0 <= i < steps.len() ==> recorded(ps[i], ps[i + 1], #[trigger] steps[i]),
        0 <= k < j < steps.len(),
        steps[k].reached,
    ensures
        steps[j].hop_index < steps[k].hop_index + 1,
        ps[j].len <= steps[k].hop_index + 1,
    decreases j - k,
{
    assert(recorded(ps[k], ps[k + 1], steps[k]));
    assert(recorded(ps[j], ps[j + 1], steps[j]));
    lemma_run_positions(ps, steps, j);
    if j > k + 1 {
        lemma_run_after_reached(ps, steps, k, j - 1);
        assert(recorded(ps[j - 1], ps[j], steps[j - 1]));
        lemma_run_positions(ps, steps, j - 1);
    }
}

/// What a trace does next (see `TraceState::next_action`).
pub open spec fn spec_next_action(s: TraceState, cancelled: bool) -> TraceAction {
    if cancelled || s.round >= s.count {
        TraceAction::Finished
    } else if s.hops@.len() == 0 {
        TraceAction::IdleRound
    } else {
        TraceAction::Probe {
            ttl: s.next_ttl,
            port: spec_probe_port(s.method, s.port, s.next_ttl) as u16,
        }
    }
}

/// One step of a run: at `a`, with the cancel flag read as `cancelled`, the
/// trace asked for a probe; recording it gave `step`, and `b` is the state
/// after it (with any host name and location stored).
pub open spec fn run_step(a: TraceState, b: TraceState, cancelled: bool, step: ProbeStep) -> bool {
    &&& a.wf()
    &&& b.wf()
    &&& spec_next_action(a, cancelled) is Probe
    &&& recorded(a.pos(), b.pos(), step)
    &&& b.max_hops == a.max_hops
    &&& b.count == a.count
}

/// A whole run of a trace: starting at `ss[0]`, each probe leads from
/// `ss[k]` to `ss[k + 1]` and reports the hop `ss[k + 1].hops[steps[k].hop_index]`.
/// Every reported hop exists and has a number from 1 to the hop limit, no
/// more answers than probes and no more probes than rounds asked for; within
/// a round the hops are reported as 1, 2, 3, ... in order and a new round
/// starts again at 1; once the destination answered at hop `t`, no later
/// report is of a hop beyond `t`; and no probe is sent once the cancel flag
/// was read as set.
pub proof fn law_trace_run_reports(ss: Seq<TraceState>, cancels: Seq<bool>, steps: Seq<ProbeStep>)
    requires
        ss.len() == steps.len() + 1,
        cancels.len() == steps.len(),
        forall|k: int| 0 <= k < steps.len() ==> run_step(ss[k], ss[k + 1], cancels[k], #[trigger] steps[k]),
    ensures
        forall|k: int| 0 <= k < steps.len() ==> {
            let i = (#[trigger] steps[k]).hop_index as int;
            let h = ss[k + 1].hops@[i];
            &&& i < ss[k + 1].hops@.len()
            &&& 1 <= h.hop_num <= ss[0].max_hops
            &&& h.hop_num == i + 1
            &&& h.recv <= h.sent <= ss[0].count
            &&& !cancels[k]
        },
        forall|k: int|
            0 <= k < steps.len() - 1 ==> (#[trigger] steps[k + 1]).hop_index == (if steps[k].round_over {
                0
            } else {
                steps[k].hop_index + 1
            }),
        forall|k: int, j: int|
            0 <= k < j < steps.len() && (#[trigger] steps[k]).reached ==> (#[trigger] steps[j]).hop_index
                < steps[k].hop_index + 1,
{
    if steps.len() > 0 {
        let ps = Seq::new(ss.len(), |k: int| ss[k].pos());
        assert forall|k: int| 0 <= k < steps.len() implies recorded(ps[k], ps[k + 1], #[trigger] steps[k]) by {
            assert(run_step(ss[k], ss[k + 1], cancels[k], steps[k]));
        }
        assert(run_step(ss[0], ss[1], cancels[0], steps[0]));
        law_trace_run(ps, steps);
        assert forall|k: int| 0 <= k < steps.len() implies {
            let i = (#[trigger] steps[k]).hop_index as int;
            let h = ss[k + 1].hops@[i];
            &&& i < ss[k + 1].hops@.len()
            &&& 1 <= h.hop_num <= ss[0].max_hops
            &&& h.hop_num == i + 1
            &&& h.recv <= h.sent <= ss[0].count
            &&& !cancels[k]
        } by {
            assert(run_step(ss[k], ss[k + 1], cancels[k], steps[k]));
            lemma_run_limits(ss, cancels, steps, k + 1);
            ss[k + 1].law_hops_within_limits();
        }
    }
}

proof fn lemma_run_limits(ss: Seq<TraceState>, cancels: Seq<bool>, steps: Seq<ProbeStep>, k: int)
    requires
        ss.len() == steps.len() + 1,
        cancels.len() == steps.len(),
        forall|i: int| 0 <= i < steps.len() ==> run_step(ss[i], ss[i + 1], cancels[i], #[trigger] steps[i]),
        0 <= k <= steps.len(),
    ensures
        ss[k].max_hops == ss[0].max_hops,
        ss[k].count == ss[0].count,
    decreases k,
{
    if k > 0 {
        lemma_run_limits(ss, cancels, steps, k - 1);
        assert(run_step(ss[k - 1], ss[k], cancels[k - 1], steps[k - 1]));
    }
}

impl TraceState {
    /// The state invariant: hops are numbered 1.. in order and are no more
    /// than the hop limit, the next probe is within the hop list, a finished
    /// trace waits at the first hop, and no hop was probed more often than the
    /// rounds begun so far allow.
    pub open spec fn wf(&self) -> bool {
        &&& self.hops@.len() <= self.max_hops
        &&& 1 <= self.next_ttl
        &&& self.next_ttl as int <= self.hops@.len() || (self.hops@.len() == 0 && self.next_ttl == 1)
        &&& self.round <= self.count
        &&& (self.round == self.count ==> self.next_ttl == 1)
        &&& forall|i: int|
            0 <= i < self.hops@.len() ==> {
                &&& (#[trigger] self.hops@[i]).hop_num == i + 1
                &&& self.hops@[i].recv <= self.hops@[i].sent
                &&& self.hops@[i].sent <= self.round + (if i + 1 < self.next_ttl { 1int } else {
                    0int
                })
            }
    }

    /// Where this trace stands.
    pub open spec fn pos(&self) -> TracePos {
        TracePos { len: self.hops@.len(), round: self.round as nat, next_ttl: self.next_ttl as nat }
    }

    /// Starts a trace of `dest` with the method, base port, hop limit and
    /// number of rounds of `config`.
    pub fn new(dest: IpAddress, config: &TraceConfig) -> (s: Self)
        ensures
            s.wf(),
            s.max_hops == config.max_hops,
            s.dest == dest,
            s.method == config.method,
            s.port == config.port,
            s.count == config.count,
            s.round == 0,
            s.next_ttl == 1,
            s.hops@.len() == config.max_hops,
            forall|i: int|
                0 <= i < s.hops@.len() ==> (#[trigger] s.hops@[i]).sent == 0 && s.hops@[i].recv
                    == 0 && s.hops@[i].rtts@.len() == 0 && s.hops@[i].last_rtt is None && s.hops@[i].ip is None
                    && s.hops@[i].hostname is None && s.hops@[i].geo_info is None,
    {
        let mut hops: Vec<HopStats> = Vec::new();
        let mut n: u8 = 0;
        while n < config.max_hops
            invariant
                n <= config.max_hops,
                hops@.len() == n,
                forall|i: int|
                    0 <= i < hops@.len() ==> (#[trigger] hops@[i]).hop_num == i + 1 && hops@[i].sent
                        == 0 && hops@[i].recv == 0 && hops@[i].rtts@.len() == 0 && hops@[i].last_rtt is None && hops@[i].ip is None
                        && hops@[i].hostname is None && hops@[i].geo_info is None,
            decreases config.max_hops - n,
        {
            n = n + 1;
            hops.push(HopStats::new(n));
        }
        TraceState {
            dest,
            method: config.method,
            port: config.port,
            count: config.count,
            max_hops: config.max_hops,
            hops,
            round: 0,
            next_ttl: 1,
        }
    }

    /// The next thing to do: stop once the trace was cancelled or after the
    /// last round, run a round with no hops, or probe the next hop of the
    /// current round. A UDP probe's port (base port plus time-to-live) must
    /// fit in 16 bits.
    pub fn next_action(&self, cancelled: bool) -> (a: TraceAction)
        requires
            self.wf(),
            !cancelled && self.method == ProbeMethod::UDP && self.round < self.count
                && self.hops@.len() > 0 ==> self.port + self.next_ttl <= u16::MAX,
        ensures
            a == spec_next_action(*self, cancelled),
    {
        if cancelled || self.round >= self.count {
            TraceAction::Finished
        } else if self.hops.len() == 0 {
            TraceAction::IdleRound
        } else {
            TraceAction::Probe {
                ttl: self.next_ttl,
                port: probe_port(self.method, self.port, self.next_ttl),
            }
        }
    }

    /// Ends a round that had no hops to probe.
    pub fn finish_idle_round(&mut self)
        requires
            old(self).wf(),
            old(self).round < old(self).count,
            old(self).hops@.len() == 0,
        ensures
            final(self).wf(),
            final(self).round == old(self).round + 1,
            final(self).hops@ == old(self).hops@,
            final(self).dest == old(self).dest,
            final(self).next_ttl == old(self).next_ttl,
            final(self).method == old(self).method,
            final(self).port == old(self).port,
            final(self).count == old(self).count,
            final(self).max_hops == old(self).max_hops,
    {
        self.round = self.round + 1;
    }

    /// Records the result of the probe asked for by `next_action`: updates the
    /// hop's statistics, shrinks the hop list to the destination when it
    /// answered at a lower time-to-live than the list reaches, says which
    /// lookups the hop still needs, and moves on to the next hop or round.
    pub fn record_probe(&mut self, result: &ProbeResult) -> (step: ProbeStep)
        requires
            old(self).wf(),
            old(self).round < old(self).count,
            old(self).hops@.len() > 0,
        ensures
            final(self).wf(),
            recorded(old(self).pos(), final(self).pos(), step),
            final(self).max_hops == old(self).max_hops,
            ({
                let i = old(self).next_ttl - 1;
                let hop = old(self).hops@[i];
                let new_hop = final(self).hops@[i];
                let reached = match result.ip {
                    Some(ip) => result.reached || ip == old(self).dest,
                    None => false,
                };
                &&& step.hop_index == i
                &&& step.reached == reached
                &&& step.lookup_hostname == (result.ip is Some && hop.hostname is None)
                &&& step.lookup_geo == (result.ip is Some && hop.geo_info is None)
                &&& new_hop.view() == hop.view().after_probe(result.ip, result.rtt)
                &&& new_hop.hop_num == hop.hop_num
                &&& new_hop.hostname == hop.hostname
                &&& new_hop.geo_info == hop.geo_info
                &&& final(self).hops@.len() == (if reached { old(self).next_ttl as int } else {
                    old(self).hops@.len() as int
                })
                &&& forall|j: int|
                    0 <= j < final(self).hops@.len() && j != i ==> final(self).hops@[j]
                        == old(self).hops@[j]
                &&& step.round_over == (reached || old(self).next_ttl as int == old(
                    self,
                ).hops@.len())
                &&& step.round_over ==> final(self).round == old(self).round + 1
                    && final(self).next_ttl == 1
                &&& !step.round_over ==> final(self).round == old(self).round
                    && final(self).next_ttl == old(self).next_ttl + 1
            }),
            final(self).dest == old(self).dest,
            final(self).method == old(self).method,
            final(self).port == old(self).port,
            final(self).count == old(self).count,
    {
        let ttl = self.next_ttl;
        let idx = (ttl - 1) as usize;
        let ghost old_hops = self.hops@;
        let mut hop = self.hops[idx].clone_hop();
        assert(hop.sent <= self.round);
        hop.register_probe(result.ip, result.rtt);
        let lookup_hostname = result.ip.is_some() && hop.hostname.is_none();
        let lookup_geo = result.ip.is_some() && hop.geo_info.is_none();
        self.hops.set(idx, hop);
        let reached = match result.ip {
            Some(ip) => result.reached || ip.same_as(&self.dest),
            None => false,
        };
        let ghost before_truncate = self.hops@;
        if reached && (ttl as usize) < self.hops.len() {
            self.hops.truncate(ttl as usize);
        }
        let round_over = reached || (ttl as usize) == self.hops.len();
        if round_over {
            self.round = self.round + 1;
            self.next_ttl = 1;
        } else {
            self.next_ttl = ttl + 1;
        }
        assert forall|j: int| 0 <= j < self.hops@.len() && j != idx implies self.hops@[j]
            == old_hops[j] by {
            assert(self.hops@[j] == before_truncate[j]);
        }
        assert forall|j: int| 0 <= j < self.hops@.len() implies {
            &&& (#[trigger] self.hops@[j]).hop_num == j + 1
            &&& self.hops@[j].recv <= self.hops@[j].sent
            &&& self.hops@[j].sent <= self.round + (if j + 1 < self.next_ttl { 1int } else { 0int })
        } by {
            assert(self.hops@[j] == before_truncate[j]);
            if j != idx {
                assert(self.hops@[j] == old_hops[j]);
            }
        }
        ProbeStep { hop_index: idx, lookup_hostname, lookup_geo, reached, round_over }
    }

    /// Every hop of a trace is numbered 1 to the hop limit, and was answered
    /// no more often than probed and probed no more often than the number of
    /// rounds asked for.
    pub proof fn law_hops_within_limits(&self)
        requires
            self.wf(),
        ensures
            forall|i: int|
                0 <= i < self.hops@.len() ==> {
                    &&& 1 <= (#[trigger] self.hops@[i]).hop_num <= self.max_hops
                    &&& self.hops@[i].recv <= self.hops@[i].sent
                    &&& self.hops@[i].sent <= self.count
                },
    {
        assert forall|i: int| 0 <= i < self.hops@.len() implies {
            &&& 1 <= (#[trigger] self.hops@[i]).hop_num <= self.max_hops
            &&& self.hops@[i].recv <= self.hops@[i].sent
            &&& self.hops@[i].sent <= self.count
        } by {
            if i + 1 < self.next_ttl {
                assert(self.round < self.count);
            }
        }
    }

    /// Stores the host name found for hop index `i`.
    pub fn set_hostname(&mut self, i: usize, name: String)
        requires
            old(self).wf(),
            i < old(self).hops@.len(),
        ensures
            final(self).wf(),
            final(self).hops@.len() == old(self).hops@.len(),
            final(self).hops@[i as int].hostname == Some(name),
            final(self).hops@[i as int].view() == old(self).hops@[i as int].view(),
            final(self).hops@[i as int].hop_num == old(self).hops@[i as int].hop_num,
            final(self).hops@[i as int].geo_info == old(self).hops@[i as int].geo_info,
            forall|j: int| 0 <= j < final(self).hops@.len() && j != i ==> final(self).hops@[j]
                == old(self).hops@[j],
            final(self).dest == old(self).dest,
            final(self).round == old(self).round,
            final(self).next_ttl == old(self).next_ttl,
            final(self).method == old(self).method,
            final(self).port == old(self).port,
            final(self).count == old(self).count,
            final(self).max_hops == old(self).max_hops,
    {
        let mut hop = self.hops[i].clone_hop();
        hop.hostname = Some(name);
        self.hops.set(i, hop);
        assert forall|j: int| 0 <= j < self.hops@.len() implies (#[trigger] self.hops@[j]).hop_num
            == j + 1 by {
            if j != i {
                assert(self.hops@[j] == old(self).hops@[j]);
            }
        }
    }

    /// Stores the location found for hop index `i`.
    pub fn set_geo(&mut self, i: usize, geo: Option<crate::geoip::GeoInfo>)
        requires
            old(self).wf(),
            i < old(self).hops@.len(),
        ensures
            final(self).wf(),
            final(self).hops@.len() == old(self).hops@.len(),
            final(self).hops@[i as int].geo_info == geo,
            final(self).hops@[i as int].view() == old(self).hops@[i as int].view(),
            final(self).hops@[i as int].hop_num == old(self).hops@[i as int].hop_num,
            final(self).hops@[i as int].hostname == old(self).hops@[i as int].hostname,
            forall|j: int| 0 <= j < final(self).hops@.len() && j != i ==> final(self).hops@[j]
                == old(self).hops@[j],
            final(self).dest == old(self).dest,
            final(self).round == old(self).round,
            final(self).next_ttl == old(self).next_ttl,
            final(self).method == old(self).method,
            final(self).port == old(self).port,
            final(self).count == old(self).count,
            final(self).max_hops == old(self).max_hops,
    {
        let mut hop = self.hops[i].clone_hop();
        hop.geo_info = geo;
        self.hops.set(i, hop);
        assert forall|j: int| 0 <= j < self.hops@.len() implies (#[trigger] self.hops@[j]).hop_num
            == j + 1 by {
            if j != i {
                assert(self.hops@[j] == old(self).hops@[j]);
            }
        }
    }
}

} // verus!
