use routescope::ip::IpAddress;
use routescope::probe::{answer_outcome, failed_probe, probe_port, udp_outcome, ProbeMethod, ProbeResult};
use routescope::traceroute::{
    select_destination, DestinationError, TraceAction, TraceConfig, TraceState,
};

fn config(method: ProbeMethod, max_hops: u8, count: u32, port: u16) -> TraceConfig {
    TraceConfig {
        target: "example.org".to_string(),
        method,
        max_hops,
        count,
        timeout: 1000,
        port,
        force_ipv4: false,
        force_ipv6: false,
    }
}

fn answered(ttl: u8, ip: IpAddress, rtt: u64, reached: bool) -> ProbeResult {
    ProbeResult { ttl, ip: Some(ip), rtt: Some(rtt), reached, error: None }
}

fn lost(ttl: u8) -> ProbeResult {
    ProbeResult { ttl, ip: None, rtt: None, reached: false, error: None }
}

#[test]
fn destination_choice() {
    let v6 = IpAddress::V6(0x2001, 0xdb8, 0, 0, 0, 0, 0, 1);
    let a = IpAddress::V4(192, 0, 2, 1);
    let b = IpAddress::V4(192, 0, 2, 2);
    let ips = vec![v6, a, b];
    assert_eq!(select_destination(&ips, false, false), Ok(a));
    assert_eq!(select_destination(&ips, true, false), Ok(a));
    assert_eq!(select_destination(&ips, false, true), Ok(v6));
    assert_eq!(select_destination(&vec![v6], false, false), Ok(v6));
    assert_eq!(
        select_destination(&vec![v6], true, false),
        Err(DestinationError::NoAddressOfFamily { ipv4: true })
    );
    assert_eq!(
        select_destination(&vec![a], false, true),
        Err(DestinationError::NoAddressOfFamily { ipv4: false })
    );
    assert_eq!(select_destination(&vec![], false, false), Err(DestinationError::NoAddress));
}

#[test]
fn destination_messages() {
    assert_eq!(
        DestinationError::NoAddress.message("example.org"),
        "No IP address found for host example.org"
    );
    assert_eq!(
        DestinationError::NoAddressOfFamily { ipv4: true }.message("h"),
        "No IPv4 address found for host h"
    );
    assert_eq!(
        DestinationError::NoAddressOfFamily { ipv4: false }.message("h"),
        "No IPv6 address found for host h"
    );
}

#[test]
fn ports_per_method() {
    assert_eq!(probe_port(ProbeMethod::UDP, 33434, 1), 33435);
    assert_eq!(probe_port(ProbeMethod::UDP, 33434, 30), 33464);
    assert_eq!(probe_port(ProbeMethod::TCP, 80, 7), 80);
    assert_eq!(probe_port(ProbeMethod::ICMP, 0, 7), 0);
}

#[test]
fn trace_rounds_and_shrinking() {
    let dest = IpAddress::V4(8, 8, 8, 8);
    let mut st = TraceState::new(dest, &config(ProbeMethod::UDP, 5, 2, 33434));
    assert_eq!(st.hops.len(), 5);
    assert_eq!(st.next_action(false), TraceAction::Probe { ttl: 1, port: 33435 });

    let step = st.record_probe(&answered(1, IpAddress::V4(10, 0, 0, 1), 900, false));
    assert_eq!(step.hop_index, 0);
    assert!(step.lookup_hostname && step.lookup_geo && !step.reached && !step.round_over);
    st.set_hostname(0, "gw.local".to_string());

    assert_eq!(st.next_action(false), TraceAction::Probe { ttl: 2, port: 33436 });
    let step = st.record_probe(&lost(2));
    assert!(!step.lookup_hostname && !step.lookup_geo && !step.reached && !step.round_over);

    assert_eq!(st.next_action(false), TraceAction::Probe { ttl: 3, port: 33437 });
    let step = st.record_probe(&answered(3, dest, 12_000, true));
    assert!(step.reached && step.round_over);
    // the hop list now ends at the destination
    assert_eq!(st.hops.len(), 3);
    assert_eq!(st.hops[2].recv, 1);

    // second round: starts over at the first hop; the host name is kept
    assert_eq!(st.next_action(false), TraceAction::Probe { ttl: 1, port: 33435 });
    let step = st.record_probe(&answered(1, IpAddress::V4(10, 0, 0, 1), 800, false));
    assert!(!step.lookup_hostname && step.lookup_geo);
    assert_eq!(st.hops[0].sent, 2);
    st.record_probe(&lost(2));
    let step = st.record_probe(&lost(3));
    assert!(step.round_over && !step.reached);
    assert_eq!(st.next_action(false), TraceAction::Finished);
    assert_eq!(st.hops[2].sent, 2);
    assert_eq!(st.hops[2].recv, 1);
}

#[test]
fn destination_answer_without_flag_still_ends_round() {
    let dest = IpAddress::V4(1, 1, 1, 1);
    let mut st = TraceState::new(dest, &config(ProbeMethod::ICMP, 4, 1, 0));
    st.record_probe(&lost(1));
    let step = st.record_probe(&answered(2, dest, 5000, false));
    assert!(step.reached);
    assert_eq!(st.hops.len(), 2);
    assert_eq!(st.next_action(false), TraceAction::Finished);
}

#[test]
fn no_hops_gives_idle_rounds() {
    let mut st = TraceState::new(IpAddress::V4(1, 1, 1, 1), &config(ProbeMethod::TCP, 0, 2, 80));
    assert_eq!(st.next_action(false), TraceAction::IdleRound);
    st.finish_idle_round();
    assert_eq!(st.next_action(false), TraceAction::IdleRound);
    st.finish_idle_round();
    assert_eq!(st.next_action(false), TraceAction::Finished);
}

#[test]
fn probe_outcomes() {
    let dest = IpAddress::V4(8, 8, 8, 8);
    let hop = IpAddress::V4(10, 1, 1, 1);
    let r = udp_outcome(4, dest, Some((hop, 11, 0)), 700);
    assert_eq!(r.ip, Some(hop));
    assert_eq!(r.rtt, Some(700));
    assert!(!r.reached);
    let r = udp_outcome(4, dest, Some((hop, 3, 3)), 700);
    assert!(r.reached);
    let r = udp_outcome(4, dest, None, 700);
    assert_eq!(r.ip, None);
    assert_eq!(r.rtt, None);
    let r = answer_outcome(2, dest, None, true, 300);
    assert_eq!(r.ip, Some(dest));
    assert!(r.reached);
    let r = answer_outcome(2, dest, Some((hop, 11, 0)), true, 300);
    assert_eq!(r.ip, Some(hop));
    assert!(!r.reached);
    let r = failed_probe(9, "Bind failed".to_string());
    assert_eq!(r.error, Some("Bind failed".to_string()));
    assert_eq!(r.ttl, 9);
}

#[test]
fn udp_port_near_limit_traces_until_destination() {
    // port 65530 with 30 hops would overflow only at ttl 6; the destination
    // answers at ttl 3 first
    let dest = IpAddress::V4(8, 8, 8, 8);
    let mut st = TraceState::new(dest, &config(ProbeMethod::UDP, 30, 2, 65530));
    assert_eq!(st.max_hops, 30);
    assert_eq!(st.next_action(false), TraceAction::Probe { ttl: 1, port: 65531 });
    st.record_probe(&lost(1));
    st.record_probe(&lost(2));
    assert_eq!(st.next_action(false), TraceAction::Probe { ttl: 3, port: 65533 });
    let step = st.record_probe(&answered(3, dest, 5_000, true));
    assert!(step.reached && step.round_over);
    assert_eq!(st.hops.len(), 3);
    assert_eq!(st.next_action(false), TraceAction::Probe { ttl: 1, port: 65531 });
}

#[test]
fn cancelled_trace_sends_no_probe() {
    let st = TraceState::new(IpAddress::V4(8, 8, 8, 8), &config(ProbeMethod::ICMP, 4, 3, 0));
    assert_eq!(st.next_action(true), TraceAction::Finished);
    assert_eq!(st.next_action(false), TraceAction::Probe { ttl: 1, port: 0 });
}

#[test]
fn trace_starts_with_unprobed_hops() {
    let st = TraceState::new(IpAddress::V4(8, 8, 8, 8), &config(ProbeMethod::TCP, 3, 1, 80));
    assert!(st.hops.iter().all(|h| h.last_rtt.is_none() && h.sent == 0 && h.recv == 0));
}
