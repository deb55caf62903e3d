use routescope::chart::Shade;
use routescope::geoip::{
    asn_label, geo_from_databases, geo_from_service, local_network_geo, AsnRecord, CityLocation,
    CityRecord, ServiceAnswer,
};
use routescope::ip::IpAddress;
use routescope::live::{degrees4_string, detail_panel, live_layout, live_row, merge_update, trim_unprobed, LiveKey, LiveModel};
use routescope::probe::ProbeMethod;
use routescope::stats::{HopStats, Ratio};
use routescope::web::{config_from_request, default_port, is_stop_request, method_from_flags, request_method, FrontendHopState};

fn probed(n: u8, rtt: Option<u64>) -> HopStats {
    let mut h = HopStats::new(n);
    h.register_probe(rtt.map(|_| IpAddress::V4(10, 0, 0, n)), rtt);
    h
}

#[test]
fn live_keys_move_and_wrap() {
    let mut m = LiveModel::new(3);
    assert_eq!(m.selected, Some(0));
    assert!(!m.on_key(LiveKey::Up));
    assert_eq!(m.selected, Some(2));
    m.on_key(LiveKey::Down);
    assert_eq!(m.selected, Some(0));
    m.on_key(LiveKey::Down);
    assert_eq!(m.selected, Some(1));
    m.on_key(LiveKey::TogglePause);
    assert!(m.paused);
    m.on_key(LiveKey::Other);
    assert!(m.paused);
    assert!(m.on_key(LiveKey::Quit));
}

#[test]
fn live_updates_respect_pause_and_trim() {
    let mut m = LiveModel::new(4);
    m.receive(probed(2, Some(500)));
    assert_eq!(m.hops[1].sent, 1);
    m.on_key(LiveKey::TogglePause);
    m.receive(probed(1, Some(500)));
    assert_eq!(m.hops[0].sent, 0);
    m.on_key(LiveKey::TogglePause);
    m.finish();
    assert!(m.trace_done);
    // hops 3 and 4 were never probed
    assert_eq!(m.hops.len(), 2);
}

#[test]
fn merging_hop_updates() {
    let mut hops = vec![HopStats::new(1)];
    merge_update(&mut hops, probed(2, Some(1)));
    assert_eq!(hops.len(), 2);
    merge_update(&mut hops, probed(4, Some(1)));
    assert_eq!(hops.len(), 2);
    merge_update(&mut hops, probed(1, None));
    assert_eq!(hops[0].sent, 1);
    let mut one = vec![HopStats::new(1)];
    trim_unprobed(&mut one);
    assert_eq!(one.len(), 1);
}

#[test]
fn live_row_cells() {
    let mut h = probed(3, Some(12_100));
    h.hostname = Some("core.example".to_string());
    let r = live_row(&h, Ratio { num: 172_000, den: 1 });
    assert_eq!(r.hop, "3");
    assert_eq!(r.ip, "10.0.0.3");
    assert_eq!(r.hostname, "core.example");
    assert_eq!(r.loss, "0.0%");
    assert_eq!(r.loss_shade, Shade::Green);
    assert_eq!(r.last, "12.1");
    assert_eq!(r.avg, "12.1");
    assert_eq!(r.best, "12.1");
    assert_eq!(r.worst, "12.1");
    assert_eq!(r.jitter, "*");
    assert_eq!(r.avg_shade, Some(Shade::Green));
    assert_eq!(r.country, "─");
    assert_eq!(r.bar, format!("█{}", " ".repeat(15)));

    let mut lost = probed(2, None);
    lost.register_probe(None, None);
    lost.register_probe(None, Some(90_000));
    let r = live_row(&lost, Ratio { num: 172_000, den: 1 });
    assert_eq!(r.loss, "66.7%");
    assert_eq!(r.loss_shade, Shade::Red);
    assert_eq!(r.last, "90.0");
    assert_eq!(r.avg_shade, Some(Shade::LightRed));
    assert_eq!(r.ip, "* * *");
}

#[test]
fn detail_panel_text() {
    let mut h = probed(5, Some(172_000));
    h.geo_info = Some(local_network_geo("10.0.0.5"));
    let d = detail_panel(&h);
    assert_eq!(d.title_ip, "10.0.0.5");
    assert_eq!(d.hostname, "N/A");
    assert_eq!(d.country.as_deref(), Some("🏠 Local Network"));
    assert_eq!(d.lat_lon.as_deref(), Some("0.0000, 0.0000"));
    assert_eq!(d.spark, vec![1720]);
    assert_eq!(d.gauge_percent, 0);
    assert_eq!(d.gauge_label, "0.0% loss (1/1 pkts)");
    assert_eq!(d.gauge_shade, Shade::Green);
    assert_eq!(degrees4_string(39_043_700), "39.0437");
    assert_eq!(degrees4_string(-77_487_550), "-77.4876");
    assert_eq!(degrees4_string(-20), "-0.0000");
}

#[test]
fn dashboard_requests() {
    let c = config_from_request("example.org".to_string(), "tcp", None, Some(5), None);
    assert_eq!(c.method, ProbeMethod::TCP);
    assert_eq!(c.port, 80);
    assert_eq!(c.count, 5);
    assert_eq!(c.max_hops, 30);
    assert_eq!(c.timeout, 1000);
    assert!(!c.force_ipv4 && !c.force_ipv6);
    let c = config_from_request("h".to_string(), "Icmp", Some(12), None, Some(250));
    assert_eq!(c.method, ProbeMethod::ICMP);
    assert_eq!(c.port, 33434);
    assert_eq!(c.max_hops, 12);
    assert_eq!(c.timeout, 250);
    assert_eq!(request_method("bogus"), ProbeMethod::UDP);
    assert_eq!(request_method("udp"), ProbeMethod::UDP);
    assert!(is_stop_request("{\"action\":\"stop\"}"));
    assert!(is_stop_request("{ \"action\": \"stop\" }"));
    assert!(!is_stop_request("{\"action\":\"start\"}"));
}

#[test]
fn command_line_choices() {
    assert_eq!(method_from_flags(true, true), ProbeMethod::TCP);
    assert_eq!(method_from_flags(false, true), ProbeMethod::UDP);
    assert_eq!(method_from_flags(false, false), ProbeMethod::ICMP);
    assert_eq!(default_port(ProbeMethod::UDP), 33434);
    assert_eq!(default_port(ProbeMethod::TCP), 80);
    assert_eq!(default_port(ProbeMethod::ICMP), 0);
}

#[test]
fn frontend_state() {
    let mut h = probed(2, Some(1000));
    h.register_probe(None, Some(3000));
    let s = FrontendHopState::from_stats(&h);
    assert_eq!(s.hop_num, 2);
    assert_eq!(s.ip.as_deref(), Some("10.0.0.2"));
    assert_eq!(s.avg_rtt, Ratio { num: 4000, den: 2 });
    assert_eq!(s.jitter, Ratio { num: 2000, den: 1 });
    assert_eq!(s.loss_pct, Ratio { num: 0, den: 2 });
    assert_eq!(s.sent_count, 2);
    assert_eq!(s.last_rtt, Some(3000));
}

#[test]
fn asn_labels() {
    assert_eq!(asn_label(Some("13335".to_string())), "AS13335");
    assert_eq!(asn_label(Some("AS15169".to_string())), "AS15169");
    assert_eq!(asn_label(Some("0".to_string())), "N/A");
    assert_eq!(asn_label(Some(String::new())), "N/A");
    assert_eq!(asn_label(None), "N/A");
    assert_eq!(asn_label(Some("00".to_string())), "AS00");
}

#[test]
fn geo_records() {
    let l = local_network_geo("192.168.0.1");
    assert_eq!(l.country, "Local Network");
    assert_eq!(l.city, "LAN");
    assert_eq!(l.asn, "N/A");
    assert_eq!(l.isp, "Private / Loopback");
    assert_eq!(l.timezone, "Local");

    let s = geo_from_service(
        "1.1.1.1",
        ServiceAnswer {
            country_name: Some("Australia".to_string()),
            city_name: None,
            asn: Some("13335".to_string()),
            org: None,
            latitude: Some(-33_868_800),
            longitude: None,
            time_zone: None,
        },
    );
    assert_eq!(s.ip, "1.1.1.1");
    assert_eq!(s.country, "Australia");
    assert_eq!(s.city, "Unknown");
    assert_eq!(s.asn, "AS13335");
    assert_eq!(s.isp, "Unknown");
    assert_eq!(s.lat, -33_868_800);
    assert_eq!(s.lon, 0);
    assert_eq!(s.timezone, "UTC");

    let d = geo_from_databases(
        "8.8.8.8",
        Some(CityRecord {
            country_en: Some("United States".to_string()),
            city_en: None,
            location: Some(CityLocation { latitude: Some(37_751_000), longitude: Some(-97_822_000), time_zone: Some("America/Chicago".to_string()) }),
        }),
        Some(AsnRecord { number: Some(15169), organization: Some("GOOGLE".to_string()) }),
    );
    assert_eq!(d.country, "United States");
    assert_eq!(d.city, "Unknown");
    assert_eq!(d.asn, "AS15169");
    assert_eq!(d.isp, "GOOGLE");
    assert_eq!(d.timezone, "America/Chicago");
    assert_eq!(d.lon, -97_822_000);
    let none = geo_from_databases("8.8.8.8", None, None);
    assert_eq!(none.asn, "Unknown");
    assert_eq!(none.timezone, "UTC");
}

#[test]
fn live_layout_by_width_and_state() {
    let l = live_layout(99, false, false, "example.com", "UDP");
    assert!(!l.show_heatmap && !l.show_geo);
    assert_eq!(l.status, "");
    let l = live_layout(100, false, true, "example.com", "UDP");
    assert!(l.show_heatmap && !l.show_geo);
    assert_eq!(l.status, " [PAUSED]");
    let l = live_layout(130, true, true, "example.com", "ICMP");
    assert!(l.show_heatmap && l.show_geo);
    assert_eq!(l.status, " [DONE]");
    assert_eq!(
        l.header,
        " 🌐 RouteScope v0.1.0  │  Target: example.com  │  Method: ICMP  │  [↑↓/jk] select  [Space] pause  [q] quit [DONE]"
    );
}

#[test]
fn live_model_starts_unprobed() {
    let m = LiveModel::new(3);
    assert_eq!(m.hops.len(), 3);
    for (i, h) in m.hops.iter().enumerate() {
        assert_eq!(h.hop_num as usize, i + 1);
        assert_eq!((h.sent, h.recv), (0, 0));
        assert!(h.last_rtt.is_none() && h.rtts.is_empty());
        assert!(h.ip.is_none() && h.hostname.is_none() && h.geo_info.is_none());
    }
    let r = live_row(&m.hops[0], Ratio { num: 0, den: 1 });
    assert_eq!(r.avg, "*");
    assert_eq!(r.last, "*");
}
