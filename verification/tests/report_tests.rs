use routescope::chart::{chart_lines, heatmap_bar, heatmap_bar_simple, heatmap_lines, rtt_color, Shade};
use routescope::export::{csv_document, geojson_points, route_line};
use routescope::geoip::GeoInfo;
use routescope::ip::IpAddress;
use routescope::map::{ascii_map_lines, asn_path_lines_of};
use routescope::stats::{HopStats, Ratio};

// A whole number of microseconds as a fraction.
fn us(v: u128) -> Ratio {
    Ratio { num: v, den: 1 }
}
use routescope::summary::{route_analysis, table_rows};

fn geo(country: &str, city: &str, asn: &str, isp: &str, lat: i64, lon: i64) -> GeoInfo {
    GeoInfo {
        ip: String::new(),
        country: country.to_string(),
        city: city.to_string(),
        asn: asn.to_string(),
        isp: isp.to_string(),
        lat,
        lon,
        timezone: "UTC".to_string(),
    }
}

fn hop(n: u8, ip: IpAddress, g: Option<GeoInfo>, rtt: Option<u64>) -> HopStats {
    let mut h = HopStats::new(n);
    h.register_probe(rtt.map(|_| ip), rtt);
    h.geo_info = g;
    h
}

fn sample() -> Vec<HopStats> {
    vec![
        hop(1, IpAddress::V4(192, 168, 1, 1), Some(geo("Local Network", "LAN", "N/A", "Private / Loopback", 0, 0)), Some(300)),
        hop(2, IpAddress::V4(10, 30, 0, 1), Some(geo("Indonesia", "Unknown", "AS7713", "Telkom", 0, 0)), Some(1200)),
        hop(3, IpAddress::V4(103, 1, 2, 3), Some(geo("Singapore", "Singapore", "AS7473", "Singtel", 1_290_000, 103_850_000)), Some(12_100)),
        hop(4, IpAddress::V4(0, 0, 0, 0), None, None),
        hop(5, IpAddress::V4(52, 95, 1, 1), Some(geo("United States", "Ashburn", "AS16509", "Amazon", 39_043_700, -77_487_500)), Some(172_000)),
    ]
}

#[test]
fn geographic_path_lines() {
    let lines = ascii_map_lines(&sample());
    let expected = vec![
        "",
        "╔══════════════════════════════════════╗",
        "║   RouteScope — Geographic Path       ║",
        "╚══════════════════════════════════════╝",
        "  📍 Local Network",
        "      │",
        "      │",
        "  📍 Indonesia  [AS7713]",
        "      │",
        "      │",
        "  📍 Singapore, Singapore  [AS7473]",
        "      │",
        "      │",
        "  📍 United States, Ashburn  [AS16509]",
        "",
    ];
    assert_eq!(lines, expected);
}

#[test]
fn geographic_path_without_data() {
    let lines = ascii_map_lines(&vec![HopStats::new(1)]);
    assert_eq!(lines.len(), 5);
    assert_eq!(lines[4], "  (no geographic data available)");
}

#[test]
fn geographic_path_skips_repeats_and_unknown() {
    let hops = vec![
        hop(1, IpAddress::V4(1, 1, 1, 1), Some(geo("Japan", "Tokyo", "AS1", "A", 0, 0)), Some(1)),
        hop(2, IpAddress::V4(1, 1, 1, 2), Some(geo("Japan", "Tokyo", "AS2", "B", 0, 0)), Some(1)),
        hop(3, IpAddress::V4(1, 1, 1, 3), Some(geo("Unknown", "", "AS3", "C", 0, 0)), Some(1)),
        hop(4, IpAddress::V4(1, 1, 1, 4), Some(geo("Japan", "", "Unknown", "D", 0, 0)), Some(1)),
    ];
    let lines = ascii_map_lines(&hops);
    assert_eq!(lines[4], "  📍 Japan, Tokyo  [AS1]");
    assert_eq!(lines[7], "  📍 Japan");
    assert_eq!(lines.len(), 9);
}

#[test]
fn transit_path_lines() {
    let lines = asn_path_lines_of(&sample());
    let expected = vec![
        "╔══════════════════════════════════════╗",
        "║   RouteScope — ASN Transit Path      ║",
        "╚══════════════════════════════════════╝",
        "  🔗 AS7713 (Telkom)",
        "      │",
        "  🔗 AS7473 (Singtel)",
        "      │",
        "  🔗 AS16509 (Amazon)",
        "",
    ];
    assert_eq!(lines, expected);
    let none = asn_path_lines_of(&vec![]);
    assert_eq!(none[3], "  (no ASN data available)");
    assert_eq!(none.len(), 5);
}

#[test]
fn heatmap_section() {
    let lines = heatmap_lines(&sample());
    assert_eq!(lines.len(), 8);
    assert_eq!(lines[1], "║   RouteScope — Latency Heatmap       ║");
    assert_eq!(lines[3], format!("  Hop  1      0.30 ms  █{}", "░".repeat(39)));
    assert_eq!(lines[4], format!("  Hop  2      1.20 ms  █{}", "░".repeat(39)));
    assert_eq!(lines[5], format!("  Hop  3     12.10 ms  ███{}", "░".repeat(37)));
    assert_eq!(lines[6], format!("  Hop  5    172.00 ms  {}", "█".repeat(40)));
    assert_eq!(lines[7], "");
    assert!(heatmap_lines(&vec![HopStats::new(1)]).is_empty());
}

#[test]
fn latency_chart_section() {
    let lines = chart_lines(&sample());
    assert_eq!(lines.len(), 3 + 10 + 4);
    assert_eq!(lines[3], "   172 ┤       ● ");
    assert_eq!(lines[4], "   153 ┤         ");
    assert_eq!(lines[11], "    19 ┤     ●   ");
    assert_eq!(lines[12], "     0 ┤ ● ●     ");
    assert_eq!(lines[13], format!("       └─{}", "─".repeat(8)));
    assert_eq!(lines[14], "         1 2 3 5 ");
    assert_eq!(lines[15], "         (hop number)");
    assert_eq!(lines[16], "");
    assert!(chart_lines(&vec![]).is_empty());
}

#[test]
fn chart_labels_use_decimals_for_short_times() {
    let hops = vec![hop(1, IpAddress::V4(1, 1, 1, 1), None, Some(900))];
    let lines = chart_lines(&hops);
    assert_eq!(lines[3], "  0.90 ┤ ● ");
    assert_eq!(lines[12], "  0.00 ┤   ");
    let hops = vec![hop(1, IpAddress::V4(1, 1, 1, 1), None, Some(4_500))];
    let lines = chart_lines(&hops);
    assert_eq!(lines[3], "   4.5 ┤ ● ");
    assert_eq!(lines[4], "   4.0 ┤   ");
}

#[test]
fn bars_and_colors() {
    assert_eq!(heatmap_bar_simple(us(0), us(100)), "");
    assert_eq!(heatmap_bar_simple(us(100), us(0)), "");
    assert_eq!(heatmap_bar_simple(us(1), us(1000)), "█");
    assert_eq!(heatmap_bar_simple(us(500), us(1000)), "█".repeat(10));
    assert_eq!(heatmap_bar_simple(us(2000), us(1000)), "█".repeat(20));
    assert_eq!(heatmap_bar(us(0), us(10), 4), "    ");
    assert_eq!(heatmap_bar(us(5), us(10), 4), "██  ");
    assert_eq!(heatmap_bar(us(10), us(10), 4), "████");
    // a bar of no cells is empty
    assert_eq!(heatmap_bar(us(5), us(10), 0), "");
    assert_eq!(heatmap_bar(us(0), us(10), 0), "");
    assert_eq!(rtt_color(us(19_999)), Shade::Green);
    assert_eq!(rtt_color(us(20_000)), Shade::Yellow);
    assert_eq!(rtt_color(us(80_000)), Shade::LightRed);
    assert_eq!(rtt_color(us(200_000)), Shade::Red);
}

#[test]
fn csv_export_bytes() {
    let hops = sample();
    let doc = csv_document(&hops[..1].to_vec());
    let text = String::from_utf8(doc).unwrap();
    assert_eq!(
        text,
        "Hop,IP,Hostname,Country,City,ASN,ISP,Sent,Recv,Loss%,Last_RTT_ms,Avg_RTT_ms,Min_RTT_ms,Max_RTT_ms,Jitter_ms\n\
         1,192.168.1.1,,Local Network,LAN,N/A,Private / Loopback,1,1,0.0%,0.30,0.30,0.30,0.30,0.00\n"
    );
    let mut lost = HopStats::new(4);
    lost.register_probe(None, None);
    lost.hostname = Some("a,b".to_string());
    let text = String::from_utf8(csv_document(&vec![lost])).unwrap();
    let row = text.lines().nth(1).unwrap();
    assert_eq!(row, "4,,\"a,b\",,,,,1,0,100.0%,,0.00,0.00,0.00,0.00");
}

#[test]
fn geojson_points_of_located_hops() {
    let pts = geojson_points(&sample());
    assert_eq!(pts.len(), 2);
    assert_eq!(pts[0].hop_num, 3);
    assert_eq!(pts[0].ip, "103.1.2.3");
    assert_eq!(pts[1].hop_num, 5);
    assert_eq!(pts[1].lat, 39_043_700);
    assert_eq!(pts[1].lon, -77_487_500);
    assert_eq!(pts[1].avg_rtt, us(172_000));
    assert_eq!(pts[1].country, "United States");
}

#[test]
fn summary_rows_and_analysis() {
    let hops = sample();
    let rows = table_rows(&hops);
    assert_eq!(rows.len(), 5);
    assert_eq!(rows[0].ip, "192.168.1.1");
    assert_eq!(rows[0].location, "Local Network");
    assert_eq!(rows[0].rtt, "300 µs");
    assert_eq!(rows[0].bar, "█");
    assert_eq!(rows[2].location, "Singapore, Singapore");
    assert_eq!(rows[2].rtt, "12.10 ms");
    assert_eq!(rows[3].ip, "* * *");
    assert_eq!(rows[3].location, "Unknown");
    assert_eq!(rows[3].asn, "N/A");
    assert_eq!(rows[3].rtt, "*");
    assert_eq!(rows[3].loss, "100.0%");
    assert_eq!(rows[3].bar, "");
    assert_eq!(rows[4].bar, "█".repeat(20));

    let a = route_analysis(&hops).unwrap();
    let idx = |v: &Vec<routescope::summary::Ranked>| v.iter().map(|r| r.idx).collect::<Vec<_>>();
    assert_eq!(idx(&a.fastest), vec![0, 1, 2]);
    assert_eq!(idx(&a.slowest), vec![4, 2, 1]);
    assert_eq!(a.reliable, vec![1, 2, 3, 5]);
    assert_eq!(idx(&a.unreliable), vec![3]);
    assert!(route_analysis(&vec![HopStats::new(1)]).is_none());
}

#[test]
fn analysis_ties_keep_hop_order() {
    let mk = |n: u8, rtt: u64, lost: u32| {
        let mut h = HopStats::new(n);
        h.register_probe(Some(IpAddress::V4(1, 1, 1, n)), Some(rtt));
        for _ in 0..lost {
            h.register_probe(None, None);
        }
        h
    };
    let hops = vec![mk(1, 50, 1), mk(2, 50, 3), mk(3, 10, 1), mk(4, 50, 0)];
    let a = route_analysis(&hops).unwrap();
    let idx = |v: &Vec<routescope::summary::Ranked>| v.iter().map(|r| r.idx).collect::<Vec<_>>();
    assert_eq!(idx(&a.fastest), vec![2, 0, 1]);
    assert_eq!(idx(&a.slowest), vec![3, 1, 0]);
    // loss 75% first, then the two 50% hops in hop order
    assert_eq!(idx(&a.unreliable), vec![1, 0, 2]);
    assert_eq!(a.reliable, vec![4]);
}

#[test]
fn chart_rows_use_exact_means() {
    // means of 1.5 µs and 3 µs: the first sits at 9 * 1/2 = 4.5, rounded to
    // 5 rows above the bottom (row 4 from the top)
    let mut a = HopStats::new(1);
    a.register_probe(None, Some(1));
    a.register_probe(None, Some(2));
    let b = hop(2, IpAddress::V4(1, 1, 1, 1), None, Some(3));
    let lines = chart_lines(&vec![a, b]);
    assert_eq!(lines[3], "  0.00 ┤   ● ");
    assert_eq!(lines[3 + 4], "  0.00 ┤ ●   ");
}

#[test]
fn geojson_point_carries_exact_mean() {
    let mut h = hop(1, IpAddress::V4(8, 8, 8, 8), Some(geo("X", "Y", "AS1", "I", 1, 1)), Some(1));
    h.register_probe(None, Some(2));
    let pts = geojson_points(&vec![h]);
    assert_eq!(pts[0].avg_rtt, Ratio { num: 3, den: 2 });
    assert_eq!(pts[0].loss_pct, Ratio { num: 0, den: 2 });
}

#[test]
fn csv_quotes_are_doubled() {
    let mut h = HopStats::new(2);
    h.register_probe(None, None);
    h.hostname = Some("say \"hi\"\nthere".to_string());
    let text = String::from_utf8(csv_document(&vec![h])).unwrap();
    assert!(text.contains(",\"say \"\"hi\"\"\nthere\","));
    assert!(text.ends_with("0.00\n"));
}

#[test]
fn loss_text_rounds_ties_to_even() {
    // 1 lost of 16 is exactly 6.25%, printed with one decimal as 6.2%
    assert_eq!(routescope::export::loss_string(16, 15), "6.2%");
    // 3 lost of 8 is exactly 37.5%: no tie at one decimal
    assert_eq!(routescope::export::loss_string(8, 5), "37.5%");
    // 1 lost of 32 is 3.125%: 3.1%
    assert_eq!(routescope::export::loss_string(32, 31), "3.1%");
    assert_eq!(routescope::export::ms2_string(1125), "1.12");
    assert_eq!(routescope::export::ms1_string(1250), "1.2");
    assert_eq!(routescope::export::ms1_string(1350), "1.4");
}

#[test]
fn long_windows_and_exact_ties() {
    // a window far beyond the usual 100 times still ranks and charts exactly
    let mut a = hop(1, IpAddress::V4(1, 1, 1, 1), None, Some(3000));
    a.rtts = vec![3000; 500];
    // mean 6000/2 = 3000 µs: the same mean as hop 1, written differently
    let mut b = hop(2, IpAddress::V4(2, 2, 2, 2), None, Some(2000));
    b.register_probe(None, Some(4000));
    let c = hop(3, IpAddress::V4(3, 3, 3, 3), None, Some(1000));
    let hops = vec![a, b, c];
    let an = route_analysis(&hops).unwrap();
    let idx = |v: &Vec<routescope::summary::Ranked>| v.iter().map(|r| r.idx).collect::<Vec<_>>();
    assert_eq!(idx(&an.fastest), vec![2, 0, 1]);
    // slowest first, ties in reverse hop order
    assert_eq!(idx(&an.slowest), vec![1, 0, 2]);
    let lines = chart_lines(&hops);
    assert_eq!(lines[3], "   3.0 ┤ ● ●   ");
}

#[test]
fn geojson_route_line_needs_two_points() {
    let pts = geojson_points(&sample());
    assert_eq!(route_line(&pts), Some(vec![(103_850_000, 1_290_000), (-77_487_500, 39_043_700)]));
    assert_eq!(route_line(&pts[..1].to_vec()), None);
    assert_eq!(route_line(&vec![]), None);
}
