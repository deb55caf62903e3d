use routescope::ip::IpAddress;
use routescope::stats::{HopStats, Ratio};

// Round-trip times are kept in microseconds: 10.0 ms is 10_000.
fn ms(v: f64) -> u64 {
    (v * 1000.0).round() as u64
}

fn as_ms(us: u64) -> f64 {
    us as f64 / 1000.0
}

// An exact fraction of microseconds, in milliseconds.
fn frac_ms(r: Ratio) -> f64 {
    r.num as f64 / r.den as f64 / 1000.0
}

// An exact fraction, as a plain number.
fn frac(r: Ratio) -> f64 {
    r.num as f64 / r.den as f64
}

fn make_hop_with_rtts(rtts: &[f64]) -> HopStats {
    let mut hop = HopStats::new(1);
    for &r in rtts {
        hop.register_probe(None, Some(ms(r)));
    }
    hop
}

#[test]
fn test_avg_rtt() {
    let hop = make_hop_with_rtts(&[10.0, 20.0, 30.0]);
    assert!((frac_ms(hop.avg_rtt()) - 20.0).abs() < 1e-9);
}

#[test]
fn test_min_rtt() {
    let hop = make_hop_with_rtts(&[10.0, 5.0, 30.0]);
    assert!((as_ms(hop.min_rtt()) - 5.0).abs() < 1e-9);
}

#[test]
fn test_max_rtt() {
    let hop = make_hop_with_rtts(&[10.0, 5.0, 30.0]);
    assert!((as_ms(hop.max_rtt()) - 30.0).abs() < 1e-9);
}

#[test]
fn test_jitter() {
    // jitter = mean of absolute successive differences
    // |20-10| + |10-20| = 10 + 10 = 20; /2 = 10
    let hop = make_hop_with_rtts(&[10.0, 20.0, 10.0]);
    assert!((frac_ms(hop.jitter()) - 10.0).abs() < 1e-9);
}

#[test]
fn test_loss_pct_no_loss() {
    let mut hop = HopStats::new(1);
    hop.register_probe(None, Some(ms(5.0)));
    hop.register_probe(None, Some(ms(6.0)));
    assert!((frac(hop.loss_pct()) - 0.0).abs() < 1e-9);
}

#[test]
fn test_loss_pct_with_drops() {
    let mut hop = HopStats::new(1);
    hop.register_probe(None, Some(ms(5.0))); // received
    hop.register_probe(None, None); // dropped
    hop.register_probe(None, None); // dropped
    hop.register_probe(None, Some(ms(6.0))); // received
    // 2 dropped out of 4 sent = 50%
    assert!((frac(hop.loss_pct()) - 50.0).abs() < 1e-9);
}

#[test]
fn test_empty_hop() {
    let hop = HopStats::new(1);
    assert_eq!(frac(hop.avg_rtt()), 0.0);
    assert_eq!(hop.min_rtt(), 0);
    assert_eq!(hop.max_rtt(), 0);
    assert_eq!(frac(hop.jitter()), 0.0);
    assert_eq!(frac(hop.loss_pct()), 0.0);
}

#[test]
fn test_rtt_window_size() {
    // rtts window should cap at 100
    let mut hop = HopStats::new(1);
    for i in 0..150 {
        hop.register_probe(None, Some(ms(i as f64)));
    }
    assert_eq!(hop.rtts.len(), 100);
}

#[test]
fn window_keeps_latest_in_order() {
    let mut hop = HopStats::new(3);
    for i in 0..150u64 {
        hop.register_probe(None, Some(i));
    }
    let expected: Vec<u64> = (50..150).collect();
    assert_eq!(hop.rtts, expected);
    assert_eq!(hop.sent, 150);
    assert_eq!(hop.recv, 150);
}

#[test]
fn register_counts_and_address() {
    let mut hop = HopStats::new(2);
    let a = IpAddress::V4(10, 0, 0, 1);
    hop.register_probe(Some(a), Some(1500));
    assert_eq!(hop.ip, Some(a));
    assert_eq!(hop.last_rtt, Some(1500));
    hop.register_probe(None, None);
    // a lost probe keeps the address and clears the last time
    assert_eq!(hop.ip, Some(a));
    assert_eq!(hop.last_rtt, None);
    assert_eq!(hop.sent, 2);
    assert_eq!(hop.recv, 1);
    assert_eq!(hop.rtts, vec![1500]);
    assert_eq!(hop.hop_num, 2);
}

#[test]
fn loss_is_exact() {
    let mut hop = HopStats::new(1);
    hop.register_probe(None, Some(1));
    hop.register_probe(None, Some(1));
    hop.register_probe(None, None);
    // 1 of 3 lost = 100/3 percent, exactly
    assert_eq!(hop.loss_pct(), Ratio { num: 100, den: 3 });
    let mut all_lost = HopStats::new(1);
    all_lost.register_probe(None, None);
    assert_eq!(all_lost.loss_pct(), Ratio { num: 100, den: 1 });
    // one probe lost out of 20000 is a positive loss
    let mut many = HopStats::new(1);
    for _ in 0..19_999 {
        many.register_probe(None, Some(1));
    }
    many.register_probe(None, None);
    let l = many.loss_pct();
    assert!(l.num > 0);
    assert!((frac(l) - 0.005).abs() < 1e-12);
}

#[test]
fn averages_are_exact_and_stay_between_min_and_max() {
    let hop = make_hop_with_rtts(&[0.001, 0.002]);
    // 1 µs and 2 µs: mean exactly 3/2 µs
    assert_eq!(hop.avg_rtt(), Ratio { num: 3, den: 2 });
    let hop = make_hop_with_rtts(&[0.001, 0.002, 0.004]);
    // |2-1| + |4-2| = 3 over 2 steps: jitter exactly 3/2 µs
    assert_eq!(hop.jitter(), Ratio { num: 3, den: 2 });
    let hop = make_hop_with_rtts(&[7.0, 1.0, 4.0, 9.0]);
    let avg = frac(hop.avg_rtt());
    assert!(hop.min_rtt() as f64 <= avg && avg <= hop.max_rtt() as f64);
    assert!(frac(hop.jitter()) <= (hop.max_rtt() - hop.min_rtt()) as f64);
    // |1-7| + |4-1| + |9-4| = 14 ms over 3 steps
    assert_eq!(hop.jitter(), Ratio { num: 14_000, den: 3 });
}
