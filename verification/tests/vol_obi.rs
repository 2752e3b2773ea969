use lighter_bot::binary64::B64;
use lighter_bot::strategy::vol_obi::{
    fallback_reduce_only, sum_ask_to, sum_bid_from, tick_size_from_levels, VolObiCalculator, VolObiConfig,
};

fn b(x: f64) -> B64 {
    B64::from_bits(x.to_bits())
}

fn f(x: B64) -> f64 {
    f64::from_bits(x.to_bits())
}

fn levels(v: &[(f64, f64)]) -> Vec<(B64, B64)> {
    v.iter().map(|(p, q)| (b(*p), b(*q))).collect()
}

#[test]
fn not_warmed_returns_none() {
    let c = VolObiCalculator::new(&VolObiConfig::default(), b(0.1), b(1000.0));
    assert_eq!(c.quote(b(100.0), b(0.0)), None);
}

#[test]
fn warms_up_and_quotes_outside_mid() {
    let cfg = VolObiConfig {
        min_warmup_samples: 5,
        window_steps: 100,
        min_half_spread_bps: b(2.0),
        vol_to_half_spread: b(1.0),
        c1_ticks: b(0.0),
        skew: b(0.0),
        ..Default::default()
    };
    let mut c = VolObiCalculator::new(&cfg, b(0.1), b(1_000_000.0));
    let bids = levels(&[(99.0, 1.0), (98.5, 1.0)]);
    let asks = levels(&[(101.0, 1.0), (101.5, 1.0)]);
    for i in 0..12 {
        let mid = 100.5 + i as f64 * 0.1;
        c.on_book_update((i as i64 + 1) * 100_000_000, b(mid), &bids, &asks);
    }
    assert!(c.warmed_up());
    assert!(f(c.volatility()) >= 0.0);
    let (bid, ask) = c.quote(b(101.0), b(0.0)).unwrap();
    let (bid, ask) = (f(bid), f(ask));
    assert!(bid < 101.0 && 101.0 < ask);
    let half_bps = (101.0 - bid) / 101.0 * 10_000.0;
    assert!(half_bps + 1e-6 >= 2.0);
}

#[test]
fn samples_on_step_clock() {
    let cfg = VolObiConfig {
        min_warmup_samples: 1,
        window_steps: 100,
        ..Default::default()
    };
    let mut c = VolObiCalculator::new(&cfg, b(0.1), b(1000.0));
    let bids = levels(&[(99.0, 1.0)]);
    let asks = levels(&[(101.0, 1.0)]);
    for i in 0..20i64 {
        c.on_book_update((i + 1) * 50_000_000, b(100.0 + i as f64 * 0.1), &bids, &asks);
    }
    assert_eq!(c.total_samples(), 9);
}

#[test]
fn alpha_override_roundtrip() {
    let cfg = VolObiConfig {
        min_warmup_samples: 2,
        window_steps: 50,
        ..Default::default()
    };
    let mut c = VolObiCalculator::new(&cfg, b(0.1), b(1000.0));
    let bids = levels(&[(99.0, 1.0)]);
    let asks = levels(&[(101.0, 1.0)]);
    for i in 0..5 {
        c.on_book_update((i as i64 + 1) * 100_000_000, b(100.0), &bids, &asks);
    }
    c.set_alpha_override(Some(b(2.5)));
    assert!((f(c.alpha()) - 2.5).abs() < 1e-12);
    c.set_alpha_override(None);
    assert!(f(c.alpha()).is_finite());
}

#[test]
fn imbalance_sums_depth_window() {
    let bids = levels(&[(100.0, 2.0), (99.0, 3.0), (97.0, 9.0)]);
    let asks = levels(&[(101.0, 1.0), (102.0, 4.0), (104.0, 8.0)]);
    assert!((f(sum_bid_from(&bids, b(98.0))) - 5.0).abs() < 1e-12);
    assert!((f(sum_ask_to(&asks, b(102.0))) - 5.0).abs() < 1e-12);
}

#[test]
fn reset_makes_a_calculator_cold_again() {
    let cfg = VolObiConfig {
        min_warmup_samples: 2,
        window_steps: 50,
        c1_ticks: b(0.0),
        ..Default::default()
    };
    let mut c = VolObiCalculator::new(&cfg, b(0.1), b(1000.0));
    let bids = levels(&[(99.0, 1.0)]);
    let asks = levels(&[(101.0, 1.0)]);
    for i in 0..5 {
        c.on_book_update((i as i64 + 1) * 100_000_000, b(100.0), &bids, &asks);
    }
    assert!(c.quote(b(100.0), b(0.0)).is_some());
    c.reset();
    assert!(!c.warmed_up());
    assert_eq!(c.total_samples(), 0);
    assert_eq!(c.quote(b(100.0), b(0.0)), None);
}

#[test]
fn unusable_mids_change_nothing() {
    let mut c = VolObiCalculator::new(&VolObiConfig::default(), b(0.1), b(1000.0));
    let none: Vec<(B64, B64)> = Vec::new();
    for mid in [f64::NAN, f64::INFINITY, 0.0, -3.0] {
        c.on_book_update(100, b(mid), &none, &none);
        c.on_book_update(1_000_000_000, b(mid), &none, &none);
    }
    assert_eq!(c.total_samples(), 0);
    assert!(!c.warmed_up());
}

#[test]
fn quotes_follow_the_formula() {
    // A calculator whose figures are known: no alpha, no skew, floor only.
    let cfg = VolObiConfig {
        min_warmup_samples: 1,
        window_steps: 10,
        c1_ticks: b(0.0),
        ..Default::default()
    };
    let mut c = VolObiCalculator::new(&cfg, b(0.5), b(1000.0));
    let none: Vec<(B64, B64)> = Vec::new();
    c.on_book_update(100_000_000, b(200.0), &none, &none);
    c.on_book_update(200_000_000, b(200.0), &none, &none);
    // Volatility 0: the half-spread floor of 2 bps, then the tick grid.
    let (bid, ask) = c.quote(b(200.0), b(1.0)).unwrap();
    assert_eq!(f(bid), ((200.0f64 * (1.0 - 2.0 / 10_000.0)) / 0.5).floor() * 0.5);
    assert_eq!(f(ask), ((200.0f64 * (1.0 + 2.0 / 10_000.0)) / 0.5).ceil() * 0.5);
    c.set_alpha_override(Some(b(3.0)));
    // The fair price is mid + c1 * alpha, and c1 is 0 here.
    assert_eq!(c.quote(b(200.0), b(0.0)).unwrap(), (bid, ask));
}

#[test]
fn ticks_come_from_levels_or_from_the_decade_of_the_mid() {
    let two = levels(&[(100.0, 1.0), (99.5, 1.0)]);
    let one = levels(&[(100.0, 1.0)]);
    let asks = levels(&[(101.0, 1.0), (101.25, 1.0)]);
    assert_eq!(f(tick_size_from_levels(&two, &asks, b(100.0))), 0.5);
    assert_eq!(f(tick_size_from_levels(&one, &asks, b(100.0))), 0.25);
    for mid in [1.0f64, 9.99, 10.0, 99.99, 100.0, 2000.0, 70_000.0, 0.5, 0.00012, 3e9] {
        let exp = mid.log10().floor() as i32 - 4;
        let expected = 10f64.powi(exp).max(1e-8);
        let got = f(tick_size_from_levels(&one, &one, b(mid)));
        assert!((got / expected - 1.0).abs() < 1e-14, "{mid}: {got} {expected}");
    }
    assert_eq!(f(tick_size_from_levels(&one, &one, b(f64::NAN))), 0.01);
    assert_eq!(f(tick_size_from_levels(&one, &one, b(-1.0))), 0.01);
}

#[test]
fn fallback_quotes_only_the_reducing_side() {
    let (bid, ask) = fallback_reduce_only(b(100.0), b(2.0), b(0.1), b(2.0)).unwrap();
    assert!(f(bid).is_nan());
    assert_eq!(f(ask), ((100.0f64 + 0.1) / 0.1).ceil() * 0.1);
    let (bid, ask) = fallback_reduce_only(b(100.0), b(-2.0), b(0.1), b(50.0)).unwrap();
    assert!(f(ask).is_nan());
    assert_eq!(f(bid), ((100.0f64 - 0.5) / 0.1).floor() * 0.1);
    assert!(fallback_reduce_only(b(100.0), b(0.0), b(0.1), b(2.0)).is_none());
    assert!(fallback_reduce_only(b(0.0), b(1.0), b(0.1), b(2.0)).is_none());
}
