use lighter_bot::binary64::B64;
use lighter_bot::strategy::inventory_bias::{
    apply_inventory_exit_bias, apply_quality_spread_multiplier, InventoryExitBias,
};
use lighter_bot::strategy::market_making::{quote_two_sided, MmQuoteParams};
use lighter_bot::strategy::rolling::RollingStats;
use lighter_bot::strategy::vol_obi::{VolObiCalculator, VolObiConfig};

fn b(x: f64) -> B64 {
    B64::from_bits(x.to_bits())
}

fn f(x: B64) -> f64 {
    f64::from_bits(x.to_bits())
}

fn params() -> MmQuoteParams {
    MmQuoteParams {
        bid_spread: b(0.001),
        ask_spread: b(0.001),
        order_notional: b(100.0),
        inventory_skew: b(0.5),
        inventory_target: b(2.0),
        max_inventory: b(8.0),
        min_requote_secs: 10,
    }
}

#[test]
fn more_inventory_lowers_both_prices() {
    let inventories = [f64::NEG_INFINITY, -9.0, -2.0, -0.5, 0.0, 0.5, 1.0, 3.0, f64::INFINITY];
    let mut last = quote_two_sided(b(99.0), b(101.0), b(inventories[0]), &params()).unwrap();
    for inv in &inventories[1..] {
        let q = quote_two_sided(b(99.0), b(101.0), b(*inv), &params()).unwrap();
        assert!(f(q.bid_price) <= f(last.bid_price));
        assert!(f(q.ask_price) <= f(last.ask_price));
        assert!(f(q.bid_qty) <= f(last.bid_qty));
        assert!(f(q.ask_qty) >= f(last.ask_qty));
        last = q;
    }
    let long = quote_two_sided(b(99.0), b(101.0), b(2.0), &params()).unwrap();
    assert_eq!(f(long.bid_qty), 1.0 * (1.0 - 0.5 * 0.5));
    assert_eq!(f(long.ask_qty), 1.0 * (1.0 + 0.5 * 0.5));
}

#[test]
fn a_larger_position_lowers_volatility_quotes() {
    let cfg = VolObiConfig {
        min_warmup_samples: 5,
        window_steps: 100,
        vol_to_half_spread: b(40.0),
        skew: b(1.5),
        ..Default::default()
    };
    let mut c = VolObiCalculator::new(&cfg, b(0.1), b(1000.0));
    let bids = vec![(b(99.0), b(1.0)), (b(98.5), b(1.0))];
    let asks = vec![(b(101.0), b(1.0)), (b(101.5), b(1.0))];
    for i in 0..12 {
        let mid = 100.5 + (i % 3) as f64 * 0.1;
        c.on_book_update((i as i64 + 1) * 100_000_000, b(mid), &bids, &asks);
    }
    let positions = [-20.0, -5.0, -1.0, 0.0, 1.0, 5.0, 20.0];
    let mut last = c.quote(b(100.5), b(positions[0])).unwrap();
    let first = last;
    for p in &positions[1..] {
        let q = c.quote(b(100.5), b(*p)).unwrap();
        assert!(f(q.0) <= f(last.0));
        assert!(f(q.1) <= f(last.1));
        last = q;
    }
    assert!(f(last.0) < f(first.0));
    assert!(f(last.1) < f(first.1));
}

#[test]
fn volatility_quotes_keep_the_half_spread_on_the_grid() {
    let cfg = VolObiConfig {
        min_warmup_samples: 5,
        window_steps: 100,
        vol_to_half_spread: b(0.0),
        min_half_spread_bps: b(7.0),
        c1_ticks: b(0.0),
        ..Default::default()
    };
    let mut c = VolObiCalculator::new(&cfg, b(0.1), b(1000.0));
    let bids = vec![(b(99.0), b(1.0))];
    let asks = vec![(b(101.0), b(1.0))];
    for i in 0..12 {
        c.on_book_update((i as i64 + 1) * 100_000_000, b(100.5), &bids, &asks);
    }
    let (bid, ask) = c.quote(b(100.5), b(0.0)).unwrap();
    let fraction = 7.0 / 10_000.0;
    assert_eq!(f(bid), (100.5 * (1.0 - fraction) / 0.1f64).floor() * 0.1);
    assert_eq!(f(ask), (100.5 * (1.0 + fraction) / 0.1f64).ceil() * 0.1);
}

#[test]
fn the_bias_grows_with_the_position() {
    let cfg = InventoryExitBias::default();
    let apply = |position: f64| {
        apply_inventory_exit_bias(
            b(99.0),
            b(101.0),
            b(100.0),
            b(position),
            b(100.0),
            b(0.0),
            b(2.0),
            &cfg,
            b(0.01),
        )
    };
    let mut last = apply(0.1);
    for position in [0.2, 0.4, 0.6, 0.9, 3.0] {
        let (bid, ask) = apply(position);
        assert!(f(bid) <= f(last.0) && f(bid) <= 99.0);
        assert!(f(ask) <= f(last.1) && 100.0 < f(ask) && f(ask) <= 101.0);
        last = (bid, ask);
    }
    let mut last = apply(-0.1);
    for position in [-0.2, -0.4, -0.6, -0.9, -3.0] {
        let (bid, ask) = apply(position);
        assert!(f(bid) >= f(last.0) && 99.0 <= f(bid) && f(bid) < 100.0);
        assert!(f(ask) >= f(last.1) && f(ask) >= 101.0);
        last = (bid, ask);
    }
}

#[test]
fn a_multiplier_never_narrows() {
    for m in [1.0, 1.1, 1.5, 2.0, 10.0] {
        let (bid, ask) = apply_quality_spread_multiplier(b(99.5), b(101.0), b(100.0), b(m), b(0.5));
        assert!(f(bid) <= 99.5);
        assert!(f(ask) >= 101.0);
    }
}

#[test]
fn the_window_holds_the_last_values() {
    let mut s = RollingStats::new(3);
    for v in [1.0, 2.0, 3.0, 4.0, 5.0] {
        s.push(b(v));
    }
    assert_eq!(s.count(), 3);
    assert_eq!(f(s.mean()), (1.0 + 2.0 + 3.0 - 1.0 + 4.0 - 2.0 + 5.0) / 3.0);
    let mut one = RollingStats::new(3);
    one.push(b(7.0));
    assert_eq!(f(one.zscore(b(100.0))), 0.0);
}

#[test]
fn quotes_lean_where_the_best_prices_overflow() {
    let bid = 1.0e308;
    let ask = 1.5e308;
    let p = MmQuoteParams { bid_spread: b(2.0), ask_spread: b(0.0), ..params() };
    let mut last = quote_two_sided(b(bid), b(ask), b(-1.0), &p);
    assert!(last.is_none() || f(last.unwrap().mid).is_infinite());
    last = quote_two_sided(b(bid), b(ask), b(0.0), &p);
    let flat = last.expect("a quote");
    let long = quote_two_sided(b(bid), b(ask), b(1.0), &p).expect("a quote");
    assert!(f(flat.mid).is_infinite());
    assert!(f(long.bid_price) < f(flat.bid_price));
    assert!(f(long.ask_price) < f(flat.ask_price));
    assert!(f(long.bid_qty) <= f(flat.bid_qty));
    // A skew that overflows as well leaves no bid price to compare.
    let wild = MmQuoteParams { bid_spread: b(0.0), inventory_skew: b(1.0e308), inventory_target: b(1.0), ..params() };
    let q = quote_two_sided(b(bid), b(1.7e308), b(1.0), &wild).expect("a quote");
    assert!(f(q.bid_price).is_nan());
}

#[test]
fn a_copy_of_the_statistics_goes_on_alike() {
    let mut s = RollingStats::new(3);
    for v in [1.0, 2.5, -3.0, 4.0] {
        s.push(b(v));
    }
    let mut copy = s.clone();
    s.push(b(9.0));
    copy.push(b(9.0));
    assert_eq!(s.mean(), copy.mean());
    assert_eq!(s.std_dev(), copy.std_dev());
    assert_eq!(s.count(), copy.count());
}
