use lighter_bot::binary64::B64;
use lighter_bot::strategy::inventory_bias::{
    apply_inventory_exit_bias, apply_quality_spread_multiplier, InventoryExitBias,
};

fn b(x: f64) -> B64 {
    B64::from_bits(x.to_bits())
}

fn f(x: B64) -> f64 {
    f64::from_bits(x.to_bits())
}

#[test]
fn quality_multiplier_widens() {
    let (bid, ask) = apply_quality_spread_multiplier(b(99.0), b(101.0), b(100.0), b(1.5), b(0.1));
    assert!((f(bid) - 98.5).abs() < 1e-9);
    assert!((f(ask) - 101.5).abs() < 1e-9);
}

#[test]
fn long_inventory_tightens_ask_widens_bid() {
    let cfg = InventoryExitBias::default();
    let (bid, ask) = apply_inventory_exit_bias(
        b(99.0),
        b(101.0),
        b(100.0),
        b(1.0),
        b(100.0),
        b(0.0),
        b(2.0),
        &cfg,
        b(0.1),
    );
    assert!(f(ask) < 101.0, "exit ask should move toward mid");
    assert!(f(bid) < 99.0, "add bid should move away from mid");
}

#[test]
fn small_or_disabled_bias_keeps_the_quote() {
    let cfg = InventoryExitBias::default();
    let off = InventoryExitBias { enabled: false, ..cfg };
    let quote = (b(99.0), b(101.0));
    let apply = |position: f64, cfg: &InventoryExitBias| {
        apply_inventory_exit_bias(
            quote.0,
            quote.1,
            b(100.0),
            b(position),
            b(100.0),
            b(0.0),
            b(2.0),
            cfg,
            b(0.1),
        )
    };
    assert_eq!(apply(0.0, &cfg), quote);
    assert_eq!(apply(0.04, &cfg), quote);
    assert_eq!(apply(1.0, &off), quote);
    assert_eq!(
        apply_quality_spread_multiplier(quote.0, quote.1, b(100.0), b(1.0), b(0.1)),
        quote
    );
}

#[test]
fn missing_sides_stay_missing() {
    let cfg = InventoryExitBias::default();
    let nan = b(f64::NAN);
    let (bid, ask) = apply_inventory_exit_bias(
        nan,
        b(101.0),
        b(100.0),
        b(1.0),
        b(100.0),
        b(0.0),
        b(2.0),
        &cfg,
        b(0.1),
    );
    assert_eq!(bid, nan);
    assert!(f(ask) < 101.0);
}

#[test]
fn bias_follows_the_formula() {
    let cfg = InventoryExitBias::default();
    let (bid, ask) = apply_inventory_exit_bias(
        b(99.0),
        b(101.0),
        b(100.0),
        b(0.5),
        b(100.0),
        b(7.0),
        b(2.0),
        &cfg,
        b(0.1),
    );
    let ratio: f64 = (0.5 * 100.0) / 100.0;
    let boost = 1.0 + ((7.0f64 - 2.0) * 0.03).min(0.5);
    let tighten = (0.45 * ratio * boost).min(0.35);
    let widen = (0.75 * ratio * boost).min(0.65);
    let expected_bid = ((100.0 - 1.0 * (1.0 + widen)) / 0.1f64).floor() * 0.1;
    let expected_ask = ((100.0 + 1.0 * (1.0 - tighten).max(0.05)) / 0.1f64).ceil() * 0.1;
    assert_eq!(f(bid), expected_bid);
    assert_eq!(f(ask), expected_ask);
}
