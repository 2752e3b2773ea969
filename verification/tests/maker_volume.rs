use config::Config;
use lighter_bot::binary64::B64;
use lighter_bot::clock::Timestamp;
use lighter_bot::strategy::maker_volume::{
    apply_markout_pull, apply_notional_inventory_cap, clamp_maker_only, maker_volume_configured,
    maker_volume_from_settings, refuse_persisted_mm, MakerVolumeConfig, MarkoutTracker,
};
use lighter_bot::strategy::market_making::TwoSidedQuote;

fn b(x: f64) -> B64 {
    B64::from_bits(x.to_bits())
}

fn f(x: B64) -> f64 {
    f64::from_bits(x.to_bits())
}

fn quote(bid: f64, ask: f64) -> TwoSidedQuote {
    TwoSidedQuote {
        mid: b((bid + ask) / 2.0),
        bid_price: b(bid),
        ask_price: b(ask),
        bid_qty: b(0.01),
        ask_qty: b(0.01),
        expected_edge_bps: b(10.0),
    }
}

#[test]
fn defaults_are_disarmed_and_btc_only() {
    let cfg = MakerVolumeConfig::default();
    assert!(!cfg.enabled && !cfg.allow_quotes);
    assert!(!cfg.quotes_armed());
    assert_eq!(cfg.markets, vec![1]);
    assert!((f(cfg.order_notional) - 20.0).abs() < 1e-12);
    assert!((f(cfg.max_position_notional) - 60.0).abs() < 1e-12);
}

#[test]
fn missing_yaml_keys_do_not_arm_quotes() {
    let settings = Config::builder().build().unwrap();
    let cfg = maker_volume_from_settings(&settings);
    assert!(!cfg.quotes_armed());
    assert!(!maker_volume_configured(&settings));
    assert!(refuse_persisted_mm("market_making", &settings));
    assert!(!refuse_persisted_mm("trend_following", &settings));
}

#[test]
fn both_flags_required_to_arm() {
    let only_enabled = Config::builder()
        .set_override("trading.strategies.maker_volume.enabled", true)
        .unwrap()
        .build()
        .unwrap();
    assert!(!maker_volume_from_settings(&only_enabled).quotes_armed());

    let only_allow = Config::builder()
        .set_override("trading.strategies.maker_volume.allow_quotes", true)
        .unwrap()
        .build()
        .unwrap();
    assert!(!maker_volume_from_settings(&only_allow).quotes_armed());

    let armed = Config::builder()
        .set_override("trading.strategies.maker_volume.enabled", true)
        .unwrap()
        .set_override("trading.strategies.maker_volume.allow_quotes", true)
        .unwrap()
        .build()
        .unwrap();
    assert!(maker_volume_from_settings(&armed).quotes_armed());
    assert!(!refuse_persisted_mm("mm", &armed));
}

#[test]
fn any_key_declares_the_section() {
    let only_markets = Config::builder()
        .set_override("trading.strategies.maker_volume.markets", vec![7])
        .unwrap()
        .build()
        .unwrap();
    assert!(maker_volume_configured(&only_markets));
    let only_backoff = Config::builder()
        .set_override("trading.strategies.maker_volume.backoff_secs", 9)
        .unwrap()
        .build()
        .unwrap();
    assert!(maker_volume_configured(&only_backoff));
    let only_engine = Config::builder()
        .set_override("trading.strategies.maker_volume.quote_engine", "simple")
        .unwrap()
        .build()
        .unwrap();
    assert!(maker_volume_configured(&only_engine));
    let only_strange = Config::builder()
        .set_override("trading.strategies.maker_volume.note", "later")
        .unwrap()
        .build()
        .unwrap();
    assert!(maker_volume_configured(&only_strange));
    let unreadable = Config::builder()
        .set_override("trading.strategies.maker_volume.enabled", "perhaps")
        .unwrap()
        .build()
        .unwrap();
    assert!(maker_volume_configured(&unreadable));
    assert!(!maker_volume_from_settings(&unreadable).quotes_armed());
    let no_section = Config::builder()
        .set_override("trading.strategies.maker_volume", 5)
        .unwrap()
        .build()
        .unwrap();
    assert!(!maker_volume_configured(&no_section));
    let elsewhere = Config::builder()
        .set_override("trading.strategies.market_making.enabled", true)
        .unwrap()
        .build()
        .unwrap();
    assert!(!maker_volume_configured(&elsewhere));
}

#[test]
fn gates_compare_by_value() {
    let gates = MakerVolumeConfig::default();
    assert_eq!(gates.clone(), gates);
    let zero = MakerVolumeConfig { inventory_skew: b(0.0), ..MakerVolumeConfig::default() };
    let minus_zero = MakerVolumeConfig { inventory_skew: b(-0.0), ..MakerVolumeConfig::default() };
    assert_eq!(zero, minus_zero);
    let nan = MakerVolumeConfig { order_notional: b(f64::NAN), ..MakerVolumeConfig::default() };
    assert_ne!(nan.clone(), nan);
    let more = MakerVolumeConfig { markets: vec![1, 2], ..MakerVolumeConfig::default() };
    assert_ne!(more, gates);
    let q = quote(99.4, 100.6);
    assert_eq!(q, q);
    assert_eq!(TwoSidedQuote { bid_qty: b(0.0), ..q }, TwoSidedQuote { bid_qty: b(-0.0), ..q });
    let broken = TwoSidedQuote { bid_qty: b(f64::NAN), ..q };
    assert_ne!(broken, broken);
}

#[test]
fn settings_out_of_range_keep_the_defaults() {
    let settings = Config::builder()
        .set_override("trading.strategies.maker_volume.order_notional", -5.0)
        .unwrap()
        .set_override("trading.strategies.maker_volume.max_position_notional", 90.5)
        .unwrap()
        .set_override("trading.strategies.maker_volume.inventory_skew", 0.0)
        .unwrap()
        .set_override("trading.strategies.maker_volume.markout_window_secs", 0)
        .unwrap()
        .set_override("trading.strategies.maker_volume.backoff_secs", 40)
        .unwrap()
        .set_override("trading.strategies.maker_volume.markets", vec![7, -1, 9])
        .unwrap()
        .build()
        .unwrap();
    let cfg = maker_volume_from_settings(&settings);
    assert_eq!(f(cfg.order_notional), 20.0);
    assert_eq!(f(cfg.max_position_notional), 90.5);
    assert_eq!(f(cfg.inventory_skew), 0.0);
    assert_eq!(cfg.markout_window_secs, 1);
    assert_eq!(cfg.backoff_secs, 40);
    assert_eq!(cfg.markets, vec![7, 9]);
    assert!(cfg.allows_market(9));
    assert!(!cfg.allows_market(1));
    let open = MakerVolumeConfig {
        markets: Vec::new(),
        ..MakerVolumeConfig::default()
    };
    assert!(open.allows_market(123));
}

#[test]
fn maker_only_rejects_crossed_and_through_mid_quotes() {
    let book_bid = b(99.5);
    let book_ask = b(100.5);
    assert!(
        clamp_maker_only(quote(100.6, 101.0), book_bid, book_ask).is_none()
            || clamp_maker_only(quote(100.6, 101.0), book_bid, book_ask)
                .is_some_and(|q| f(q.bid_qty) == 0.0)
    );
    let crossed = clamp_maker_only(quote(100.6, 100.4), book_bid, book_ask);
    assert!(crossed.is_none() || crossed.is_some_and(|q| f(q.bid_qty) == 0.0 || f(q.ask_qty) == 0.0));
    let locked_mid = clamp_maker_only(quote(100.0, 100.0), book_bid, book_ask);
    assert!(locked_mid.is_none(), "quotes through mid must not stand");
    let ok = clamp_maker_only(quote(99.4, 100.6), book_bid, book_ask).unwrap();
    assert!(f(ok.bid_qty) > 0.0 && f(ok.ask_qty) > 0.0);
    assert!(f(ok.bid_price) < f(ok.mid) && f(ok.mid) < f(ok.ask_price));
    assert!(clamp_maker_only(quote(99.4, 100.6), book_ask, book_bid).is_none());
}

#[test]
fn inventory_notional_blocks_adding_side() {
    let q = quote(99.4, 100.6);
    let long_full = apply_notional_inventory_cap(q, b(0.001), b(70_000.0), b(60.0)).unwrap();
    assert_eq!(f(long_full.bid_qty), 0.0);
    assert!(f(long_full.ask_qty) > 0.0);

    let short_full = apply_notional_inventory_cap(q, b(-0.001), b(70_000.0), b(60.0)).unwrap();
    assert_eq!(f(short_full.ask_qty), 0.0);
    assert!(f(short_full.bid_qty) > 0.0);

    let flat = apply_notional_inventory_cap(q, b(0.0), b(70_000.0), b(60.0)).unwrap();
    assert!(f(flat.bid_qty) > 0.0 && f(flat.ask_qty) > 0.0);
}

#[test]
fn markout_pulls_filled_side_on_adverse_mid() {
    let mut tracker = MarkoutTracker::default();
    let cfg = MakerVolumeConfig {
        enabled: true,
        allow_quotes: true,
        markout_window_secs: 3,
        markout_adverse_bps: b(4.0),
        backoff_secs: 15,
        ..MakerVolumeConfig::default()
    };
    let t0 = Timestamp { secs: 1_700_000_000, nanos: 0 };
    tracker.on_book("BTC", b(0.0), b(70_000.0), t0, &cfg);
    tracker.on_book("BTC", b(0.0002), b(70_000.0), t0, &cfg);
    let t1 = t0.plus_secs(1);
    tracker.on_book("BTC", b(0.0002), b(70_000.0 * (1.0 - 0.0008)), t1, &cfg);
    assert!(
        tracker.bid_blocked("BTC", t1),
        "buy fill + mid down must pull bids"
    );
    assert!(!tracker.ask_blocked("BTC", t1));
    let pulled = apply_markout_pull(quote(69_900.0, 70_100.0), "BTC", t1, &tracker).unwrap();
    assert_eq!(f(pulled.bid_qty), 0.0);
    assert!(f(pulled.ask_qty) > 0.0);
    let t_later = t0.plus_secs(20);
    assert!(!tracker.bid_blocked("BTC", t_later));
}

#[test]
fn markout_pulls_asks_after_a_sale_and_only_for_a_while() {
    let mut tracker = MarkoutTracker::default();
    let cfg = MakerVolumeConfig::default();
    let t0 = Timestamp { secs: 1_700_000_000, nanos: 0 };
    tracker.on_book("ETH", b(1.0), b(100.0), t0, &cfg);
    tracker.on_book("ETH", b(0.5), b(100.0), t0, &cfg);
    // Outside of the window nothing is pulled.
    let mut late = MarkoutTracker::default();
    late.on_book("ETH", b(1.0), b(100.0), t0, &cfg);
    late.on_book("ETH", b(0.5), b(100.0), t0, &cfg);
    late.on_book("ETH", b(0.5), b(101.0), t0.plus_secs(4), &cfg);
    assert!(!late.ask_blocked("ETH", t0.plus_secs(4)));

    let t1 = t0.plus_secs(3);
    tracker.on_book("ETH", b(0.5), b(101.0), t1, &cfg);
    assert!(tracker.ask_blocked("ETH", t1.plus_secs(14)));
    assert!(!tracker.ask_blocked("ETH", t1.plus_secs(15)));
    assert!(!tracker.bid_blocked("ETH", t1));
    assert!(!tracker.ask_blocked("BTC", t1));
    let only_ask = TwoSidedQuote { bid_qty: b(0.0), ..quote(99.0, 101.0) };
    assert!(apply_markout_pull(only_ask, "ETH", t1, &tracker).is_none());
}

#[test]
fn full_books_only_reduce() {
    let q = quote(99.0, 101.0);
    let long = apply_notional_inventory_cap(q, b(0.6), b(100.0), b(60.0)).unwrap();
    assert_eq!(f(long.bid_qty), 0.0);
    assert_eq!(f(long.ask_qty), 0.01);
    let short = apply_notional_inventory_cap(q, b(-0.6), b(100.0), b(60.0)).unwrap();
    assert_eq!(f(short.ask_qty), 0.0);
    assert_eq!(f(short.bid_qty), 0.01);
}

#[test]
fn a_backoff_matters_only_once_a_fill_went_bad() {
    let mut tracker = MarkoutTracker::default();
    let endless = MakerVolumeConfig {
        markout_window_secs: i64::MAX,
        backoff_secs: i64::MAX,
        ..MakerVolumeConfig::default()
    };
    let t0 = Timestamp { secs: 1_700_000_000, nanos: 0 };
    tracker.on_book("BTC", b(0.0), b(70_000.0), t0, &endless);
    tracker.on_book("BTC", b(0.0), b(60_000.0), t0.plus_secs(1), &endless);
    assert!(!tracker.bid_blocked("BTC", t0));
    assert!(!tracker.ask_blocked("BTC", t0));
}
