use config::Config;
use lighter_bot::binary64::B64;
use lighter_bot::clock::Timestamp;
use lighter_bot::lighter::types::{
    MarketSnapshot, OrderBook, OrderType, PriceLevel, Side, TradeSignal,
};
use lighter_bot::risk::profitability::{ProfitabilityGuard, SignalEconomics};
use lighter_bot::strategy::error::StrategyError;
use lighter_bot::strategy::grid_strategy::InventoryMode;
use lighter_bot::strategy::maker_volume::MakerVolumeConfig;
use lighter_bot::strategy::market_making::{
    apply_inventory_cap, mid_from_bbo, quote_from_book, quote_two_sided, should_requote, AlphaSource,
    MarketMakingStrategy, MmQuoteParams, QuoteEngine, VolObiMmSettings,
};
use lighter_bot::strategy::split_book::{join_signals, SplitBookStrategy};
use lighter_bot::strategy::Strategy;

fn b(x: f64) -> B64 {
    B64::from_bits(x.to_bits())
}

fn f(x: B64) -> f64 {
    f64::from_bits(x.to_bits())
}

fn at(secs: i64) -> Timestamp {
    Timestamp { secs, nanos: 0 }
}

fn now() -> Timestamp {
    at(1_700_000_500)
}

fn params() -> MmQuoteParams {
    MmQuoteParams {
        bid_spread: b(0.001),
        ask_spread: b(0.001),
        order_notional: b(100.0),
        inventory_skew: b(0.5),
        inventory_target: b(2.0),
        max_inventory: b(8.0),
        min_requote_secs: 10,
    }
}

fn book(symbol: &str, market_id: u32, bid: f64, ask: f64, bid_sz: f64, ask_sz: f64) -> OrderBook {
    OrderBook {
        symbol: symbol.to_string(),
        market_id,
        bids: vec![PriceLevel {
            price: b(bid),
            quantity: b(bid_sz),
        }],
        asks: vec![PriceLevel {
            price: b(ask),
            quantity: b(ask_sz),
        }],
        timestamp: at(1_700_000_000),
    }
}

fn snapshot_from_book(book: OrderBook, inventory: f64) -> MarketSnapshot {
    let symbol = book.symbol.clone();
    let mut snap = MarketSnapshot::new();
    snap.order_books.insert(&symbol, book);
    if inventory != 0.0 {
        snap.positions.insert(&symbol, b(inventory));
    }
    snap
}

#[test]
fn join_bbo_when_book_is_inside_configured_offset() {
    let mut p = params();
    p.bid_spread = b(0.002);
    p.ask_spread = b(0.002);
    p.inventory_skew = b(0.0);
    // A book of 10 bps inside a floor of 20 bps: join the live touch.
    let q = quote_two_sided(b(99.95), b(100.05), b(0.0), &p).unwrap();
    assert!((f(q.bid_price) - 99.95).abs() < 1e-9);
    assert!((f(q.ask_price) - 100.05).abs() < 1e-9);
}

#[test]
fn two_sided_quotes_sit_strictly_around_mid() {
    let bid = 99.5;
    let ask = 100.5;
    let quote = quote_two_sided(b(bid), b(ask), b(0.0), &params()).expect("valid book");
    let mid = (bid + ask) / 2.0;
    assert!(f(quote.bid_price) < mid, "maker bid must be below mid");
    assert!(mid < f(quote.ask_price), "maker ask must be above mid");
    assert!(f(quote.bid_qty) > 0.0 && f(quote.ask_qty) > 0.0);
    assert!(f(quote.expected_edge_bps) > 0.0);
}

#[test]
fn long_inventory_makes_ask_more_aggressive_and_bid_less() {
    let bid = b(99.5);
    let ask = b(100.5);
    let flat = quote_two_sided(bid, ask, b(0.0), &params()).unwrap();
    let long = quote_two_sided(bid, ask, b(2.0), &params()).unwrap();
    let short = quote_two_sided(bid, ask, b(-2.0), &params()).unwrap();

    assert!(
        f(long.ask_price) < f(flat.ask_price),
        "long inventory must pull the ask toward mid (more aggressive sell)"
    );
    assert!(
        f(long.bid_price) < f(flat.bid_price),
        "long inventory must push the bid away from mid (less aggressive buy)"
    );
    assert!(
        f(long.ask_qty) > f(long.bid_qty),
        "long inventory must offer more size on the ask than the bid"
    );

    assert!(
        f(short.bid_price) > f(flat.bid_price),
        "short inventory must pull the bid toward mid (more aggressive buy)"
    );
    assert!(
        f(short.ask_price) > f(flat.ask_price),
        "short inventory must push the ask away from mid (less aggressive sell)"
    );
    assert!(
        f(short.bid_qty) > f(short.ask_qty),
        "short inventory must offer more size on the bid than the ask"
    );
}

#[test]
fn quotes_follow_the_skew_formula() {
    let p = params();
    let q = quote_two_sided(b(99.0), b(101.5), b(1.0), &p).unwrap();
    let mid = (99.0 + 101.5) / 2.0;
    let ratio = (1.0f64 / 2.0).clamp(-1.0, 1.0) * 0.5;
    let shift = ratio * (101.5f64 - 99.0).abs() * 0.25;
    let bid = 99.0f64.max(mid * (1.0 - (0.001 * (1.0 + ratio)).max(0.0))) - shift;
    let ask = 101.5f64.min(mid * (1.0 + (0.001 * (1.0 - ratio)).max(0.0))) - shift;
    assert_eq!(f(q.mid), mid);
    assert_eq!(f(q.bid_price), bid);
    assert_eq!(f(q.ask_price), ask);
    assert_eq!(f(q.bid_qty), 100.0 / mid * (1.0 - 0.5 * ratio));
    assert_eq!(f(q.ask_qty), 100.0 / mid * (1.0 + 0.5 * ratio));
    assert_eq!(f(q.expected_edge_bps), ((ask - bid) / mid) * 10_000.0);
}

#[test]
fn invalid_books_produce_no_quotes() {
    let p = params();
    assert!(quote_two_sided(b(0.0), b(100.0), b(0.0), &p).is_none());
    assert!(quote_two_sided(b(-1.0), b(100.0), b(0.0), &p).is_none());
    assert!(quote_two_sided(b(100.0), b(0.0), b(0.0), &p).is_none());
    assert!(quote_two_sided(b(101.0), b(100.0), b(0.0), &p).is_none());
    assert!(quote_two_sided(b(f64::NAN), b(100.0), b(0.0), &p).is_none());
    assert!(mid_from_bbo(b(50.0), b(49.0)).is_none());
}

#[test]
fn hard_cap_drops_same_side_adding_quote() {
    let p = params();
    let quote = quote_two_sided(b(99.5), b(100.5), b(8.0), &p).unwrap();
    let capped = apply_inventory_cap(quote, b(8.0), p.max_inventory, InventoryMode::Hard).unwrap();
    assert_eq!(f(capped.bid_qty), 0.0, "long at hard cap must not add more");
    assert!(f(capped.ask_qty) > 0.0, "reducing ask must remain");
    assert_eq!(
        apply_inventory_cap(quote, b(8.0), p.max_inventory, InventoryMode::ResearchNoCap),
        Some(quote)
    );
    let mut one_sided = book("BTC", 1, 99.5, 100.5, 1.0, 1.0);
    one_sided.asks.clear();
    assert!(quote_from_book(&one_sided, b(0.0), &p, InventoryMode::Hard).is_none());
}

#[test]
fn evaluate_does_not_stack_quotes_on_the_next_tick() {
    let mut strategy = MarketMakingStrategy::new(params(), InventoryMode::Hard).unwrap();
    let first = strategy
        .evaluate(&snapshot_from_book(book("BTC", 1, 99.5, 100.5, 2.0, 2.0), 0.0), now())
        .unwrap();
    assert!(first.is_some());
    let mut later = book("BTC", 1, 99.52, 100.52, 2.0, 2.0);
    later.timestamp = at(1_700_000_003);
    let stacked = strategy.evaluate(&snapshot_from_book(later, 0.0), now()).unwrap();
    assert!(
        stacked.is_none(),
        "same book a few seconds later must not emit another bid/ask pair"
    );
}

#[test]
fn evaluate_emits_maker_limit_signals_with_edge() {
    let mut strategy = MarketMakingStrategy::new(params(), InventoryMode::Hard).unwrap();
    let snap = snapshot_from_book(book("BTC", 1, 99.5, 100.5, 2.0, 2.0), 0.0);
    let signals = strategy.evaluate(&snap, now()).unwrap().expect("two-sided quotes");
    assert_eq!(signals.len(), 2);
    assert!(signals.iter().all(|s| s.order_type == OrderType::Limit));
    assert!(signals
        .iter()
        .all(|s| s.expected_edge_bps.map(f).unwrap_or(0.0) > 0.0));
    let buy = signals.iter().find(|s| s.side == Side::Buy).unwrap();
    let sell = signals.iter().find(|s| s.side == Side::Sell).unwrap();
    let mid = (99.5 + 100.5) / 2.0;
    assert!(f(buy.price) < mid && mid < f(sell.price));
    assert_eq!(
        buy.reason,
        format!("MM pmm bid {:.6} mid={:.6} inv={:.6}", f(buy.price), mid, 0.0)
    );
    assert_eq!(
        sell.reason,
        format!("MM pmm ask {:.6} mid={:.6} inv={:.6}", f(sell.price), mid, 0.0)
    );
}

#[test]
fn requote_is_blocked_inside_min_interval_even_if_mid_moves() {
    let t0 = at(1_700_000_000);
    let t1 = t0.plus_secs(3);
    assert!(
        !should_requote(b(100.0), b(0.0), t0, b(100.2), b(0.0), t1, b(0.001), 10),
        "must not stack quotes every few seconds"
    );
}

#[test]
fn requote_after_interval_requires_meaningful_mid_move() {
    let t0 = at(1_700_000_000);
    let t1 = t0.plus_secs(10);
    assert!(
        !should_requote(b(100.0), b(0.0), t0, b(100.001), b(0.0), t1, b(0.001), 10),
        "0.1 bps tick is not enough to replace"
    );
    assert!(should_requote(b(100.0), b(0.0), t0, b(100.05), b(0.0), t1, b(0.001), 10));
    // A changed inventory or an old quote is reason enough.
    assert!(should_requote(b(100.0), b(0.0), t0, b(100.0), b(0.5), t1, b(0.001), 10));
    assert!(should_requote(b(100.0), b(0.0), t0, b(100.0), b(0.0), t0.plus_secs(30), b(0.001), 10));
    assert!(!should_requote(b(100.0), b(0.0), t0, b(100.0), b(0.0), t0.plus_secs(29), b(0.001), 10));
    assert!(!should_requote(b(100.0), b(0.0), t0, b(200.0), b(5.0), t0, b(0.001), -4));
}

#[test]
fn evaluate_skips_crossed_book() {
    let mut strategy = MarketMakingStrategy::new(params(), InventoryMode::Hard).unwrap();
    let snap = snapshot_from_book(book("BTC", 1, 101.0, 100.0, 2.0, 2.0), 0.0);
    assert!(strategy.evaluate(&snap, now()).unwrap().is_none());
}

#[test]
fn mm_limit_signals_are_visible_to_profitability_gate() {
    let mut strategy = MarketMakingStrategy::new(params(), InventoryMode::Hard).unwrap();
    let snap = snapshot_from_book(book("BTC", 1, 99.5, 100.5, 2.0, 2.0), 0.0);
    let signals = strategy.evaluate(&snap, now()).unwrap().expect("quotes");
    let guard = ProfitabilityGuard::from_config(
        &Config::builder()
            .set_override("profitability.enabled", true)
            .unwrap()
            .set_override("profitability.entry_slippage_bps", 2.0)
            .unwrap()
            .set_override("profitability.exit_slippage_bps", 2.0)
            .unwrap()
            .set_override("profitability.adverse_selection_bps", 3.0)
            .unwrap()
            .set_override("profitability.min_net_edge_bps", 2.0)
            .unwrap()
            .build()
            .unwrap(),
    )
    .unwrap();
    for sig in &signals {
        assert_eq!(sig.order_type, OrderType::Limit);
        let decision = guard.evaluate(SignalEconomics::entry(sig.expected_edge_bps));
        assert!(
            decision.allowed,
            "MM quoted edge must be evaluable by the existing gate: {:?}",
            decision
        );
    }
}

fn warm_vol_strategy() -> MarketMakingStrategy {
    let mut p = params();
    p.min_requote_secs = 1;
    let mut settings = VolObiMmSettings::default();
    settings.alpha_source = AlphaSource::Local;
    settings.vol_obi.min_warmup_samples = 8;
    settings.vol_obi.window_steps = 64;
    settings.vol_obi.c1_ticks = b(0.0);
    settings.vol_obi.skew = b(0.0);
    settings.inventory_exit.enabled = false;
    MarketMakingStrategy::with_engine(p, InventoryMode::Hard, QuoteEngine::VolObi, settings, true).unwrap()
}

#[test]
fn vol_obi_quotes_after_warmup_sit_outside_mid() {
    let mut strategy = warm_vol_strategy();
    assert_eq!(strategy.quote_engine(), QuoteEngine::VolObi);
    let mut last = None;
    for i in 0..16 {
        let mut bk = book(
            "BTC",
            1,
            99.5 + i as f64 * 0.01,
            100.5 + i as f64 * 0.01,
            2.0,
            2.0,
        );
        bk.timestamp = at(1_700_000_000 + i);
        if let Some(signals) = strategy.evaluate(&snapshot_from_book(bk, 0.0), now()).unwrap() {
            last = Some(signals);
        }
    }
    let signals = last.expect("warmed vol_obi quotes");
    assert_eq!(signals.len(), 2);
    let buy = signals.iter().find(|s| s.side == Side::Buy).unwrap();
    let sell = signals.iter().find(|s| s.side == Side::Sell).unwrap();
    let mid = (99.5 + 15.0 * 0.01 + 100.5 + 15.0 * 0.01) / 2.0;
    assert!(f(buy.price) < mid && mid < f(sell.price));
    assert!(f(buy.expected_edge_bps.unwrap()) + 1e-6 >= 4.0);
}

#[test]
fn vol_obi_does_not_join_tight_bbo() {
    let mut strategy = warm_vol_strategy();
    let mut last = None;
    for i in 0..16 {
        // A book of 2 bps: the simple engine would join it.
        let mut bk = book(
            "ETH",
            0,
            1999.8 + i as f64 * 0.01,
            2000.2 + i as f64 * 0.01,
            1.0,
            1.0,
        );
        bk.timestamp = at(1_700_000_000 + i);
        if let Some(signals) = strategy.evaluate(&snapshot_from_book(bk, 0.0), now()).unwrap() {
            last = Some(signals);
        }
    }
    let signals = last.expect("quotes");
    let buy = signals.iter().find(|s| s.side == Side::Buy).unwrap();
    let sell = signals.iter().find(|s| s.side == Side::Sell).unwrap();
    assert!(f(buy.price) < 1999.8, "must not join the live bid");
    assert!(f(sell.price) > 2000.2, "must not join the live ask");
}

#[test]
fn vol_obi_reduces_before_the_warm_up_and_skips_wide_books() {
    let mut strategy = warm_vol_strategy();
    let snap = snapshot_from_book(book("BTC", 1, 99.5, 100.5, 2.0, 2.0), 1.0);
    let signals = strategy.evaluate(&snap, now()).unwrap().expect("a reducing ask");
    assert_eq!(signals.len(), 1);
    assert_eq!(signals[0].side, Side::Sell);
    assert!(signals[0].risk_reducing || f(signals[0].quantity) > 1.0);
    assert_eq!(f(signals[0].quantity), 100.0 / 100.0 * 1.15);
    let wide = snapshot_from_book(book("ETH", 0, 90.0, 110.0, 2.0, 2.0), 1.0);
    assert!(strategy.evaluate(&wide, now()).unwrap().is_none());
}

#[test]
fn quote_engine_parse() {
    assert_eq!(QuoteEngine::parse("vol_obi").unwrap(), QuoteEngine::VolObi);
    assert_eq!(QuoteEngine::parse("simple").unwrap(), QuoteEngine::Simple);
    assert!(QuoteEngine::parse("avellaneda").is_err());
}

#[test]
fn names_of_engines_and_sources_are_read_loosely() {
    for s in ["", " PMM ", "Join"] {
        assert_eq!(QuoteEngine::parse(s).unwrap(), QuoteEngine::Simple);
    }
    for s in ["OBI", "vol-obi"] {
        assert_eq!(QuoteEngine::parse(s).unwrap(), QuoteEngine::VolObi);
    }
    for s in ["", "Local", "book", "NONE "] {
        assert_eq!(AlphaSource::parse(s).unwrap(), AlphaSource::Local);
    }
    assert_eq!(AlphaSource::parse("Binance").unwrap(), AlphaSource::Binance);
    assert_eq!(
        QuoteEngine::parse(" Avellaneda").unwrap_err().message(),
        "unknown quote_engine 'avellaneda' (simple|vol_obi)"
    );
    assert_eq!(
        AlphaSource::parse("okx").unwrap_err().message(),
        "unknown alpha_source 'okx' (local|binance)"
    );
}

#[test]
fn unusable_parameters_are_refused() {
    let make = |p: MmQuoteParams| MarketMakingStrategy::new(p, InventoryMode::Hard);
    assert!(matches!(
        make(MmQuoteParams { ask_spread: b(-0.1), ..params() }),
        Err(StrategyError::NegativeSpread)
    ));
    assert!(matches!(
        make(MmQuoteParams { order_notional: b(0.0), ..params() }),
        Err(StrategyError::NotionalNotPositive)
    ));
    assert!(matches!(
        make(MmQuoteParams { inventory_skew: b(-1.0), ..params() }),
        Err(StrategyError::NegativeSkew)
    ));
}

#[test]
fn maker_volume_disarmed_emits_no_quotes() {
    let mut strategy = MarketMakingStrategy::new(params(), InventoryMode::Hard)
        .unwrap()
        .with_maker_volume(MakerVolumeConfig::default());
    let sigs = strategy
        .evaluate(&snapshot_from_book(book("BTC", 1, 99.5, 100.5, 2.0, 2.0), 0.0), now())
        .unwrap();
    assert!(sigs.is_none(), "default flags must not start quoting");
}

fn armed_gates() -> MakerVolumeConfig {
    let mut gates = MakerVolumeConfig::default();
    gates.enabled = true;
    gates.allow_quotes = true;
    gates.max_position_notional = b(60.0);
    gates
}

#[test]
fn maker_volume_armed_skips_non_btc_and_blocks_long_full() {
    let mut strategy = MarketMakingStrategy::new(params(), InventoryMode::Hard)
        .unwrap()
        .with_maker_volume(armed_gates());
    let eth = strategy
        .evaluate(&snapshot_from_book(book("ETH", 0, 3499.0, 3501.0, 1.0, 1.0), 0.0), now())
        .unwrap();
    assert!(eth.is_none(), "BTC-only gate must skip ETH");

    let long_full = strategy
        .evaluate(
            &snapshot_from_book(book("BTC", 1, 69_950.0, 70_050.0, 1.0, 1.0), 0.001),
            now(),
        )
        .unwrap()
        .expect("reducing ask");
    assert!(long_full.iter().all(|s| s.side != Side::Buy));
    assert!(long_full.iter().any(|s| s.side == Side::Sell));
}

#[test]
fn reset_and_clearing_allow_a_new_quote() {
    let snap = || snapshot_from_book(book("BTC", 1, 99.5, 100.5, 2.0, 2.0), 0.0);
    let mut strategy = MarketMakingStrategy::new(params(), InventoryMode::Hard).unwrap();
    assert_eq!(strategy.name(), "market_making");
    assert!(!strategy.has_maker_volume_overlay());
    assert!(strategy.evaluate(&snap(), now()).unwrap().is_some());
    assert!(strategy.evaluate(&snap(), now()).unwrap().is_none());
    strategy.clear_filled_state();
    assert!(strategy.evaluate(&snap(), now()).unwrap().is_some());
    strategy.reset();
    assert!(strategy.evaluate(&snap(), now()).unwrap().is_some());
}

#[test]
fn books_before_the_epoch_get_the_wall_clock() {
    let mut strategy = MarketMakingStrategy::new(params(), InventoryMode::Hard).unwrap();
    let mut old = book("BTC", 1, 99.5, 100.5, 2.0, 2.0);
    old.timestamp = at(0);
    let signals = strategy.evaluate(&snapshot_from_book(old, 0.0), now()).unwrap().unwrap();
    assert!(signals.iter().all(|s| s.timestamp == now()));
}

#[test]
fn split_book_joins_both_books_under_the_trend_name() {
    let mut split = SplitBookStrategy {
        trend: MarketMakingStrategy::new(params(), InventoryMode::Hard).unwrap(),
        maker: MarketMakingStrategy::new(params(), InventoryMode::Hard)
            .unwrap()
            .with_maker_volume(armed_gates()),
    };
    assert_eq!(split.name(), "trend_following");
    assert!(split.has_maker_volume_overlay());
    let snap = snapshot_from_book(book("BTC", 1, 99.5, 100.5, 2.0, 2.0), 0.0);
    let signals = split.evaluate(&snap, now()).unwrap().unwrap();
    assert_eq!(signals.len(), 4);
    assert!(split.evaluate(&snap, now()).unwrap().is_none());
    split.clear_filled_state();
    assert_eq!(split.evaluate(&snap, now()).unwrap().unwrap().len(), 4);
    split.reset();
    assert_eq!(split.evaluate(&snap, now()).unwrap().unwrap().len(), 4);
}

#[test]
fn joined_signals_keep_their_order() {
    let signal = |symbol: &str| TradeSignal {
        symbol: symbol.to_string(),
        market_id: 1,
        side: Side::Buy,
        price: b(1.0),
        quantity: b(1.0),
        order_type: OrderType::Market,
        reason: "trend".to_string(),
        timestamp: at(1),
        expected_edge_bps: None,
        risk_reducing: false,
    };
    let joined = join_signals(Some(vec![signal("A")]), Some(vec![signal("B"), signal("C")])).unwrap();
    let names: Vec<&str> = joined.iter().map(|s| s.symbol.as_str()).collect();
    assert_eq!(names, vec!["A", "B", "C"]);
    assert!(join_signals(None, None).is_none());
    assert!(join_signals(Some(Vec::new()), None).is_none());
    assert_eq!(join_signals(None, Some(vec![signal("B")])).unwrap().len(), 1);
}

#[test]
fn one_order_per_symbol_and_side() {
    let mut strategy = MarketMakingStrategy::new(params(), InventoryMode::Hard).unwrap();
    let mut snap = snapshot_from_book(book("BTC", 1, 99.5, 100.5, 2.0, 2.0), 0.0);
    snap.order_books.insert("ETH", book("ETH", 2, 9.5, 10.5, 2.0, 2.0));
    snap.order_books.insert("BTC", book("BTC", 1, 99.0, 101.0, 2.0, 2.0));
    let signals = strategy.evaluate(&snap, now()).unwrap().unwrap();
    assert_eq!(signals.len(), 4);
    for (i, a) in signals.iter().enumerate() {
        for b in &signals[i + 1..] {
            assert!(a.symbol != b.symbol || a.side != b.side);
        }
    }
}

#[test]
fn an_interval_matters_from_the_second_quote_on() {
    let mut endless = params();
    endless.min_requote_secs = i64::MAX;
    let mut strategy = MarketMakingStrategy::new(endless, InventoryMode::Hard).unwrap();
    let snap = snapshot_from_book(book("BTC", 1, 99.5, 100.5, 2.0, 2.0), 0.0);
    assert_eq!(strategy.evaluate(&snap, now()).unwrap().unwrap().len(), 2);
}
