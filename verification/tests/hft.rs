use lighter_bot::binary64::B64;
use lighter_bot::clock::{Span, Timestamp};
use lighter_bot::hft::book_continuity::{BookContinuity, BookHealth};
use lighter_bot::hft::rate_budget::StandardRateBudget;
use lighter_bot::hft::scan::ScanStats;
use lighter_bot::hft::subscriptions::plan_subscription_shards;
use lighter_bot::hft::universe::{
    bbo_from_order_book, discover_perp_ids, max_markets_for_standard_budget, order_book_from_bbo,
    resolve_live_universe, resolve_quoting_market_ids, select_quoting_universe, BboUpdate, UniverseMarket,
    UniverseSelectParams,
};
use lighter_bot::lighter::types::MarketInfo;

fn b(x: f64) -> B64 {
    B64::from_bits(x.to_bits())
}

fn f(x: B64) -> f64 {
    f64::from_bits(x.to_bits())
}

#[test]
fn subscription_plan_respects_per_connection_limit() {
    let market_ids = (0..205).collect::<Vec<_>>();

    let shards = plan_subscription_shards(&market_ids, 100).expect("valid shard plan");

    assert_eq!(shards.len(), 3);
    assert_eq!(shards[0].len(), 100);
    assert_eq!(shards[1].len(), 100);
    assert_eq!(shards[2].len(), 5);
    assert_eq!(shards.into_iter().flatten().collect::<Vec<_>>(), market_ids);
}

#[test]
fn subscription_plan_rejects_zero_capacity() {
    let error = plan_subscription_shards(&[1, 2], 0).expect_err("zero capacity must fail");

    assert!(error.message().contains("greater than zero"));
}

#[test]
fn standard_rate_budget_allows_at_most_one_action_per_second() {
    let mut budget = StandardRateBudget::new();

    assert!(budget.try_acquire_at(Span { nanos: 0 }));
    assert!(!budget.try_acquire_at(Span::from_millis(999)));
    assert!(budget.try_acquire_at(Span::from_secs(1)));
    assert!(!budget.try_acquire_at(Span::from_millis(1_999)));
    assert!(budget.try_acquire_at(Span::from_secs(2)));
}

#[test]
fn standard_rate_budget_does_not_burst_after_idle_time() {
    let mut budget = StandardRateBudget::new();

    assert!(budget.try_acquire_at(Span::from_secs(120)));
    assert!(!budget.try_acquire_at(Span::from_secs(120)));
}

#[test]
fn book_continuity_accepts_snapshot_and_contiguous_delta() {
    let mut continuity = BookContinuity::new();

    assert_eq!(continuity.apply_snapshot(10), BookHealth::Live);
    assert_eq!(continuity.apply_delta(10, 14), BookHealth::Live);
    assert_eq!(continuity.last_nonce(), Some(14));
}

#[test]
fn book_continuity_halts_on_nonce_gap_until_new_snapshot() {
    let mut continuity = BookContinuity::new();
    continuity.apply_snapshot(10);

    assert_eq!(continuity.apply_delta(11, 15), BookHealth::Halted);
    assert_eq!(continuity.apply_delta(15, 16), BookHealth::Halted);
    assert_eq!(continuity.apply_snapshot(20), BookHealth::Live);
    assert_eq!(continuity.last_nonce(), Some(20));
}

fn update(market_id: u32, symbol: &str, nonce: u64, bid: f64, ask: f64, size: f64) -> BboUpdate {
    BboUpdate {
        market_id,
        symbol: symbol.to_string(),
        nonce,
        exchange_timestamp_ms: nonce,
        bid_price: b(bid),
        bid_size: b(size),
        ask_price: b(ask),
        ask_size: b(size),
    }
}

#[test]
fn scan_stats_report_event_rate_and_rank_current_spreads() {
    let mut stats = ScanStats::new();
    stats.record(update(1, "BTC", 1, 100.0, 100.1, 2.0));
    stats.record(update(2, "ETH", 1, 50.0, 50.2, 2.0));
    stats.record(update(1, "BTC", 2, 100.0, 100.2, 2.0));

    let summary = stats.summary(Span::from_millis(100), 2);

    assert_eq!(summary.events, 3);
    assert_eq!(summary.live_markets, 2);
    assert_eq!(f(summary.events_per_second), 30.0);
    assert_eq!(summary.top_spreads.len(), 2);
    assert_eq!(summary.top_spreads[0].symbol, "ETH");
    assert!(f(summary.top_spreads[0].spread_bps) > f(summary.top_spreads[1].spread_bps));
    assert_eq!(stats.summary(Span::from_millis(100), 1).top_spreads.len(), 1);
    assert_eq!(f(stats.summary(Span::from_millis(0), 1).events_per_second), 0.0);
}

#[test]
fn scan_stats_can_reset_after_subscription_warmup() {
    let mut stats = ScanStats::new();
    stats.record(update(1, "BTC", 1, 100.0, 100.1, 1.0));

    stats.reset();
    let summary = stats.summary(Span::from_secs(1), 10);

    assert_eq!(summary.events, 0);
    assert_eq!(summary.live_markets, 0);
    assert!(summary.top_spreads.is_empty());
}

fn fixture_info(id: u32, symbol: &str, market_type: &str) -> MarketInfo {
    MarketInfo {
        market_id: id,
        symbol: symbol.to_string(),
        size_decimals: 4,
        price_decimals: 2,
        min_base_amount: b(0.001),
        min_quote_amount: b(1.0),
        last_trade_price: b(100.0),
        market_type: market_type.to_string(),
    }
}

fn fixture_market(
    id: u32,
    symbol: &str,
    market_type: &str,
    bid: f64,
    ask: f64,
    bid_sz: f64,
    ask_sz: f64,
    health: BookHealth,
) -> UniverseMarket {
    UniverseMarket {
        market_id: id,
        symbol: symbol.to_string(),
        market_type: market_type.to_string(),
        bid_price: b(bid),
        ask_price: b(ask),
        bid_size: b(bid_sz),
        ask_size: b(ask_sz),
        book_health: health,
    }
}

fn select_params() -> UniverseSelectParams {
    UniverseSelectParams {
        max_spread_bps: b(20.0),
        min_spread_bps: b(0.0),
        min_size: b(1.0),
        prefer_wider_spreads: false,
        refresh_interval: Span::from_secs(10),
        actions_per_refresh: 2,
    }
}

#[test]
fn universe_selector_keeps_healthy_perps_and_respects_standard_budget() {
    let params = select_params();
    let cap = max_markets_for_standard_budget(params.refresh_interval, params.actions_per_refresh);
    assert!(cap > 0, "10s window at 1 action/s must allow at least one name");

    let catalog = vec![
        fixture_market(1, "BTC", "perp", 100.0, 100.05, 5.0, 5.0, BookHealth::Live),
        fixture_market(2, "ETH", "perp", 50.0, 50.04, 8.0, 8.0, BookHealth::Live),
        fixture_market(3, "WIDE", "perp", 10.0, 10.10, 4.0, 4.0, BookHealth::Live),
        fixture_market(4, "THIN", "perp", 20.0, 20.01, 0.1, 0.1, BookHealth::Live),
        fixture_market(5, "SPOTY", "spot", 15.0, 15.01, 9.0, 9.0, BookHealth::Live),
        fixture_market(6, "HALT", "perp", 30.0, 30.01, 3.0, 3.0, BookHealth::Halted),
        fixture_market(7, "XED", "perp", 40.0, 39.00, 3.0, 3.0, BookHealth::Live),
        fixture_market(8, "SOL", "perp", 25.0, 25.02, 6.0, 6.0, BookHealth::Live),
        fixture_market(9, "AAPL", "perp", 180.0, 180.06, 2.0, 2.0, BookHealth::Live),
        fixture_market(10, "NVDA", "perp", 90.0, 90.04, 3.0, 3.0, BookHealth::Live),
        fixture_market(11, "MSFT", "perp", 70.0, 70.03, 3.0, 3.0, BookHealth::Live),
        fixture_market(12, "TSLA", "perp", 40.0, 40.03, 3.0, 3.0, BookHealth::Live),
        fixture_market(13, "META", "perp", 60.0, 60.04, 3.0, 3.0, BookHealth::Live),
        fixture_market(14, "AMD", "perp", 12.0, 12.01, 4.0, 4.0, BookHealth::Live),
    ];

    let selected = select_quoting_universe(&catalog, &params);
    assert!(
        selected.len() <= cap,
        "selector must not exceed Standard refresh budget ({cap})"
    );
    assert!(!selected.is_empty());
    let names: Vec<&str> = selected.iter().map(|m| m.symbol.as_str()).collect();
    assert!(
        !names.contains(&"WIDE"),
        "wide-spread perp must stay out: {names:?}"
    );
    assert!(
        !names.contains(&"THIN"),
        "thin book must stay out: {names:?}"
    );
    assert!(
        !names.contains(&"SPOTY"),
        "spot must stay out of the live universe: {names:?}"
    );
    assert!(
        !names.contains(&"HALT") && !names.contains(&"XED"),
        "halted/crossed books must stay out: {names:?}"
    );
    assert!(
        names.iter().all(|n| *n != "SPOTY"),
        "selector must never quote spot"
    );
    // Tightest spreads first.
    assert_eq!(names, vec!["AAPL", "MSFT", "NVDA", "BTC", "META"]);
    let shards = plan_subscription_shards(
        &selected.iter().map(|m| m.market_id).collect::<Vec<_>>(),
        100,
    )
    .unwrap();
    assert_eq!(shards.iter().map(|s| s.len()).sum::<usize>(), selected.len());
}

#[test]
fn resolve_quoting_ids_uses_catalog_not_hardcoded_ids() {
    let catalog = vec![
        fixture_info(16, "TSLA", "perp"),
        fixture_info(2048, "ETH/USDG", "spot"),
        fixture_info(23, "COIN", "perp"),
        fixture_info(1, "BTC", "perp"),
    ];
    let bbo = |id: u32, bid: f64, ask: f64, sz: f64| (id, update(id, "", 1, bid, ask, sz));
    let bbos = vec![
        bbo(16, 100.0, 100.02, 5.0),
        bbo(2048, 2000.0, 2000.10, 9.0),
        bbo(23, 50.0, 50.01, 4.0),
        bbo(1, 80.0, 80.02, 3.0),
    ];
    let params = select_params();
    let ids = resolve_quoting_market_ids(&catalog, &bbos, &params);
    assert!(!ids.is_empty());
    assert!(!ids.contains(&2048), "spot id must not be selected");
    assert!(ids.iter().all(|id| catalog.iter().any(|m| m.market_id == *id)));
}

#[test]
fn live_resolver_empty_bbos_do_not_skip_qualify_rank() {
    // The lowest market id is a wide-spread perp, which a first-N-by-id
    // fallback would quote forever without books.
    let catalog = vec![
        fixture_info(1, "WIDE", "perp"),
        fixture_info(2, "THIN", "perp"),
        fixture_info(3, "SPOTY", "spot"),
        fixture_info(9, "TIGHT", "perp"),
    ];
    let params = select_params();
    let empty = resolve_live_universe("auto", &[1], &catalog, &[], &params);
    assert!(
        empty.quoting_ids.is_empty(),
        "empty BBO must not produce a quoting set (got {:?})",
        empty.quoting_ids
    );
    assert!(
        empty.awaiting_books,
        "live resolver must keep waiting for books instead of freezing first-N ids"
    );
    assert!(
        empty.subscribe_ids.contains(&1) && empty.subscribe_ids.contains(&9),
        "auto mode still observes every discovered perp: {:?}",
        empty.subscribe_ids
    );
    assert!(
        !empty.subscribe_ids.contains(&3),
        "spot stays out of the observe set"
    );

    let bbo = |id: u32, bid: f64, ask: f64, sz: f64| (id, update(id, "", 1, bid, ask, sz));
    let ranked = resolve_live_universe(
        "auto",
        &[1],
        &catalog,
        &[
            bbo(1, 10.0, 10.10, 4.0),
            bbo(2, 20.0, 20.01, 0.1),
            bbo(3, 15.0, 15.01, 9.0),
            bbo(9, 80.0, 80.02, 5.0),
        ],
        &params,
    );
    assert!(
        !ranked.quoting_ids.contains(&1),
        "wide-spread id=1 must be filtered once books exist: {:?}",
        ranked.quoting_ids
    );
    assert!(
        !ranked.quoting_ids.contains(&2),
        "thin book must stay out: {:?}",
        ranked.quoting_ids
    );
    assert!(
        ranked.quoting_ids.contains(&9),
        "tight perp must win after BBO rank: {:?}",
        ranked.quoting_ids
    );
    assert_ne!(
        empty.quoting_ids, ranked.quoting_ids,
        "feeding books must change the quoting set"
    );
}

#[test]
fn mm_universe_prefers_wider_healthy_spreads() {
    let params = UniverseSelectParams {
        max_spread_bps: b(25.0),
        min_spread_bps: b(8.0),
        min_size: b(1.0),
        prefer_wider_spreads: true,
        refresh_interval: Span::from_secs(15),
        actions_per_refresh: 3,
    };
    let catalog = vec![
        fixture_market(1, "BTC", "perp", 100.0, 100.02, 5.0, 5.0, BookHealth::Live),
        fixture_market(5, "LIT", "perp", 2.0, 2.004, 4.0, 4.0, BookHealth::Live),
        fixture_market(36, "WIDE", "perp", 10.0, 10.10, 3.0, 3.0, BookHealth::Live),
    ];
    let selected = select_quoting_universe(&catalog, &params);
    let names: Vec<&str> = selected.iter().map(|m| m.symbol.as_str()).collect();
    assert!(
        !names.contains(&"BTC"),
        "sub-8bps BTC should stay out of maker universe: {names:?}"
    );
    assert!(
        !names.contains(&"WIDE"),
        "50bps+ junk stays out: {names:?}"
    );
    assert!(
        names.contains(&"LIT"),
        "mid-spread healthy perp should be selected: {names:?}"
    );
}

#[test]
fn market_budget_counts_whole_seconds() {
    assert_eq!(max_markets_for_standard_budget(Span::from_secs(10), 2), 5);
    assert_eq!(max_markets_for_standard_budget(Span::from_millis(15_999), 3), 5);
    assert_eq!(max_markets_for_standard_budget(Span::from_millis(1), 1), 1);
    assert_eq!(max_markets_for_standard_budget(Span::from_secs(10), 0), 0);
    assert_eq!(max_markets_for_standard_budget(Span { nanos: 0 }, 2), 0);
    let defaults = UniverseSelectParams::default();
    assert_eq!(f(defaults.max_spread_bps), 25.0);
    assert_eq!(f(defaults.min_size), 0.01);
    assert_eq!(defaults.actions_per_refresh, 3);
}

#[test]
fn perps_are_discovered_once_and_in_order() {
    let catalog = vec![
        fixture_info(9, "A", "Perp"),
        fixture_info(2, "B", "PERP"),
        fixture_info(9, "A", "perp"),
        fixture_info(5, "C", "spot"),
    ];
    assert_eq!(discover_perp_ids(&catalog), vec![9, 2]);
    let mixed = vec![
        fixture_info(16, "TSLA", "perp"),
        fixture_info(2048, "ETH/USDG", "spot"),
        fixture_info(23, "COIN", "perp"),
        fixture_info(1, "BTC", "perp"),
    ];
    assert_eq!(discover_perp_ids(&mixed), vec![16, 23, 1]);
    let watched = resolve_live_universe("auto", &[], &mixed, &[], &select_params());
    assert_eq!(watched.subscribe_ids, vec![16, 23, 1]);
}

#[test]
fn configured_mode_quotes_what_it_is_told() {
    let catalog = vec![fixture_info(9, "A", "perp")];
    let fixed = resolve_live_universe(" Fixed ", &[4, 2], &catalog, &[], &select_params());
    assert_eq!(fixed.subscribe_ids, vec![4, 2]);
    assert_eq!(fixed.quoting_ids, vec![4, 2]);
    assert!(!fixed.awaiting_books);
    let nothing = resolve_live_universe("ALL", &[4], &[], &[], &select_params());
    assert_eq!(nothing.quoting_ids, vec![4]);
}

#[test]
fn best_prices_survive_a_book() {
    let now = Timestamp { secs: 77, nanos: 5 };
    let mut bbo = update(3, "SOL", 9, 10.0, 10.5, 2.0);
    bbo.exchange_timestamp_ms = 1_773_158_679_717;
    let book = order_book_from_bbo(&bbo, "MARKET_3", now);
    assert_eq!(book.symbol, "SOL");
    assert_eq!(book.timestamp, Timestamp { secs: 1_773_158_679, nanos: 717_000_000 });
    let back = bbo_from_order_book(&book).unwrap();
    assert_eq!(back.market_id, 3);
    assert_eq!(back.symbol, "SOL");
    assert_eq!(back.nonce, 0);
    assert_eq!(back.exchange_timestamp_ms, 1_773_158_679_717);
    assert_eq!(back.bid_price, bbo.bid_price);
    assert_eq!(back.ask_size, bbo.ask_size);

    // A time that is no date, and a missing symbol.
    bbo.exchange_timestamp_ms = i64::MAX as u64;
    bbo.symbol = String::new();
    let book = order_book_from_bbo(&bbo, "MARKET_3", now);
    assert_eq!(book.symbol, "MARKET_3");
    assert_eq!(book.timestamp, now);
    // The largest counts wrap to just before the epoch.
    bbo.exchange_timestamp_ms = u64::MAX;
    let book = order_book_from_bbo(&bbo, "MARKET_3", now);
    assert_eq!(book.timestamp, Timestamp { secs: -1, nanos: 999_000_000 });
    assert_eq!(bbo_from_order_book(&book).unwrap().exchange_timestamp_ms, 0);

    let mut one_sided = order_book_from_bbo(&bbo, "X", now);
    one_sided.asks.clear();
    assert!(bbo_from_order_book(&one_sided).is_none());
}

#[test]
fn the_best_markets_get_the_budget() {
    let market = |id: u32, bid: f64, ask: f64, size: f64| UniverseMarket {
        market_id: id,
        symbol: format!("M{id}"),
        market_type: "perp".to_string(),
        bid_price: b(bid),
        ask_price: b(ask),
        bid_size: b(size),
        ask_size: b(size),
        book_health: BookHealth::Live,
    };
    let catalog = vec![
        market(7, 99.99, 100.01, 1.0),
        market(1, 99.95, 100.05, 1.0),
        market(3, 99.99, 100.01, 5.0),
        market(2, 99.99, 100.01, 1.0),
        market(9, 98.0, 102.0, 9.0),
    ];
    let params = UniverseSelectParams {
        refresh_interval: Span::from_secs(8),
        actions_per_refresh: 3,
        ..UniverseSelectParams::default()
    };
    let ids = |params: &UniverseSelectParams| {
        select_quoting_universe(&catalog, params)
            .iter()
            .map(|m| m.market_id)
            .collect::<Vec<_>>()
    };
    // Tighter spreads first, then deeper books, then smaller ids; the widest
    // is out of range and the budget holds three.
    assert_eq!(ids(&params), vec![3, 2, 7]);
    let wider = UniverseSelectParams { prefer_wider_spreads: true, ..params };
    assert_eq!(ids(&wider), vec![1, 3, 2]);
}

#[test]
fn a_live_universe_compares_and_copies() {
    let catalog = vec![fixture_info(9, "A", "perp"), fixture_info(4, "B", "perp")];
    let live = resolve_live_universe("auto", &[], &catalog, &[], &select_params());
    let copy = live.clone();
    assert_eq!(copy, live);
    assert_eq!(copy.subscribe_ids, vec![9, 4]);
    assert!(copy.awaiting_books);
    let fixed = resolve_live_universe("fixed", &[9, 4], &catalog, &[], &select_params());
    assert_ne!(fixed, live);
}
