use lighter_bot::binary64::B64;
use lighter_bot::hft::binance_alpha::{
    binance_futures_symbol, BinanceAlphaHub, FeedAction, FeedEvent, SharedAlpha, MIN_SAMPLES,
};
use lighter_bot::strategy::rolling::RollingStats;
use lighter_bot::table::Table;

fn b(x: f64) -> B64 {
    B64::from_bits(x.to_bits())
}

fn f(x: B64) -> f64 {
    f64::from_bits(x.to_bits())
}

#[test]
fn maps_crypto_not_stocks() {
    assert_eq!(binance_futures_symbol("BTC").as_deref(), Some("BTCUSDT"));
    assert_eq!(binance_futures_symbol("ETH/USDG").as_deref(), Some("ETHUSDT"));
    assert_eq!(binance_futures_symbol("HYPE").as_deref(), Some("HYPEUSDT"));
    assert_eq!(binance_futures_symbol("NEAR").as_deref(), Some("NEARUSDT"));
    assert_eq!(binance_futures_symbol("VVV").as_deref(), Some("VVVUSDT"));
    assert!(binance_futures_symbol("AAPL").is_none());
    assert!(binance_futures_symbol("BABA").is_none());
    assert!(binance_futures_symbol("CRWV").is_none());
    assert!(binance_futures_symbol("BE").is_none());
    assert!(binance_futures_symbol("NVDA").is_none());
    assert!(binance_futures_symbol("SPY").is_none());
}

#[test]
fn symbols_are_trimmed_and_cut() {
    assert_eq!(binance_futures_symbol("  sol-perp ").as_deref(), Some("SOLUSDT"));
    assert_eq!(binance_futures_symbol("eth_usd:x").as_deref(), Some("ETHUSDT"));
    assert_eq!(binance_futures_symbol("   "), None);
    assert_eq!(binance_futures_symbol("/ETH"), None);
    assert_eq!(binance_futures_symbol("aapl/usd"), None);
}

#[test]
fn stale_alpha_is_none_until_published() {
    let mut a = SharedAlpha::new();
    assert!(a.get_if_fresh(5_000, 1_000).is_none());
    for _ in 0..MIN_SAMPLES {
        a.publish(b(1.25), 1_000);
    }
    assert!((f(a.get_if_fresh(5_000, 1_000).unwrap()) - 1.25).abs() < 1e-12);
}

#[test]
fn alpha_goes_stale() {
    let mut a = SharedAlpha::new();
    for _ in 0..MIN_SAMPLES - 1 {
        a.publish(b(1.0), 10_000);
    }
    assert!(a.get_if_fresh(5_000, 10_000).is_none());
    a.publish(b(2.0), 10_000);
    assert_eq!(f(a.get_if_fresh(5_000, 15_000).unwrap()), 2.0);
    assert!(a.get_if_fresh(5_000, 15_001).is_none());
    // A clock that went back does not make it stale.
    assert!(a.get_if_fresh(0, 9_000).is_some());
}

fn message(bid_size: u32) -> String {
    format!(
        "{{\"stream\":\"btcusdt@depth20@100ms\",\"data\":{{\"s\":\"BTCUSDT\",\
         \"bids\":[[\"100.0\",\"{bid_size}\"],[\"90.0\",\"50\"],[\"1\"]],\
         \"asks\":[[\"101.0\",\"2\"],[\"-1\",\"7\"]]}}}}"
    )
}

#[test]
fn messages_publish_the_zscore_of_the_imbalance() {
    let mut hub = BinanceAlphaHub::new();
    hub.watch(&["BTC".to_string(), "AAPL".to_string(), "btc".to_string()]);
    assert_eq!(hub.wanted, vec!["BTC".to_string()]);
    let mut stats: Table<RollingStats> = Table::new();
    let mut reference = RollingStats::new(600);
    for i in 0..40u32 {
        hub.on_message(&message(i % 7), &mut stats, 50_000 + i as u64);
        // Only the levels within 2.5% of the mid count.
        let imbalance = b((i % 7) as f64 - 2.0);
        reference.push(imbalance);
        if i as u64 + 1 >= MIN_SAMPLES {
            let alpha = hub.alpha("btc", b(5.0), 50_000 + i as u64).unwrap();
            assert_eq!(alpha, reference.zscore(imbalance));
        } else {
            assert!(hub.alpha("BTC", b(5.0), 50_000 + i as u64).is_none());
        }
    }
    assert!(hub.alpha("BTC", b(5.0), 56_000).is_none());
    // The shortest staleness is two and a half seconds.
    assert!(hub.alpha("BTC", b(0.0), 52_500).is_some());
    assert!(hub.alpha("BTC", b(0.0), 52_540).is_none());
    assert!(hub.alpha("ETH", b(5.0), 50_040).is_none());
}

#[test]
fn unusable_messages_change_nothing() {
    let mut hub = BinanceAlphaHub::new();
    let mut stats: Table<RollingStats> = Table::new();
    for text in [
        "not json",
        "{}",
        "{\"s\":\"USDT\",\"b\":[[\"1\",\"1\"]],\"a\":[[\"2\",\"1\"]]}",
        "{\"s\":\"BTCUSDT\",\"b\":[[\"3\",\"1\"]],\"a\":[[\"2\",\"1\"]]}",
        "{\"s\":\"BTCUSDT\",\"b\":[[\"x\",\"1\"]],\"a\":[[\"2\",\"1\"]]}",
        "{\"s\":\"BTCUSDT\",\"b\":[],\"a\":[[\"2\",\"1\"]]}",
        "{\"s\":\"BTCUSDT\",\"b\":[5],\"a\":[[\"2\",\"1\"]]}",
    ] {
        hub.on_message(text, &mut stats, 1);
        assert!(hub.alphas.get("BTC").is_none(), "{text}");
        assert!(stats.get("BTC").is_none());
    }
    hub.on_message(
        "{\"stream\":\"solusdt@depth20\",\"b\":[[\"1\",\"1\"]],\"a\":[[\"2\",\"1\"]]}",
        &mut stats,
        1,
    );
    assert_eq!(hub.alphas.get("SOL").unwrap().samples, 1);
}

#[test]
fn the_feed_connects_reads_and_pauses() {
    let mut hub = BinanceAlphaHub::new();
    let mut stats: Table<RollingStats> = Table::new();
    assert!(matches!(hub.feed_step(FeedEvent::Idle, &mut stats, 1), FeedAction::Pause));
    hub.watch(&["BTC".to_string(), "eth/usdg".to_string()]);
    match hub.feed_step(FeedEvent::Idle, &mut stats, 1) {
        FeedAction::Connect(url) => assert_eq!(
            url,
            "wss://fstream.binance.com/stream?streams=btcusdt@depth20@100ms/ethusdt@depth20@100ms"
        ),
        other => panic!("{other:?}"),
    }
    let text = FeedEvent::Text(message(3));
    assert!(matches!(hub.feed_step(text, &mut stats, 9), FeedAction::Read));
    assert_eq!(hub.alphas.get("BTC").unwrap().samples, 1);
    assert!(stats.get("BTC").is_some());
    assert!(matches!(hub.feed_step(FeedEvent::Ping, &mut stats, 9), FeedAction::Pong));
    assert!(matches!(hub.feed_step(FeedEvent::Other, &mut stats, 9), FeedAction::Read));
    assert!(matches!(hub.feed_step(FeedEvent::Lost, &mut stats, 9), FeedAction::Pause));
    assert!(matches!(hub.feed_step(FeedEvent::ConnectFailed, &mut stats, 9), FeedAction::Pause));
    assert!(matches!(hub.feed_step(FeedEvent::Connected, &mut stats, 9), FeedAction::Read));
    assert!(stats.get("BTC").is_none());
}
