use config::Config;
use lighter_bot::binary64::B64;
use lighter_bot::clock::Timestamp;
use lighter_bot::lighter::types::{MarketSnapshot, OrderBook, OrderType, PriceLevel, Side};
use lighter_bot::strategy::error::StrategyError;
use lighter_bot::strategy::factory::{
    create_strategy, create_strategy_from_name, create_strategy_with_params,
    create_strategy_with_params_and_settings, Host,
};
use lighter_bot::strategy::grid_strategy::InventoryMode;
use lighter_bot::strategy::market_making::{AlphaSource, QuoteEngine};
use lighter_bot::strategy::params::Params;
use lighter_bot::strategy::plan::StrategyPlan;
use lighter_bot::strategy::Strategy;

const PLAIN: Host = Host {
    research_allowed: false,
    runtime_available: false,
};

const RESEARCH: Host = Host {
    research_allowed: true,
    runtime_available: true,
};

fn b(x: f64) -> B64 {
    B64::from_bits(x.to_bits())
}

fn f(x: B64) -> f64 {
    f64::from_bits(x.to_bits())
}

fn live_config(inventory_mode: Option<&str>) -> Config {
    let mut c = Config::builder()
        .set_override("trading.strategies.grid_trading.enabled", true)
        .unwrap()
        .set_override("trading.strategies.grid_trading.grid_count", 12)
        .unwrap()
        .set_override("trading.strategies.grid_trading.investment_per_grid", 30.0)
        .unwrap()
        .set_override("trading.strategies.grid_trading.price_deviation", 0.004)
        .unwrap();
    if let Some(mode) = inventory_mode {
        c = c
            .set_override("trading.strategies.grid_trading.inventory_mode", mode)
            .unwrap();
    }
    c.build().unwrap()
}

#[test]
fn params_default_to_hard_when_unspecified() {
    let s = create_strategy_with_params("grid", Some("grid_count=12,investment=30,deviation=0.004"), PLAIN)
        .expect("defaults");
    assert_eq!(s.name(), "grid_trading");
    match s {
        StrategyPlan::Grid(plan) => {
            assert_eq!(plan.grid_count, 12);
            assert_eq!(f(plan.investment), 30.0);
            assert_eq!(f(plan.deviation), 0.004);
            assert_eq!(plan.mode, InventoryMode::Hard);
        }
        other => panic!("{other:?}"),
    }
}

#[test]
fn params_accept_soft_mode() {
    assert!(create_strategy_with_params(
        "grid",
        Some("grid_count=12,investment=30,deviation=0.004,inventory_mode=soft,soft_cap=5,hard_cap=8"),
        PLAIN,
    )
    .is_ok());
}

#[test]
fn params_reject_unknown_mode_and_bad_caps() {
    assert!(create_strategy_with_params("grid", Some("inventory_mode=loose"), PLAIN).is_err());
    assert!(
        create_strategy_with_params("grid", Some("inventory_mode=soft,soft_cap=8,hard_cap=5"), PLAIN).is_err(),
        "hard must be greater than soft"
    );
    assert!(
        create_strategy_with_params("grid", Some("inventory_mode=soft,soft_cap=abc"), PLAIN).is_err(),
        "a cap that is no number must fail instead of taking a default"
    );
    assert!(matches!(
        create_strategy_with_params("grid", Some("hard_cap_grids=x"), PLAIN),
        Err(StrategyError::BadHardCap(s)) if s == "x"
    ));
}

#[test]
fn research_nocap_requires_explicit_research_flag() {
    assert!(
        create_strategy_with_params("grid", Some("inventory_mode=research_nocap"), PLAIN).is_err(),
        "without the switch it must be refused"
    );
    let ok = create_strategy_with_params("grid", Some("inventory_mode=research_nocap"), RESEARCH);
    assert!(ok.is_ok(), "with the switch the backtest path must pass");
}

#[test]
fn live_path_rejects_research_nocap_even_with_flag() {
    let res = create_strategy(&live_config(Some("research_nocap")), RESEARCH);
    assert!(res.is_err(), "the live path must always refuse research_nocap");
    assert!(create_strategy(&live_config(Some(" Research_NoCap ")), RESEARCH).is_err());
}

#[test]
fn live_path_defaults_to_hard_and_accepts_soft() {
    assert!(create_strategy(&live_config(None), PLAIN).is_ok());
    assert!(create_strategy(&live_config(Some("soft")), PLAIN).is_ok());
    assert!(create_strategy(&live_config(Some("nonsense")), PLAIN).is_err());
}

fn mm_live_config(inventory_mode: Option<&str>) -> Config {
    let mut c = Config::builder()
        .set_override("trading.strategies.grid_trading.enabled", false)
        .unwrap()
        .set_override("trading.strategies.trend_following.enabled", false)
        .unwrap()
        .set_override("trading.strategies.market_making.enabled", true)
        .unwrap()
        .set_override("trading.strategies.market_making.bid_spread", 0.001)
        .unwrap()
        .set_override("trading.strategies.market_making.ask_spread", 0.001)
        .unwrap();
    if let Some(mode) = inventory_mode {
        c = c
            .set_override("trading.strategies.market_making.inventory_mode", mode)
            .unwrap();
    }
    c.build().unwrap()
}

#[test]
fn live_mm_defaults_to_vol_obi_engine() {
    let strat = create_strategy(&mm_live_config(None), PLAIN).unwrap();
    assert_eq!(strat.name(), "market_making");
    match strat {
        StrategyPlan::MarketMaking(mm) => {
            assert_eq!(mm.quote_engine(), QuoteEngine::VolObi);
            assert_eq!(f(mm.params.order_notional), 50.0);
            assert!(mm.binance.is_none());
        }
        other => panic!("{other:?}"),
    }
}

#[test]
fn factory_rejects_unknown_names_and_still_constructs_grid_trend_mm() {
    assert!(create_strategy_with_params("not_a_strategy", None, PLAIN).is_err());
    assert_eq!(
        create_strategy_with_params("grid", None, PLAIN).unwrap().name(),
        "grid_trading"
    );
    assert_eq!(
        create_strategy_with_params("trend", None, PLAIN).unwrap().name(),
        "trend_following"
    );
    assert_eq!(
        create_strategy_with_params("mm", Some("bid_spread=0.001,ask_spread=0.001"), PLAIN)
            .unwrap()
            .name(),
        "market_making"
    );
    assert_eq!(
        create_strategy_with_params("market_making", None, PLAIN).unwrap().name(),
        "market_making"
    );
    assert_eq!(create_strategy_from_name("dca", PLAIN).unwrap().name(), "dca");
}

#[test]
fn live_mm_path_rejects_research_nocap_even_with_flag() {
    let res = create_strategy(&mm_live_config(Some("research_nocap")), RESEARCH);
    assert!(res.is_err(), "the live path must always refuse research_nocap");
}

fn snapshot(symbol: &str, market_id: u32, secs: i64, bid: f64, ask: f64) -> MarketSnapshot {
    let mut snap = MarketSnapshot::new();
    snap.order_books.insert(
        symbol,
        OrderBook {
            symbol: symbol.to_string(),
            market_id,
            bids: vec![PriceLevel { price: b(bid), quantity: b(2.0) }],
            asks: vec![PriceLevel { price: b(ask), quantity: b(2.0) }],
            timestamp: Timestamp { secs, nanos: 0 },
        },
    );
    snap
}

#[test]
fn factory_mm_emits_two_sided_maker_quotes() {
    let s = create_strategy_with_params(
        "mm",
        Some("quote_engine=simple,bid_spread=0.001,ask_spread=0.001"),
        PLAIN,
    )
    .expect("mm factory");
    let StrategyPlan::MarketMaking(mut s) = s else {
        panic!("a market maker");
    };
    let snap = snapshot("BTC", 1, 1_700_000_000, 99.5, 100.5);
    let now = Timestamp { secs: 1_700_000_001, nanos: 0 };
    let sigs = s.evaluate(&snap, now).unwrap().expect("quotes");
    assert_eq!(sigs.len(), 2);
    assert!(sigs.iter().all(|sig| sig.order_type == OrderType::Limit));
    let mid = 100.0;
    let buy = sigs.iter().find(|s| s.side == Side::Buy).unwrap();
    let sell = sigs.iter().find(|s| s.side == Side::Sell).unwrap();
    assert!(f(buy.price) < mid && mid < f(sell.price));
    assert!(buy.expected_edge_bps.map(f).unwrap_or(0.0) > 0.0);
}

#[test]
fn parameter_lists_are_read_pair_by_pair() {
    let kv = Params::parse(" a = 1 ,b=x=y,noise,,c=,a=2");
    assert_eq!(kv.get("a"), Some("2"));
    assert_eq!(kv.get("b"), Some("x=y"));
    assert_eq!(kv.get("c"), Some(""));
    assert_eq!(kv.get("noise"), None);
    assert_eq!(f(kv.number("a", b(9.0))), 2.0);
    assert_eq!(f(kv.number("b", b(9.0))), 9.0);
    assert_eq!(kv.count("a", 5), 2);
    assert_eq!(kv.integer("missing", -3), -3);
}

#[test]
fn trend_and_dca_parameters_have_defaults() {
    match create_strategy_with_params("trend", Some("slow_ma=50,fast_ma=bad"), PLAIN).unwrap() {
        StrategyPlan::Trend(t) => {
            assert_eq!((t.fast_ma, t.slow_ma, t.confirm_lookback), (7, 50, 25));
            assert_eq!(f(t.stop_loss), 0.03);
            assert_eq!(f(t.take_profit), 0.06);
            assert_eq!(f(t.notional), 1000.0);
            assert_eq!(t.adx_period, 14);
        }
        other => panic!("{other:?}"),
    }
    match create_strategy_with_params("dca", Some("amount=7.5"), PLAIN).unwrap() {
        StrategyPlan::Dca(d) => {
            assert_eq!((f(d.interval), f(d.amount), f(d.dip_threshold)), (4.0, 7.5, 2.0));
        }
        other => panic!("{other:?}"),
    }
}

#[test]
fn market_maker_parameters_are_read_and_checked() {
    let built = create_strategy_with_params(
        "mm",
        Some("order_amount=75,min_requote_secs=3,alpha_source=local,min_warmup_samples=0,vol_to_half_spread=2.5"),
        RESEARCH,
    )
    .unwrap();
    match built {
        StrategyPlan::MarketMaking(mm) => {
            assert_eq!(f(mm.params.order_notional), 75.0);
            assert_eq!(mm.params.min_requote_secs, 3);
            assert_eq!(mm.vol_settings.alpha_source, AlphaSource::Local);
            assert_eq!(mm.vol_settings.vol_obi.min_warmup_samples, 1);
            assert_eq!(f(mm.vol_settings.vol_obi.vol_to_half_spread), 2.5);
            assert!(mm.binance.is_none());
        }
        other => panic!("{other:?}"),
    }
    // The external alpha needs the volatility engine and a runtime.
    match create_strategy_with_params("mm", None, RESEARCH).unwrap() {
        StrategyPlan::MarketMaking(mm) => assert!(mm.binance.is_some()),
        other => panic!("{other:?}"),
    }
    match create_strategy_with_params("mm", Some("quote_engine=simple"), RESEARCH).unwrap() {
        StrategyPlan::MarketMaking(mm) => assert_eq!(mm.vol_settings.alpha_source, AlphaSource::Local),
        other => panic!("{other:?}"),
    }
    for bad in ["quote_engine=x", "alpha_source=x", "inventory_mode=x", "bid_spread=-1", "order_notional=0"] {
        assert!(create_strategy_with_params("mm", Some(bad), PLAIN).is_err(), "{bad}");
    }
}

fn armed(trend: bool) -> Config {
    Config::builder()
        .set_override("trading.strategies.trend_following.enabled", trend)
        .unwrap()
        .set_override("trading.strategies.maker_volume.enabled", true)
        .unwrap()
        .set_override("trading.strategies.maker_volume.allow_quotes", true)
        .unwrap()
        .build()
        .unwrap()
}

#[test]
fn armed_flags_attach_the_overlay_to_a_trend() {
    let now = Timestamp { secs: 1_700_000_001, nanos: 0 };
    for plan in [
        create_strategy(&armed(true), PLAIN).unwrap(),
        create_strategy_with_params_and_settings(
            "trend_following",
            Some("fast_ma=7,slow_ma=21,stop_loss=0.05,take_profit=0.06,notional=30"),
            Some(&armed(false)),
            PLAIN,
        )
        .unwrap(),
    ] {
        assert_eq!(plan.name(), "trend_following");
        assert!(plan.has_maker_volume_overlay());
        let StrategyPlan::SplitBook { mut maker, .. } = plan else {
            panic!("an overlay");
        };
        assert_eq!(maker.quote_engine(), QuoteEngine::Simple);
        let btc = snapshot("BTC", 1, 1_700_000_000, 69_965.0, 70_035.0);
        let sigs = maker.evaluate(&btc, now).unwrap().expect("btc maker quotes");
        assert!(sigs.iter().all(|sig| sig.market_id == 1));
        let eth = snapshot("ETH", 0, 1_700_000_000, 3_498.0, 3_502.0);
        assert!(maker.evaluate(&eth, now).unwrap().is_none(), "only BTC is quoted");
    }
    let disarmed = Config::builder().build().unwrap();
    let plain =
        create_strategy_with_params_and_settings("trend_following", None, Some(&disarmed), PLAIN).unwrap();
    assert_eq!(plain.name(), "trend_following");
    assert!(!plain.has_maker_volume_overlay());
}

#[test]
fn configurations_pick_the_first_enabled_strategy() {
    let nothing = Config::builder().build().unwrap();
    match create_strategy(&nothing, PLAIN).unwrap() {
        StrategyPlan::Grid(plan) => assert_eq!((plan.grid_count, f(plan.investment)), (10, 100.0)),
        other => panic!("{other:?}"),
    }
    let mm = Config::builder()
        .set_override("trading.strategies.market_making.enabled", true)
        .unwrap()
        .set_override("trading.strategies.market_making.quote_engine", "simple")
        .unwrap()
        .set_override("trading.strategies.market_making.vol_obi.window_steps", 1.5)
        .unwrap()
        .set_override("trading.strategies.market_making.vol_obi.step_ns", -4)
        .unwrap()
        .set_override("trading.strategies.maker_volume.enabled", false)
        .unwrap()
        .build()
        .unwrap();
    match create_strategy(&mm, PLAIN).unwrap() {
        StrategyPlan::MarketMaking(mm) => {
            assert_eq!(mm.quote_engine(), QuoteEngine::Simple);
            assert_eq!(mm.vol_settings.vol_obi.window_steps, 2);
            assert_eq!(mm.vol_settings.vol_obi.step_ns, 1);
            assert!(mm.maker_volume.is_some());
        }
        other => panic!("{other:?}"),
    }
    let gated = Config::builder()
        .set_override("trading.strategies.market_making.enabled", true)
        .unwrap()
        .set_override("trading.strategies.maker_volume.markets", vec![1])
        .unwrap()
        .build()
        .unwrap();
    match create_strategy(&gated, PLAIN).unwrap() {
        StrategyPlan::MarketMaking(mm) => assert!(!mm.maker_volume.unwrap().quotes_armed()),
        other => panic!("{other:?}"),
    }
    let ungated = Config::builder()
        .set_override("trading.strategies.market_making.enabled", true)
        .unwrap()
        .build()
        .unwrap();
    match create_strategy(&ungated, PLAIN).unwrap() {
        StrategyPlan::MarketMaking(mm) => assert!(mm.maker_volume.is_none()),
        other => panic!("{other:?}"),
    }
    let trend = Config::builder()
        .set_override("trading.strategies.trend_following.enabled", true)
        .unwrap()
        .set_override("trading.strategies.market_making.enabled", true)
        .unwrap()
        .set_override("trading.strategies.trend_following.slow_ma", 40)
        .unwrap()
        .build()
        .unwrap();
    match create_strategy(&trend, PLAIN).unwrap() {
        StrategyPlan::Trend(t) => assert_eq!((t.fast_ma, t.slow_ma, t.confirm_lookback), (10, 40, 20)),
        other => panic!("{other:?}"),
    }
}

#[test]
fn errors_say_what_was_refused() {
    let say = |name: &str, params: &str| {
        create_strategy_with_params(name, Some(params), PLAIN)
            .unwrap_err()
            .message()
    };
    assert_eq!(say("martingale", ""), "未知策略: martingale");
    assert_eq!(say("grid", "soft_cap=abc"), "soft_cap 解析失败: invalid float literal");
    assert_eq!(
        say("grid", "hard_cap="),
        "hard_cap 解析失败: cannot parse float from empty string"
    );
    assert_eq!("abc".parse::<f64>().unwrap_err().to_string(), "invalid float literal");
    assert_eq!(
        "".parse::<f64>().unwrap_err().to_string(),
        "cannot parse float from empty string"
    );
    assert_eq!(
        say("mm", "quote_engine= Avellaneda "),
        "unknown quote_engine 'avellaneda' (simple|vol_obi)"
    );
    assert_eq!(say("mm", "alpha_source=x"), "unknown alpha_source 'x' (local|binance)");
    assert_eq!(say("mm", "bid_spread=-1"), "bid_spread/ask_spread must be >= 0");
    assert_eq!(say("mm", "order_notional=0"), "order_notional must be > 0");
    assert_eq!(say("mm", "inventory_skew=-0.1"), "inventory_skew must be >= 0");
    assert_eq!(
        create_strategy(&live_config(Some(" Research_NoCap ")), RESEARCH)
            .unwrap_err()
            .message(),
        "实盘配置不允许 inventory_mode=research_nocap（研究专用）"
    );
    assert!(matches!(
        create_strategy_with_params("grid", Some("inventory_mode=research_nocap"), PLAIN),
        Err(StrategyError::ResearchModeLocked)
    ));
    assert!(matches!(
        create_strategy_with_params("grid", Some("inventory_mode=soft,soft_cap=5,hard_cap=5"), PLAIN),
        Err(StrategyError::CapsOutOfOrder)
    ));
    assert!(matches!(
        create_strategy_with_params("grid", Some("inventory_mode=loose"), PLAIN),
        Err(StrategyError::UnknownInventoryMode(s)) if s == "loose"
    ));
}
