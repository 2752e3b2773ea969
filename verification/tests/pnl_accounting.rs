use lighter_bot::binary64::B64;
use lighter_bot::dashboard::pnl_accounting::{
    action_is_close_fill, correct_persisted_pnl, daily_mark_to_market, daily_pnl_sanity_cap, fill_notional,
    fill_stats_from_history, implied_realized, inception_pnl, min_equity_hint, position_increase_fill_action,
    realized_from_position_reductions, realized_needs_rebase, sanitize_daily_pnl_map, start_of_day_equity,
    trade_is_fill, PersistedPnlInputs,
};
use lighter_bot::json::Json;

fn b(x: f64) -> B64 {
    B64::from_bits(x.to_bits())
}

fn f(x: B64) -> f64 {
    f64::from_bits(x.to_bits())
}

#[test]
fn inception_matches_equity_minus_initial() {
    assert!((f(inception_pnl(b(1290.18), b(1295.566))) - (1290.18 - 1295.566)).abs() < 1e-12);
    assert_eq!(f(inception_pnl(b(100.0), b(0.0))), 0.0);
}

#[test]
fn vanished_book_with_flat_equity_is_not_realized_profit() {
    let booked = realized_from_position_reductions(b(0.05), b(-304.15), b(800.0), true);
    assert!(
        booked.is_none(),
        "incomplete snapshot must not mint realized PnL, got {booked:?}"
    );
}

#[test]
fn real_close_that_locks_in_unrealized_is_booked() {
    let booked = realized_from_position_reductions(b(0.0), b(-10.0), b(200.0), false);
    assert_eq!(booked, Some(b(10.0)));
}

#[test]
fn rebase_detects_the_aug14_drift() {
    let implied = implied_realized(b(1290.18), b(1295.566), b(0.0));
    assert!(realized_needs_rebase(b(324.40), implied));
    assert!(!realized_needs_rebase(implied, implied));
}

#[test]
fn large_identity_gap_is_still_detected_but_is_a_glitch() {
    let implied = implied_realized(b(1288.65), b(1295.566), b(200.0));
    assert!(realized_needs_rebase(b(-106.93), implied));
    assert!((f(implied) + 206.916).abs() < 0.01);
}

#[test]
fn start_of_day_uses_first_sample_on_that_utc_day() {
    let day = 20_680_i64;
    let ts0 = day * 86_400 + 100;
    let ts1 = day * 86_400 + 500;
    let hist = [(ts0, b(1000.0)), (ts1, b(1005.0))];
    assert_eq!(f(start_of_day_equity(&hist, ts1 + 10, b(999.0))), 1000.0);
    assert_eq!(f(daily_mark_to_market(b(994.0), b(1000.0))), -6.0);
    assert_eq!(f(start_of_day_equity(&hist, ts1 + 86_400, b(999.0))), 999.0);
    assert_eq!(f(start_of_day_equity(&hist, 0, b(999.0))), 999.0);
    let bad = [(ts0, b(-1.0)), (ts1, b(1005.0))];
    assert_eq!(f(start_of_day_equity(&bad, ts1, b(999.0))), 999.0);
}

fn record(text: &str) -> Json {
    Json::parse(text).expect("a document")
}

fn placement_open(price: f64, qty: f64) -> Json {
    record(&format!(
        r#"{{"action":"Open","price":{price:?},"quantity":{qty:?},"side":"Buy","symbol":"ETH"}}"#
    ))
}

fn fill_open(price: f64, qty: f64) -> Json {
    record(&format!(
        r#"{{"action":"Open","fill":true,"price":{price:?},"quantity":{qty:?},"side":"Buy","symbol":"ETH"}}"#
    ))
}

fn full_close(price: f64, qty: f64) -> Json {
    record(&format!(
        r#"{{"action":"Full Close","price":{price:?},"quantity":{qty:?},"side":"Sell","symbol":"ETH"}}"#
    ))
}

#[test]
fn placement_open_is_not_fill_volume() {
    let placement = placement_open(3500.0, 1.0);
    assert!(!trade_is_fill(&placement));
    let (volume, closes) = fill_stats_from_history(&[placement, fill_open(3500.0, 0.1)]);
    assert!((f(volume) - 350.0).abs() < 1e-9);
    assert_eq!(closes, 0);
}

#[test]
fn close_count_is_exact_actions_not_substrings() {
    assert!(action_is_close_fill("Full Close"));
    assert!(action_is_close_fill("Partial Close"));
    assert!(action_is_close_fill("Emergency Close"));
    assert!(action_is_close_fill("Liquidation"));
    assert!(!action_is_close_fill("unclosed"));
    assert!(!action_is_close_fill("stop"));
    assert!(!action_is_close_fill("Take Profit Stop"));
    assert!(!action_is_close_fill("Open"));
    let (volume, closes) = fill_stats_from_history(&[
        record(r#"{"action":"stop","price":100.0,"quantity":1.0}"#),
        full_close(100.0, 0.5),
        record(r#"{"action":"Partial Close","price":50.0,"quantity":1.0}"#),
    ]);
    assert_eq!(closes, 2);
    assert!((f(volume) - 100.0).abs() < 1e-9);
}

#[test]
fn position_increase_classifies_open_and_add() {
    let action = |prev: f64, new: f64, same: bool| position_increase_fill_action(b(prev), b(new), same, b(0.001));
    assert_eq!(action(0.0, 0.01, true), Some("Open"));
    assert_eq!(action(0.01, 0.02, true), Some("Add"));
    assert_eq!(action(0.01, 0.01, true), None);
    assert_eq!(action(0.01, 0.02, false), Some("Open"));
}

#[test]
fn load_time_rebase_drops_placement_volume_and_phantom_daily_days() {
    let daily = vec![
        ("2026-08-17".to_string(), b(1040.0)),
        ("2026-08-18".to_string(), b(1125.0)),
        ("2026-08-20".to_string(), b(-12.0)),
    ];
    let history = vec![
        placement_open(3500.0, 200.0),
        placement_open(500.0, 100.0),
        fill_open(2500.0, 1.0),
        full_close(2500.0, 0.2),
    ];
    let corrected = correct_persisted_pnl(PersistedPnlInputs {
        trade_history: history,
        total_volume: b(3_834_579.0),
        total_closed_trades: 705,
        total_realized_pnl: b(324.0),
        daily_pnl_map: daily,
        peak_equity: b(1296.0),
        equity_history: vec![(1, b(1295.0)), (2, b(1085.0))],
        initial_equity: b(1295.0),
        constructor_equity: b(1085.0),
        unrealized: b(0.0),
    });
    assert!(corrected.changed);
    assert_eq!(corrected.trade_history.len(), 2);
    assert!((f(corrected.total_volume) - 3000.0).abs() < 1e-9);
    assert_eq!(corrected.total_closed_trades, 1);
    assert!((f(corrected.total_realized_pnl) - (1085.0 - 1295.0)).abs() < 1e-9);
    let has = |day: &str| corrected.daily_pnl_map.iter().any(|(d, _)| d == day);
    assert!(
        !has("2026-08-17"),
        "a +$1k day is impossible when peak-min cash never moved that far"
    );
    assert!(!has("2026-08-18"));
}

#[test]
fn clean_fill_only_state_keeps_lifetime_counters() {
    let history = vec![fill_open(100.0, 1.0), full_close(100.0, 1.0)];
    let corrected = correct_persisted_pnl(PersistedPnlInputs {
        trade_history: history,
        total_volume: b(50_000.0),
        total_closed_trades: 40,
        total_realized_pnl: b(-5.0),
        daily_pnl_map: Vec::new(),
        peak_equity: b(1300.0),
        equity_history: vec![(1, b(1295.0))],
        initial_equity: b(1295.0),
        constructor_equity: b(1290.0),
        unrealized: b(0.0),
    });
    assert!((f(corrected.total_volume) - 50_000.0).abs() < 1e-9);
    assert_eq!(corrected.total_closed_trades, 40);
    assert_eq!(corrected.trade_history.len(), 2);
    assert!(!corrected.changed);
}

#[test]
fn implausible_lifetime_counters_are_reset_even_if_placements_aged_out() {
    let corrected = correct_persisted_pnl(PersistedPnlInputs {
        trade_history: vec![full_close(2500.0, 0.2)],
        total_volume: b(3_834_579.0),
        total_closed_trades: 705,
        total_realized_pnl: b(-215.0),
        daily_pnl_map: Vec::new(),
        peak_equity: b(1296.0),
        equity_history: vec![(1, b(1085.0))],
        initial_equity: b(1295.0),
        constructor_equity: b(1085.0),
        unrealized: b(0.0),
    });
    assert!((f(corrected.total_volume) - 500.0).abs() < 1e-9);
    assert_eq!(corrected.total_closed_trades, 1);
}

#[test]
fn fills_are_told_apart_from_placements() {
    assert!(trade_is_fill(&record(r#"{"fill":true}"#)));
    assert!(!trade_is_fill(&record(r#"{"fill":false,"action":"Full Close"}"#)));
    assert!(trade_is_fill(&record(r#"{"close_type":" Liquidation "}"#)));
    // An action that is no text hides the close type.
    assert!(!trade_is_fill(&record(r#"{"action":1,"close_type":"Liquidation"}"#)));
    assert_eq!(f(fill_notional(&record(r#"{"price":-3,"quantity":2.5}"#))), 7.5);
    assert_eq!(f(fill_notional(&record(r#"{"price":"3","quantity":2.5}"#))), 0.0);
}

#[test]
fn caps_and_hints_follow_the_equity_range() {
    assert_eq!(
        f(min_equity_hint(&[(1, b(5.0)), (2, b(f64::NAN)), (3, b(4.0))], b(9.0), b(8.0), b(7.0))),
        4.0
    );
    assert_eq!(f(min_equity_hint(&[(1, b(-5.0))], b(9.0), b(8.0), b(7.0))), 7.0);
    assert!(f(min_equity_hint(&[], b(0.0), b(-1.0), b(f64::NAN))).is_infinite());
    assert_eq!(f(daily_pnl_sanity_cap(b(110.0), b(100.0), b(104.0), b(3.0))), 15.0);
    assert_eq!(f(daily_pnl_sanity_cap(b(0.0), b(0.0), b(0.0), b(f64::NAN))), 1.5);
    let days = [
        ("a".to_string(), b(10.0)),
        ("b".to_string(), b(-20.0)),
        ("c".to_string(), b(f64::NAN)),
    ];
    let kept = sanitize_daily_pnl_map(&days, b(15.0), None);
    assert_eq!(kept.len(), 1);
    assert_eq!(kept[0].0, "a");
    // Far from the implied profit nothing is left.
    assert!(sanitize_daily_pnl_map(&days, b(15.0), Some(b(-41.0))).is_empty());
    assert_eq!(sanitize_daily_pnl_map(&days, b(15.0), Some(b(-40.0))).len(), 1);
}

#[test]
fn reductions_out_of_proportion_are_not_booked() {
    assert!(realized_from_position_reductions(b(100.0), b(0.0), b(50.0), false).is_none());
    assert_eq!(
        realized_from_position_reductions(b(9.0), b(0.0), b(1.0), false),
        Some(b(9.0))
    );
    assert!(realized_from_position_reductions(b(f64::NAN), b(0.0), b(1.0), false).is_none());
    assert!(realized_from_position_reductions(b(f64::MAX), b(f64::MIN), b(1.0), false).is_none());
}

#[test]
fn a_corrected_file_is_not_corrected_again() {
    let once = correct_persisted_pnl(PersistedPnlInputs {
        trade_history: vec![
            record(r#"{"action":"Open","price":100,"quantity":3}"#),
            fill_open(100.0, 1.0),
            full_close(101.0, 1.0),
        ],
        total_volume: b(9_000_000.0),
        total_closed_trades: 900,
        total_realized_pnl: b(324.0),
        daily_pnl_map: vec![("2026-08-17".to_string(), b(1000.0)), ("2026-08-18".to_string(), b(-4.0))],
        peak_equity: b(1300.0),
        equity_history: vec![(1, b(1290.0))],
        initial_equity: b(1295.0),
        constructor_equity: b(1290.0),
        unrealized: b(0.0),
    });
    assert!(once.changed);
    let volume = once.total_volume;
    let twice = correct_persisted_pnl(PersistedPnlInputs {
        trade_history: once.trade_history,
        total_volume: once.total_volume,
        total_closed_trades: once.total_closed_trades,
        total_realized_pnl: once.total_realized_pnl,
        daily_pnl_map: once.daily_pnl_map,
        peak_equity: b(1300.0),
        equity_history: vec![(1, b(1290.0))],
        initial_equity: b(1295.0),
        constructor_equity: b(1290.0),
        unrealized: b(0.0),
    });
    assert!(!twice.changed);
    assert_eq!(twice.total_volume, volume);
    assert_eq!(f(volume), 201.0);
    assert_eq!(twice.total_closed_trades, 1);
    assert_eq!(twice.daily_pnl_map.len(), 1);
}

#[test]
fn parsed_values_become_trees() {
    let value: serde_json::Value =
        serde_json::from_str(r#"{"price":-3,"quantity":2.5,"fill":true,"tags":[null,"x"]}"#).unwrap();
    let tree = Json::of(&value);
    assert!(trade_is_fill(&tree));
    assert_eq!(f(fill_notional(&tree)), 7.5);
    let tags = tree.get("tags").unwrap().as_array().unwrap();
    assert!(matches!(tags[0], Json::Null));
    assert_eq!(tags[1].as_str(), Some("x"));
}

#[test]
fn the_correction_keeps_each_day_once() {
    let days = vec![
        ("2026-01-01".to_string(), b(1.0)),
        ("2026-01-02".to_string(), b(f64::NAN)),
        ("2026-01-03".to_string(), b(-2.0)),
    ];
    let kept = sanitize_daily_pnl_map(&days, b(10.0), None);
    let names: Vec<&str> = kept.iter().map(|(day, _)| day.as_str()).collect();
    assert_eq!(names, vec!["2026-01-01", "2026-01-03"]);
    assert_eq!(f(kept[1].1), -2.0);
}

#[test]
fn copies_of_a_corrected_file_hold_the_same() {
    let value: serde_json::Value = serde_json::from_str(r#"{"action":"buy","price":2.0,"quantity":3.0,"fill":true}"#).unwrap();
    let once = correct_persisted_pnl(PersistedPnlInputs {
        trade_history: vec![Json::of(&value)],
        total_volume: b(6.0),
        total_closed_trades: 0,
        total_realized_pnl: b(0.0),
        daily_pnl_map: vec![("2026-01-01".to_string(), b(1.0))],
        peak_equity: b(1300.0),
        equity_history: vec![(1, b(1290.0))],
        initial_equity: b(1295.0),
        constructor_equity: b(1290.0),
        unrealized: b(0.0),
    });
    let copy = once.clone();
    assert_eq!(copy.trade_history.len(), once.trade_history.len());
    assert_eq!(f(fill_notional(&copy.trade_history[0])), 6.0);
    assert_eq!(copy.daily_pnl_map, once.daily_pnl_map);
    assert_eq!(copy.changed, once.changed);
}
