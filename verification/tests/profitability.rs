use config::{Config, File, FileFormat};
use lighter_bot::binary64::B64;
use lighter_bot::risk::profitability::{
    GuardError, ProfitabilityGuard, SignalEconomics, DEFAULT_ADVERSE_SELECTION_BPS, DEFAULT_ENTRY_FEE_BPS,
    DEFAULT_EXIT_FEE_BPS,
};

fn b(x: f64) -> B64 {
    B64::from_bits(x.to_bits())
}

fn f(x: B64) -> f64 {
    f64::from_bits(x.to_bits())
}

fn settings(yaml: &str) -> Config {
    Config::builder()
        .add_source(File::from_str(yaml, FileFormat::Yaml))
        .build()
        .expect("test config")
}

#[test]
fn missing_profitability_keys_use_nonzero_friction_floors() {
    let guard = ProfitabilityGuard::from_config(&settings("\nprofitability:\n  enabled: true\n"))
        .expect("defaults must be valid");

    assert!(
        f(guard.entry_fee_bps()) > 0.0 && f(guard.exit_fee_bps()) > 0.0,
        "fee defaults must not silently assume advertised 0"
    );
    assert!((f(guard.entry_fee_bps()) - f64::from_bits(DEFAULT_ENTRY_FEE_BPS)).abs() < 1e-12);
    assert!((f(guard.exit_fee_bps()) - f64::from_bits(DEFAULT_EXIT_FEE_BPS)).abs() < 1e-12);
    assert!(f(guard.entry_slippage_bps()) > 0.0);
    assert!(f(guard.exit_slippage_bps()) > 0.0);
    assert!(f(guard.adverse_selection_bps()) > 0.0);
    assert!(
        (f(guard.adverse_selection_bps()) - f64::from_bits(DEFAULT_ADVERSE_SELECTION_BPS)).abs() < 1e-12
    );
    assert!(f(guard.total_cost_bps()) > 0.0);
    assert_eq!(f(guard.total_cost_bps()), 6.5);
}

#[test]
fn decisions_name_their_reason() {
    let guard = ProfitabilityGuard::from_config(&settings("other: 1\n")).unwrap();
    let decide = |edge: Option<f64>| guard.evaluate(SignalEconomics::entry(edge.map(b)));
    assert_eq!(decide(None).reason, "missing_expected_edge");
    assert_eq!(decide(Some(f64::NAN)).reason, "invalid_expected_edge");
    assert_eq!(decide(Some(-1.0)).reason, "invalid_expected_edge");
    assert!(decide(Some(-1.0)).net_edge_bps.is_none());
    // The net edge must exceed the required one, not just reach it.
    let low = decide(Some(7.5));
    assert!(!low.allowed);
    assert_eq!(low.reason, "insufficient_net_edge");
    assert_eq!(f(low.net_edge_bps.unwrap()), 1.0);
    let high = decide(Some(8.0));
    assert!(high.allowed);
    assert_eq!(high.reason, "positive_net_edge");
    assert_eq!(f(high.net_edge_bps.unwrap()), 1.5);
    let exit = guard.evaluate(SignalEconomics::exit());
    assert!(exit.allowed);
    assert_eq!(exit.reason, "risk_reducing_exit");
    let off = ProfitabilityGuard::from_config(&settings("profitability:\n  enabled: false\n")).unwrap();
    let pass = off.evaluate(SignalEconomics::entry(None));
    assert!(pass.allowed);
    assert_eq!(pass.reason, "guard_disabled");
}

#[test]
fn unusable_costs_are_refused() {
    let fail = |yaml: &str| ProfitabilityGuard::from_config(&settings(yaml)).unwrap_err();
    let e = ProfitabilityGuard::from_config(
        &Config::builder()
            .set_override("profitability.entry_fee_bps", f64::INFINITY)
            .unwrap()
            .build()
            .unwrap(),
    )
    .unwrap_err();
    assert!(matches!(e, GuardError::NotFinite("entry_fee_bps")));
    assert_eq!(e.message(), "profitability.entry_fee_bps must be finite");
    let e = fail("profitability:\n  exit_slippage_bps: -0.5\n");
    assert!(matches!(e, GuardError::NotFiniteOrNegative("exit_slippage_bps")));
    assert_eq!(
        e.message(),
        "profitability.exit_slippage_bps must be finite and >= 0"
    );
    let e = fail("profitability:\n  entry_fee_bps: -20.0\n");
    assert!(matches!(e, GuardError::NegativeTotal));
    assert_eq!(e.message(), "profitability total cost must be >= 0 after rebates");
    // A rebate that leaves the total positive is fine.
    assert!(ProfitabilityGuard::from_config(&settings("profitability:\n  entry_fee_bps: -2.0\n")).is_ok());
}

#[test]
fn larger_edges_never_pass_less() {
    let guard = ProfitabilityGuard::from_config(&settings("profitability:\n  enabled: true\n")).unwrap();
    let mut passed = false;
    for edge in [0.0, 1.0, 7.4, 7.5, 7.500001, 8.0, 100.0, 1e300] {
        let allowed = guard.evaluate(SignalEconomics::entry(Some(b(edge)))).allowed;
        assert!(allowed || !passed);
        passed = allowed;
    }
    assert!(passed);
}

#[test]
fn economics_compare_by_value() {
    assert_eq!(SignalEconomics::entry(Some(b(0.0))), SignalEconomics::entry(Some(b(-0.0))));
    assert_ne!(SignalEconomics::entry(Some(b(f64::NAN))), SignalEconomics::entry(Some(b(f64::NAN))));
    assert_eq!(SignalEconomics::exit(), SignalEconomics::exit());
    assert_ne!(SignalEconomics::exit(), SignalEconomics::entry(None));
    let guard = ProfitabilityGuard::from_config(&settings("other: 1\n")).unwrap();
    let decision = guard.evaluate(SignalEconomics::entry(Some(b(50.0))));
    assert_eq!(decision, guard.evaluate(SignalEconomics::entry(Some(b(50.0)))));
    assert_ne!(decision, guard.evaluate(SignalEconomics::exit()));
}
