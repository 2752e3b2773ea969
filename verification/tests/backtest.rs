use config::{Config, File, FileFormat};
use lighter_bot::backtest::{commission_rate_from_config, DEFAULT_COMMISSION_RATE};

fn rate(settings: &Config) -> f64 {
    f64::from_bits(commission_rate_from_config(settings).to_bits())
}

#[test]
fn missing_or_zero_commission_uses_positive_floor() {
    let missing = Config::builder().build().expect("empty config");
    assert!(rate(&missing) > 0.0);
    assert_eq!(rate(&missing), f64::from_bits(DEFAULT_COMMISSION_RATE));
    assert_eq!(rate(&missing), 0.0002);

    let zero = Config::builder()
        .add_source(File::from_str(
            "backtest:\n  commission_percent: 0.0\n",
            FileFormat::Yaml,
        ))
        .build()
        .expect("zero commission yaml");
    assert!(rate(&zero) > 0.0);
    assert_eq!(rate(&zero), f64::from_bits(DEFAULT_COMMISSION_RATE));
}

#[test]
fn explicit_positive_commission_is_honored() {
    let settings = Config::builder()
        .add_source(File::from_str(
            "backtest:\n  commission_percent: 0.00015\n",
            FileFormat::Yaml,
        ))
        .build()
        .expect("positive commission yaml");
    assert!((rate(&settings) - 0.00015).abs() < 1e-12);
}

#[test]
fn unusable_commissions_fall_back() {
    for value in [-0.1, f64::INFINITY, f64::NAN] {
        let settings = Config::builder()
            .set_override("backtest.commission_percent", value)
            .unwrap()
            .build()
            .unwrap();
        assert_eq!(rate(&settings), 0.0002, "{value}");
    }
    let text = Config::builder()
        .set_override("backtest.commission_percent", "text")
        .unwrap()
        .build()
        .unwrap();
    assert_eq!(rate(&text), 0.0002);
}
