use lighter_bot::binary64::B64;
use lighter_bot::strategy::rolling::RollingStats;

fn b(x: f64) -> B64 {
    B64::from_bits(x.to_bits())
}

fn f(x: B64) -> f64 {
    f64::from_bits(x.to_bits())
}

#[test]
fn mean_std_population() {
    let mut s = RollingStats::new(5);
    for v in [1.0, 2.0, 3.0, 4.0, 5.0] {
        s.push(b(v));
    }
    assert!((f(s.mean()) - 3.0).abs() < 1e-9);
    assert!((f(s.std_dev()) - 2.0_f64.sqrt()).abs() < 1e-9);
    assert!(f(s.zscore(b(3.0))).abs() < 1e-9);
    assert!((f(s.zscore(b(5.0))) - 2.0_f64.sqrt()).abs() < 1e-9);
}

#[test]
fn eviction_matches_window() {
    let mut s = RollingStats::new(3);
    for v in [1.0, 2.0, 3.0] {
        s.push(b(v));
    }
    assert!((f(s.mean()) - 2.0).abs() < 1e-9);
    s.push(b(4.0));
    assert!((f(s.mean()) - 3.0).abs() < 1e-9);
    s.push(b(5.0));
    assert!((f(s.mean()) - 4.0).abs() < 1e-9);
    assert!((f(s.std_dev()) - (2.0_f64 / 3.0).sqrt()).abs() < 1e-9);
}

#[test]
fn warmup_zero_std() {
    let mut s = RollingStats::new(10);
    s.push(b(42.0));
    assert_eq!(f(s.std_dev()), 0.0);
    assert_eq!(f(s.zscore(b(99.0))), 0.0);
}

#[test]
fn clearing_empties_the_window() {
    let mut s = RollingStats::new(2);
    s.push(b(1.0));
    s.push(b(9.0));
    assert_eq!(s.count(), 2);
    s.push(b(9.0));
    assert_eq!(s.count(), 2);
    s.clear();
    assert_eq!(s.count(), 0);
    assert_eq!(f(s.mean()), 0.0);
    s.push(b(4.0));
    assert_eq!(f(s.mean()), 4.0);
}

#[test]
fn statistics_follow_the_incremental_formulas() {
    // The same updates in machine numbers, bit for bit.
    let values = [3.25, -1.5, 100.125, 7.0, 7.0, 0.1, -55.5, 3.3, 9.75];
    let cap = 4usize;
    let mut s = RollingStats::new(cap);
    let mut window: Vec<f64> = Vec::new();
    let (mut sum, mut m2, mut mean) = (0.0f64, 0.0f64, 0.0f64);
    for v in values {
        s.push(b(v));
        if window.len() == cap {
            let old = window.remove(0);
            let n = cap as f64;
            let new_mean = if cap > 1 { mean + (mean - old) / (n - 1.0) } else { 0.0 };
            m2 -= (old - mean) * (old - new_mean);
            if m2 < 0.0 {
                m2 = 0.0;
            }
            sum -= old;
            mean = new_mean;
        }
        window.push(v);
        sum += v;
        let n = window.len() as f64;
        let new_mean = sum / n;
        m2 += (v - mean) * (v - new_mean);
        if m2 < 0.0 {
            m2 = 0.0;
        }
        mean = new_mean;
        let std = if window.len() >= 2 { (m2 / n).sqrt() } else { 0.0 };
        assert_eq!(s.mean().to_bits(), mean.to_bits());
        assert_eq!(s.std_dev().to_bits(), std.to_bits());
    }
}

#[test]
fn what_left_the_window_has_no_influence() {
    let mut s = RollingStats::new(3);
    for v in [1.0e6, -1.0e6, 3.0e5, 1.0, 2.0, 6.0] {
        s.push(b(v));
    }
    assert!((f(s.mean()) - 3.0).abs() < 1e-6);
    assert!((f(s.std_dev()) - (14.0_f64 / 3.0).sqrt()).abs() < 1e-3);
    let mut fresh = RollingStats::new(3);
    for v in [1.0, 2.0, 6.0] {
        fresh.push(b(v));
    }
    assert!((f(s.mean()) - f(fresh.mean())).abs() < 1e-6);
    assert!((f(fresh.std_dev()) - (14.0_f64 / 3.0).sqrt()).abs() < 1e-12);
}
