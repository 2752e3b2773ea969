//! The software numbers against the machine's.

use lighter_bot::binary64::consts;
use lighter_bot::binary64::{num, B64};

fn b(x: f64) -> B64 {
    B64::from_bits(x.to_bits())
}

fn f(x: B64) -> f64 {
    f64::from_bits(x.to_bits())
}

fn same(x: B64, y: f64) -> bool {
    x.to_bits() == y.to_bits() || (f(x).is_nan() && y.is_nan())
}

/// Numbers of every magnitude: exact ones, edges, and pseudo-random patterns.
fn samples() -> Vec<f64> {
    let mut v = vec![
        0.0,
        -0.0,
        1.0,
        -1.0,
        0.1,
        0.2,
        0.3,
        1.5,
        2.0,
        3.0,
        10.0,
        1e-12,
        1e12,
        123456.789,
        -987.654321,
        f64::MIN_POSITIVE,
        5e-324,
        -5e-324,
        2.2250738585072011e-308,
        f64::MAX,
        f64::MIN,
        f64::INFINITY,
        f64::NEG_INFINITY,
        f64::NAN,
        4503599627370496.5,
        9007199254740992.0,
        9007199254740993.0,
        0.49999999999999994,
        -2.5,
        2.5,
        1.0000000000000002,
    ];
    let mut state: u64 = 0x9E37_79B9_7F4A_7C15;
    for _ in 0..140 {
        state ^= state << 13;
        state ^= state >> 7;
        state ^= state << 17;
        v.push(f64::from_bits(state));
        // A moderate exponent, so that sums and quotients stay in range.
        let moderate = (state & 0x800F_FFFF_FFFF_FFFF) | ((1003 + (state >> 52) % 40) << 52);
        v.push(f64::from_bits(moderate));
    }
    v
}

#[test]
fn arithmetic_agrees_with_the_machine() {
    let v = samples();
    for &x in &v {
        for &y in &v {
            assert!(same(b(x).add(b(y)), x + y), "{x:?} + {y:?}");
            assert!(same(b(x).sub(b(y)), x - y), "{x:?} - {y:?}");
            assert!(same(b(x).mul(b(y)), x * y), "{x:?} * {y:?}");
            assert!(same(b(x).div(b(y)), x / y), "{x:?} / {y:?}");
        }
    }
}

#[test]
fn comparisons_agree_with_the_machine() {
    let v = samples();
    for &x in &v {
        for &y in &v {
            assert_eq!(b(x).lt(b(y)), x < y);
            assert_eq!(b(x).le(b(y)), x <= y);
            assert_eq!(b(x).gt(b(y)), x > y);
            assert_eq!(b(x).ge(b(y)), x >= y);
            assert_eq!(b(x).eq_num(b(y)), x == y);
            assert_eq!(b(x).total_lt(b(y)), x.total_cmp(&y).is_lt());
            if x != y {
                assert!(same(b(x).max(b(y)), x.max(y)));
                assert!(same(b(x).min(b(y)), x.min(y)));
            }
            if x <= y {
                assert!(same(b(0.25).clamp(b(x), b(y)), 0.25f64.clamp(x, y)));
            }
        }
    }
}

#[test]
fn unary_operations_agree_with_the_machine() {
    for &x in &samples() {
        assert!(same(b(x).neg(), -x));
        assert!(same(b(x).abs(), x.abs()));
        assert!(same(b(x).sqrt(), x.sqrt()), "sqrt {x:?}");
        assert!(same(b(x).floor(), x.floor()), "floor {x:?}");
        assert!(same(b(x).ceil(), x.ceil()), "ceil {x:?}");
        assert_eq!(b(x).is_finite(), x.is_finite());
        assert_eq!(b(x).to_u64(), x as u64);
        assert_eq!(b(x).to_i64(), x as i64);
    }
}

#[test]
fn integers_convert_like_the_machine() {
    for n in [0u64, 1, 7, 1 << 52, (1 << 53) + 1, u64::MAX, u64::MAX - 1, 0xFFFF_FFFF_FFFF_FC00] {
        assert!(same(B64::from_u64(n), n as f64));
        assert!(same(B64::from_i64(n as i64), n as i64 as f64));
    }
}

#[test]
fn texts_read_like_the_machine() {
    let texts = [
        "0", "-0", "1", "+1", "1.", ".5", "-.5e3", "1e400", "1e-400", "123456789012345678901234567890", "0.1",
        "2.2250738585072011e-308", "4.9e-324", "2.4e-324", "1.7976931348623159e308", "9007199254740993",
        "0.000866", "1295.50", "1e5", "1E+5", "1e-5", "inf", "-Infinity", "nan", "", "+", ".", "e5", "1e", "1 ", " 1",
        "0x10", "1_000", "--1", "1.2.3", "infinit", "69253.9", "00012.500",
    ];
    for t in texts {
        let chars: Vec<char> = t.chars().collect();
        match (B64::parse(&chars), t.parse::<f64>()) {
            (Some(x), Ok(y)) => assert!(same(x, y), "{t}"),
            (None, Err(_)) => {}
            (x, y) => panic!("{t}: {x:?} {y:?}"),
        }
    }
}

#[test]
fn powers_of_ten_agree_with_the_machine() {
    for k in -30..30 {
        let text = format!("1e{k}");
        assert!(same(B64::power_of_ten(k), text.parse::<f64>().unwrap()));
    }
}

#[test]
fn constants_are_what_their_names_say() {
    let pairs = [
        (consts::ZERO, 0.0),
        (consts::ONE, 1.0),
        (consts::TWO, 2.0),
        (consts::FOUR, 4.0),
        (consts::FIVE, 5.0),
        (consts::SIX, 6.0),
        (consts::EIGHT, 8.0),
        (consts::TEN, 10.0),
        (consts::TWENTY, 20.0),
        (consts::TWENTY_FIVE, 25.0),
        (consts::FORTY, 40.0),
        (consts::FIFTY, 50.0),
        (consts::SIXTY, 60.0),
        (consts::HUNDRED, 100.0),
        (consts::FIVE_HUNDRED, 500.0),
        (consts::THOUSAND, 1000.0),
        (consts::TEN_THOUSAND, 10_000.0),
        (consts::BILLION, 1e9),
        (consts::HALF, 0.5),
        (consts::QUARTER, 0.25),
        (consts::ONE_AND_A_HALF, 1.5),
        (consts::MINUS_ONE, -1.0),
        (consts::P02, 0.02),
        (consts::P01, 0.01),
        (consts::P001, 0.001),
        (consts::P008, 0.008),
        (consts::P03, 0.03),
        (consts::P05, 0.05),
        (consts::P06, 0.06),
        (consts::P1, 0.1),
        (consts::P025, 0.025),
        (consts::P35, 0.35),
        (consts::P45, 0.45),
        (consts::P65, 0.65),
        (consts::P75, 0.75),
        (consts::P85, 0.85),
        (consts::ONE_P15, 1.15),
        (consts::ONE_P0001, 1.0001),
        (consts::TINY_6, 1e-6),
        (consts::TINY_8, 1e-8),
        (consts::TINY_9, 1e-9),
        (consts::TINY_10, 1e-10),
        (consts::TINY_12, 1e-12),
        (consts::EPSILON, f64::EPSILON),
        (consts::INFINITY, f64::INFINITY),
    ];
    for (bits, x) in pairs {
        assert_eq!(f(num(bits)), x);
    }
    assert!(f(num(consts::NAN)).is_nan());
}

#[test]
fn six_places_are_those_of_the_machine() {
    let mut samples: Vec<f64> = vec![
        0.0,
        -0.0,
        1.0,
        -1.5,
        0.0000005,
        0.0000015,
        0.0000025,
        0.00000049999,
        1.0 / 3.0,
        123456.789,
        70_000.123_456_5,
        9_007_199_254_740_991.5,
        9_007_199_254_740_992.0,
        1e22,
        1e300,
        f64::MAX,
        -f64::MAX,
        f64::MIN_POSITIVE,
        5e-324,
        f64::INFINITY,
        f64::NEG_INFINITY,
        f64::NAN,
        0.5f64.powi(7),
        3.0 * 0.5f64.powi(7),
        5.0 * 0.5f64.powi(9),
    ];
    let mut bits: u64 = 0x9E37_79B9_7F4A_7C15;
    for _ in 0..4000 {
        bits ^= bits << 13;
        bits ^= bits >> 7;
        bits ^= bits << 17;
        samples.push(f64::from_bits(bits));
        samples.push((bits % 1_000_000_007) as f64 / 4096.0 / 1024.0);
    }
    for x in samples {
        assert_eq!(B64::from_bits(x.to_bits()).to_fixed(), format!("{:.6}", x));
    }
}
