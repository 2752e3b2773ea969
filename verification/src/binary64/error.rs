//! How far rounding moves a result.

use vstd::arithmetic::power2::{
    lemma2_to64, lemma2_to64_rest, lemma_pow2_adds, lemma_pow2_pos, lemma_pow2_unfold, pow2,
};
use vstd::prelude::*;

use super::arith::abs_int;
use super::consts::{ONE, ZERO};
use super::facts::{
    lemma_add_value, lemma_div_value, lemma_floor_value, lemma_mul_value, lemma_rounded_range, lemma_units_order,
    lemma_value_range, signed_rounding,
};
use super::layout::{
    exponent_of, lemma_split, lemma_units_mono, lemma_units_of, lemma_units_step, lemma_units_zero,
};
use super::rounding::{
    lemma_rounded_exact, lemma_rounded_is_nearest, lemma_rounded_mono, nearest, nearest_root, rounded,
    rounded_root,
};
use super::{num, units, B64, HIDDEN, INF_MAG, UNIT_EXP};

verus! {

/// A whole number among the reals.
pub open spec fn whole(n: int) -> real {
    n as real
}

/// The size of a real number.
pub open spec fn size(x: real) -> real {
    if x < 0real {
        -x
    } else {
        x
    }
}

/// The number of units in 1.
pub open spec fn units_in_one() -> real {
    whole(pow2(UNIT_EXP as nat) as int)
}

/// The smallest number above 0.
#[verifier::opaque]
pub open spec fn smallest() -> real {
    1real / units_in_one()
}

/// The gap between 1 and the next number.
pub open spec fn gap() -> real {
    1real / 4503599627370496real
}

/// A power of two that rounding does not reach infinity from.
pub open spec fn limit() -> real {
    whole(pow2(1023) as int)
}

impl B64 {
    /// The exact value of a number.
    #[verifier::opaque]
    pub open spec fn exact(self) -> real {
        whole(self.value()) / units_in_one()
    }

    /// Whether a number is a real one up to rounding.
    #[verifier::opaque]
    pub open spec fn near(self, x: real) -> bool {
        self.finite() && size(self.exact() - x) <= gap() * size(x) + smallest()
    }
}

pub proof fn lemma_whole_product(a: int, b: int)
    by (nonlinear_arith)
    ensures
        whole(a * b) == whole(a) * whole(b),
{
}

pub proof fn lemma_ratio_times(a: real, b: real)
    by (nonlinear_arith)
    requires
        b > 0real,
    ensures
        (a / b) * b == a,
{
}

proof fn lemma_one_positive()
    ensures
        units_in_one() > 0real,
        smallest() > 0real,
        smallest() * units_in_one() == 1real,
{
    reveal(smallest);
    lemma_pow2_pos(UNIT_EXP as nat);
    lemma_ratio_times(1real, units_in_one());
    let one = units_in_one();
    let s = smallest();
    assert(s > 0real) by (nonlinear_arith)
        requires
            s * one == 1real,
            one > 0real,
    ;
}

/// A number below the limit does not round to infinity.
proof fn lemma_rounded_finite(n: int, den: int)
    requires
        0 <= n,
        den > 0,
        n <= den * pow2(2097),
    ensures
        rounded(n, den) < INF_MAG,
{
    let big: int = 2046 * HIDDEN;
    lemma_units_of(2045, HIDDEN as int);
    lemma2_to64();
    lemma2_to64_rest();
    lemma_pow2_adds(52, 2045);
    assert(units(big) == pow2(2097));
    assert(n * den <= (units(big) * den) * den) by (nonlinear_arith)
        requires
            n <= den * units(big),
            den > 0,
    ;
    assert(units(big) * den >= 0) by (nonlinear_arith)
        requires
            units(big) >= 0,
            den > 0,
    ;
    lemma_pow2_pos(2097);
    lemma_rounded_mono(n, den, units(big) * den, den);
    lemma_rounded_exact(big, den);
}

/// The rounding of a number that does not round to infinity is off by half a
/// gap at most.
proof fn lemma_rounded_error(n: int, den: int)
    requires
        0 <= n,
        den > 0,
        rounded(n, den) < INF_MAG,
    ensures
        0 <= rounded(n, den),
        ({
            let u = units(rounded(n, den));
            let twice = 2 * abs_int(n - den * u);
            twice <= den || twice * HIDDEN <= den * u
        }),
        units(rounded(n, den)) >= 0,
{
    let m = rounded(n, den);
    lemma_rounded_is_nearest(n, den);
    lemma_rounded_range(n, den);
    lemma2_to64();
    let u = units(m);
    let t = exponent_of(m);
    lemma_units_step(m);
    lemma_split(m);
    let g = pow2(t) as int;
    let above = den * (units(m) + units(m + 1));
    assert(2 * n <= above);
    assert(2 * (n - den * u) <= den * g) by (nonlinear_arith)
        requires
            2 * n <= above,
            above == den * (u + (u + g)),
    ;
    assert(2 * (den * u - n) <= den * g) by {
        if 0 < m {
            lemma_units_step(m - 1);
            lemma_split(m - 1);
            let f = pow2(exponent_of(m - 1)) as int;
            assert(exponent_of(m - 1) <= t) by {
                assert((m - 1) / (HIDDEN as int) <= m / (HIDDEN as int)) by {
                    vstd::arithmetic::div_mod::lemma_div_is_ordered(m - 1, m, HIDDEN as int);
                }
            }
            if exponent_of(m - 1) < t {
                vstd::arithmetic::power2::lemma_pow2_strictly_increases(exponent_of(m - 1), t);
            }
            let below = den * (units(m - 1) + units(m));
            assert(below <= 2 * n);
            assert(2 * (den * u - n) <= den * g) by (nonlinear_arith)
                requires
                    below <= 2 * n,
                    below == den * ((u - f) + u),
                    f <= g,
                    den > 0,
            ;
        } else {
            lemma_units_zero();
            assert(den * u == 0) by (nonlinear_arith)
                requires
                    u == 0,
            ;
            assert(den * g >= 0) by (nonlinear_arith)
                requires
                    den > 0,
                    g > 0,
            ;
        }
    }
    let twice = 2 * abs_int(n - den * u);
    assert(twice <= den * g);
    if t == 0 {
        assert(den * g == den) by (nonlinear_arith)
            requires
                g == 1,
        ;
    } else {
        let q = super::layout::significand_of(m);
        assert(twice * HIDDEN <= den * u) by (nonlinear_arith)
            requires
                twice <= den * g,
                u == q * g,
                q >= HIDDEN,
                den > 0,
                g > 0,
        ;
    }
}

/// A ratio of units, rounded with its sign, is off by little.
proof fn lemma_signed_error(v: int, den: int, x: real)
    requires
        den > 0,
        x * whole(den) == whole(v),
        size(x) <= whole(pow2(2097) as int) || rounded(abs_int(v), den) < INF_MAG,
    ensures
        size(whole(signed_rounding(v, den)) - x) <= gap() * size(x) + 1real,
        -units(INF_MAG as int) < signed_rounding(v, den) < units(INF_MAG as int),
{
    let n = abs_int(v);
    let d = whole(den);
    let big = pow2(2097) as int;
    let bigr = whole(big);
    lemma_whole_product(den, big);
    assert(whole(n) == size(whole(v)));
    if rounded(n, den) >= INF_MAG {
        assert(whole(n) <= d * bigr) by (nonlinear_arith)
            requires
                x * d == whole(v),
                d > 0real,
                size(x) <= bigr,
                whole(n) == size(whole(v)),
                size(x) == (if x < 0real { -x } else { x }),
                size(whole(v)) == (if whole(v) < 0real { -whole(v) } else { whole(v) }),
        ;
        assert(n <= den * pow2(2097));
        lemma_rounded_finite(n, den);
    }
    lemma_rounded_error(n, den);
    lemma_units_mono(rounded(n, den), INF_MAG as int);
    lemma_units_order(0, INF_MAG as int);
    lemma_units_zero();
    lemma_units_mono(0, INF_MAG as int);
    let u = units(rounded(n, den));
    let ur = whole(u);
    let y = size(x);
    lemma_whole_product(den, u);
    let twice = 2 * abs_int(n - den * u);
    let diff = n - den * u;
    assert(whole(diff) == whole(n) - whole(den * u));
    assert(whole(abs_int(diff)) == size(whole(diff)));
    lemma_whole_product(2, abs_int(diff));
    assert(y * d == whole(n)) by (nonlinear_arith)
        requires
            x * d == whole(v),
            d > 0real,
            whole(n) == size(whole(v)),
            y == (if x < 0real { -x } else { x }),
            size(whole(v)) == (if whole(v) < 0real { -whole(v) } else { whole(v) }),
    ;
    let h = whole(HIDDEN as int);
    let e = size(ur - y);
    assert(whole(twice) == 2real * (e * d)) by (nonlinear_arith)
        requires
            whole(twice) == 2real * size(whole(n) - d * ur),
            y * d == whole(n),
            d > 0real,
            e == (if ur - y < 0real { -(ur - y) } else { ur - y }),
            size(whole(n) - d * ur) == (if whole(n) - d * ur < 0real { -(whole(n) - d * ur) } else {
                whole(n) - d * ur
            }),
    ;
    let g = gap();
    lemma_ratio_times(1real, h);
    assert(g * h == 1real);
    if twice <= den {
        assert(e <= 1real) by (nonlinear_arith)
            requires
                2real * (e * d) <= d,
                d > 0real,
        ;
        assert(g * y >= 0real) by (nonlinear_arith)
            requires
                y >= 0real,
                g * h == 1real,
                h > 0real,
        ;
    } else {
        lemma_whole_product(twice, HIDDEN as int);
        assert(2real * e * h <= ur) by (nonlinear_arith)
            requires
                2real * (e * d) * h <= d * ur,
                d > 0real,
        ;
        assert(e <= g * y) by (nonlinear_arith)
            requires
                2real * e * h <= ur,
                ur <= y + e,
                h >= 2real,
                g * h == 1real,
                e >= 0real,
        ;
    }
    assert(size(whole(signed_rounding(v, den)) - x) == e) by {
        if v < 0 {
            assert(x < 0real) by (nonlinear_arith)
                requires
                    x * d == whole(v),
                    whole(v) < 0real,
                    d > 0real,
            ;
        } else {
            assert(x >= 0real) by (nonlinear_arith)
                requires
                    x * d == whole(v),
                    whole(v) >= 0real,
                    d > 0real,
            ;
        }
    }
}

/// Scaling both sides of an error bound down by the units in 1.
proof fn lemma_scaled_down(r: real, x: real)
    requires
        size(r - x) <= gap() * size(x) + 1real,
    ensures
        size(r / units_in_one() - x / units_in_one()) <= gap() * size(x / units_in_one()) + smallest(),
{
    reveal(smallest);
    lemma_one_positive();
    let one = units_in_one();
    let a = r / one;
    let b = x / one;
    lemma_ratio_times(r, one);
    lemma_ratio_times(x, one);
    let s = smallest();
    let g = gap();
    assert(size(a - b) <= g * size(b) + s) by (nonlinear_arith)
        requires
            a * one == r,
            b * one == x,
            s * one == 1real,
            one > 0real,
            size(r - x) <= g * size(x) + 1real,
            size(r - x) == (if r - x < 0real { -(r - x) } else { r - x }),
            size(x) == (if x < 0real { -x } else { x }),
            size(a - b) == (if a - b < 0real { -(a - b) } else { a - b }),
            size(b) == (if b < 0real { -b } else { b }),
    ;
}

/// The limit in units.
proof fn lemma_limit(x: real)
    requires
        size(x / units_in_one()) <= limit(),
    ensures
        size(x) <= whole(pow2(2097) as int),
{
    lemma_one_positive();
    lemma_pow2_adds(1023, UNIT_EXP as nat);
    lemma_whole_product(pow2(1023) as int, pow2(UNIT_EXP as nat) as int);
    let one = units_in_one();
    let b = x / one;
    lemma_ratio_times(x, one);
    let l = limit();
    assert(size(x) <= l * one) by (nonlinear_arith)
        requires
            b * one == x,
            one > 0real,
            size(b) <= l,
            size(x) == (if x < 0real { -x } else { x }),
            size(b) == (if b < 0real { -b } else { b }),
    ;
}

/// A result whose value is a rounded ratio of units.
pub proof fn lemma_result_near(r: B64, v: int, den: int, x: real)
    requires
        !r.nan(),
        r.value() == signed_rounding(v, den),
        den > 0,
        x * whole(den) == whole(v),
        r.finite() || size(x / units_in_one()) <= limit(),
    ensures
        r.near(x / units_in_one()),
{
    reveal(B64::exact);
    reveal(B64::near);
    if r.finite() {
        lemma_value_range(r);
        lemma_rounded_range(abs_int(v), den);
        assert(rounded(abs_int(v), den) < INF_MAG);
    } else {
        lemma_limit(x);
    }
    lemma_signed_error(v, den, x);
    lemma_scaled_down(whole(r.value()), x);
    lemma_value_range(r);
}

/// A sum that does not overflow is exact up to rounding.
pub proof fn lemma_add_near(a: B64, b: B64)
    requires
        a.finite(),
        b.finite(),
        a.add(b).finite() || size(a.exact() + b.exact()) <= limit(),
    ensures
        a.add(b).near(a.exact() + b.exact()),
{
    reveal(B64::exact);
    lemma_add_value(a, b);
    lemma_one_positive();
    let one = units_in_one();
    let x = whole(a.value() + b.value());
    assert(x / one == a.exact() + b.exact()) by (nonlinear_arith)
        requires
            x == whole(a.value()) + whole(b.value()),
            a.exact() == whole(a.value()) / one,
            b.exact() == whole(b.value()) / one,
            one > 0real,
    ;
    assert(x * 1real == x) by (nonlinear_arith);
    lemma_result_near(a.add(b), a.value() + b.value(), 1, x);
}

/// A difference that does not overflow is exact up to rounding.
pub proof fn lemma_sub_near(a: B64, b: B64)
    requires
        a.finite(),
        b.finite(),
        a.sub(b).finite() || size(a.exact() - b.exact()) <= limit(),
    ensures
        a.sub(b).near(a.exact() - b.exact()),
{
    reveal(B64::exact);
    reveal(B64::spec_sub);
    let c = b.neg();
    assert(c.value() == -b.value());
    lemma_one_positive();
    let one = units_in_one();
    assert(c.exact() == -b.exact()) by (nonlinear_arith)
        requires
            c.exact() == (-whole(b.value())) / one,
            b.exact() == whole(b.value()) / one,
            one > 0real,
    ;
    lemma_add_near(a, c);
}

/// A product that does not overflow is exact up to rounding.
pub proof fn lemma_mul_near(a: B64, b: B64)
    requires
        a.finite(),
        b.finite(),
        a.mul(b).finite() || size(a.exact() * b.exact()) <= limit(),
    ensures
        a.mul(b).near(a.exact() * b.exact()),
{
    reveal(B64::exact);
    lemma_mul_value(a, b);
    lemma_one_positive();
    lemma_pow2_pos(UNIT_EXP as nat);
    let one = units_in_one();
    let v = a.value() * b.value();
    lemma_whole_product(a.value(), b.value());
    let x = whole(v) / one;
    lemma_ratio_times(whole(v), one);
    assert(x / one == a.exact() * b.exact()) by (nonlinear_arith)
        requires
            x == (whole(a.value()) * whole(b.value())) / one,
            a.exact() == whole(a.value()) / one,
            b.exact() == whole(b.value()) / one,
            one > 0real,
    ;
    lemma_result_near(a.mul(b), v, pow2(UNIT_EXP as nat) as int, x);
}

/// A quotient by a positive number that does not overflow is exact up to
/// rounding.
pub proof fn lemma_div_near(a: B64, b: B64)
    requires
        a.finite(),
        b.finite(),
        b.exact() > 0real,
        a.div(b).finite() || size(a.exact() / b.exact()) <= limit(),
    ensures
        a.div(b).near(a.exact() / b.exact()),
{
    reveal(B64::exact);
    lemma_one_positive();
    let one = units_in_one();
    let bv = whole(b.value());
    assert(bv > 0real) by (nonlinear_arith)
        requires
            bv / one > 0real,
            one > 0real,
    ;
    lemma_div_value(a, b);
    let k = pow2(UNIT_EXP as nat) as int;
    lemma_whole_product(a.value(), k);
    let v = a.value() * k;
    let x = whole(v) / bv;
    lemma_ratio_times(whole(v), bv);
    let av = whole(a.value());
    assert(x / one == (av / one) / (bv / one)) by (nonlinear_arith)
        requires
            x == (av * one) / bv,
            bv > 0real,
            one > 0real,
    ;
    lemma_result_near(a.div(b), v, b.value(), x);
}

/// A whole number up to a power of two has a magnitude.
proof fn lemma_scaled_magnitude(q: int, t: nat) -> (mag: int)
    requires
        0 < q <= 2 * HIDDEN,
        t <= UNIT_EXP,
    ensures
        0 <= mag < INF_MAG,
        units(mag) == q * pow2(t),
    decreases t,
{
    if t == 0 || q >= HIDDEN {
        lemma_units_of(t, q);
        assert(0 <= t * HIDDEN + q < INF_MAG) by (nonlinear_arith)
            requires
                0 < q <= 2 * HIDDEN,
                0 <= t <= 1074,
                HIDDEN == 0x10_0000_0000_0000,
                INF_MAG == 0x7FF0_0000_0000_0000,
        ;
        t * HIDDEN + q
    } else {
        lemma_pow2_unfold(t);
        let mag = lemma_scaled_magnitude(2 * q, (t - 1) as nat);
        let p = pow2((t - 1) as nat) as int;
        assert((2 * q) * p == q * (2 * p)) by (nonlinear_arith);
        mag
    }
}

/// Counts up to `2^53` are exact, and so is one less.
pub proof fn lemma_count_exact(n: u64)
    requires
        0 < n <= 2 * HIDDEN,
    ensures
        B64::from_u64(n).finite(),
        B64::from_u64(n).exact() == whole(n as int),
        n > 1 ==> {
            &&& B64::from_u64(n).sub(num(ONE)).finite()
            &&& B64::from_u64(n).sub(num(ONE)).exact() == whole(n - 1)
        },
{
    reveal(B64::spec_from_u64);
    lemma_one_positive();
    lemma_pow2_pos(UNIT_EXP as nat);
    let one = pow2(UNIT_EXP as nat) as int;
    let mag = lemma_scaled_magnitude(n as int, UNIT_EXP as nat);
    lemma_rounded_exact(mag, 1);
    let c = B64::from_u64(n);
    assert(c.value() == n * one);
    lemma_count_value(c, n as int);
    if n > 1 {
        let less = lemma_scaled_magnitude(n - 1, UNIT_EXP as nat);
        lemma_rounded_exact(less, 1);
        lemma_units_of(1022, HIDDEN as int);
        lemma2_to64();
        lemma2_to64_rest();
        lemma_pow2_adds(52, 1022);
        let minus = num(ONE).neg();
        assert(minus.value() == -one);
        assert(n * one - one == (n - 1) * one) by (nonlinear_arith);
        assert((n - 1) * one > 0) by (nonlinear_arith)
            requires
                n > 1,
                one > 0,
        ;
        reveal(B64::spec_sub);
        reveal(B64::spec_add);
        let d = c.sub(num(ONE));
        assert(d.value() == (n - 1) * one);
        lemma_count_value(d, n - 1);
    }
}

proof fn lemma_count_value(c: B64, n: int)
    requires
        c.value() == n * pow2(UNIT_EXP as nat),
    ensures
        c.exact() == whole(n),
{
    reveal(B64::exact);
    lemma_one_positive();
    lemma_whole_product(n, pow2(UNIT_EXP as nat) as int);
    let one = units_in_one();
    assert((whole(n) * one) / one == whole(n)) by (nonlinear_arith)
        requires
            one > 0real,
    ;
}

proof fn lemma_root_search(m: int, n: int)
    requires
        0 <= n,
        0 <= m <= INF_MAG,
        m < INF_MAG ==> {
            let twice = units(m) + units(m + 1);
            4 * n < twice * twice || (4 * n == twice * twice && m % 2 == 0)
        },
    ensures
        exists|k: int| nearest_root(k, n),
    decreases m,
{
    if m > 0 && !nearest_root(m, n) {
        lemma_root_search(m - 1, n);
    } else {
        assert(nearest_root(m, n));
    }
}

/// A square root is exact up to rounding: its square is off by little.
pub proof fn lemma_sqrt_near(a: B64)
    requires
        a.finite(),
        a.exact() >= 0real,
    ensures
        a.sqrt().finite(),
        a.sqrt().exact() >= 0real,
        size(a.sqrt().exact() * a.sqrt().exact() - a.exact()) <= 4real * gap() * a.exact(),
{
    reveal(B64::exact);
    reveal(B64::spec_sqrt);
    lemma_one_positive();
    lemma_units_zero();
    let one = units_in_one();
    let g = gap();
    lemma_ratio_times(1real, whole(HIDDEN as int));
    let av = whole(a.value());
    assert(av >= 0real) by (nonlinear_arith)
        requires
            av / one >= 0real,
            one > 0real,
    ;
    lemma_units_order(0, a.mag());
    if a.zero() {
        assert(a.exact() == 0real) by (nonlinear_arith)
            requires
                a.exact() == 0real / one,
                one > 0real,
        ;
        let z = a.exact();
        assert(z * z == 0real && 4real * g * z == 0real) by (nonlinear_arith)
            requires
                z == 0real,
        ;
    } else {
        lemma_units_mono(0, a.mag());
        lemma_value_range(a);
        assert(!a.negative());
        let p = pow2(UNIT_EXP as nat) as int;
        lemma_pow2_pos(UNIT_EXP as nat);
        let v = a.value();
        let n = v * p;
        assert(n >= p) by (nonlinear_arith)
            requires
                n == v * p,
                v >= 1,
                p > 0,
        ;
        reveal(rounded_root);
        lemma_root_search(INF_MAG as int, n);
        let m = rounded_root(n);
        assert(nearest_root(m, n));
        lemma_root_is_ordinary(m, v);
        let u = units(m);
        let r = a.sqrt();
        assert(r.value() == u);
        let ur = whole(u);
        lemma_whole_product(u, u);
        lemma_whole_product(v, p);
        lemma_whole_product(HIDDEN as int, abs_int(u * u - n));
        lemma_whole_product(2, u * u);
        let h = whole(HIDDEN as int);
        let e = size(ur * ur - av * one);
        assert(whole(abs_int(u * u - n)) == e);
        assert(h * e <= 2real * (ur * ur));
        let x = r.exact();
        let y = a.exact();
        lemma_ratio_times(ur, one);
        lemma_ratio_times(av, one);
        let f = size(x * x - y);
        assert(f * (one * one) == e) by (nonlinear_arith)
            requires
                x * one == ur,
                y * one == av,
                one > 0real,
                f == (if x * x - y < 0real { -(x * x - y) } else { x * x - y }),
                e == (if ur * ur - av * one < 0real { -(ur * ur - av * one) } else { ur * ur - av * one }),
        ;
        assert(h * f <= 2real * (x * x)) by (nonlinear_arith)
            requires
                h * e <= 2real * (ur * ur),
                f * (one * one) == e,
                x * one == ur,
                one > 0real,
        ;
        assert(x >= 0real) by (nonlinear_arith)
            requires
                x * one == ur,
                ur >= 0real,
                one > 0real,
        ;
        assert(f <= 4real * g * y) by (nonlinear_arith)
            requires
                h * f <= 2real * (x * x),
                x * x <= y + f,
                h >= 4real,
                g * h == 1real,
                f >= 0real,
        ;
    }
}

/// The root of a finite number is finite and not subnormal, so that the
/// square of its magnitude is off by little.
proof fn lemma_root_is_ordinary(m: int, v: int)
    requires
        1 <= v < units(INF_MAG as int),
        nearest_root(m, v * pow2(UNIT_EXP as nat)),
    ensures
        0 <= m < INF_MAG,
        units(m) >= 0,
        HIDDEN * abs_int(units(m) * units(m) - v * pow2(UNIT_EXP as nat)) <= 2 * (units(m) * units(m)),
{
    let p = pow2(UNIT_EXP as nat) as int;
    let n = v * p;
    lemma_pow2_pos(UNIT_EXP as nat);
    lemma2_to64();
    lemma2_to64_rest();
    lemma_units_order(0, m);
    let u = units(m);
    lemma_units_of(2046, HIDDEN as int);
    lemma_pow2_adds(52, 2046);
    let top = units(INF_MAG as int);
    assert(top == pow2(2098));
    if m == INF_MAG {
        lemma_units_order(0, m - 1);
        lemma_pow2_adds(1024, UNIT_EXP as nat);
        lemma_pow2_pos(1022);
        lemma_pow2_adds(1022, 2);
        let k = pow2(1022) as int;
        let twice = units(m - 1) + u;
        assert(twice * twice >= top * top) by (nonlinear_arith)
            requires
                twice >= top,
                top >= 0,
        ;
        assert(4 * n < top * top) by (nonlinear_arith)
            requires
                n == v * p,
                v < top,
                top == (k * 4) * p,
                k >= 1,
                p > 0,
        ;
        assert(false);
    }
    let t = exponent_of(m);
    lemma_split(m);
    lemma_units_step(m);
    let g = pow2(t) as int;
    let above = u + (u + g);
    assert(4 * n <= above * above);
    if t == 0 {
        assert(u == super::layout::significand_of(m)) by (nonlinear_arith)
            requires
                u == super::layout::significand_of(m) * g,
                g == 1,
        ;
        lemma_pow2_adds(60, 60);
        vstd::arithmetic::power2::lemma_pow2_strictly_increases(120, UNIT_EXP as nat);
        assert(above * above < 4 * n) by (nonlinear_arith)
            requires
                0 <= above <= 0x40_0000_0000_0001,
                n == v * p,
                v >= 1,
                p > 0x1000_0000_0000_0000 * 0x1000_0000_0000_0000,
        ;
        assert(false);
    }
    let q = super::layout::significand_of(m);
    assert(m > 0);
    lemma_units_step(m - 1);
    lemma_split(m - 1);
    let f = pow2(exponent_of(m - 1)) as int;
    assert(exponent_of(m - 1) <= t) by {
        vstd::arithmetic::div_mod::lemma_div_is_ordered(m - 1, m, HIDDEN as int);
    }
    if exponent_of(m - 1) < t {
        vstd::arithmetic::power2::lemma_pow2_strictly_increases(exponent_of(m - 1), t);
    }
    lemma_units_order(0, m - 1);
    let below = (u - f) + u;
    assert(below * below <= 4 * n);
    assert(HIDDEN * g <= u) by (nonlinear_arith)
        requires
            u == q * g,
            q >= HIDDEN,
            g > 0,
    ;
    let h = HIDDEN as int;
    assert(h * (n - u * u) <= 2 * (u * u)) by (nonlinear_arith)
        requires
            4 * n <= (2 * u + g) * (2 * u + g),
            h * g <= u,
            g > 0,
            u >= 0,
            h >= 1,
    ;
    assert(h * (u * u - n) <= 2 * (u * u)) by (nonlinear_arith)
        requires
            (2 * u - f) * (2 * u - f) <= 4 * n,
            0 < f <= g,
            h * g <= u,
            u >= 0,
            h >= 1,
    ;
}

/// A number that is near a real one is off by little.
pub proof fn lemma_near(r: B64, x: real)
    requires
        r.near(x),
    ensures
        r.finite(),
        size(r.exact() - x) <= gap() * size(x) + smallest(),
{
    reveal(B64::near);
}

/// The sign of an exact value.
pub proof fn lemma_exact_sign(a: B64)
    requires
        a.finite(),
    ensures
        a.lt(num(ZERO)) <==> a.exact() < 0real,
        a.gt(num(ZERO)) <==> a.exact() > 0real,
        num(ZERO).exact() == 0real,
{
    reveal(B64::exact);
    lemma_one_positive();
    lemma_units_zero();
    let one = units_in_one();
    let v = whole(a.value());
    lemma_ratio_times(v, one);
    lemma_ratio_times(0real, one);
    let x = v / one;
    let z = 0real / one;
    assert(z == 0real) by (nonlinear_arith)
        requires
            z * one == 0real,
            one > 0real,
    ;
    if v < 0real {
        assert(x < 0real) by (nonlinear_arith)
            requires
                x * one == v,
                v < 0real,
                one > 0real,
        ;
    } else if v > 0real {
        assert(x > 0real) by (nonlinear_arith)
            requires
                x * one == v,
                v > 0real,
                one > 0real,
        ;
    }
    assert(num(ZERO).value() == 0);
}

/// The next whole number below, up to rounding.
pub proof fn lemma_floor_near(a: B64) -> (k: int)
    requires
        a.finite(),
        size(a.exact()) + 1real <= limit(),
    ensures
        a.floor().near(whole(k)),
        whole(k) <= a.exact() < whole(k) + 1real,
{
    reveal(B64::exact);
    lemma_one_positive();
    lemma_pow2_pos(UNIT_EXP as nat);
    lemma_floor_value(a);
    let one = pow2(UNIT_EXP as nat) as int;
    let v = a.value();
    let k = v / one;
    vstd::arithmetic::div_mod::lemma_fundamental_div_mod(v, one);
    vstd::arithmetic::div_mod::lemma_mod_bound(v, one);
    let u = units_in_one();
    let (e, x) = (a.exact(), whole(k * one));
    lemma_ratio_times(whole(v), u);
    lemma_whole_product(k, one);
    lemma_whole_product(k + 1, one);
    assert(one * k == k * one) by (nonlinear_arith);
    assert((k + 1) * one == k * one + one) by (nonlinear_arith);
    assert(k * one <= v < (k + 1) * one);
    assert(whole(k) <= e) by (nonlinear_arith)
        requires
            e * u == whole(v),
            whole(k) * u <= whole(v),
            u > 0real,
    ;
    assert(e < whole(k + 1)) by (nonlinear_arith)
        requires
            e * u == whole(v),
            whole(v) < whole(k + 1) * u,
            u > 0real,
    ;
    assert(x / u == whole(k)) by (nonlinear_arith)
        requires
            x == whole(k) * u,
            u > 0real,
    ;
    assert(x * 1real == x) by (nonlinear_arith);
    lemma_result_near(a.floor(), k * one, 1, x);
    k
}

} // verus!
