//! How rounded results lie to exact ones.

use vstd::arithmetic::power2::{lemma_pow2_pos, lemma_pow2_unfold, pow2};
use vstd::prelude::*;

use super::arith::abs_int;
use super::consts::{MINUS_ONE, ONE, TWO, ZERO};
use super::layout::{
    exponent_of, lemma_split, lemma_units_mono, lemma_units_of, lemma_units_zero, significand_of,
};
use super::order::lemma_value_order;
use super::rounding::{lemma_rounded_exact, lemma_rounded_mono, rounded};
use super::{num, units, B64, HIDDEN, INF_MAG, UNIT_EXP};

verus! {

/// The magnitude of twice a number.
spec fn doubled(mag: int) -> int {
    if mag < HIDDEN {
        2 * mag
    } else {
        mag + HIDDEN
    }
}

proof fn lemma_doubled(mag: int)
    requires
        0 <= mag,
    ensures
        units(doubled(mag)) == 2 * units(mag),
{
    lemma_split(mag);
    let t = exponent_of(mag);
    let q = significand_of(mag);
    if mag < HIDDEN {
        reveal(units);
        lemma_units_of(0, 2 * mag);
        vstd::arithmetic::power2::lemma2_to64();
    } else {
        assert(mag / (HIDDEN as int) >= 1);
        lemma_units_of(t + 1, q);
        lemma_pow2_unfold(t + 1);
        assert((t + 1) * HIDDEN + q == mag + HIDDEN) by (nonlinear_arith)
            requires
                mag == t * HIDDEN + q,
        ;
        assert(q * pow2(t + 1) == 2 * (q * pow2(t))) by (nonlinear_arith)
            requires
                pow2(t + 1) == 2 * pow2(t),
        ;
    }
}

/// A rounded sum of units is in order with any number.
proof fn lemma_rounded_against(sum: int, mag: int)
    requires
        0 <= sum,
        0 <= mag <= INF_MAG,
    ensures
        units(mag) <= sum ==> mag <= rounded(sum, 1),
        sum <= units(mag) ==> rounded(sum, 1) <= mag,
{
    lemma_units_zero();
    if mag > 0 {
        lemma_units_mono(0, mag);
    }
    lemma_rounded_exact(mag, 1);
    assert(units(mag) * 1 == units(mag));
    if units(mag) <= sum {
        lemma_rounded_mono(units(mag), 1, sum, 1);
    }
    if sum <= units(mag) {
        lemma_rounded_mono(sum, 1, units(mag), 1);
    }
}

proof fn lemma_rounded_bound(sum: int)
    requires
        0 <= sum,
    ensures
        0 <= rounded(sum, 1) <= INF_MAG,
{
    super::rounding::lemma_rounded_is_nearest(sum, 1);
}

/// Adding a number that is not negative never makes a finite number smaller.
pub proof fn lemma_add_grows(a: B64, d: B64)
    requires
        a.finite(),
        d.spec_ge(num(ZERO)),
    ensures
        a.add(d).ge(a),
{
    reveal(B64::spec_add);
    lemma_value_order(num(ZERO), d);
    lemma_units_zero();
    assert(a.mag() >= 0 && d.mag() >= 0);
    if a.mag() > 0 {
        lemma_units_mono(0, a.mag());
    }
    if d.infinite() {
        lemma_value_order(a, d);
        lemma_value_order(d, a);
    } else {
        let sum = a.value() + d.value();
        assert(d.value() >= 0);
        lemma_rounded_bound(abs_int(sum));
        lemma_rounded_against(abs_int(sum), a.mag());
        let r = a.add(d);
        lemma_value_order(a, r);
        lemma_value_order(r, a);
    }
}

/// Taking a number that is not negative never makes a finite number larger.
pub proof fn lemma_sub_shrinks(a: B64, d: B64)
    requires
        a.finite(),
        d.spec_ge(num(ZERO)),
    ensures
        a.sub(d).le(a),
{
    reveal(B64::spec_add);
    reveal(B64::spec_sub);
    lemma_value_order(num(ZERO), d);
    lemma_units_zero();
    assert(a.mag() >= 0 && d.mag() >= 0);
    if a.mag() > 0 {
        lemma_units_mono(0, a.mag());
    }
    let e = d.neg();
    assert(e.mag() == d.mag());
    if d.infinite() {
        lemma_value_order(e, a);
        lemma_value_order(a, e);
    } else {
        let sum = a.value() + e.value();
        assert(e.value() <= 0);
        lemma_rounded_bound(abs_int(sum));
        lemma_rounded_against(abs_int(sum), a.mag());
        let r = a.sub(d);
        lemma_value_order(a, r);
        lemma_value_order(r, a);
    }
}

/// Half the sum of two positive numbers lies between them, as long as the sum
/// is finite.
pub proof fn lemma_midpoint(a: B64, b: B64)
    requires
        a.finite(),
        b.finite(),
        a.gt(num(ZERO)),
        a.le(b),
        a.add(b).finite(),
    ensures
        a.le(a.add(b).div(num(TWO))),
        a.add(b).div(num(TWO)).le(b),
{
    reveal(B64::spec_add);
    reveal(B64::spec_div);
    lemma_value_order(num(ZERO), a);
    lemma_value_order(a, b);
    lemma_units_zero();
    let one = pow2(UNIT_EXP as nat) as int;
    lemma_pow2_pos(UNIT_EXP as nat);
    let sum = units(a.mag()) + units(b.mag());
    lemma_units_mono(0, a.mag());
    assert(!b.negative()) by {
        lemma_value_order(b, a);
    }
    if a.mag() < b.mag() {
        lemma_units_mono(a.mag(), b.mag());
    }
    lemma_doubled(a.mag());
    lemma_doubled(b.mag());
    lemma_rounded_bound(sum);
    let r = rounded(sum, 1);
    let s = a.add(b);
    assert(s.mag() == r);
    // The sum lies between twice the one and twice the other.
    if doubled(a.mag()) <= INF_MAG {
        lemma_rounded_against(sum, doubled(a.mag()));
    } else {
        lemma_units_mono(INF_MAG as int, doubled(a.mag()));
        lemma_rounded_against(sum, INF_MAG as int);
    }
    if doubled(b.mag()) <= INF_MAG {
        lemma_rounded_against(sum, doubled(b.mag()));
    }
    assert(doubled(a.mag()) <= r <= doubled(b.mag()));
    if doubled(a.mag()) < r {
        lemma_units_mono(doubled(a.mag()), r);
    }
    if r < doubled(b.mag()) {
        lemma_units_mono(r, doubled(b.mag()));
    }
    // Two is twice the unit.
    let two = num(TWO);
    assert(units(two.mag()) == 2 * one) by {
        assert(two.mag() == 1023 * HIDDEN + HIDDEN);
        lemma_units_of(1023, HIDDEN as int);
        vstd::arithmetic::power2::lemma_pow2_adds(1023, 52);
        vstd::arithmetic::power2::lemma2_to64_rest();
        lemma_pow2_unfold(1075);
        assert(HIDDEN * pow2(1023) == pow2(1023) * pow2(52)) by (nonlinear_arith)
            requires
                pow2(52) == HIDDEN,
        ;
    }
    let den = units(two.mag());
    let m = rounded(units(r) * one, den);
    lemma_rounded_exact(a.mag(), den);
    lemma_rounded_exact(b.mag(), den);
    assert(0 <= units(r));
    assert((units(a.mag()) * den) * den <= (units(r) * one) * den) by (nonlinear_arith)
        requires
            den == 2 * one,
            one > 0,
            2 * units(a.mag()) <= units(r),
    ;
    assert((units(r) * one) * den <= (units(b.mag()) * den) * den) by (nonlinear_arith)
        requires
            den == 2 * one,
            one > 0,
            units(r) <= 2 * units(b.mag()),
    ;
    assert(0 <= units(r) * one) by (nonlinear_arith)
        requires
            0 <= units(r),
            one > 0,
    ;
    assert(0 <= units(a.mag()) * den && 0 <= units(b.mag()) * den) by (nonlinear_arith)
        requires
            0 <= units(a.mag()),
            0 <= units(b.mag()),
            den == 2 * one,
            one > 0,
    ;
    lemma_rounded_mono(units(a.mag()) * den, den, units(r) * one, den);
    lemma_rounded_mono(units(r) * one, den, units(b.mag()) * den, den);
    let mid = s.div(two);
    assert(mid.mag() == m);
    lemma_value_order(a, mid);
    lemma_value_order(mid, a);
    lemma_value_order(mid, b);
    lemma_value_order(b, mid);
}

/// The value in units of a ratio of units, rounded with its sign.
pub open spec fn signed_rounding(v: int, den: int) -> int {
    if v < 0 {
        -units(rounded(-v, den))
    } else {
        units(rounded(v, den))
    }
}

pub proof fn lemma_units_order(a: int, b: int)
    requires
        0 <= a <= b,
    ensures
        0 <= units(a) <= units(b),
{
    lemma_units_zero();
    if 0 < a {
        lemma_units_mono(0, a);
    }
    if a < b {
        lemma_units_mono(a, b);
    }
}

pub proof fn lemma_rounded_range(n: int, den: int)
    requires
        0 <= n,
        den > 0,
    ensures
        0 <= rounded(n, den) <= INF_MAG,
        0 <= units(rounded(n, den)) <= units(INF_MAG as int),
{
    super::rounding::lemma_rounded_is_nearest(n, den);
    lemma_units_order(rounded(n, den), INF_MAG as int);
}

proof fn lemma_signed_mono(v1: int, d1: int, v2: int, d2: int)
    requires
        d1 > 0,
        d2 > 0,
        v1 * d2 <= v2 * d1,
    ensures
        signed_rounding(v1, d1) <= signed_rounding(v2, d2),
{
    if v1 >= 0 {
        assert(v2 >= 0) by (nonlinear_arith)
            requires
                v1 >= 0,
                d1 > 0,
                d2 > 0,
                v1 * d2 <= v2 * d1,
        ;
        lemma_rounded_mono(v1, d1, v2, d2);
        lemma_rounded_range(v1, d1);
        lemma_rounded_range(v2, d2);
        lemma_units_order(rounded(v1, d1), rounded(v2, d2));
    } else if v2 >= 0 {
        lemma_rounded_range(-v1, d1);
        lemma_rounded_range(v2, d2);
    } else {
        assert((-v2) * d1 <= (-v1) * d2) by (nonlinear_arith)
            requires
                v1 * d2 <= v2 * d1,
        ;
        lemma_rounded_mono(-v2, d2, -v1, d1);
        lemma_rounded_range(-v1, d1);
        lemma_rounded_range(-v2, d2);
        lemma_units_order(rounded(-v2, d2), rounded(-v1, d1));
    }
}

/// Every number lies between the infinities.
pub proof fn lemma_value_range(a: B64)
    requires
        !a.nan(),
    ensures
        -units(INF_MAG as int) <= a.value() <= units(INF_MAG as int),
        a.infinite() ==> a.value() == (if a.negative() { -units(INF_MAG as int) } else { units(INF_MAG as int) }),
        a.finite() ==> -units(INF_MAG as int) < a.value() < units(INF_MAG as int),
        units(INF_MAG as int) > 0,
{
    lemma_units_order(a.mag(), INF_MAG as int);
    lemma_units_zero();
    lemma_units_mono(0, INF_MAG as int);
    if a.finite() {
        lemma_units_mono(a.mag(), INF_MAG as int);
    }
}

pub proof fn lemma_add_value(a: B64, b: B64)
    requires
        a.finite(),
        b.finite(),
    ensures
        !a.add(b).nan(),
        a.add(b).value() == signed_rounding(a.value() + b.value(), 1),
{
    reveal(B64::spec_add);
    let sum = a.value() + b.value();
    lemma_rounded_range(abs_int(sum), 1);
    lemma_units_zero();
    super::arith::lemma_rounded_zero(1);
}

pub proof fn lemma_mul_value(a: B64, b: B64)
    requires
        a.finite(),
        b.finite(),
    ensures
        !a.mul(b).nan(),
        a.mul(b).value() == signed_rounding(a.value() * b.value(), pow2(UNIT_EXP as nat) as int),
{
    reveal(B64::spec_mul);
    let one = pow2(UNIT_EXP as nat) as int;
    lemma_pow2_pos(UNIT_EXP as nat);
    lemma_units_zero();
    lemma_units_order(0, a.mag());
    lemma_units_order(0, b.mag());
    let x = units(a.mag());
    let y = units(b.mag());
    let p = x * y;
    assert(p >= 0) by (nonlinear_arith)
        requires
            x >= 0,
            y >= 0,
            p == x * y,
    ;
    lemma_rounded_range(p, one);
    super::arith::lemma_rounded_zero(one);
    let v = a.value() * b.value();
    assert(v == (if a.negative() != b.negative() { -p } else { p })) by (nonlinear_arith)
        requires
            p == x * y,
            v == a.value() * b.value(),
            a.value() == (if a.negative() { -x } else { x }),
            b.value() == (if b.negative() { -y } else { y }),
    ;
}

pub proof fn lemma_div_value(a: B64, b: B64)
    requires
        a.finite(),
        b.finite(),
        b.value() > 0,
    ensures
        !a.div(b).nan(),
        a.div(b).value() == signed_rounding(a.value() * pow2(UNIT_EXP as nat), b.value()),
{
    reveal(B64::spec_div);
    let one = pow2(UNIT_EXP as nat) as int;
    lemma_pow2_pos(UNIT_EXP as nat);
    lemma_units_zero();
    lemma_units_order(0, a.mag());
    lemma_units_order(0, b.mag());
    let x = units(a.mag());
    assert(!b.negative() && b.mag() > 0);
    let p = x * one;
    assert(p >= 0) by (nonlinear_arith)
        requires
            x >= 0,
            one > 0,
            p == x * one,
    ;
    lemma_rounded_range(p, b.value());
    super::arith::lemma_rounded_zero(b.value());
    assert((-x) * one == -p) by (nonlinear_arith)
        requires
            p == x * one,
    ;
}

/// Sums keep the order of their terms.
pub proof fn lemma_add_mono(a: B64, b: B64, c: B64)
    requires
        a.le(b),
        !a.add(c).nan(),
        !b.add(c).nan(),
    ensures
        a.add(c).le(b.add(c)),
{
    lemma_value_range(a);
    lemma_value_range(b);
    lemma_value_range(a.add(c));
    lemma_value_range(b.add(c));
    lemma_value_order(a, b);
    lemma_value_order(b, a);
    assert(!c.nan()) by {
        reveal(B64::spec_add);
    }
    if a.finite() && b.finite() && c.finite() {
        lemma_add_value(a, c);
        lemma_add_value(b, c);
        lemma_signed_mono(a.value() + c.value(), 1, b.value() + c.value(), 1);
    } else {
        reveal(B64::spec_add);
    }
}

/// The sign of a number turns the order around.
pub proof fn lemma_neg_order(a: B64, b: B64)
    requires
        a.le(b),
    ensures
        b.neg().le(a.neg()),
        a.neg().neg() == a,
{
}

/// Differences keep the order of the minuend and turn that of the subtrahend.
pub proof fn lemma_sub_mono(a: B64, b: B64, c: B64, d: B64)
    requires
        a.le(b),
        c.le(d),
        !a.sub(d).nan(),
        !b.sub(d).nan(),
        !b.sub(c).nan(),
    ensures
        a.sub(d).le(b.sub(c)),
{
    reveal(B64::spec_sub);
    lemma_neg_order(c, d);
    lemma_add_mono(a, b, d.neg());
    lemma_add_swap(b, d.neg());
    lemma_add_swap(b, c.neg());
    lemma_add_mono(d.neg(), c.neg(), b);
}

/// Products with a factor that is not negative keep the order.
pub proof fn lemma_mul_mono(a: B64, b: B64, c: B64)
    requires
        a.le(b),
        c.ge(num(ZERO)),
        !a.mul(c).nan(),
        !b.mul(c).nan(),
    ensures
        a.mul(c).le(b.mul(c)),
{
    lemma_value_range(a);
    lemma_value_range(b);
    lemma_value_range(c);
    lemma_value_range(a.mul(c));
    lemma_value_range(b.mul(c));
    lemma_value_order(a, b);
    lemma_value_order(b, a);
    lemma_value_order(num(ZERO), c);
    lemma_value_order(c, num(ZERO));
    lemma_units_zero();
    lemma_pow2_pos(UNIT_EXP as nat);
    let one = pow2(UNIT_EXP as nat) as int;
    if a.finite() && b.finite() && c.finite() {
        lemma_mul_value(a, c);
        lemma_mul_value(b, c);
        assert((a.value() * c.value()) * one <= (b.value() * c.value()) * one) by (nonlinear_arith)
            requires
                a.value() <= b.value(),
                c.value() >= 0,
                one > 0,
        ;
        lemma_signed_mono(a.value() * c.value(), one, b.value() * c.value(), one);
    } else {
        reveal(B64::spec_mul);
        // A product with an infinite factor is an infinity of its sign.
        assert(c.mag() > 0);
        if a.finite() && c.finite() {
            assert(b.mul(c).infinite() && !b.mul(c).negative());
        }
        if b.finite() && c.finite() {
            assert(a.mul(c).infinite() && a.mul(c).negative());
        }
    }
}

/// Quotients by a positive finite number keep the order.
pub proof fn lemma_div_mono(a: B64, b: B64, c: B64)
    requires
        a.le(b),
        c.finite(),
        c.gt(num(ZERO)),
    ensures
        !a.div(c).nan(),
        a.div(c).le(b.div(c)),
{
    lemma_value_range(a);
    lemma_value_range(b);
    lemma_value_order(num(ZERO), c);
    lemma_units_zero();
    lemma_pow2_pos(UNIT_EXP as nat);
    let one = pow2(UNIT_EXP as nat) as int;
    if a.finite() && b.finite() {
        lemma_div_value(a, c);
        lemma_div_value(b, c);
        assert((a.value() * one) * c.value() <= (b.value() * one) * c.value()) by (nonlinear_arith)
            requires
                a.value() <= b.value(),
                c.value() > 0,
                one > 0,
        ;
        lemma_signed_mono(a.value() * one, c.value(), b.value() * one, c.value());
    } else {
        if a.finite() {
            lemma_div_value(a, c);
            lemma_value_range(a.div(c));
        }
        if b.finite() {
            lemma_div_value(b, c);
            lemma_value_range(b.div(c));
        }
        reveal(B64::spec_div);
        lemma_value_order(a, b);
        lemma_value_order(b, a);
        lemma_units_order(INF_MAG as int, INF_MAG as int);
    }
}

/// Where a product is not a number.
pub proof fn lemma_mul_nan(a: B64, b: B64)
    ensures
        a.mul(b).nan() <==> a.nan() || b.nan() || (a.infinite() && b.zero()) || (a.zero() && b.infinite()),
{
    if a.finite() && b.finite() {
        lemma_mul_value(a, b);
    } else {
        reveal(B64::spec_mul);
    }
}

/// Where a sum is not a number.
pub proof fn lemma_add_nan(a: B64, b: B64)
    ensures
        a.add(b).nan() <==> a.nan() || b.nan() || (a.infinite() && b.infinite() && a.negative() != b.negative()),
{
    if a.finite() && b.finite() {
        lemma_add_value(a, b);
    } else {
        reveal(B64::spec_add);
    }
}

/// Where a difference is not a number.
pub proof fn lemma_sub_nan(a: B64, b: B64)
    ensures
        a.sub(b).nan() <==> a.nan() || b.nan() || (a.infinite() && b.infinite() && a.negative() == b.negative()),
{
    reveal(B64::spec_sub);
    lemma_add_nan(a, b.neg());
}

/// The order of the factors does not matter.
pub proof fn lemma_mul_swap(a: B64, b: B64)
    ensures
        a.mul(b) == b.mul(a),
{
    reveal(B64::spec_mul);
    assert(units(a.mag()) * units(b.mag()) == units(b.mag()) * units(a.mag())) by (nonlinear_arith);
}

/// The order of the terms does not matter.
pub proof fn lemma_add_swap(a: B64, b: B64)
    ensures
        a.add(b) == b.add(a),
{
    reveal(B64::spec_add);
}

/// The larger and the smaller of two numbers keep the order.
pub proof fn lemma_max_min_mono(a: B64, b: B64, c: B64)
    requires
        a.le(b),
        !c.nan(),
    ensures
        a.max(c).le(b.max(c)),
        c.max(a).le(c.max(b)),
        c.min(a).le(c.min(b)),
        !a.max(c).nan(),
        !c.min(a).nan(),
{
}

/// Clamping keeps the order.
pub proof fn lemma_clamp_mono(a: B64, b: B64, low: B64, high: B64)
    requires
        a.le(b),
        low.le(high),
    ensures
        a.clamp(low, high).le(b.clamp(low, high)),
        low.le(a.clamp(low, high)),
        a.clamp(low, high).le(high),
{
}

/// Rounding down to whole numbers keeps the order.
pub proof fn lemma_floor_mono(a: B64, b: B64)
    requires
        a.le(b),
    ensures
        a.floor().le(b.floor()),
{
    lemma_floor_value(a);
    lemma_floor_value(b);
    lemma_value_range(a);
    lemma_value_range(b);
    lemma_pow2_pos(UNIT_EXP as nat);
    let one = pow2(UNIT_EXP as nat) as int;
    if a.finite() && b.finite() {
        vstd::arithmetic::div_mod::lemma_div_is_ordered(a.value(), b.value(), one);
        let x = a.value() / one;
        let y = b.value() / one;
        assert(x * one <= y * one) by (nonlinear_arith)
            requires
                x <= y,
                one > 0,
        ;
        lemma_signed_mono(x * one, 1, y * one, 1);
    } else {
        reveal(B64::spec_floor);
        lemma_value_range(a.floor());
        lemma_value_range(b.floor());
    }
}

pub proof fn lemma_floor_value(a: B64)
    requires
        !a.nan(),
    ensures
        !a.floor().nan(),
        a.finite() ==> a.floor().value() == signed_rounding(
            a.value() / (pow2(UNIT_EXP as nat) as int) * pow2(UNIT_EXP as nat),
            1,
        ),
        a.infinite() ==> a.floor() == a,
{
    reveal(B64::spec_floor);
    lemma_pow2_pos(UNIT_EXP as nat);
    let one = pow2(UNIT_EXP as nat) as int;
    lemma_units_zero();
    lemma_units_order(0, a.mag());
    if a.finite() {
        let whole = a.value() / one;
        let n = whole * one;
        super::arith::lemma_rounded_zero(1);
        if a.zero() {
            vstd::arithmetic::div_mod::lemma_div_basics(one);
            assert(n == 0) by (nonlinear_arith)
                requires
                    whole == 0,
                    n == whole * one,
            ;
        } else {
            lemma_rounded_range(abs_int(n), 1);
            lemma_units_mono(0, a.mag());
            if a.negative() {
                assert(whole < 0) by (nonlinear_arith)
                    requires
                        a.value() < 0,
                        one > 0,
                        whole == a.value() / one,
                ;
                assert(n < 0) by (nonlinear_arith)
                    requires
                        whole < 0,
                        one > 0,
                        n == whole * one,
                ;
            } else {
                assert(whole >= 0) by (nonlinear_arith)
                    requires
                        a.value() >= 0,
                        one > 0,
                        whole == a.value() / one,
                ;
                assert(n >= 0) by (nonlinear_arith)
                    requires
                        whole >= 0,
                        one > 0,
                        n == whole * one,
                ;
            }
        }
    }
}

/// Rounding up to whole numbers keeps the order.
pub proof fn lemma_ceil_mono(a: B64, b: B64)
    requires
        a.le(b),
    ensures
        a.ceil().le(b.ceil()),
{
    lemma_neg_order(a, b);
    lemma_floor_mono(b.neg(), a.neg());
    lemma_neg_order(b.neg().floor(), a.neg().floor());
}

/// Prices on a tick grid keep their order.
pub proof fn lemma_grid_mono(a: B64, b: B64, tick: B64)
    requires
        a.le(b),
        tick.finite(),
        tick.gt(num(ZERO)),
    ensures
        a.div(tick).floor().mul(tick).le(b.div(tick).floor().mul(tick)),
        a.div(tick).ceil().mul(tick).le(b.div(tick).ceil().mul(tick)),
{
    lemma_div_mono(a, b, tick);
    lemma_floor_mono(a.div(tick), b.div(tick));
    lemma_ceil_mono(a.div(tick), b.div(tick));
    lemma_value_order(num(ZERO), tick);
    lemma_mul_nan(a.div(tick).floor(), tick);
    lemma_mul_nan(b.div(tick).floor(), tick);
    lemma_mul_nan(a.div(tick).ceil(), tick);
    lemma_mul_nan(b.div(tick).ceil(), tick);
    lemma_mul_mono(a.div(tick).floor(), b.div(tick).floor(), tick);
    lemma_mul_mono(a.div(tick).ceil(), b.div(tick).ceil(), tick);
}

/// Multiplying by one keeps a finite number, by minus one it turns the sign.
pub proof fn lemma_times_one(a: B64)
    requires
        a.finite(),
    ensures
        a.mul(num(ONE)) == a,
        a.mul(num(MINUS_ONE)) == a.neg(),
{
    reveal(B64::spec_mul);
    let one = pow2(UNIT_EXP as nat) as int;
    lemma_pow2_pos(UNIT_EXP as nat);
    assert(units(num(ONE).mag()) == one) by {
        let h = HIDDEN as int;
        assert(num(ONE).mag() == 1022 * h + h);
        lemma_units_of(1022, h);
        vstd::arithmetic::power2::lemma_pow2_adds(1022, 52);
        vstd::arithmetic::power2::lemma2_to64_rest();
        assert(h * pow2(1022) == pow2(1022) * pow2(52)) by (nonlinear_arith)
            requires
                pow2(52) == h,
        ;
    }
    assert(num(MINUS_ONE).mag() == num(ONE).mag());
    lemma_rounded_exact(a.mag(), one);
}

/// A product of numbers that are not negative is not negative.
pub proof fn lemma_mul_sign(a: B64, b: B64)
    requires
        a.ge(num(ZERO)),
        b.ge(num(ZERO)),
    ensures
        a.mul(b).nan() || a.mul(b).ge(num(ZERO)),
{
    lemma_units_zero();
    lemma_value_order(a, num(ZERO));
    lemma_value_order(b, num(ZERO));
    if a.finite() && b.finite() {
        lemma_mul_value(a, b);
        lemma_pow2_pos(UNIT_EXP as nat);
        assert(a.value() * b.value() >= 0) by (nonlinear_arith)
            requires
                a.value() >= 0,
                b.value() >= 0,
        ;
        lemma_rounded_range(a.value() * b.value(), pow2(UNIT_EXP as nat) as int);
        lemma_value_order(a.mul(b), num(ZERO));
    } else {
        reveal(B64::spec_mul);
    }
}

/// A quotient of a number that is not negative by a positive one is not
/// negative.
pub proof fn lemma_div_sign(a: B64, c: B64)
    requires
        a.ge(num(ZERO)),
        c.gt(num(ZERO)),
    ensures
        a.div(c).nan() || a.div(c).ge(num(ZERO)),
{
    lemma_units_zero();
    lemma_value_order(a, num(ZERO));
    lemma_value_order(c, num(ZERO));
    if a.finite() && c.finite() {
        lemma_div_value(a, c);
        lemma_pow2_pos(UNIT_EXP as nat);
        let one = pow2(UNIT_EXP as nat) as int;
        assert(a.value() * one >= 0) by (nonlinear_arith)
            requires
                a.value() >= 0,
                one > 0,
        ;
        lemma_rounded_range(a.value() * one, c.value());
        lemma_value_order(a.div(c), num(ZERO));
    } else {
        reveal(B64::spec_div);
    }
}

/// Products with one factor that is not negative, cut at zero, keep the order
/// of the other factor; where a product is not a number the cut is zero.
pub proof fn lemma_cut_product_mono(s: B64, a: B64, b: B64)
    requires
        !s.lt(num(ZERO)),
        a.le(b),
    ensures
        s.mul(a).max(num(ZERO)).le(s.mul(b).max(num(ZERO))),
        s.mul(a).max(num(ZERO)).ge(num(ZERO)),
        s.mul(b).max(num(ZERO)).ge(num(ZERO)),
{
    let zero = num(ZERO);
    lemma_mul_swap(s, a);
    lemma_mul_swap(s, b);
    lemma_mul_nan(a, s);
    lemma_mul_nan(b, s);
    lemma_value_order(s, zero);
    lemma_value_order(a, zero);
    lemma_value_order(b, zero);
    lemma_value_order(a, b);
    if s.nan() {
    } else if !s.mul(a).nan() && !s.mul(b).nan() {
        lemma_mul_mono(a, b, s);
        lemma_max_min_mono(a.mul(s), b.mul(s), zero);
    } else if s.zero() {
        lemma_zero_product(a, s);
        lemma_zero_product(b, s);
    } else {
        reveal(B64::spec_mul);
    }
}

proof fn lemma_zero_product(a: B64, z: B64)
    requires
        z.zero(),
    ensures
        a.mul(z).nan() || a.mul(z).zero(),
{
    reveal(B64::spec_mul);
    lemma_units_zero();
    lemma_pow2_pos(UNIT_EXP as nat);
    super::arith::lemma_rounded_zero(pow2(UNIT_EXP as nat) as int);
    assert(units(a.mag()) * 0 == 0);
}

/// A finite number less itself is zero.
pub proof fn lemma_self_difference(a: B64)
    requires
        a.finite(),
    ensures
        a.sub(a).zero(),
{
    reveal(B64::spec_sub);
    lemma_add_value(a, a.neg());
    lemma_units_zero();
    assert(a.value() + a.neg().value() == 0);
    super::arith::lemma_rounded_zero(1);
    lemma_value_order(a.sub(a), num(ZERO));
}

/// The difference of two finite numbers that are not negative is finite.
pub proof fn lemma_gap_is_finite(a: B64, b: B64)
    requires
        a.finite(),
        b.finite(),
        a.ge(num(ZERO)),
        a.le(b),
    ensures
        b.sub(a).finite(),
        b.sub(a).ge(num(ZERO)),
        a.sub(b).le(num(ZERO)),
{
    let zero = num(ZERO);
    lemma_sub_shrinks(b, a);
    lemma_sub_nan(b, a);
    lemma_sub_nan(a, b);
    lemma_sub_nan(a, a);
    lemma_sub_nan(b, b);
    lemma_sub_mono(a, b, a, a);
    lemma_sub_mono(a, b, b, b);
    lemma_self_difference(a);
    lemma_self_difference(b);
    lemma_value_order(a.sub(a), zero);
    lemma_value_order(b.sub(b), zero);
    lemma_value_order(b.sub(a), b);
    lemma_value_order(b, b.sub(a));
    lemma_units_zero();
    lemma_value_order(b.sub(a), zero);
    lemma_value_order(zero, b.sub(a));
    lemma_value_order(a.sub(b), zero);
    lemma_value_order(zero, a.sub(b));
}

} // verus!
