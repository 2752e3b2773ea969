//! Exact values against the order, the signs and the named numbers, and the
//! error of several roundings in a row.

use vstd::arithmetic::power2::{
    lemma2_to64, lemma2_to64_rest, lemma_pow2_adds, lemma_pow2_pos, lemma_pow2_strictly_increases, pow2,
};
use vstd::prelude::*;

use crate::strategy::drift::grown;
use crate::strategy::exact::{
    lemma_gap, lemma_gap_small, lemma_near_within, lemma_product_minus, lemma_product_size, lemma_product_sum,
    product,
};

use super::consts::{
    BILLION, FIFTY, FIVE_HUNDRED, FOUR, HALF, HUNDRED, ONE, ONE_AND_A_HALF, QUARTER, SIXTY, TEN, TEN_THOUSAND,
    THOUSAND, TINY_10, TINY_12, TINY_6, TINY_9, TWENTY, TWO, ZERO,
};
use super::error::{
    gap, lemma_add_near, lemma_exact_sign, lemma_mul_near, lemma_ratio_times, lemma_sub_near, limit, size,
    smallest, units_in_one, whole,
};
use super::layout::{lemma_units_of, significand};
use super::{num, B64, HIDDEN, UNIT_EXP};

verus! {

/// The smallest number is far below 1, and the limit far above.
pub proof fn lemma_range_of_sizes()
    ensures
        0real < 1024real * smallest() <= 1real,
        limit() >= 1048576real,
        0real < gap(),
{
    lemma_gap();
    lemma2_to64();
    lemma_pow2_strictly_increases(32, 1023);
    lemma_pow2_strictly_increases(32, UNIT_EXP as nat);
    let s = smallest();
    let one = units_in_one();
    assert(1024real * s <= 1real) by (nonlinear_arith)
        requires
            s > 0real,
            s * one == 1real,
            one >= 1024real,
    ;
}

proof fn lemma_scaled_order(x: real, y: real, one: real)
    by (nonlinear_arith)
    requires
        one > 0real,
    ensures
        x < y <==> x * one < y * one,
{
}

/// Exact values are ordered as the numbers are.
pub proof fn lemma_exact_order(a: B64, b: B64)
    requires
        a.finite(),
        b.finite(),
    ensures
        a.lt(b) <==> a.exact() < b.exact(),
        a.le(b) <==> a.exact() <= b.exact(),
        a.gt(b) <==> a.exact() > b.exact(),
        a.ge(b) <==> a.exact() >= b.exact(),
        a.eq_num(b) <==> a.exact() == b.exact(),
{
    reveal(B64::exact);
    lemma_pow2_pos(UNIT_EXP as nat);
    let one = units_in_one();
    lemma_ratio_times(whole(a.value()), one);
    lemma_ratio_times(whole(b.value()), one);
    lemma_scaled_order(a.exact(), b.exact(), one);
    lemma_scaled_order(b.exact(), a.exact(), one);
}

/// The other sign, and no sign.
pub proof fn lemma_exact_signs(a: B64)
    requires
        a.finite(),
    ensures
        a.neg().finite(),
        a.abs().finite(),
        a.neg().exact() == -a.exact(),
        a.abs().exact() == size(a.exact()),
{
    lemma_pow2_pos(UNIT_EXP as nat);
    let one = units_in_one();
    let v = whole(a.value());
    let w = whole(a.neg().value());
    assert(w == -v);
    assert(w / one == -(v / one)) by (nonlinear_arith)
        requires
            w == -v,
            one > 0real,
    ;
    assert(a.neg().exact() == -a.exact()) by {
        reveal(B64::exact);
    }
    lemma_exact_sign(a);
    super::order::lemma_value_order(a, num(ZERO));
    if a.negative() {
        assert(a.abs() == a.neg());
        super::layout::lemma_units_zero();
    } else {
        assert(a.abs() == a);
    }
}

/// The exact value of a number by its exponent and its significand.
pub proof fn lemma_exact_of(bits: u64, t: nat, q: int, k: nat, scale: real, scaled: real)
    requires
        scale == whole(pow2(k) as int),
        scaled == whole(q),
        bits < super::SIGN_BIT,
        significand(t, q),
        bits as int == t * HIDDEN + q,
        t + k == UNIT_EXP,
    ensures
        num(bits).exact() * scale == scaled,
{
    reveal(B64::exact);
    lemma_units_of(t, q);
    lemma_pow2_adds(t, k);
    lemma_pow2_pos(t);
    lemma_pow2_pos(k);
    lemma_pow2_pos(UNIT_EXP as nat);
    let x = num(bits).exact();
    let p = whole(pow2(t) as int);
    let r = whole(pow2(k) as int);
    let s = whole(q);
    let one = units_in_one();
    super::error::lemma_whole_product(pow2(t) as int, pow2(k) as int);
    super::error::lemma_whole_product(q, pow2(t) as int);
    lemma_ratio_times(whole(num(bits).value()), one);
    assert(x * one == s * p);
    assert(one == p * r);
    lemma_cancelled(x, p, r, s);
}

proof fn lemma_cancelled(x: real, p: real, r: real, s: real)
    requires
        x * (p * r) == s * p,
        p > 0real,
    ensures
        x * r == s,
{
    let y = x * r;
    assert(x * (p * r) == y * p) by (nonlinear_arith)
        requires
            y == x * r,
    ;
    assert(y == s) by (nonlinear_arith)
        requires
            y * p == s * p,
            p > 0real,
    ;
}

/// The exact values of the named numbers that binary fractions can hold.
pub proof fn lemma_whole_constants()
    ensures
        num(TWO).exact() == 2real,
        num(TWO).finite(),
        num(FOUR).exact() == 4real,
        num(FOUR).finite(),
        num(TEN).exact() == 10real,
        num(TEN).finite(),
        num(TWENTY).exact() == 20real,
        num(TWENTY).finite(),
        num(FIFTY).exact() == 50real,
        num(FIFTY).finite(),
        num(SIXTY).exact() == 60real,
        num(SIXTY).finite(),
        num(HUNDRED).exact() == 100real,
        num(HUNDRED).finite(),
        num(FIVE_HUNDRED).exact() == 500real,
        num(FIVE_HUNDRED).finite(),
        num(THOUSAND).exact() == 1000real,
        num(THOUSAND).finite(),
        num(TEN_THOUSAND).exact() == 10000real,
        num(TEN_THOUSAND).finite(),
        num(BILLION).exact() == 1000000000real,
        num(BILLION).finite(),
        num(ONE).exact() == 1real,
        num(ONE).finite(),
        2real * num(HALF).exact() == 1real,
        num(HALF).finite(),
        4real * num(QUARTER).exact() == 1real,
        num(QUARTER).finite(),
        2real * num(ONE_AND_A_HALF).exact() == 3real,
        num(ONE_AND_A_HALF).finite(),
{
    lemma2_to64();
    lemma2_to64_rest();
    lemma_exact_of(TWO, 1023, 4503599627370496, 51, 2251799813685248real, 4503599627370496real);
    lemma_exact_of(FOUR, 1024, 4503599627370496, 50, 1125899906842624real, 4503599627370496real);
    lemma_exact_of(TEN, 1025, 5629499534213120, 49, 562949953421312real, 5629499534213120real);
    lemma_exact_of(TWENTY, 1026, 5629499534213120, 48, 281474976710656real, 5629499534213120real);
    lemma_exact_of(FIFTY, 1027, 7036874417766400, 47, 140737488355328real, 7036874417766400real);
    lemma_exact_of(SIXTY, 1027, 8444249301319680, 47, 140737488355328real, 8444249301319680real);
    lemma_exact_of(HUNDRED, 1028, 7036874417766400, 46, 70368744177664real, 7036874417766400real);
    lemma_exact_of(FIVE_HUNDRED, 1030, 8796093022208000, 44, 17592186044416real, 8796093022208000real);
    lemma_exact_of(THOUSAND, 1031, 8796093022208000, 43, 8796093022208real, 8796093022208000real);
    lemma_exact_of(TEN_THOUSAND, 1035, 5497558138880000, 39, 549755813888real, 5497558138880000real);
    lemma_exact_of(BILLION, 1051, 8388608000000000, 23, 8388608real, 8388608000000000real);
    lemma_exact_of(ONE, 1022, 4503599627370496, 52, 4503599627370496real, 4503599627370496real);
    lemma_exact_of(HALF, 1021, 4503599627370496, 53, 9007199254740992real, 4503599627370496real);
    lemma_exact_of(QUARTER, 1020, 4503599627370496, 54, 18014398509481984real, 4503599627370496real);
    lemma_exact_of(ONE_AND_A_HALF, 1022, 6755399441055744, 52, 4503599627370496real, 6755399441055744real);
}

/// The number 1/1000000 is held up to rounding.
pub proof fn lemma_tiny_6()
    ensures
        num(TINY_6).finite(),
        size(1000000real * num(TINY_6).exact() - 1real) <= gap(),
{
    lemma2_to64();
    lemma2_to64_rest();
    lemma_pow2_adds(64, 8);
    assert(pow2(72) == 4722366482869645213696);
    lemma_exact_of(TINY_6, 1002, 4722366482869645, 72, 4722366482869645213696real, 4722366482869645real);
}

/// The number 1/1000000000 is held up to rounding.
pub proof fn lemma_tiny_9()
    ensures
        num(TINY_9).finite(),
        size(1000000000real * num(TINY_9).exact() - 1real) <= gap(),
{
    lemma2_to64();
    lemma2_to64_rest();
    lemma_pow2_adds(64, 18);
    assert(pow2(82) == 4835703278458516698824704);
    lemma_exact_of(TINY_9, 992, 4835703278458517, 82, 4835703278458516698824704real, 4835703278458517real);
}

/// The number 1/10000000000 is held up to rounding.
pub proof fn lemma_tiny_10()
    ensures
        num(TINY_10).finite(),
        size(10000000000real * num(TINY_10).exact() - 1real) <= gap(),
{
    lemma2_to64();
    lemma2_to64_rest();
    lemma_pow2_adds(64, 22);
    assert(pow2(86) == 77371252455336267181195264);
    lemma_exact_of(TINY_10, 988, 7737125245533627, 86, 77371252455336267181195264real, 7737125245533627real);
}

/// The number 1/1000000000000 is held up to rounding.
pub proof fn lemma_tiny_12()
    ensures
        num(TINY_12).finite(),
        size(1000000000000real * num(TINY_12).exact() - 1real) <= gap(),
{
    lemma2_to64();
    lemma2_to64_rest();
    lemma_pow2_adds(64, 28);
    assert(pow2(92) == 4951760157141521099596496896);
    lemma_exact_of(TINY_12, 982, 4951760157141521, 92, 4951760157141521099596496896real, 4951760157141521real);
}

/// One more term in a sum.
pub proof fn lemma_next_term(t: B64, sum: real, error: real, x: B64, magnitude: real)
    requires
        t.finite(),
        x.finite(),
        size(t.exact() - sum) <= error,
        size(sum + x.exact()) <= magnitude,
        t.add(x).finite() || magnitude + error <= limit(),
    ensures
        t.add(x).finite(),
        size(t.add(x).exact() - (sum + x.exact())) <= grown(error, magnitude),
{
    lemma_add_near(t, x);
    lemma_near_within(t.add(x), t.exact() + x.exact(), magnitude + error);
}

/// One term less.
pub proof fn lemma_less_term(t: B64, sum: real, error: real, x: B64, magnitude: real)
    requires
        t.finite(),
        x.finite(),
        size(t.exact() - sum) <= error,
        size(sum - x.exact()) <= magnitude,
        t.sub(x).finite() || magnitude + error <= limit(),
    ensures
        t.sub(x).finite(),
        size(t.sub(x).exact() - (sum - x.exact())) <= grown(error, magnitude),
{
    lemma_sub_near(t, x);
    lemma_near_within(t.sub(x), t.exact() - x.exact(), magnitude + error);
}

/// What a small error grows to.
pub proof fn lemma_grown(error: real, magnitude: real)
    requires
        0real <= error,
        0real <= magnitude,
    ensures
        error <= grown(error, magnitude),
        1024real * (grown(error, magnitude) - error - product(gap(), magnitude) - smallest()) <= error,
        0real <= product(gap(), magnitude),
        1024real * product(gap(), magnitude) <= magnitude,
{
    lemma_gap_small(error);
    lemma_gap_small(magnitude);
    lemma_range_of_sizes();
    lemma_product_sum(gap(), magnitude, error);
}

/// The error of a product whose second factor is already off.
pub open spec fn scaled_error(factor: real, error: real, magnitude: real) -> real {
    product(size(factor), error) + product(gap(), product(size(factor), magnitude + error)) + smallest()
}

/// A product with a factor that is off.
pub proof fn lemma_scaled_off(m: B64, r: B64, target: real, error: real, magnitude: real)
    requires
        m.finite(),
        r.finite(),
        size(r.exact() - target) <= error,
        size(target) <= magnitude,
        m.mul(r).finite() || product(size(m.exact()), magnitude + error) <= limit(),
    ensures
        m.mul(r).finite(),
        size(m.mul(r).exact() - product(m.exact(), target)) <= scaled_error(m.exact(), error, magnitude),
        size(product(m.exact(), r.exact())) <= product(size(m.exact()), magnitude + error),
{
    let x = m.exact();
    let y = r.exact();
    lemma_product_size(x, y, size(x), magnitude + error);
    lemma_product_minus(x, y, target);
    lemma_product_size(x, y - target, size(x), error);
    assert(product(x, y) == x * y) by {
        reveal(product);
    }
    lemma_mul_near(m, r);
    lemma_near_within(m.mul(r), x * y, product(size(x), magnitude + error));
}

/// A sum is finite only where its terms are.
pub proof fn lemma_finite_terms(a: B64, b: B64)
    ensures
        a.add(b).finite() ==> a.finite() && b.finite(),
        a.sub(b).finite() ==> a.finite() && b.finite(),
        a.mul(b).finite() ==> a.finite() && b.finite(),
        a.div(b).finite() ==> a.finite() && !b.nan(),
{
    reveal(B64::spec_add);
    reveal(B64::spec_mul);
    reveal(B64::spec_div);
}

/// The larger of two numbers is one of them and at least both, the smaller one
/// of them and at most both, and a clamped number lies within its bounds and is
/// itself where it does.
pub proof fn law_larger_and_smaller(a: B64, b: B64, low: B64, high: B64)
    requires
        !a.nan(),
        !b.nan(),
        low.le(high),
    ensures
        a.max(b) == a || a.max(b) == b,
        a.max(b).ge(a) && a.max(b).ge(b),
        a.min(b) == a || a.min(b) == b,
        a.min(b).le(a) && a.min(b).le(b),
        a.clamp(low, high).ge(low) && a.clamp(low, high).le(high),
        a.ge(low) && a.le(high) ==> a.clamp(low, high) == a,
        a.lt(low) ==> a.clamp(low, high) == low,
        a.gt(high) ==> a.clamp(low, high) == high,
{
}

} // verus!
