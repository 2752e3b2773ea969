//! Prices on a tick grid.

use vstd::arithmetic::power2::{lemma_pow2_pos, pow2};
use vstd::prelude::*;

use crate::binary64::error::{gap, lemma_exact_sign, lemma_floor_near, limit, size, smallest, whole};
use crate::binary64::facts::{lemma_mul_value, lemma_value_range};
use crate::binary64::layout::lemma_units_zero;
use crate::binary64::measure::{lemma_exact_signs, lemma_range_of_sizes, lemma_scaled_off};
use crate::binary64::rough::{
    about, lemma_about_itself, lemma_about_ratio, lemma_big_power, lemma_ordinary_ratio, lemma_powers, ordinary,
    power,
};
use crate::binary64::{B64, UNIT_EXP};

use super::exact::{
    lemma_gap_small, lemma_near_within, lemma_product_minus, lemma_product_order, lemma_product_size,
    lemma_product_sum, lemma_product_swap, lemma_product_units, product, ratio,
};
use super::exits::{lemma_hundred_millionth, lemma_smallest_under};
use super::inventory_bias::{ceiled, floored};
use super::quotes::lemma_product_scaled;

verus! {

/// So many ticks, counted by a number that is about right.
proof fn lemma_ticks(n: B64, tick: B64, k: real, p: real, t: real)
    requires
        tick.finite(),
        tick.exact() == t,
        ordinary(t, 100),
        ordinary(p, 100),
        size(k) <= 2real * ratio(p, t) + 1real,
        n.near(k),
    ensures
        n.finite(),
        n.mul(tick).finite(),
        1000000000real * size(n.mul(tick).exact() - product(k, t)) <= p + t,
{
    let q = ratio(p, t);
    lemma_ordinary_ratio(p, t, 100, 100);
    let z = 2real * q + 1real;
    lemma_near_within(n, k, z);
    lemma_hundred_millionth(z);
    let e = product(gap(), z) + smallest();
    lemma_range_of_sizes();
    lemma_smallest_under(t);
    lemma_smallest_under(p);
    let zt = product(t, z);
    lemma_product_sum(t, 2real * q, 1real);
    lemma_product_scaled(t, q, 2real);
    lemma_product_swap(t, q);
    lemma_product_units(t);
    assert(zt == 2real * p + t);
    lemma_bounded(p, t);
    let gz = product(gap(), z);
    lemma_gap_small(z);
    lemma_tiny_smallest();
    lemma_product_order(1000000000000real * gz, z, t);
    lemma_product_scaled(t, gz, 1000000000000real);
    lemma_product_sum(t, gz, smallest());
    lemma_product_order(1000000000000000000real * smallest(), 1real, t);
    lemma_product_scaled(t, smallest(), 1000000000000000000real);
    lemma_product_sum(t, z, e);
    lemma_product_size(t, gz, t, gz);
    lemma_product_size(t, smallest(), t, smallest());
    lemma_product_order(0real, t, smallest());
    let most = product(t, z + e);
    assert(most <= 3real * p + 3real * t);
    crate::binary64::facts::lemma_mul_swap(n, tick);
    lemma_scaled_off(tick, n, k, e, z);
    lemma_product_swap(t, k);
    lemma_product_order(most, 3real * p + 3real * t, gap());
    lemma_hundred_millionth(3real * p + 3real * t);
}

pub proof fn lemma_tiny_smallest()
    ensures
        1000000000000000000real * smallest() <= 1real,
{
    lemma_powers(100, 100);
    lemma_product_units(power(100));
    assert(ordinary(1real, 100)) by {
        lemma_product_units(power(100));
    }
    lemma_smallest_under(1real);
}

proof fn lemma_bounded(p: real, t: real)
    requires
        ordinary(p, 100),
        ordinary(t, 100),
    ensures
        100real * (p + t) <= limit(),
{
    super::exits::lemma_wide(p);
    super::exits::lemma_wide(t);
}

/// A price on the grid lies less than a tick below the price, for a bid, and
/// less than a tick above it, for an ask; both to a few millionths.
pub proof fn law_grid_prices_are_within_a_tick(price: B64, tick: B64)
    requires
        price.finite() && ordinary(price.exact(), 100),
        tick.finite() && ordinary(tick.exact(), 100),
    ensures
        ({
            let (p, t) = (price.exact(), tick.exact());
            let (low, high) = (floored(price, tick), ceiled(price, tick));
            let slack = (p + t) / 100000real;
            &&& low.finite() && high.finite()
            &&& p - t - slack <= low.exact() <= p + slack
            &&& p - slack <= high.exact() <= p + t + slack
        }),
{
    let (p, t) = (price.exact(), tick.exact());
    lemma_exact_sign(tick);
    lemma_about_itself(price);
    lemma_about_itself(tick);
    lemma_ordinary_ratio(p, t, 100, 100);
    let q = ratio(p, t);
    lemma_about_ratio(price, tick, p, t, 0real, 0real, 200);
    let r = price.div(tick);
    lemma_two(q);
    assert(1000000real * size(r.exact() - q) <= 2real * q);
    lemma_quotient_bound(q);
    let k = lemma_floor_near(r);
    lemma_exact_signs(r);
    let j = lemma_floor_near(r.neg());
    let (x, y) = (whole(k), whole(j));
    lemma_ticks(r.floor(), tick, x, p, t);
    lemma_ticks(r.neg().floor(), tick, y, p, t);
    // the ask is the mirror image
    let up = r.neg().floor();
    lemma_exact_signs(up);
    assert(ceiled(price, tick) == up.neg().mul(tick));
    lemma_mirrored(up, tick);
    let (rt, qt) = (product(r.exact(), t), product(q, t));
    lemma_product_order(x, r.exact(), t);
    lemma_product_order(r.exact(), x + 1real, t);
    lemma_product_order(y, -r.exact(), t);
    lemma_product_order(-r.exact(), y + 1real, t);
    lemma_product_sum(t, x, 1real);
    lemma_product_sum(t, y, 1real);
    lemma_product_units(t);
    super::exact::lemma_product_negated(r.exact(), t);
    lemma_product_minus(t, r.exact(), q);
    lemma_product_size(t, r.exact() - q, t, 2real * q / 1000000real);
    lemma_product_scaled(t, q, 2real / 1000000real);
    lemma_product_swap(t, q);
    lemma_product_swap(t, x);
    lemma_product_swap(t, y);
    lemma_product_swap(t, r.exact());
    assert((2real / 1000000real) * q == 2real * q / 1000000real);
}

proof fn lemma_two(x: real)
    ensures
        product(0real + 0real + 2real, x) == 2real * x,
{
    reveal(product);
}

proof fn lemma_quotient_bound(q: real)
    requires
        ordinary(q, 200),
    ensures
        2real * q + 2real <= limit(),
{
    lemma_powers(200, 10);
    lemma_powers(210, 900);
    lemma_big_power();
    let p = power(200);
    assert(power(10) == 1024real) by {
        reveal(power);
        vstd::arithmetic::power2::lemma2_to64();
    }
    reveal(product);
}

/// Turning the sign of a factor turns that of the product.
proof fn lemma_mirrored(n: B64, tick: B64)
    requires
        n.finite(),
        tick.finite(),
        n.mul(tick).finite(),
    ensures
        n.neg().mul(tick).finite(),
        n.neg().mul(tick).exact() == -n.mul(tick).exact(),
{
    let (a, b) = (n.mul(tick), n.neg().mul(tick));
    lemma_mul_value(n, tick);
    lemma_mul_value(n.neg(), tick);
    lemma_pow2_pos(UNIT_EXP as nat);
    lemma_units_zero();
    crate::binary64::arith::lemma_rounded_zero(pow2(UNIT_EXP as nat) as int);
    let (v, w) = (n.value(), tick.value());
    assert(n.neg().value() == -v);
    assert((-v) * w == -(v * w)) by (nonlinear_arith);
    assert(b.value() == -a.value());
    lemma_value_range(a);
    lemma_value_range(b);
    lemma_exact_signs(a);
    assert(a.neg().value() == b.value());
    reveal(B64::exact);
}

} // verus!
