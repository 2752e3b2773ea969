//! How far the exit bias and the quality multiplier move a quote, to a tenth of
//! a percent.

use vstd::prelude::*;

use crate::binary64::consts::{HALF, ONE, ONE_P0001, P05, TINY_12, TINY_6, TINY_9, ZERO};
use crate::binary64::error::{gap, lemma_add_near, lemma_exact_sign, lemma_sub_near, limit, size, smallest};
use crate::binary64::facts::{lemma_add_grows, lemma_sub_nan};
use crate::binary64::measure::{
    lemma_exact_of, lemma_exact_order, lemma_exact_signs, lemma_range_of_sizes, lemma_tiny_12, lemma_tiny_6,
    lemma_tiny_9, lemma_whole_constants,
};
use crate::binary64::order::lemma_value_order;
use crate::binary64::rough::{
    about, lemma_about_itself, lemma_about_looser, lemma_about_plain, lemma_about_product, lemma_about_ratio,
    lemma_about_smaller, lemma_about_sum, lemma_ordinary_product, lemma_ordinary_ratio, lemma_ordinary_widens,
    lemma_powers, lemma_rounds, ordinary, power,
};
use crate::binary64::{num, B64};

use super::exact::{lemma_near_within, lemma_product_order, lemma_product_units, product, ratio};
use super::grids::law_grid_prices_are_within_a_tick;
use super::inventory_bias::{
    adverse_boost, bias_applies, biased, biased_ask, biased_bid, ceiled, depth_factor, floored, inventory_ratio,
    least_depth, ratio_share, widened, InventoryExitBias,
};
use super::quotes::smaller;

verus! {

/// The share of the allowed position that is held: the position at the mid over
/// the most that is allowed, whichever its side.
pub proof fn law_ratio_is_the_share_held(position: B64, mid: B64, most: B64)
    requires
        position.finite() && ordinary(size(position.exact()), 100),
        mid.finite() && ordinary(mid.exact(), 100),
        most.finite() && ordinary(most.exact(), 100),
    ensures
        about(
            inventory_ratio(position, mid, most),
            ratio(product(size(position.exact()), mid.exact()), most.exact()),
            3real,
        ),
        ordinary(ratio(product(size(position.exact()), mid.exact()), most.exact()), 300),
        inventory_ratio(position.neg(), mid, most) == inventory_ratio(position, mid, most),
{
    lemma_exact_signs(position);
    let (p, m, u) = (size(position.exact()), mid.exact(), most.exact());
    lemma_about_itself(position.abs());
    lemma_about_itself(mid);
    lemma_about_itself(most);
    lemma_ordinary_product(p, m, 100, 100);
    lemma_about_product(position.abs(), mid, p, m, 0real, 0real, 200);
    lemma_ordinary_ratio(product(p, m), u, 200, 100);
    lemma_about_ratio(position.abs().mul(mid), most, product(p, m), u, 1real, 0real, 300);
    assert(position.neg().abs() == position.abs());
}

/// Without an adverse move beyond the threshold there is no boost; with one it
/// is never more than a half.
pub proof fn law_boost_needs_an_adverse_move(adverse: B64, threshold: B64, per_bps: B64)
    requires
        adverse.finite(),
        threshold.finite(),
        per_bps.finite(),
    ensures
        ({
            let boost = adverse_boost(adverse, threshold, per_bps);
            &&& boost.finite()
            &&& adverse.le(threshold) ==> boost.exact() == 1real
            &&& per_bps.le(num(ZERO)) && adverse.sub(threshold).finite() ==> boost.exact() == 1real
            &&& 1real <= boost.exact() <= 3real / 2real
        }),
{
    let zero = num(ZERO);
    lemma_whole_constants();
    lemma_exact_sign(zero);
    crate::binary64::layout::lemma_units_zero();
    lemma_sub_nan(adverse, threshold);
    lemma_value_order(zero, num(HALF));
    lemma_value_order(zero, num(ONE));
    let excess = adverse.sub(threshold).max(zero);
    let rate = per_bps.max(zero);
    lemma_value_order(excess, zero);
    lemma_value_order(rate, zero);
    lemma_value_order(rate, per_bps);
    let share = excess.mul(rate);
    let cut = share.min(num(HALF));
    crate::binary64::facts::lemma_mul_sign(excess, rate);
    crate::binary64::facts::lemma_mul_nan(excess, rate);
    if adverse.le(threshold) {
        lemma_sub_nan(threshold, threshold);
        crate::binary64::facts::lemma_sub_mono(adverse, threshold, threshold, threshold);
        crate::binary64::facts::lemma_self_difference(threshold);
        lemma_value_order(threshold.sub(threshold), zero);
        lemma_value_order(adverse.sub(threshold), zero);
        assert(excess.zero());
        super::markouts::lemma_zero_times(excess, rate);
    }
    if per_bps.le(zero) {
        assert(rate.zero());
        crate::binary64::facts::lemma_mul_swap(excess, rate);
        if excess.finite() {
            super::markouts::lemma_zero_times(rate, excess);
        }
    }
    lemma_value_order(cut, num(HALF));
    lemma_value_order(num(HALF), cut);
    lemma_value_order(cut, zero);
    assert(!cut.nan() && cut.le(num(HALF)) && cut.ge(zero));
    lemma_value_order(zero, cut);
    assert(cut.finite());
    lemma_exact_order(cut, num(HALF));
    lemma_exact_order(cut, zero);
    lemma_one_more(cut);
}

/// The boost of an adverse move: so much for each basis point beyond the
/// threshold, but a half at most, to a few millionths.
pub proof fn law_boost_counts_the_excess(adverse: B64, threshold: B64, per_bps: B64)
    requires
        adverse.finite() && ordinary(adverse.exact(), 90),
        threshold.finite() && threshold.exact() > 0real,
        1000real * (adverse.exact() - threshold.exact()) >= adverse.exact(),
        per_bps.finite() && ordinary(per_bps.exact(), 100),
    ensures
        about(
            adverse_boost(adverse, threshold, per_bps),
            1real + smaller(product(adverse.exact() - threshold.exact(), per_bps.exact()), 1real / 2real),
            11real,
        ),
{
    let zero = num(ZERO);
    lemma_whole_constants();
    lemma_exact_sign(per_bps);
    lemma_value_order(per_bps, zero);
    assert(per_bps.max(zero) == per_bps);
    let (e, r) = (adverse.exact() - threshold.exact(), per_bps.exact());
    lemma_ordinary_widens(adverse.exact(), 90, 100);
    lemma_gap_about(adverse, threshold);
    let excess = adverse.sub(threshold);
    lemma_about_plain(excess, e, 1real);
    lemma_exact_sign(excess);
    lemma_value_order(excess, zero);
    assert(excess.max(zero) == excess);
    lemma_about_itself(per_bps);
    lemma_ordinary_product(e, r, 110, 100);
    lemma_about_product(excess, per_bps, e, r, 1real, 0real, 210);
    let x = product(e, r);
    lemma_about_looser(excess.mul(per_bps), x, 2real, 10real);
    lemma_about_itself(num(HALF));
    lemma_about_looser(num(HALF), 1real / 2real, 0real, 10real);
    lemma_about_smaller(excess.mul(per_bps), num(HALF), x, 1real / 2real, 10real);
    let cut = excess.mul(per_bps).min(num(HALF));
    let c = smaller(x, 1real / 2real);
    lemma_about_itself(num(ONE));
    lemma_about_looser(num(ONE), 1real, 0real, 10real);
    lemma_factor_range(1real + c);
    lemma_about_sum(num(ONE), cut, 1real, c, 10real, 20);
}

/// One more than a number up to a half.
proof fn lemma_one_more(x: B64)
    requires
        x.finite(),
        x.ge(num(ZERO)),
        x.le(num(HALF)),
    ensures
        num(ONE).add(x).finite(),
        x.exact() == 0real ==> num(ONE).add(x).exact() == 1real,
        1real <= num(ONE).add(x).exact() <= 3real / 2real,
{
    lemma_whole_constants();
    lemma_exact_sign(num(ZERO));
    lemma_exact_order(x, num(ZERO));
    lemma_exact_order(x, num(HALF));
    lemma_range_of_sizes();
    lemma_add_near(num(ONE), x);
    crate::binary64::error::lemma_near(num(ONE).add(x), 1real + x.exact());
    lemma_add_grows(num(ONE), x);
    lemma_exact_order(num(ONE), num(ONE).add(x));
    // the largest sum is a number itself
    let most = num(ONE).add(num(HALF));
    crate::binary64::facts::lemma_add_nan(num(ONE), num(HALF));
    crate::binary64::facts::lemma_add_nan(num(ONE), x);
    crate::binary64::facts::lemma_add_swap(num(ONE), x);
    crate::binary64::facts::lemma_add_swap(num(ONE), num(HALF));
    crate::binary64::facts::lemma_add_nan(x, num(ONE));
    crate::binary64::facts::lemma_add_mono(x, num(HALF), num(ONE));
    lemma_one_and_a_half();
    lemma_exact_order(num(ONE).add(x), most);
    if x.exact() == 0real {
        lemma_exact_order(x, num(ZERO));
        lemma_value_order(num(ZERO), num(ONE));
        crate::binary64::facts::lemma_add_nan(num(ZERO), num(ONE));
        crate::binary64::facts::lemma_add_mono(x, num(ZERO), num(ONE));
        super::markouts::lemma_zero_plus(num(ONE));
        lemma_exact_order(num(ONE).add(x), num(ONE));
    }
}

proof fn lemma_one_and_a_half()
    ensures
        num(ONE).add(num(HALF)).finite(),
        num(ONE).add(num(HALF)).exact() == 3real / 2real,
{
    lemma_whole_constants();
    let target = num(crate::binary64::consts::ONE_AND_A_HALF);
    crate::binary64::facts::lemma_add_value(num(ONE), num(HALF));
    lemma_value_sum(num(ONE), num(HALF), target);
    crate::binary64::rounding::lemma_rounded_exact(target.mag(), 1);
    crate::binary64::layout::lemma_units_zero();
    lemma_value_order(target, num(ZERO));
    let sum = num(ONE).add(num(HALF));
    assert(sum.value() == target.value());
    crate::binary64::facts::lemma_value_range(sum);
    crate::binary64::facts::lemma_value_range(target);
    lemma_exact_order(sum, target);
}

proof fn lemma_value_sum(a: B64, b: B64, c: B64)
    requires
        a.exact() + b.exact() == c.exact(),
    ensures
        a.value() + b.value() == c.value(),
{
    super::requotes::lemma_value_of(a);
    super::requotes::lemma_value_of(b);
    super::requotes::lemma_value_of(c);
    let one = crate::binary64::error::units_in_one();
    let (x, y, z) = (a.exact(), b.exact(), c.exact());
    assert(x * one + y * one == z * one) by (nonlinear_arith)
        requires
            x + y == z,
    ;
}

/// Whether the shares of a bias and what they apply to are ordinary numbers.
pub open spec fn ordinary_bias(
    mid: B64,
    position: B64,
    most: B64,
    adverse: B64,
    threshold: B64,
    cfg: InventoryExitBias,
) -> bool {
    &&& mid.finite() && ordinary(mid.exact(), 100)
    &&& position.finite() && ordinary(size(position.exact()), 30)
    &&& position.abs().ge(num(TINY_12))
    &&& most.finite() && ordinary(most.exact(), 100)
    &&& adverse.finite() && threshold.finite()
    &&& cfg.enabled
    &&& cfg.min_ratio.finite()
    &&& cfg.adverse_boost_per_bps.finite()
    &&& cfg.exit_tighten_per_ratio.finite() && ordinary(cfg.exit_tighten_per_ratio.exact(), 100)
    &&& cfg.add_widen_per_ratio.finite() && ordinary(cfg.add_widen_per_ratio.exact(), 100)
    &&& cfg.max_exit_tighten.finite() && ordinary(cfg.max_exit_tighten.exact(), 100)
    &&& cfg.max_add_widen.finite() && ordinary(cfg.max_add_widen.exact(), 100)
    &&& 10real * cfg.max_exit_tighten.exact() <= 9real
    &&& cfg.max_add_widen.exact() <= 1000real
}

/// The share by which a side is tightened or widened: so much per share held,
/// boosted by an adverse move, but no more than the most allowed.
pub open spec fn exact_share(per_ratio: B64, held: real, boost: B64, most: B64) -> real {
    smaller(product(product(per_ratio.exact(), held), boost.exact()), most.exact())
}

proof fn lemma_shares_of(per_ratio: B64, held: B64, exact_held: real, boost: B64, most: B64)
    requires
        per_ratio.finite() && ordinary(per_ratio.exact(), 100),
        most.finite() && ordinary(most.exact(), 100),
        about(held, exact_held, 3real),
        ordinary(exact_held, 300),
        boost.finite(),
        1real <= boost.exact() <= 3real / 2real,
    ensures
        about(ratio_share(per_ratio, held, boost, most), exact_share(per_ratio, exact_held, boost, most), 10real),
        ratio_share(per_ratio, held, boost, most).gt(num(ZERO)),
{
    lemma_exact_sign(per_ratio);
    lemma_exact_sign(most);
    lemma_value_order(per_ratio, num(ZERO));
    lemma_value_order(most, num(ZERO));
    assert(per_ratio.max(num(ZERO)) == per_ratio);
    assert(most.max(num(ZERO)) == most);
    lemma_about_itself(per_ratio);
    lemma_about_itself(most);
    lemma_about_itself(boost);
    let (p, h) = (per_ratio.exact(), exact_held);
    lemma_ordinary_product(p, h, 100, 300);
    lemma_about_product(per_ratio, held, p, h, 0real, 3real, 400);
    let b = boost.exact();
    lemma_factor_range(b);
    let x = product(product(p, h), b);
    lemma_ordinary_product(product(p, h), b, 400, 20);
    lemma_about_product(per_ratio.mul(held), boost, product(p, h), b, 4real, 0real, 420);
    lemma_about_looser(per_ratio.mul(held).mul(boost), x, 5real, 10real);
    lemma_about_looser(most, most.exact(), 0real, 10real);
    lemma_about_smaller(per_ratio.mul(held).mul(boost), most, x, most.exact(), 10real);
    let r = ratio_share(per_ratio, held, boost, most);
    lemma_about_plain(r, exact_share(per_ratio, h, boost, most), 10real);
    lemma_exact_sign(r);
}

/// The factor on a depth, from a share that is about right.
proof fn lemma_factors(tighten: B64, widen: B64, t: real, w: real)
    requires
        about(tighten, t, 10real),
        about(widen, w, 10real),
        10real * t <= 9real,
        w <= 1000real,
    ensures
        about(depth_factor(true, tighten, widen), 1real - t, 200real),
        about(depth_factor(false, tighten, widen), 1real + w, 200real),
{
    let one = num(ONE);
    lemma_whole_constants();
    lemma_range_of_sizes();
    crate::strategy::markouts::lemma_smallest_tiny();
    lemma_five_percent();
    lemma_ten(t);
    lemma_ten(w);
    lemma_two_hundred(1real - t);
    lemma_two_hundred(1real + w);
    let (a, b) = (one.sub(tighten), one.add(widen));
    lemma_sub_near(one, tighten);
    lemma_add_near(one, widen);
    lemma_near_within(a, 1real - tighten.exact(), 1real);
    let z = 2000real;
    lemma_near_within(b, 1real + widen.exact(), 2real + w);
    lemma_hundred_millionth(1real);
    lemma_hundred_millionth(2real + w);
    assert(1000000real * size(a.exact() - (1real - t)) <= 200real * (1real - t));
    lemma_exact_order(a, num(P05));
    lemma_value_order(a, num(P05));
    assert(a.max(num(P05)) == a);
}

proof fn lemma_ten(x: real)
    ensures
        product(10real, x) == 10real * x,
{
    reveal(product);
}

proof fn lemma_two_hundred(x: real)
    ensures
        product(200real, x) == 200real * x,
{
    reveal(product);
}

pub proof fn lemma_hundred_millionth(x: real)
    requires
        x >= 0real,
    ensures
        1000000000000real * product(gap(), x) <= x,
{
    let g = gap();
    super::exact::lemma_gap();
    assert(1000000000000real * g <= 1real);
    lemma_product_order(1000000000000real * g, 1real, x);
    lemma_product_units(x);
    super::quotes::lemma_product_scaled(g, x, 1000000000000real);
}

proof fn lemma_five_percent()
    ensures
        num(P05).finite(),
        size(100real * num(P05).exact() - 5real) <= 1real / 1000000000000real,
{
    vstd::arithmetic::power2::lemma2_to64();
    vstd::arithmetic::power2::lemma2_to64_rest();
    lemma_exact_of(P05, 1017, 7205759403792794, 57, 144115188075855872real, 7205759403792794real);
}

/// The least depth without a grid.
proof fn lemma_least(mid: B64, tick: B64)
    requires
        mid.finite() && ordinary(mid.exact(), 100),
        tick.le(num(ZERO)),
    ensures
        least_depth(mid, tick).finite(),
        1000000real * least_depth(mid, tick).exact() <= 2real * mid.exact() || 1000000000real * least_depth(
            mid,
            tick,
        ).exact() <= 2real,
        least_depth(mid, tick).exact() > 0real,
{
    lemma_tiny_6();
    lemma_tiny_9();
    lemma_range_of_sizes();
    let (m, t) = (mid.exact(), num(TINY_6).exact());
    lemma_value_order(tick, num(ZERO));
    lemma_exact_sign(mid);
    assert(0real < t <= 1real);
    assert(m * t <= 2real * m / 1000000real) by (nonlinear_arith)
        requires
            m > 0real,
            1000000real * t <= 1real + 1real / 100real,
    ;
    assert(m * t >= 0real) by (nonlinear_arith)
        requires
            m > 0real,
            t > 0real,
    ;
    lemma_powers(100, 900);
    assert(power(100) <= limit()) by {
        crate::binary64::rough::lemma_big_power();
    }
    assert(m * t <= m) by (nonlinear_arith)
        requires
            m > 0real,
            t <= 1real,
    ;
    assert(1000000real * (m * t) <= m + m / 100real) by (nonlinear_arith)
        requires
            m > 0real,
            1000000real * t <= 1real + 1real / 100real,
    ;
    crate::binary64::error::lemma_mul_near(mid, num(TINY_6));
    lemma_near_within(mid.mul(num(TINY_6)), m * t, m);
    lemma_hundred_millionth(m);
    lemma_ordinary_widens(m, 100, 900);
    crate::binary64::rough::lemma_small_parts(m);
    lemma_least_parts(m);
    let x = mid.mul(num(TINY_6));
    lemma_exact_order(x, num(TINY_9));
    lemma_value_order(x, num(TINY_9));
}

proof fn lemma_least_parts(m: real)
    requires
        ordinary(m, 900),
    ensures
        1000000000real * smallest() <= m,
{
    crate::binary64::rough::lemma_small_parts(m);
    lemma_range_of_sizes();
}

/// The distance of two ordinary prices that are clearly apart.
proof fn lemma_gap_about(high: B64, low: B64)
    requires
        high.finite() && ordinary(high.exact(), 100),
        low.finite() && low.exact() > 0real,
        1000real * (high.exact() - low.exact()) >= high.exact(),
    ensures
        about(high.sub(low), high.exact() - low.exact(), 1real),
        ordinary(high.exact() - low.exact(), 110),
{
    let d = high.exact() - low.exact();
    lemma_fraction(high.exact(), d);
    lemma_powers(110, 900);
    crate::binary64::rough::lemma_big_power();
    lemma_sub_near(high, low);
    lemma_rounds(high.sub(low), d, 110);
    lemma_product_units(d);
}

proof fn lemma_fraction(x: real, d: real)
    requires
        ordinary(x, 100),
        1000real * d >= x,
        d <= x,
    ensures
        ordinary(d, 110),
{
    lemma_powers(100, 10);
    let (p, q) = (power(100), power(110));
    assert(power(10) == 1024real) by {
        reveal(power);
        vstd::arithmetic::power2::lemma2_to64();
    }
    reveal(product);
    assert(q == p * 1024real);
    let xp = x * p;
    assert(d * q >= xp) by (nonlinear_arith)
        requires
            xp == x * p,
            q == p * 1024real,
            1000real * d >= x,
            p >= 1real,
            d >= 0real,
    ;
}

/// A side at so many times its depth from the mid, without a grid: the bid.
proof fn lemma_bid_moved(bid: B64, mid: B64, tick: B64, factor: B64, f: real)
    requires
        mid.finite() && ordinary(mid.exact(), 100),
        bid.finite() && bid.exact() > 0real,
        1000real * (mid.exact() - bid.exact()) >= mid.exact(),
        100000000real * (mid.exact() - bid.exact()) >= 1real,
        tick.le(num(ZERO)),
        about(factor, f, 200real),
        10real * f >= 1real,
        f <= 1001real,
    ensures
        biased_bid(bid, mid, tick, factor).finite(),
        1000real * size(
            biased_bid(bid, mid, tick, factor).exact() - (mid.exact() - product(mid.exact() - bid.exact(), f)),
        ) <= product(mid.exact() - bid.exact(), f) + mid.exact() / 1000real,
{
    let (m, d) = (mid.exact(), mid.exact() - bid.exact());
    lemma_gap_about(mid, bid);
    lemma_least(mid, tick);
    lemma_about_plain(mid.sub(bid), d, 1real);
    let least = least_depth(mid, tick);
    lemma_exact_order(mid.sub(bid), least);
    lemma_value_order(mid.sub(bid), least);
    assert(mid.sub(bid).max(least) == mid.sub(bid));
    lemma_factor_range(f);
    lemma_ordinary_product(d, f, 110, 20);
    lemma_about_product(mid.sub(bid), factor, d, f, 1real, 200real, 130);
    let moved = mid.sub(bid).mul(factor);
    lemma_value_order(tick, num(ZERO));
    lemma_two_oh_two(product(d, f));
    lemma_tenth(d, f);
    lemma_price_moved(mid, moved, product(d, f));
}

proof fn lemma_two_oh_two(x: real)
    ensures
        product(202real, x) == 202real * x,
        product(1real + 200real + 1real, x) == 202real * x,
{
    reveal(product);
}

pub proof fn lemma_factor_range(f: real)
    requires
        10real * f >= 1real,
        f <= 1001real,
    ensures
        ordinary(f, 20),
{
    assert(power(20) == 1048576real) by {
        reveal(power);
        vstd::arithmetic::power2::lemma2_to64();
    }
    reveal(product);
}

proof fn lemma_tenth(d: real, f: real)
    requires
        d > 0real,
        10real * f >= 1real,
        f <= 1001real,
    ensures
        10real * product(d, f) >= d,
        product(d, f) <= 1001real * d,
{
    reveal(product);
    assert(10real * (d * f) >= d) by (nonlinear_arith)
        requires
            d > 0real,
            10real * f >= 1real,
    ;
    assert(d * f <= 1001real * d) by (nonlinear_arith)
        requires
            d > 0real,
            f <= 1001real,
    ;
}

/// A price a distance away from the mid, to both sides.
proof fn lemma_price_moved(mid: B64, moved: B64, distance: real)
    requires
        mid.finite() && ordinary(mid.exact(), 100),
        moved.finite(),
        distance > 0real,
        distance <= 1001real * 1000real * mid.exact(),
        10000real * distance >= mid.exact(),
        1000000real * size(moved.exact() - distance) <= 202real * distance,
    ensures
        mid.sub(moved).finite(),
        mid.add(moved).finite(),
        mid.sub(moved).lt(mid),
        mid.add(moved).gt(mid),
        1000real * size(mid.sub(moved).exact() - (mid.exact() - distance)) <= distance + mid.exact() / 1000real,
        1000real * size(mid.add(moved).exact() - (mid.exact() + distance)) <= distance + mid.exact() / 1000real,
{
    let m = mid.exact();
    lemma_powers(100, 100);
    lemma_powers(200, 900);
    crate::binary64::rough::lemma_big_power();
    lemma_wide(m);
    lemma_sub_near(mid, moved);
    lemma_add_near(mid, moved);
    let z = 2real * m + 2real * distance;
    lemma_near_within(mid.sub(moved), m - moved.exact(), z);
    lemma_near_within(mid.add(moved), m + moved.exact(), z);
    lemma_hundred_millionth(z);
    lemma_ordinary_widens(m, 100, 900);
    crate::binary64::rough::lemma_small_parts(m);
    lemma_exact_order(mid.sub(moved), mid);
    lemma_exact_order(mid.add(moved), mid);
    lemma_smallest_under(m);
}

pub proof fn lemma_smallest_under(m: real)
    requires
        ordinary(m, 100),
    ensures
        1000000000000000000real * smallest() <= m,
{
    lemma_ordinary_widens(m, 100, 900);
    super::exact::lemma_gap();
    lemma_powers(100, 974);
    let (s, one, p, q) = (smallest(), crate::binary64::error::units_in_one(), power(100), power(974));
    assert(one == power(1074)) by {
        reveal(power);
    }
    assert(q >= 1000000000000000000real) by {
        reveal(power);
        vstd::arithmetic::power2::lemma2_to64();
        vstd::arithmetic::power2::lemma_pow2_strictly_increases(64, 974);
    }
    reveal(product);
    let sq = s * q;
    assert(sq * p == 1real) by (nonlinear_arith)
        requires
            s * one == 1real,
            one == p * q,
            sq == s * q,
    ;
    assert(sq <= m) by (nonlinear_arith)
        requires
            sq * p == 1real,
            m * p >= 1real,
            p >= 1real,
    ;
    assert(1000000000000000000real * s <= sq) by (nonlinear_arith)
        requires
            sq == s * q,
            q >= 1000000000000000000real,
            s > 0real,
    ;
}

pub proof fn lemma_wide(m: real)
    requires
        ordinary(m, 100),
    ensures
        10000000real * m <= limit(),
{
    lemma_powers(100, 100);
    lemma_powers(200, 900);
    crate::binary64::rough::lemma_big_power();
    let p = power(100);
    assert(p >= 10000000real) by {
        reveal(power);
        vstd::arithmetic::power2::lemma2_to64();
        vstd::arithmetic::power2::lemma_pow2_strictly_increases(32, 100);
    }
    lemma_product_order(10000000real, p, p);
    reveal(product);
}

/// The ask, likewise.
proof fn lemma_ask_moved(ask: B64, mid: B64, tick: B64, factor: B64, f: real)
    requires
        mid.finite() && ordinary(mid.exact(), 100),
        ask.finite() && ordinary(ask.exact(), 100),
        1000real * (ask.exact() - mid.exact()) >= ask.exact(),
        100000000real * (ask.exact() - mid.exact()) >= 1real,
        ask.exact() <= 1000real * mid.exact(),
        tick.le(num(ZERO)),
        about(factor, f, 200real),
        10real * f >= 1real,
        f <= 1001real,
    ensures
        biased_ask(ask, mid, tick, factor).finite(),
        1000real * size(
            biased_ask(ask, mid, tick, factor).exact() - (mid.exact() + product(ask.exact() - mid.exact(), f)),
        ) <= product(ask.exact() - mid.exact(), f) + mid.exact() / 1000real,
{
    let (m, d) = (mid.exact(), ask.exact() - mid.exact());
    lemma_gap_about(ask, mid);
    lemma_least(mid, tick);
    lemma_about_plain(ask.sub(mid), d, 1real);
    let least = least_depth(mid, tick);
    lemma_exact_order(ask.sub(mid), least);
    lemma_value_order(ask.sub(mid), least);
    assert(ask.sub(mid).max(least) == ask.sub(mid));
    lemma_factor_range(f);
    lemma_ordinary_product(d, f, 110, 20);
    lemma_about_product(ask.sub(mid), factor, d, f, 1real, 200real, 130);
    let moved = ask.sub(mid).mul(factor);
    lemma_value_order(tick, num(ZERO));
    lemma_two_oh_two(product(d, f));
    lemma_tenth(d, f);
    lemma_price_moved(mid, moved, product(d, f));
}

/// The exit bias, off the tick grid. A position of at least the least share
/// held moves both sides: the one that would add to it out to its distance from
/// the mid and so much more per share held, the one that reduces it in to so
/// much less, boosted and each within its limit. To a tenth of a percent of the distance
/// and a millionth of the price.
pub proof fn law_bias_moves_each_side_by_its_share(
    bid: B64,
    ask: B64,
    mid: B64,
    position: B64,
    most: B64,
    adverse: B64,
    threshold: B64,
    cfg: InventoryExitBias,
    tick: B64,
)
    requires
        ordinary_bias(mid, position, most, adverse, threshold, cfg),
        inventory_ratio(position, mid, most).ge(cfg.min_ratio),
        bid.finite() && bid.exact() > 0real,
        1000real * (mid.exact() - bid.exact()) >= mid.exact(),
        100000000real * (mid.exact() - bid.exact()) >= 1real,
        ask.finite() && ordinary(ask.exact(), 100),
        1000real * (ask.exact() - mid.exact()) >= ask.exact(),
        100000000real * (ask.exact() - mid.exact()) >= 1real,
        ask.exact() <= 1000real * mid.exact(),
        tick.le(num(ZERO)),
    ensures
        ({
            let out = biased(bid, ask, mid, position, most, adverse, threshold, cfg, tick);
            let held = ratio(product(size(position.exact()), mid.exact()), most.exact());
            let boost = adverse_boost(adverse, threshold, cfg.adverse_boost_per_bps);
            let less = 1real - exact_share(cfg.exit_tighten_per_ratio, held, boost, cfg.max_exit_tighten);
            let more = 1real + exact_share(cfg.add_widen_per_ratio, held, boost, cfg.max_add_widen);
            let long = position.exact() > 0real;
            let below = product(mid.exact() - bid.exact(), if long { more } else { less });
            let above = product(ask.exact() - mid.exact(), if long { less } else { more });
            &&& out.0.finite() && out.1.finite()
            &&& 1000real * size(out.0.exact() - (mid.exact() - below)) <= below + mid.exact() / 1000real
            &&& 1000real * size(out.1.exact() - (mid.exact() + above)) <= above + mid.exact() / 1000real
        }),
{
    let zero = num(ZERO);
    let held = ratio(product(size(position.exact()), mid.exact()), most.exact());
    let share = inventory_ratio(position, mid, most);
    let boost = adverse_boost(adverse, threshold, cfg.adverse_boost_per_bps);
    lemma_exact_sign(position);
    lemma_exact_sign(mid);
    lemma_exact_sign(most);
    lemma_exact_sign(bid);
    lemma_exact_sign(ask);
    lemma_value_order(position, zero);
    lemma_ordinary_widens(size(position.exact()), 30, 100);
    law_ratio_is_the_share_held(position, mid, most);
    law_boost_needs_an_adverse_move(adverse, threshold, cfg.adverse_boost_per_bps);
    lemma_shares_of(cfg.exit_tighten_per_ratio, share, held, boost, cfg.max_exit_tighten);
    lemma_shares_of(cfg.add_widen_per_ratio, share, held, boost, cfg.max_add_widen);
    let tighten = ratio_share(cfg.exit_tighten_per_ratio, share, boost, cfg.max_exit_tighten);
    let widen = ratio_share(cfg.add_widen_per_ratio, share, boost, cfg.max_add_widen);
    let t = exact_share(cfg.exit_tighten_per_ratio, held, boost, cfg.max_exit_tighten);
    let w = exact_share(cfg.add_widen_per_ratio, held, boost, cfg.max_add_widen);
    lemma_factors(tighten, widen, t, w);
    let shrink = depth_factor(true, tighten, widen);
    let grow = depth_factor(false, tighten, widen);
    lemma_tiny_12();
    assert(bias_applies(cfg, mid, position, most));
    if position.exact() > 0real {
        lemma_bid_moved(bid, mid, tick, grow, 1real + w);
        lemma_ask_moved(ask, mid, tick, shrink, 1real - t);
    } else {
        lemma_bid_moved(bid, mid, tick, shrink, 1real - t);
        lemma_ask_moved(ask, mid, tick, grow, 1real + w);
    }
}

/// The quality multiplier, off the tick grid: both sides stand that many times
/// as far from the mid as they did, to the same precision.
pub proof fn law_multiplier_multiplies_the_distance(bid: B64, ask: B64, mid: B64, multiplier: B64, tick: B64)
    requires
        mid.finite() && ordinary(mid.exact(), 100),
        bid.finite() && bid.exact() > 0real,
        1000real * (mid.exact() - bid.exact()) >= mid.exact(),
        ask.finite() && ordinary(ask.exact(), 100),
        1000real * (ask.exact() - mid.exact()) >= ask.exact(),
        ask.exact() <= 1000real * mid.exact(),
        multiplier.finite(),
        multiplier.gt(num(ONE_P0001)),
        multiplier.exact() <= 1000real,
        tick.le(num(ZERO)),
    ensures
        ({
            let out = widened(bid, ask, mid, multiplier, tick);
            let below = product(mid.exact() - bid.exact(), multiplier.exact());
            let above = product(ask.exact() - mid.exact(), multiplier.exact());
            &&& out.0.finite() && out.1.finite()
            &&& 1000real * size(out.0.exact() - (mid.exact() - below)) <= below + mid.exact() / 1000real
            &&& 1000real * size(out.1.exact() - (mid.exact() + above)) <= above + mid.exact() / 1000real
        }),
{
    let zero = num(ZERO);
    let f = multiplier.exact();
    lemma_exact_sign(mid);
    lemma_exact_sign(bid);
    lemma_exact_sign(ask);
    lemma_value_order(tick, zero);
    lemma_value_order(multiplier, num(ONE_P0001));
    lemma_whole_constants();
    lemma_value_order(num(ONE), num(ONE_P0001));
    assert(multiplier.gt(num(ONE)));
    lemma_exact_order(num(ONE), multiplier);
    lemma_about_itself(multiplier);
    lemma_about_looser(multiplier, f, 0real, 200real);
    lemma_factor_range(f);
    let (d, u) = (mid.exact() - bid.exact(), ask.exact() - mid.exact());
    lemma_gap_about(mid, bid);
    lemma_gap_about(ask, mid);
    lemma_about_plain(mid.sub(bid), d, 1real);
    lemma_about_plain(ask.sub(mid), u, 1real);
    lemma_exact_sign(mid.sub(bid));
    lemma_exact_sign(ask.sub(mid));
    lemma_value_order(mid.sub(bid), zero);
    lemma_value_order(ask.sub(mid), zero);
    lemma_ordinary_product(d, f, 110, 20);
    lemma_ordinary_product(u, f, 110, 20);
    lemma_about_product(mid.sub(bid), multiplier, d, f, 1real, 200real, 130);
    lemma_about_product(ask.sub(mid), multiplier, u, f, 1real, 200real, 130);
    lemma_two_oh_two(product(d, f));
    lemma_two_oh_two(product(u, f));
    lemma_tenth(d, f);
    lemma_tenth(u, f);
    lemma_price_moved(mid, mid.sub(bid).mul(multiplier), product(d, f));
    lemma_price_moved(mid, ask.sub(mid).mul(multiplier), product(u, f));
}

/// A price a distance away from the mid, put on the grid.
proof fn lemma_grid_moved(mid: B64, moved: B64, distance: real, tick: B64)
    requires
        mid.finite() && ordinary(mid.exact(), 90),
        moved.finite(),
        tick.finite() && ordinary(tick.exact(), 90),
        distance > 0real,
        10000real * distance >= mid.exact(),
        10real * distance >= 9real * mid.exact() / 100000real,
        20real * distance >= tick.exact(),
        10real * distance <= 9real * mid.exact(),
        1000000real * size(moved.exact() - distance) <= 202real * distance,
    ensures
        ({
            let (m, t) = (mid.exact(), tick.exact());
            let (low, high) = (floored(mid.sub(moved), tick), ceiled(mid.add(moved), tick));
            let slack = distance / 1000real + (m + t) / 10000real;
            &&& low.finite() && high.finite()
            &&& low.lt(mid)
            &&& high.gt(mid)
            &&& m - distance - t - slack <= low.exact() <= m - distance + slack
            &&& m + distance - slack <= high.exact() <= m + distance + t + slack
        }),
{
    let (m, t) = (mid.exact(), tick.exact());
    lemma_ordinary_widens(m, 90, 100);
    lemma_ordinary_widens(t, 90, 100);
    lemma_price_moved(mid, moved, distance);
    let (a, b) = (mid.sub(moved), mid.add(moved));
    super::vol_quotes::lemma_near_mid(a.exact(), m);
    super::vol_quotes::lemma_near_mid(b.exact(), m);
    law_grid_prices_are_within_a_tick(a, tick);
    law_grid_prices_are_within_a_tick(b, tick);
    lemma_exact_order(floored(a, tick), mid);
    lemma_exact_order(ceiled(b, tick), mid);
}

/// The exit bias on the tick grid. It moves each side as it does off the grid,
/// and then less than a tick away from the mid.
pub proof fn law_bias_moves_each_side_on_the_grid(
    bid: B64,
    ask: B64,
    mid: B64,
    position: B64,
    most: B64,
    adverse: B64,
    threshold: B64,
    cfg: InventoryExitBias,
    tick: B64,
)
    requires
        ordinary_bias(mid, position, most, adverse, threshold, cfg),
        ordinary(mid.exact(), 90),
        inventory_ratio(position, mid, most).ge(cfg.min_ratio),
        tick.finite() && ordinary(tick.exact(), 90),
        bid.finite() && bid.exact() > 0real,
        1000real * (mid.exact() - bid.exact()) >= mid.exact(),
        1000real * (mid.exact() - bid.exact()) >= 1001real * tick.exact(),
        ask.finite() && ordinary(ask.exact(), 90),
        1000real * (ask.exact() - mid.exact()) >= ask.exact(),
        1000real * (ask.exact() - mid.exact()) >= 1001real * tick.exact(),
        ({
            let held = ratio(product(size(position.exact()), mid.exact()), most.exact());
            let boost = adverse_boost(adverse, threshold, cfg.adverse_boost_per_bps);
            let more = 1real + exact_share(cfg.add_widen_per_ratio, held, boost, cfg.max_add_widen);
            &&& 10real * product(mid.exact() - bid.exact(), more) <= 9real * mid.exact()
            &&& 10real * product(ask.exact() - mid.exact(), more) <= 9real * mid.exact()
        }),
    ensures
        ({
            let out = biased(bid, ask, mid, position, most, adverse, threshold, cfg, tick);
            let held = ratio(product(size(position.exact()), mid.exact()), most.exact());
            let boost = adverse_boost(adverse, threshold, cfg.adverse_boost_per_bps);
            let less = 1real - exact_share(cfg.exit_tighten_per_ratio, held, boost, cfg.max_exit_tighten);
            let more = 1real + exact_share(cfg.add_widen_per_ratio, held, boost, cfg.max_add_widen);
            let (m, t) = (mid.exact(), tick.exact());
            let long = position.exact() > 0real;
            let below = product(m - bid.exact(), if long { more } else { less });
            let above = product(ask.exact() - m, if long { less } else { more });
            &&& out.0.finite() && out.1.finite()
            &&& m - below - t - (below / 1000real + (m + t) / 10000real) <= out.0.exact() <= m - below + below
                / 1000real + (m + t) / 10000real
            &&& m + above - (above / 1000real + (m + t) / 10000real) <= out.1.exact() <= m + above + t + above
                / 1000real + (m + t) / 10000real
        }),
{
    let zero = num(ZERO);
    let held = ratio(product(size(position.exact()), mid.exact()), most.exact());
    let share = inventory_ratio(position, mid, most);
    let boost = adverse_boost(adverse, threshold, cfg.adverse_boost_per_bps);
    lemma_exact_sign(position);
    lemma_exact_sign(mid);
    lemma_exact_sign(most);
    lemma_exact_sign(bid);
    lemma_exact_sign(ask);
    lemma_exact_sign(tick);
    lemma_value_order(position, zero);
    lemma_ordinary_widens(size(position.exact()), 30, 100);
    law_ratio_is_the_share_held(position, mid, most);
    law_boost_needs_an_adverse_move(adverse, threshold, cfg.adverse_boost_per_bps);
    lemma_shares_of(cfg.exit_tighten_per_ratio, share, held, boost, cfg.max_exit_tighten);
    lemma_shares_of(cfg.add_widen_per_ratio, share, held, boost, cfg.max_add_widen);
    let tighten = ratio_share(cfg.exit_tighten_per_ratio, share, boost, cfg.max_exit_tighten);
    let widen = ratio_share(cfg.add_widen_per_ratio, share, boost, cfg.max_add_widen);
    let t = exact_share(cfg.exit_tighten_per_ratio, held, boost, cfg.max_exit_tighten);
    let w = exact_share(cfg.add_widen_per_ratio, held, boost, cfg.max_add_widen);
    lemma_factors(tighten, widen, t, w);
    let shrink = depth_factor(true, tighten, widen);
    let grow = depth_factor(false, tighten, widen);
    lemma_tiny_12();
    assert(bias_applies(cfg, mid, position, most));
    let (d, u) = (mid.exact() - bid.exact(), ask.exact() - mid.exact());
    lemma_product_order(1real - t, 1real + w, d);
    lemma_product_order(1real - t, 1real + w, u);
    lemma_tenth(d, 1real + w);
    lemma_tenth(u, 1real + w);
    lemma_product_order(1real, 1real + w, u);
    lemma_product_units(u);
    if position.exact() > 0real {
        lemma_bid_on_grid(bid, mid, tick, grow, 1real + w);
        lemma_ask_on_grid(ask, mid, tick, shrink, 1real - t);
    } else {
        lemma_bid_on_grid(bid, mid, tick, shrink, 1real - t);
        lemma_ask_on_grid(ask, mid, tick, grow, 1real + w);
    }
}

proof fn lemma_bid_on_grid(bid: B64, mid: B64, tick: B64, factor: B64, f: real)
    requires
        mid.finite() && ordinary(mid.exact(), 90),
        bid.finite() && bid.exact() > 0real,
        1000real * (mid.exact() - bid.exact()) >= mid.exact(),
        1000real * (mid.exact() - bid.exact()) >= 1001real * tick.exact(),
        tick.finite() && ordinary(tick.exact(), 90),
        about(factor, f, 200real),
        10real * f >= 1real,
        f <= 1001real,
        10real * product(mid.exact() - bid.exact(), f) <= 9real * mid.exact(),
    ensures
        ({
            let (m, t) = (mid.exact(), tick.exact());
            let distance = product(m - bid.exact(), f);
            let slack = distance / 1000real + (m + t) / 10000real;
            let r = biased_bid(bid, mid, tick, factor);
            &&& r.finite()
            &&& m - distance - t - slack <= r.exact() <= m - distance + slack
        }),
{
    let (m, d) = (mid.exact(), mid.exact() - bid.exact());
    lemma_ordinary_widens(m, 90, 100);
    lemma_exact_sign(tick);
    lemma_gap_about(mid, bid);
    lemma_one_of(d);
    lemma_exact_order(mid.sub(bid), tick);
    lemma_value_order(mid.sub(bid), tick);
    assert(mid.sub(bid).max(tick) == mid.sub(bid));
    lemma_factor_range(f);
    lemma_ordinary_product(d, f, 110, 20);
    lemma_about_product(mid.sub(bid), factor, d, f, 1real, 200real, 130);
    lemma_two_oh_two(product(d, f));
    lemma_tenth(d, f);
    lemma_grid_moved(mid, mid.sub(bid).mul(factor), product(d, f), tick);
}

proof fn lemma_one_of(x: real)
    ensures
        product(1real, x) == x,
{
    lemma_product_units(x);
}

proof fn lemma_ask_on_grid(ask: B64, mid: B64, tick: B64, factor: B64, f: real)
    requires
        mid.finite() && ordinary(mid.exact(), 90),
        ask.finite() && ordinary(ask.exact(), 90),
        1000real * (ask.exact() - mid.exact()) >= ask.exact(),
        1000real * (ask.exact() - mid.exact()) >= 1001real * tick.exact(),
        tick.finite() && ordinary(tick.exact(), 90),
        about(factor, f, 200real),
        10real * f >= 1real,
        f <= 1001real,
        10real * product(ask.exact() - mid.exact(), f) <= 9real * mid.exact(),
    ensures
        ({
            let (m, t) = (mid.exact(), tick.exact());
            let distance = product(ask.exact() - m, f);
            let slack = distance / 1000real + (m + t) / 10000real;
            let r = biased_ask(ask, mid, tick, factor);
            &&& r.finite()
            &&& m + distance - slack <= r.exact() <= m + distance + t + slack
        }),
{
    let (m, d) = (mid.exact(), ask.exact() - mid.exact());
    lemma_ordinary_widens(ask.exact(), 90, 100);
    lemma_exact_sign(tick);
    lemma_gap_about(ask, mid);
    lemma_one_of(d);
    lemma_exact_order(ask.sub(mid), tick);
    lemma_value_order(ask.sub(mid), tick);
    assert(ask.sub(mid).max(tick) == ask.sub(mid));
    lemma_factor_range(f);
    lemma_ordinary_product(d, f, 110, 20);
    lemma_about_product(ask.sub(mid), factor, d, f, 1real, 200real, 130);
    lemma_two_oh_two(product(d, f));
    lemma_tenth(d, f);
    lemma_grid_moved(mid, ask.sub(mid).mul(factor), product(d, f), tick);
}

/// The quality multiplier on the tick grid: both sides stand that many times as
/// far from the mid as they did, and then less than a tick further.
pub proof fn law_multiplier_multiplies_on_the_grid(bid: B64, ask: B64, mid: B64, multiplier: B64, tick: B64)
    requires
        mid.finite() && ordinary(mid.exact(), 90),
        tick.finite() && ordinary(tick.exact(), 90),
        bid.finite() && bid.exact() > 0real,
        1000real * (mid.exact() - bid.exact()) >= mid.exact(),
        mid.exact() - bid.exact() >= tick.exact(),
        ask.finite() && ordinary(ask.exact(), 90),
        1000real * (ask.exact() - mid.exact()) >= ask.exact(),
        ask.exact() - mid.exact() >= tick.exact(),
        multiplier.finite(),
        multiplier.gt(num(ONE_P0001)),
        multiplier.exact() <= 1000real,
        10real * product(mid.exact() - bid.exact(), multiplier.exact()) <= 9real * mid.exact(),
        10real * product(ask.exact() - mid.exact(), multiplier.exact()) <= 9real * mid.exact(),
    ensures
        ({
            let out = widened(bid, ask, mid, multiplier, tick);
            let (m, t) = (mid.exact(), tick.exact());
            let below = product(m - bid.exact(), multiplier.exact());
            let above = product(ask.exact() - m, multiplier.exact());
            &&& out.0.finite() && out.1.finite()
            &&& m - below - t - (below / 1000real + (m + t) / 10000real) <= out.0.exact() <= m - below + below
                / 1000real + (m + t) / 10000real
            &&& m + above - (above / 1000real + (m + t) / 10000real) <= out.1.exact() <= m + above + t + above
                / 1000real + (m + t) / 10000real
        }),
{
    let zero = num(ZERO);
    let f = multiplier.exact();
    lemma_exact_sign(mid);
    lemma_exact_sign(bid);
    lemma_exact_sign(ask);
    lemma_exact_sign(tick);
    lemma_ordinary_widens(mid.exact(), 90, 100);
    lemma_ordinary_widens(ask.exact(), 90, 100);
    lemma_value_order(multiplier, num(ONE_P0001));
    lemma_whole_constants();
    lemma_value_order(num(ONE), num(ONE_P0001));
    assert(multiplier.gt(num(ONE)));
    lemma_exact_order(num(ONE), multiplier);
    lemma_about_itself(multiplier);
    lemma_about_looser(multiplier, f, 0real, 200real);
    lemma_factor_range(f);
    let (d, u) = (mid.exact() - bid.exact(), ask.exact() - mid.exact());
    lemma_gap_about(mid, bid);
    lemma_gap_about(ask, mid);
    lemma_about_plain(mid.sub(bid), d, 1real);
    lemma_about_plain(ask.sub(mid), u, 1real);
    lemma_exact_sign(mid.sub(bid));
    lemma_exact_sign(ask.sub(mid));
    lemma_value_order(mid.sub(bid), zero);
    lemma_value_order(ask.sub(mid), zero);
    lemma_ordinary_product(d, f, 110, 20);
    lemma_ordinary_product(u, f, 110, 20);
    lemma_about_product(mid.sub(bid), multiplier, d, f, 1real, 200real, 130);
    lemma_about_product(ask.sub(mid), multiplier, u, f, 1real, 200real, 130);
    lemma_two_oh_two(product(d, f));
    lemma_two_oh_two(product(u, f));
    lemma_tenth(d, f);
    lemma_tenth(u, f);
    lemma_grid_moved(mid, mid.sub(bid).mul(multiplier), product(d, f), tick);
    lemma_grid_moved(mid, ask.sub(mid).mul(multiplier), product(u, f), tick);
}

} // verus!
