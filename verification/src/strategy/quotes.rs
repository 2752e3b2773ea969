//! What a two-sided quote is, in exact prices and sizes up to rounding.

use vstd::arithmetic::power2::{lemma2_to64_rest, lemma_pow2_adds, lemma_pow2_pos, pow2};
use vstd::prelude::*;

use crate::binary64::consts::{HALF, MINUS_ONE, ONE, QUARTER, TEN_THOUSAND, TWO, ZERO};
use crate::binary64::error::{
    gap, lemma_add_near, lemma_div_near, lemma_exact_sign, lemma_mul_near, lemma_ratio_times, lemma_sub_near,
    limit, size, smallest,
};
use crate::binary64::facts::{
    lemma_clamp_mono, lemma_div_mono, lemma_div_sign, lemma_div_value, lemma_midpoint, lemma_mul_mono,
    lemma_mul_nan, lemma_mul_swap, lemma_neg_order, lemma_times_one,
};
use crate::binary64::layout::{lemma_units_of, lemma_units_zero};
use crate::binary64::measure::{
    lemma_exact_order, lemma_exact_signs, lemma_range_of_sizes, lemma_scaled_off, lemma_whole_constants,
};
use crate::binary64::order::lemma_value_order;
use crate::binary64::rounding::lemma_rounded_exact;
use crate::binary64::{num, B64, HIDDEN, UNIT_EXP};

use super::exact::{
    lemma_gap_small, lemma_near_within, lemma_product_minus, lemma_product_order, lemma_product_size,
    lemma_product_sum, lemma_product_swap, lemma_product_units, product, ratio,
};
use super::imbalance::lemma_zero_over;
use super::market_making::{
    mid_from_bbo, params_fault, skew_ratio, skewed_ask, skewed_bid, skewed_quote, MmQuoteParams,
};
use super::markouts::{lemma_in_bps, lemma_zero_times};
use super::requotes::{lemma_difference_is_finite, lemma_over, lemma_ratio_parts};

verus! {

/// The larger of two reals.
pub open spec fn larger(x: real, y: real) -> real {
    if x >= y {
        x
    } else {
        y
    }
}

/// The smaller of two reals.
pub open spec fn smaller(x: real, y: real) -> real {
    if x <= y {
        x
    } else {
        y
    }
}

/// A mid is half the sum of the best prices, up to rounding, and there is one
/// for every book of positive finite prices that is not crossed.
pub proof fn law_mid_is_half_the_sum(bid: B64, ask: B64)
    requires
        bid.finite() && bid.gt(num(ZERO)),
        ask.finite() && ask.ge(bid),
        bid.exact() + ask.exact() <= limit(),
    ensures
        mid_from_bbo(bid, ask) is Some,
        ({
            let mid = mid_from_bbo(bid, ask)->0;
            &&& mid.finite()
            &&& mid.gt(num(ZERO))
            &&& size(2real * mid.exact() - (bid.exact() + ask.exact())) <= 4real * product(
                gap(),
                bid.exact() + ask.exact(),
            ) + 4real * smallest()
        }),
{
    lemma_exact_sign(bid);
    lemma_exact_order(bid, ask);
    lemma_exact_order(ask, num(ZERO));
    lemma_exact_sign(num(ZERO));
    lemma_range_of_sizes();
    lemma_whole_constants();
    let total = bid.exact() + ask.exact();
    let sum = bid.add(ask);
    lemma_add_near(bid, ask);
    lemma_near_within(sum, total, total);
    lemma_midpoint(bid, ask);
    let mid = sum.div(num(TWO));
    lemma_value_order(mid, ask);
    lemma_value_order(ask, mid);
    lemma_value_order(mid, bid);
    lemma_value_order(bid, mid);
    lemma_value_order(num(ZERO), bid);
    assert(mid.finite());
    lemma_div_near(sum, num(TWO));
    let x = sum.exact() / num(TWO).exact();
    lemma_ratio_times(sum.exact(), num(TWO).exact());
    assert(2real * x == sum.exact()) by (nonlinear_arith)
        requires
            x * num(TWO).exact() == sum.exact(),
            num(TWO).exact() == 2real,
    ;
    lemma_gap_small(total);
    lemma_gap_small(smallest());
    lemma_product_sum(gap(), total, smallest());
    lemma_near_within(mid, x, total + smallest());
}

/// A factor taken out of a product.
pub proof fn lemma_product_scaled(x: real, y: real, k: real)
    ensures
        product(x, k * y) == k * product(x, y),
        product(k * x, y) == k * product(x, y),
{
    reveal(product);
    assert(x * (k * y) == k * (x * y)) by (nonlinear_arith);
    assert((k * x) * y == k * (x * y)) by (nonlinear_arith);
}

/// How far rounding can move a price of a quote.
pub open spec fn price_slack(ask: B64) -> real {
    256real * (product(gap(), ask.exact()) + product(smallest(), ask.exact()) + smallest())
}

/// The price a spread away from the mid, to both sides.
proof fn lemma_offset(m: B64, s: B64, f: B64, target: real)
    requires
        m.finite() && m.exact() > 0real,
        s.finite(),
        0real <= s.exact() <= 1real,
        f.finite(),
        size(target) <= 5real,
        size(f.exact() - target) <= 8real * gap() + 2real * smallest(),
        64real * m.exact() <= limit(),
    ensures
        ({
            let spread = larger(product(s.exact(), target), 0real);
            let cut = s.mul(f).max(num(ZERO));
            let below = m.mul(num(ONE).sub(cut));
            let above = m.mul(num(ONE).add(cut));
            let slack = 100real * (product(gap(), m.exact()) + product(smallest(), m.exact())) + smallest();
            &&& below.finite()
            &&& above.finite()
            &&& size(below.exact() - product(m.exact(), 1real - spread)) <= slack
            &&& size(above.exact() - product(m.exact(), 1real + spread)) <= slack
            &&& 0real <= spread <= 5real
        }),
{
    let (g, t) = (gap(), smallest());
    lemma_range_of_sizes();
    lemma_whole_constants();
    lemma_exact_sign(num(ZERO));
    assert(g <= 1real / 1024real);
    let e1 = 8real * g + 2real * t;
    let x = product(s.exact(), target);
    lemma_product_size(s.exact(), target, 1real, 5real);
    lemma_product_order(size(s.exact()), 1real, e1);
    lemma_product_order(size(s.exact()), 1real, 5real + e1);
    lemma_product_units(e1);
    lemma_product_units(5real + e1);
    lemma_product_units(5real);
    assert(product(1real, 5real) == 5real);
    let top = product(size(s.exact()), 5real + e1);
    lemma_product_size(s.exact(), 5real + e1, 1real, 5real + e1);
    lemma_scaled_off(s, f, target, e1, 5real);
    lemma_product_order(top, 6real, g);
    lemma_constant_gap(6real);
    let cut = s.mul(f);
    assert(size(cut.exact() - x) <= 14real * g + 3real * t);
    let spread = larger(x, 0real);
    lemma_exact_order(cut, num(ZERO));
    lemma_value_order(cut, num(ZERO));
    let kept = cut.max(num(ZERO));
    assert(kept.finite() && size(kept.exact() - spread) <= 14real * g + 3real * t);
    let one = num(ONE);
    let z = 6real + 14real * g + 3real * t;
    lemma_sub_near(one, kept);
    lemma_add_near(one, kept);
    lemma_near_within(one.sub(kept), 1real - kept.exact(), 7real);
    lemma_near_within(one.add(kept), 1real + kept.exact(), 7real);
    lemma_constant_gap(7real);
    let e = 21real * g + 4real * t;
    assert(size(one.sub(kept).exact() - (1real - spread)) <= e);
    assert(size(one.add(kept).exact() - (1real + spread)) <= e);
    let p = m.exact();
    lemma_product_scaled(p, g, 21real);
    lemma_product_scaled(p, t, 4real);
    lemma_product_sum(p, 21real * g, 4real * t);
    lemma_product_order(6real + e, 7real, p);
    lemma_product_swap(p, 7real);
    lemma_product_scaled(1real, p, 7real);
    lemma_product_units(p);
    lemma_times_seven(p);
    lemma_product_order(product(p, 6real + e), 7real * p, g);
    lemma_product_scaled(g, p, 7real);
    lemma_product_swap(p, g);
    lemma_product_swap(p, t);
    lemma_product_size(p, t, p, t);
    lemma_gap_small(p);
    lemma_scaled_off(m, one.sub(kept), 1real - spread, e, 6real);
    lemma_scaled_off(m, one.add(kept), 1real + spread, e, 6real);
}

proof fn lemma_times_seven(p: real)
    ensures
        product(p, 7real) == 7real * p,
{
    reveal(product);
    assert(p * 7real == 7real * p) by (nonlinear_arith);
}

/// The gap of a named size.
proof fn lemma_constant_gap(k: real)
    ensures
        product(gap(), k) == k * gap(),
{
    reveal(product);
    let g = gap();
    assert(g * k == k * g) by (nonlinear_arith);
}

/// The shift of both prices: a quarter of the book's width times the ratio.
proof fn lemma_shift_size(bid: B64, ask: B64, ratio: B64)
    requires
        bid.finite() && bid.gt(num(ZERO)),
        ask.finite() && ask.ge(bid),
        ratio.finite(),
        size(ratio.exact()) <= 4real,
        64real * ask.exact() <= limit(),
    ensures
        ({
            let shift = ratio.mul(ask.sub(bid).abs()).mul(num(QUARTER));
            let target = product(ratio.exact(), ask.exact() - bid.exact()) / 4real;
            &&& shift.finite()
            &&& size(shift.exact() - target) <= 16real * product(gap(), ask.exact()) + 16real * smallest()
            &&& size(target) <= ask.exact()
        }),
{
    let (g, t) = (gap(), smallest());
    lemma_range_of_sizes();
    lemma_whole_constants();
    lemma_exact_sign(bid);
    lemma_exact_order(bid, ask);
    lemma_exact_order(ask, num(ZERO));
    lemma_exact_sign(ask);
    let (a, w) = (ask.exact(), ask.exact() - bid.exact());
    let d = ask.sub(bid);
    lemma_sub_near(ask, bid);
    lemma_near_within(d, w, a);
    lemma_exact_signs(d);
    let width = d.abs();
    let ga = product(g, a);
    let e = ga + t;
    assert(size(width.exact() - w) <= e);
    lemma_gap_small(a);
    let r = ratio.exact();
    lemma_product_order(size(r), 4real, e);
    lemma_product_order(size(r), 4real, a + e);
    lemma_product_scaled(1real, e, 4real);
    lemma_product_scaled(1real, a + e, 4real);
    lemma_product_units(e);
    lemma_product_units(a + e);
    assert(4real * 1real == 4real);
    let most = product(size(r), a + e);
    lemma_product_order(most, 8real * a + 8real * t, g);
    lemma_product_sum(g, 8real * a, 8real * t);
    lemma_product_scaled(g, a, 8real);
    lemma_gap_small(8real * t);
    lemma_product_size(r, a + e, size(r), a + e);
    lemma_product_size(r, w, 4real, a);
    lemma_product_scaled(1real, a, 4real);
    lemma_product_units(a);
    lemma_scaled_off(ratio, width, w, e, a);
    let lean = ratio.mul(width);
    let exact_lean = product(r, w);
    let e2 = 12real * ga + 6real * t;
    assert(size(lean.exact() - exact_lean) <= e2);
    let q = num(QUARTER).exact();
    let x = lean.exact() * q;
    assert(4real * x == lean.exact()) by (nonlinear_arith)
        requires
            x == lean.exact() * q,
            4real * q == 1real,
    ;
    lemma_mul_near(lean, num(QUARTER));
    let z = 2real * a + 2real * t;
    lemma_near_within(lean.mul(num(QUARTER)), x, z);
    lemma_product_sum(g, 2real * a, 2real * t);
    lemma_product_scaled(g, a, 2real);
    lemma_gap_small(2real * t);
}

/// Whether a book and its parameters are far from overflow, with a spread that
/// is a fraction.
pub open spec fn ordinary_quote(bid: B64, ask: B64, inventory: B64, params: MmQuoteParams) -> bool {
    &&& bid.finite() && bid.gt(num(ZERO))
    &&& ask.finite() && ask.ge(bid)
    &&& 64real * ask.exact() <= limit()
    &&& params.bid_spread.finite() && 0real <= params.bid_spread.exact() <= 1real
    &&& params.ask_spread.finite() && 0real <= params.ask_spread.exact() <= 1real
    &&& skew_ratio(inventory, params).finite()
    &&& size(skew_ratio(inventory, params).exact()) <= 4real
}

/// The prices of a quote. The bid stands its spread below the mid, or on the
/// best bid where that is higher; the ask stands its spread above the mid, or
/// on the best ask where that is lower. The lean, which is positive for a long
/// inventory, widens the spread of the adding side, narrows that of the
/// reducing side, and moves both prices down by that share of a quarter of the
/// book's width. All up to rounding.
pub proof fn law_prices_stand_a_spread_from_the_mid(bid: B64, ask: B64, inventory: B64, params: MmQuoteParams)
    requires
        ordinary_quote(bid, ask, inventory, params),
    ensures
        match skewed_quote(bid, ask, inventory, params) {
            Some(q) => {
                let lean = skew_ratio(inventory, params).exact();
                let below = larger(product(params.bid_spread.exact(), 1real + lean), 0real);
                let above = larger(product(params.ask_spread.exact(), 1real - lean), 0real);
                let shift = product(lean, ask.exact() - bid.exact()) / 4real;
                &&& q.bid_price.finite()
                &&& q.ask_price.finite()
                &&& size(
                    q.bid_price.exact() - (larger(bid.exact(), product(q.mid.exact(), 1real - below)) - shift),
                ) <= price_slack(ask)
                &&& size(
                    q.ask_price.exact() - (smaller(ask.exact(), product(q.mid.exact(), 1real + above)) - shift),
                ) <= price_slack(ask)
            },
            None => true,
        },
{
    if skewed_quote(bid, ask, inventory, params) is Some {
        lemma_price_parts(bid, ask, inventory, params);
    }
}

proof fn lemma_price_parts(bid: B64, ask: B64, inventory: B64, params: MmQuoteParams)
    requires
        ordinary_quote(bid, ask, inventory, params),
    ensures
        mid_from_bbo(bid, ask) is Some,
        ({
            let mid = mid_from_bbo(bid, ask)->0;
            let lean = skew_ratio(inventory, params);
            let bid_price = skewed_bid(bid, ask, mid, lean, params);
            let ask_price = skewed_ask(bid, ask, mid, lean, params);
            let below = larger(product(params.bid_spread.exact(), 1real + lean.exact()), 0real);
            let above = larger(product(params.ask_spread.exact(), 1real - lean.exact()), 0real);
            let shift = product(lean.exact(), ask.exact() - bid.exact()) / 4real;
            &&& bid_price.finite()
            &&& ask_price.finite()
            &&& size(bid_price.exact() - (larger(bid.exact(), product(mid.exact(), 1real - below)) - shift))
                <= price_slack(ask)
            &&& size(ask_price.exact() - (smaller(ask.exact(), product(mid.exact(), 1real + above)) - shift))
                <= price_slack(ask)
        }),
{
    lemma_exact_sign(bid);
    lemma_exact_order(bid, ask);
    law_mid_is_half_the_sum(bid, ask);
    let mid = mid_from_bbo(bid, ask)->0;
    let (g, t, a, m) = (gap(), smallest(), ask.exact(), mid.exact());
    let ratio = skew_ratio(inventory, params);
    let lean = ratio.exact();
    lemma_range_of_sizes();
    lemma_whole_constants();
    lemma_gap_small(a);
    lemma_midpoint_finite(bid, ask);
    lemma_exact_order(mid, ask);
    lemma_exact_sign(mid);
    lemma_ratio_sum(ratio);
    lemma_offset(mid, params.bid_spread, num(ONE).add(ratio), 1real + lean);
    lemma_offset(mid, params.ask_spread, num(ONE).sub(ratio), 1real - lean);
    lemma_shift_size(bid, ask, ratio);
    lemma_product_order(m, a, g);
    lemma_product_order(m, a, t);
    lemma_product_size(t, a, t, a);
    let below = larger(product(params.bid_spread.exact(), 1real + lean), 0real);
    let above = larger(product(params.ask_spread.exact(), 1real - lean), 0real);
    let cut_below = params.bid_spread.mul(num(ONE).add(ratio)).max(num(ZERO));
    let cut_above = params.ask_spread.mul(num(ONE).sub(ratio)).max(num(ZERO));
    let low = mid.mul(num(ONE).sub(cut_below));
    let high = mid.mul(num(ONE).add(cut_above));
    let shift = ratio.mul(ask.sub(bid).abs()).mul(num(QUARTER));
    let top = bid.max(low);
    let bottom = ask.min(high);
    lemma_exact_order(bid, low);
    lemma_exact_order(high, ask);
    lemma_value_order(bid, low);
    lemma_value_order(high, ask);
    let slack = 100real * (product(g, a) + product(t, a)) + t;
    let exact_top = larger(bid.exact(), product(m, 1real - below));
    let exact_bottom = smaller(a, product(m, 1real + above));
    assert(size(top.exact() - exact_top) <= slack);
    assert(size(bottom.exact() - exact_bottom) <= slack);
    lemma_product_order(1real - below, 1real, m);
    lemma_product_order(1real, 1real + above, m);
    lemma_product_units(m);
    lemma_small_of(t, a);
    assert(size(exact_top) <= 2real * a && size(exact_bottom) <= 2real * a);
    lemma_shifted(top, exact_top, shift, product(lean, a - bid.exact()) / 4real, a);
    lemma_shifted(bottom, exact_bottom, shift, product(lean, a - bid.exact()) / 4real, a);
}

/// A price that is off, less a shift that is off.
proof fn lemma_shifted(price: B64, exact_price: real, shift: B64, exact_shift: real, a: real)
    requires
        price.finite(),
        shift.finite(),
        a > 0real,
        64real * a <= limit(),
        size(exact_price) <= 2real * a,
        size(exact_shift) <= a,
        size(price.exact() - exact_price) <= 100real * (product(gap(), a) + product(smallest(), a)) + smallest(),
        size(shift.exact() - exact_shift) <= 16real * product(gap(), a) + 16real * smallest(),
    ensures
        price.sub(shift).finite(),
        size(price.sub(shift).exact() - (exact_price - exact_shift)) <= 256real * (product(gap(), a) + product(
            smallest(),
            a,
        ) + smallest()),
{
    let (g, t) = (gap(), smallest());
    lemma_range_of_sizes();
    lemma_gap_small(a);
    lemma_small_of(t, a);
    let z = 4real * a + 32real * t;
    lemma_sub_near(price, shift);
    lemma_near_within(price.sub(shift), price.exact() - shift.exact(), z);
    lemma_product_sum(g, 4real * a, 32real * t);
    lemma_product_scaled(g, a, 4real);
    lemma_gap_small(32real * t);
}

/// The smallest number times another is far below it.
proof fn lemma_small_of(t: real, a: real)
    requires
        0real <= a,
        0real <= 1024real * t <= 1real,
    ensures
        0real <= product(t, a),
        1024real * product(t, a) <= a,
{
    lemma_product_order(0real, a, t);
    lemma_product_order(1024real * t, 1real, a);
    lemma_product_scaled(t, a, 1024real);
    lemma_product_units(a);
    lemma_product_units(t);
}

proof fn lemma_midpoint_finite(bid: B64, ask: B64)
    requires
        bid.finite() && bid.gt(num(ZERO)),
        ask.finite() && ask.ge(bid),
        mid_from_bbo(bid, ask) is Some,
        bid.exact() + ask.exact() <= limit(),
    ensures
        mid_from_bbo(bid, ask)->0.le(ask),
        mid_from_bbo(bid, ask)->0.ge(bid),
{
    lemma_exact_sign(bid);
    lemma_exact_order(bid, ask);
    lemma_exact_order(ask, num(ZERO));
    lemma_add_near(bid, ask);
    crate::binary64::error::lemma_near(bid.add(ask), bid.exact() + ask.exact());
    lemma_midpoint(bid, ask);
}

/// One more or less than a ratio.
proof fn lemma_ratio_sum(ratio: B64)
    requires
        ratio.finite(),
        size(ratio.exact()) <= 4real,
    ensures
        num(ONE).add(ratio).finite(),
        num(ONE).sub(ratio).finite(),
        size(num(ONE).add(ratio).exact() - (1real + ratio.exact())) <= 8real * gap() + 2real * smallest(),
        size(num(ONE).sub(ratio).exact() - (1real - ratio.exact())) <= 8real * gap() + 2real * smallest(),
{
    lemma_whole_constants();
    lemma_range_of_sizes();
    lemma_constant_gap(5real);
    lemma_add_near(num(ONE), ratio);
    lemma_sub_near(num(ONE), ratio);
    lemma_near_within(num(ONE).add(ratio), 1real + ratio.exact(), 5real);
    lemma_near_within(num(ONE).sub(ratio), 1real - ratio.exact(), 5real);
}

/// A positive number over itself is 1.
proof fn lemma_over_itself(x: B64)
    requires
        x.finite() && x.gt(num(ZERO)),
    ensures
        x.div(x).eq_num(num(ONE)),
{
    lemma_units_zero();
    lemma_value_order(x, num(ZERO));
    lemma_div_value(x, x);
    let one = num(ONE);
    lemma_one_value();
    let (v, w) = (x.value(), one.value());
    lemma_rounded_exact(one.mag(), v);
    assert(v * w == w * v) by (nonlinear_arith);
    assert(v * w >= 0) by (nonlinear_arith)
        requires
            v >= 0,
            w >= 0,
    ;
}

proof fn lemma_one_value()
    ensures
        num(ONE).value() == pow2(UNIT_EXP as nat),
{
    let h = HIDDEN as int;
    assert(num(ONE).mag() == 1022 * h + h);
    lemma_units_of(1022, h);
    lemma_pow2_adds(1022, 52);
    lemma2_to64_rest();
}

/// The lean of a quote is the inventory's share of the target, between -1 and
/// 1, times the skew: none without a target, a skew or an inventory, and the
/// whole skew from the target on, to either side.
pub proof fn law_lean_is_the_share_of_the_target(inventory: B64, params: MmQuoteParams)
    requires
        inventory.finite(),
        params.inventory_target.finite(),
        params.inventory_skew.finite() && params.inventory_skew.ge(num(ZERO)),
    ensures
        ({
            let lean = skew_ratio(inventory, params);
            let (target, skew) = (params.inventory_target, params.inventory_skew);
            &&& lean.finite()
            &&& size(lean.exact()) <= skew.exact()
            &&& !target.gt(num(ZERO)) || skew.exact() == 0real ==> lean.exact() == 0real
            &&& target.gt(num(ZERO)) && inventory.ge(target) ==> lean.exact() == skew.exact()
            &&& target.gt(num(ZERO)) && inventory.le(target.neg()) ==> lean.exact() == -skew.exact()
            &&& target.gt(num(ZERO)) && inventory.exact() == 0real ==> lean.exact() == 0real
            &&& target.gt(num(ZERO)) && inventory.exact() >= 0real ==> lean.exact() >= 0real
            &&& target.gt(num(ZERO)) && inventory.exact() <= 0real ==> lean.exact() <= 0real
        }),
{
    let (target, skew) = (params.inventory_target, params.inventory_skew);
    let (one, minus, zero) = (num(ONE), num(MINUS_ONE), num(ZERO));
    lemma_units_zero();
    lemma_exact_sign(zero);
    lemma_exact_order(skew, zero);
    lemma_exact_order(inventory, zero);
    lemma_value_order(minus, one);
    lemma_value_order(minus, zero);
    lemma_value_order(zero, one);
    if target.gt(zero) && !skew.eq_num(zero) {
        let share = inventory.div(target);
        let c = share.clamp(minus, one);
        lemma_over_itself(target);
        lemma_div_mono(inventory, inventory, target);
        lemma_clamp_mono(share, share, minus, one);
        lemma_value_order(c, one);
        lemma_value_order(one, c);
        lemma_value_order(c, minus);
        lemma_value_order(minus, c);
        assert(c.finite());
        if inventory.ge(target) {
            lemma_div_mono(target, inventory, target);
            assert(c.ge(one));
        }
        if inventory.le(target.neg()) {
            lemma_neg_order(target, target);
            lemma_div_mono(inventory, target.neg(), target);
            lemma_negated_share(target);
            assert(c.le(minus));
        }
        if inventory.exact() >= 0real {
            lemma_div_sign(inventory, target);
            assert(c.ge(zero));
        }
        if inventory.exact() <= 0real {
            lemma_div_mono(inventory, zero, target);
            lemma_zero_over(zero, target);
            assert(c.le(zero));
        }
        lemma_lean_bounds(c, skew);
    }
}

/// A number over its negation is -1.
proof fn lemma_negated_share(x: B64)
    requires
        x.finite() && x.gt(num(ZERO)),
    ensures
        x.neg().div(x).eq_num(num(MINUS_ONE)),
{
    lemma_units_zero();
    lemma_value_order(x, num(ZERO));
    lemma_div_value(x.neg(), x);
    lemma_one_value();
    lemma_pow2_pos(UNIT_EXP as nat);
    let one = num(ONE);
    let (v, w) = (x.value(), one.value());
    lemma_rounded_exact(one.mag(), v);
    assert(x.neg().value() == -v);
    assert((-v) * w == -(w * v)) by (nonlinear_arith);
    assert(w * v > 0) by (nonlinear_arith)
        requires
            v > 0,
            w > 0,
    ;
    assert(num(MINUS_ONE).value() == -w);
}

/// A share between -1 and 1 of a skew.
proof fn lemma_lean_bounds(c: B64, skew: B64)
    requires
        c.finite(),
        c.ge(num(MINUS_ONE)),
        c.le(num(ONE)),
        skew.finite(),
        skew.ge(num(ZERO)),
    ensures
        c.mul(skew).finite(),
        size(c.mul(skew).exact()) <= skew.exact(),
        c.ge(num(ONE)) ==> c.mul(skew).exact() == skew.exact(),
        c.le(num(MINUS_ONE)) ==> c.mul(skew).exact() == -skew.exact(),
        c.ge(num(ZERO)) ==> c.mul(skew).exact() >= 0real,
        c.le(num(ZERO)) ==> c.mul(skew).exact() <= 0real,
{
    let (one, minus, zero) = (num(ONE), num(MINUS_ONE), num(ZERO));
    lemma_units_zero();
    lemma_exact_sign(zero);
    lemma_mul_nan(c, skew);
    lemma_mul_nan(one, skew);
    lemma_mul_nan(minus, skew);
    lemma_mul_nan(zero, skew);
    lemma_mul_mono(c, one, skew);
    lemma_mul_mono(minus, c, skew);
    lemma_mul_swap(one, skew);
    lemma_mul_swap(minus, skew);
    lemma_times_one(skew);
    lemma_exact_signs(skew);
    let r = c.mul(skew);
    assert(r.le(skew) && r.ge(skew.neg()));
    lemma_value_order(r, skew);
    lemma_value_order(skew, r);
    lemma_value_order(r, skew.neg());
    lemma_value_order(skew.neg(), r);
    lemma_value_order(skew, zero);
    assert(r.finite());
    lemma_exact_order(r, skew);
    lemma_exact_order(r, skew.neg());
    lemma_exact_order(r, zero);
    lemma_zero_times(zero, skew);
    if c.ge(one) {
        lemma_mul_mono(one, c, skew);
    }
    if c.le(minus) {
        lemma_mul_mono(c, minus, skew);
    }
    if c.ge(zero) {
        lemma_mul_mono(zero, c, skew);
    }
    if c.le(zero) {
        lemma_mul_mono(c, zero, skew);
    }
}

/// How far rounding can move a size.
pub open spec fn size_slack(base: real) -> real {
    128real * (product(gap(), base) + product(smallest(), base) + smallest())
}

/// A base that is off, times one less or more than half a ratio that is off.
proof fn lemma_sized(base: B64, exact_base: real, f: B64, factor: real)
    requires
        base.finite(),
        exact_base >= 0real,
        64real * (exact_base + 1real) <= limit(),
        size(base.exact() - exact_base) <= product(gap(), exact_base) + smallest(),
        f.finite(),
        size(factor) <= 3real,
        size(f.exact() - factor) <= 8real * gap() + 8real * smallest(),
    ensures
        base.mul(f).max(num(ZERO)).finite(),
        size(base.mul(f).max(num(ZERO)).exact() - larger(product(exact_base, factor), 0real)) <= size_slack(exact_base),
{
    let (g, t, b) = (gap(), smallest(), exact_base);
    lemma_range_of_sizes();
    lemma_exact_sign(num(ZERO));
    assert(g <= 1real / 1024real);
    lemma_gap_small(b);
    lemma_small_of(t, b);
    let x = base.exact();
    let e = 8real * g + 8real * t;
    let big = 2real * b + t;
    assert(size(x) <= big);
    lemma_product_order(size(x), big, e);
    lemma_product_sum(e, 2real * b, t);
    lemma_product_scaled(b, e, 2real);
    lemma_product_sum(b, 8real * g, 8real * t);
    lemma_product_scaled(b, g, 8real);
    lemma_product_scaled(b, t, 8real);
    lemma_product_swap(b, g);
    lemma_product_swap(b, t);
    lemma_product_swap(b, e);
    lemma_product_sum(t, 8real * g, 8real * t);
    lemma_product_order(e, 1real, t);
    lemma_product_swap(t, e);
    lemma_product_units(t);
    let most = product(size(x), 3real + e);
    lemma_product_size(x, 3real + e, big, 4real);
    lemma_product_size(size(x), 3real + e, big, 4real);
    lemma_four(big);
    lemma_product_order(most, 4real * big, g);
    lemma_product_scaled(g, big, 4real);
    lemma_product_sum(g, 2real * b, t);
    lemma_product_scaled(g, b, 2real);
    lemma_gap_small(t);
    lemma_scaled_off(base, f, factor, e, 3real);
    lemma_product_minus(factor, x, b);
    lemma_product_size(x - b, factor, product(g, b) + t, 3real);
    lemma_three(product(g, b) + t);
    let r = base.mul(f);
    let target = product(b, factor);
    assert(size(product(x, factor) - target) <= 3real * product(g, b) + 3real * t);
    assert(size(r.exact() - target) <= size_slack(b));
    lemma_exact_order(r, num(ZERO));
    lemma_value_order(r, num(ZERO));
}

proof fn lemma_four(p: real)
    ensures
        product(p, 4real) == 4real * p,
{
    reveal(product);
    assert(p * 4real == 4real * p) by (nonlinear_arith);
}

proof fn lemma_three(p: real)
    ensures
        product(p, 3real) == 3real * p,
{
    reveal(product);
    assert(p * 3real == 3real * p) by (nonlinear_arith);
}

/// One less and one more than half a lean.
proof fn lemma_half_lean(lean: B64)
    requires
        lean.finite(),
        size(lean.exact()) <= 4real,
    ensures
        ({
            let half = num(HALF).mul(lean);
            &&& num(ONE).sub(half).finite()
            &&& num(ONE).add(half).finite()
            &&& size(num(ONE).sub(half).exact() - (1real - lean.exact() / 2real)) <= 8real * gap() + 8real * smallest()
            &&& size(num(ONE).add(half).exact() - (1real + lean.exact() / 2real)) <= 8real * gap() + 8real * smallest()
        }),
{
    lemma_whole_constants();
    lemma_range_of_sizes();
    let (h, r) = (num(HALF).exact(), lean.exact());
    assert(2real * (h * r) == r) by (nonlinear_arith)
        requires
            2real * h == 1real,
    ;
    lemma_mul_near(num(HALF), lean);
    let half = num(HALF).mul(lean);
    lemma_near_within(half, h * r, 2real);
    lemma_constant_gap(2real);
    lemma_add_near(num(ONE), half);
    lemma_sub_near(num(ONE), half);
    lemma_constant_gap(4real);
    assert(gap() <= 1real / 1024real);
    lemma_near_within(num(ONE).add(half), 1real + half.exact(), 4real);
    lemma_near_within(num(ONE).sub(half), 1real - half.exact(), 4real);
}

/// The sizes of a quote: each side is worth the order notional at the mid, less
/// half the lean for the bid and that much more for the ask, up to rounding.
pub proof fn law_sizes_are_worth_the_notional(bid: B64, ask: B64, inventory: B64, params: MmQuoteParams)
    requires
        ordinary_quote(bid, ask, inventory, params),
        params.order_notional.finite(),
        64real * (ratio(params.order_notional.exact(), mid_from_bbo(bid, ask)->0.exact()) + 1real) <= limit(),
    ensures
        match skewed_quote(bid, ask, inventory, params) {
            Some(q) => {
                let lean = skew_ratio(inventory, params).exact();
                let base = ratio(params.order_notional.exact(), q.mid.exact());
                &&& product(base, q.mid.exact()) == params.order_notional.exact()
                &&& size(q.bid_qty.exact() - larger(product(base, 1real - lean / 2real), 0real)) <= size_slack(base)
                &&& size(q.ask_qty.exact() - larger(product(base, 1real + lean / 2real), 0real)) <= size_slack(base)
            },
            None => true,
        },
{
    if skewed_quote(bid, ask, inventory, params) is Some {
        let q = skewed_quote(bid, ask, inventory, params)->0;
        let notional = params.order_notional;
        lemma_exact_sign(notional);
        lemma_value_order(notional, num(ZERO));
        lemma_exact_sign(bid);
        lemma_exact_order(bid, ask);
        law_mid_is_half_the_sum(bid, ask);
        lemma_exact_sign(q.mid);
        let (n, m) = (notional.exact(), q.mid.exact());
        let base = ratio(n, m);
        assert(base == n / m && product(base, m) == n) by {
            reveal(ratio);
            reveal(product);
            lemma_ratio_times(n, m);
        }
        assert(base >= 0real) by {
            reveal(product);
            assert(base >= 0real) by (nonlinear_arith)
                requires
                    base * m == n,
                    n >= 0real,
                    m > 0real,
            ;
        }
        lemma_div_near(notional, q.mid);
        lemma_near_within(notional.div(q.mid), base, base);
        lemma_half_lean(skew_ratio(inventory, params));
        let lean = skew_ratio(inventory, params);
        let half = num(HALF).mul(lean);
        lemma_sized(notional.div(q.mid), base, num(ONE).sub(half), 1real - lean.exact() / 2real);
        lemma_sized(notional.div(q.mid), base, num(ONE).add(half), 1real + lean.exact() / 2real);
    }
}

/// A bad parameter gives no quote: a negative spread, or an order worth nothing.
pub proof fn law_bad_parameters_give_no_quote(bid: B64, ask: B64, inventory: B64, params: MmQuoteParams)
    requires
        params.bid_spread.lt(num(ZERO)) || params.ask_spread.lt(num(ZERO)) || params.order_notional.le(num(ZERO)),
    ensures
        skewed_quote(bid, ask, inventory, params) is None,
        params_fault(params) is Some,
{
}

/// A quote is given wherever its exact prices are positive and apart by more
/// than rounding, for parameters that are in order.
pub proof fn law_clear_prices_are_quoted(bid: B64, ask: B64, inventory: B64, params: MmQuoteParams)
    requires
        ordinary_quote(bid, ask, inventory, params),
        params.order_notional.gt(num(ZERO)),
    ensures
        ({
            let mid = mid_from_bbo(bid, ask)->0.exact();
            let lean = skew_ratio(inventory, params).exact();
            let below = larger(product(params.bid_spread.exact(), 1real + lean), 0real);
            let above = larger(product(params.ask_spread.exact(), 1real - lean), 0real);
            let shift = product(lean, ask.exact() - bid.exact()) / 4real;
            let low = larger(bid.exact(), product(mid, 1real - below)) - shift;
            let high = smaller(ask.exact(), product(mid, 1real + above)) - shift;
            let slack = price_slack(ask);
            &&& low > slack && high > low + 2real * slack ==> skewed_quote(bid, ask, inventory, params) is Some
            &&& low < -slack || high < low - 2real * slack ==> skewed_quote(bid, ask, inventory, params) is None
        }),
{
    lemma_price_parts(bid, ask, inventory, params);
    let mid = mid_from_bbo(bid, ask)->0;
    let lean = skew_ratio(inventory, params);
    let low = skewed_bid(bid, ask, mid, lean, params);
    let high = skewed_ask(bid, ask, mid, lean, params);
    lemma_exact_order(low, high);
    lemma_exact_order(high, low);
    lemma_exact_order(low, num(ZERO));
    lemma_exact_sign(num(ZERO));
    lemma_exact_order(params.bid_spread, num(ZERO));
    lemma_exact_order(params.ask_spread, num(ZERO));
    lemma_value_order(params.order_notional, num(ZERO));
}

/// How far rounding can move the width of a quote in basis points.
pub open spec fn width_slack(width: real, mid: real) -> real {
    65536real * (product(gap(), width) + smallest() + ratio(smallest(), mid))
}

/// The distance of two prices in basis points of a third, up to rounding.
pub proof fn lemma_width_in_bps(high: B64, low: B64, mid: B64)
    requires
        high.finite() && high.gt(num(ZERO)),
        low.finite() && low.gt(num(ZERO)),
        high.ge(low),
        mid.finite() && mid.gt(num(ZERO)),
        65536real * (ratio(high.exact() - low.exact(), mid.exact()) + ratio(smallest(), mid.exact()) + 1real)
            <= limit(),
    ensures
        ({
            let width = ratio(high.exact() - low.exact(), mid.exact());
            let bps = high.sub(low).div(mid).mul(num(TEN_THOUSAND));
            &&& bps.finite()
            &&& size(bps.exact() - 10000real * width) <= width_slack(width, mid.exact())
            &&& width >= 0real
            &&& high.sub(low).div(mid).finite()
            &&& size(high.sub(low).div(mid).exact() - width) <= 3real * product(gap(), width) + 2real * ratio(
                smallest(),
                mid.exact(),
            ) + smallest()
        }),
{
    let x = mid.exact();
    let dist = high.exact() - low.exact();
    lemma_range_of_sizes();
    lemma_exact_sign(mid);
    lemma_exact_order(high, low);
    let d = high.sub(low);
    lemma_difference_is_finite(high, low);
    lemma_sub_near(high, low);
    lemma_near_within(d, dist, dist);
    let e = product(gap(), dist) + smallest();
    lemma_over(d.exact(), dist, e, x);
    lemma_ratio_parts(dist, smallest(), x);
    let width = ratio(dist, x);
    let s = ratio(smallest(), x);
    let r = ratio(d.exact(), x);
    assert(r == d.exact() / x) by {
        reveal(ratio);
    }
    lemma_gap_small(width);
    lemma_gap_small(s);
    assert(size(r - width) <= product(gap(), width) + s);
    lemma_div_near(d, mid);
    let q = d.div(mid);
    let z = width + width + s;
    lemma_near_within(q, r, z);
    lemma_product_sum(gap(), width + width, s);
    lemma_product_sum(gap(), width, width);
    let u = 3real * product(gap(), width) + 2real * s + smallest();
    lemma_gap_small(u);
    lemma_in_bps(q, width, u);
}

/// The expected edge of a quote is its own width in basis points of the mid, up
/// to rounding.
pub proof fn law_edge_is_the_width_of_the_quote(bid: B64, ask: B64, inventory: B64, params: MmQuoteParams)
    requires
        ordinary_quote(bid, ask, inventory, params),
    ensures
        match skewed_quote(bid, ask, inventory, params) {
            Some(q) => {
                let mid = q.mid.exact();
                let width = ratio(q.ask_price.exact() - q.bid_price.exact(), mid);
                65536real * (width + ratio(smallest(), mid) + 1real) <= limit() ==> size(
                    q.expected_edge_bps.exact() - 10000real * width,
                ) <= width_slack(width, mid)
            },
            None => true,
        },
{
    if skewed_quote(bid, ask, inventory, params) is Some {
        let q = skewed_quote(bid, ask, inventory, params)->0;
        let width = ratio(q.ask_price.exact() - q.bid_price.exact(), q.mid.exact());
        lemma_price_parts(bid, ask, inventory, params);
        lemma_exact_sign(bid);
        lemma_exact_order(bid, ask);
        law_mid_is_half_the_sum(bid, ask);
        lemma_value_order(q.bid_price, num(ZERO));
        lemma_value_order(q.ask_price, q.bid_price);
        lemma_exact_order(q.ask_price, q.bid_price);
        lemma_exact_order(q.ask_price, num(ZERO));
        lemma_exact_order(q.bid_price, num(ZERO));
        if 65536real * (width + ratio(smallest(), q.mid.exact()) + 1real) <= limit() {
            lemma_width_in_bps(q.ask_price, q.bid_price, q.mid);
        }
    }
}

} // verus!
