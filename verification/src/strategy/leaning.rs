//! How quotes lean against the inventory.

use vstd::prelude::*;

use crate::binary64::consts::{HALF, MINUS_ONE, ONE, ONE_P0001, P05, QUARTER, TINY_6, TINY_9, ZERO};
use crate::binary64::facts::{
    lemma_add_grows, lemma_add_mono, lemma_add_nan, lemma_add_swap, lemma_clamp_mono,
    lemma_cut_product_mono, lemma_div_mono, lemma_div_sign, lemma_gap_is_finite, lemma_grid_mono,
    lemma_max_min_mono, lemma_mul_mono, lemma_mul_nan, lemma_mul_sign, lemma_mul_swap, lemma_sub_mono,
    lemma_sub_nan, lemma_sub_shrinks, lemma_times_one,
};
use crate::binary64::layout::lemma_units_zero;
use crate::binary64::order::lemma_value_order;
use crate::binary64::{num, B64};

use super::inventory_bias::{
    adverse_boost, bias_applies, biased, biased_ask, biased_bid, ceiled, depth_factor, floored,
    inventory_ratio, least_depth, ratio_share, standing, widened, InventoryExitBias,
};
use super::market_making::{
    inventory_shift, mid_from_bbo, skew_ratio, skewed_ask, skewed_bid, skewed_quote, MmQuoteParams,
};
use super::vol_obi::CalcView;

verus! {

proof fn lemma_signs()
    ensures
        num(ZERO).lt(num(ONE)),
        num(MINUS_ONE).lt(num(ONE)),
        num(ZERO).lt(num(HALF)),
        num(ZERO).lt(num(QUARTER)),
        num(ZERO).lt(num(P05)),
        num(P05).lt(num(ONE)),
        num(ZERO).lt(num(TINY_6)),
        num(TINY_6).lt(num(ONE)),
        num(ZERO).lt(num(TINY_9)),
        num(ONE).lt(num(ONE_P0001)),
{
    lemma_value_order(num(ZERO), num(ONE));
    lemma_value_order(num(MINUS_ONE), num(ONE));
    lemma_value_order(num(ZERO), num(HALF));
    lemma_value_order(num(ZERO), num(QUARTER));
    lemma_value_order(num(ZERO), num(P05));
    lemma_value_order(num(P05), num(ONE));
    lemma_value_order(num(ZERO), num(TINY_6));
    lemma_value_order(num(TINY_6), num(ONE));
    lemma_value_order(num(ZERO), num(TINY_9));
    lemma_value_order(num(ONE), num(ONE_P0001));
}

/// What lies between two finite numbers is finite.
proof fn lemma_between(low: B64, x: B64, high: B64)
    requires
        low.finite(),
        high.finite(),
        low.le(x),
        x.le(high),
    ensures
        x.finite(),
{
    lemma_value_order(x, high);
    lemma_value_order(high, x);
    lemma_value_order(x, low);
    lemma_value_order(low, x);
}

/// A positive finite factor keeps the order.
proof fn lemma_scaled(c: B64, x1: B64, x2: B64)
    requires
        c.finite(),
        c.gt(num(ZERO)),
        x1.le(x2),
    ensures
        c.mul(x1).le(c.mul(x2)),
{
    lemma_value_order(num(ZERO), c);
    lemma_mul_swap(c, x1);
    lemma_mul_swap(c, x2);
    lemma_mul_nan(x1, c);
    lemma_mul_nan(x2, c);
    lemma_mul_mono(x1, x2, c);
}

/// The skew ratio grows with the inventory and stays finite.
proof fn lemma_ratio(i1: B64, i2: B64, params: MmQuoteParams)
    requires
        params.inventory_skew.is_finite(),
        params.inventory_skew.ge(num(ZERO)),
        params.inventory_target.is_finite(),
        i1.le(i2),
    ensures
        skew_ratio(i1, params).le(skew_ratio(i2, params)),
        skew_ratio(i1, params).finite(),
{
    lemma_signs();
    let target = params.inventory_target;
    let skew = params.inventory_skew;
    if target.gt(num(ZERO)) && !skew.eq_num(num(ZERO)) {
        lemma_div_mono(i1, i2, target);
        let c1 = i1.div(target).clamp(num(MINUS_ONE), num(ONE));
        let c2 = i2.div(target).clamp(num(MINUS_ONE), num(ONE));
        lemma_clamp_mono(i1.div(target), i2.div(target), num(MINUS_ONE), num(ONE));
        lemma_clamp_mono(i2.div(target), i2.div(target), num(MINUS_ONE), num(ONE));
        lemma_between(num(MINUS_ONE), c1, num(ONE));
        lemma_between(num(MINUS_ONE), c2, num(ONE));
        lemma_mul_nan(c1, skew);
        lemma_mul_nan(c2, skew);
        lemma_mul_mono(c1, c2, skew);
        lemma_mul_nan(num(ONE), skew);
        lemma_mul_nan(num(MINUS_ONE), skew);
        lemma_mul_mono(c1, num(ONE), skew);
        lemma_mul_mono(num(MINUS_ONE), c1, skew);
        lemma_mul_swap(num(ONE), skew);
        lemma_mul_swap(num(MINUS_ONE), skew);
        lemma_times_one(skew);
        lemma_between(skew.neg(), c1.mul(skew), skew);
    }
}

/// A larger ratio moves the prices further down.
proof fn lemma_shift(bid: B64, ask: B64, r1: B64, r2: B64)
    requires
        bid.is_finite(),
        ask.is_finite(),
        bid.gt(num(ZERO)),
        bid.le(ask),
        r1.is_finite(),
        r2.is_finite(),
        r1.le(r2),
    ensures
        inventory_shift(bid, ask, r1).le(inventory_shift(bid, ask, r2)),
{
    lemma_signs();
    let gap = ask.sub(bid);
    let width = gap.abs();
    lemma_gap_is_finite(bid, ask);
    lemma_units_zero();
    lemma_value_order(gap, num(ZERO));
    lemma_value_order(width, num(ZERO));
    assert(width.value() >= 0);
    lemma_mul_nan(r1, width);
    lemma_mul_nan(r2, width);
    lemma_mul_mono(r1, r2, width);
    lemma_mul_nan(r1.mul(width), num(QUARTER));
    lemma_mul_nan(r2.mul(width), num(QUARTER));
    lemma_mul_mono(r1.mul(width), r2.mul(width), num(QUARTER));
}

/// The larger of a bid and a price below the mid is finite.
proof fn lemma_top_is_finite(bid: B64, mid: B64, s: B64)
    requires
        bid.is_finite(),
        mid.is_finite(),
        mid.gt(num(ZERO)),
        s.ge(num(ZERO)),
    ensures
        bid.max(mid.mul(num(ONE).sub(s))).finite(),
{
    let x = num(ONE).sub(s);
    lemma_sub_shrinks(num(ONE), s);
    lemma_scaled(mid, x, num(ONE));
    lemma_times_one(mid);
    let p = mid.mul(x);
    lemma_value_order(p, mid);
    lemma_value_order(mid, p);
    lemma_value_order(p, bid);
    lemma_value_order(bid, p);
}

/// The smaller of an ask and a price above the mid is finite.
proof fn lemma_bottom_is_finite(ask: B64, mid: B64, s: B64)
    requires
        ask.is_finite(),
        mid.is_finite(),
        mid.gt(num(ZERO)),
        s.ge(num(ZERO)),
    ensures
        ask.min(mid.mul(num(ONE).add(s))).finite(),
{
    let x = num(ONE).add(s);
    lemma_add_grows(num(ONE), s);
    lemma_scaled(mid, num(ONE), x);
    lemma_times_one(mid);
    let p = mid.mul(x);
    lemma_value_order(p, mid);
    lemma_value_order(mid, p);
    lemma_value_order(p, ask);
    lemma_value_order(ask, p);
}

/// A larger ratio lowers the bid.
proof fn lemma_bid_falls(bid: B64, ask: B64, mid: B64, r1: B64, r2: B64, params: MmQuoteParams)
    requires
        !params.bid_spread.lt(num(ZERO)),
        mid_from_bbo(bid, ask) == Some(mid),
        mid.is_finite(),
        r1.is_finite(),
        r2.is_finite(),
        r1.le(r2),
    ensures
        skewed_bid(bid, ask, mid, r2, params).le(skewed_bid(bid, ask, mid, r1, params)),
{
    let one = num(ONE);
    let spread = params.bid_spread;
    lemma_add_nan(r1, one);
    lemma_add_nan(r2, one);
    lemma_add_mono(r1, r2, one);
    lemma_add_swap(r1, one);
    lemma_add_swap(r2, one);
    lemma_cut_product_mono(spread, one.add(r1), one.add(r2));
    let s1 = spread.mul(one.add(r1)).max(num(ZERO));
    let s2 = spread.mul(one.add(r2)).max(num(ZERO));
    lemma_sub_nan(one, s1);
    lemma_sub_nan(one, s2);
    lemma_sub_mono(one, one, s1, s2);
    lemma_scaled(mid, one.sub(s2), one.sub(s1));
    let f1 = mid.mul(one.sub(s1));
    let f2 = mid.mul(one.sub(s2));
    lemma_max_min_mono(f2, f1, bid);
    lemma_shift(bid, ask, r1, r2);
    lemma_top_is_finite(bid, mid, s1);
    lemma_top_is_finite(bid, mid, s2);
    let h1 = inventory_shift(bid, ask, r1);
    let h2 = inventory_shift(bid, ask, r2);
    lemma_sub_nan(bid.max(f1), h1);
    lemma_sub_nan(bid.max(f1), h2);
    lemma_sub_nan(bid.max(f2), h2);
    lemma_sub_mono(bid.max(f2), bid.max(f1), h1, h2);
}

/// A larger ratio lowers the ask.
proof fn lemma_ask_falls(bid: B64, ask: B64, mid: B64, r1: B64, r2: B64, params: MmQuoteParams)
    requires
        !params.ask_spread.lt(num(ZERO)),
        mid_from_bbo(bid, ask) == Some(mid),
        mid.is_finite(),
        r1.is_finite(),
        r2.is_finite(),
        r1.le(r2),
    ensures
        skewed_ask(bid, ask, mid, r2, params).le(skewed_ask(bid, ask, mid, r1, params)),
{
    let one = num(ONE);
    let spread = params.ask_spread;
    lemma_sub_nan(one, r1);
    lemma_sub_nan(one, r2);
    lemma_sub_mono(one, one, r1, r2);
    lemma_cut_product_mono(spread, one.sub(r2), one.sub(r1));
    let s1 = spread.mul(one.sub(r1)).max(num(ZERO));
    let s2 = spread.mul(one.sub(r2)).max(num(ZERO));
    lemma_add_nan(s1, one);
    lemma_add_nan(s2, one);
    lemma_add_mono(s2, s1, one);
    lemma_add_swap(s1, one);
    lemma_add_swap(s2, one);
    lemma_value_order(s1, num(ZERO));
    lemma_value_order(s2, num(ZERO));
    lemma_scaled(mid, one.add(s2), one.add(s1));
    let f1 = mid.mul(one.add(s1));
    let f2 = mid.mul(one.add(s2));
    lemma_max_min_mono(f2, f1, ask);
    lemma_shift(bid, ask, r1, r2);
    lemma_bottom_is_finite(ask, mid, s1);
    lemma_bottom_is_finite(ask, mid, s2);
    let h1 = inventory_shift(bid, ask, r1);
    let h2 = inventory_shift(bid, ask, r2);
    lemma_sub_nan(ask.min(f1), h1);
    lemma_sub_nan(ask.min(f1), h2);
    lemma_sub_nan(ask.min(f2), h2);
    lemma_sub_mono(ask.min(f2), ask.min(f1), h1, h2);
}

/// An overflowing sum of the best prices has an infinite mid.
proof fn lemma_mid_overflows(bid: B64, ask: B64, mid: B64)
    requires
        mid_from_bbo(bid, ask) == Some(mid),
        !bid.add(ask).is_finite(),
    ensures
        mid.infinite(),
        !mid.negative(),
{
    let sum = bid.add(ask);
    lemma_add_nan(bid, ask);
    lemma_value_order(num(ZERO), ask);
    lemma_value_order(num(ZERO), bid);
    lemma_add_grows(bid, ask);
    lemma_value_order(sum, bid);
    lemma_value_order(bid, sum);
    reveal(B64::spec_div);
}

/// An infinite mid leaves the better bid at the best one or sends it to
/// infinity.
proof fn lemma_top_beyond(bid: B64, mid: B64, x: B64)
    requires
        bid.is_finite(),
        mid.infinite(),
        !mid.negative(),
        !x.nan(),
    ensures
        x.gt(num(ZERO)) ==> bid.max(mid.mul(x)) == mid,
        !x.gt(num(ZERO)) ==> bid.max(mid.mul(x)) == bid,
        bid.lt(mid),
{
    reveal(B64::spec_mul);
    lemma_value_order(num(ZERO), x);
    lemma_value_order(x, num(ZERO));
    lemma_value_order(bid, mid);
    lemma_value_order(bid, mid.mul(x));
    assert(x.gt(num(ZERO)) ==> mid.mul(x) == mid);
}

/// A larger ratio lowers the bid around an infinite mid too, where both are
/// numbers.
proof fn lemma_bid_falls_beyond(bid: B64, ask: B64, mid: B64, r1: B64, r2: B64, params: MmQuoteParams)
    requires
        !params.bid_spread.lt(num(ZERO)),
        mid_from_bbo(bid, ask) == Some(mid),
        mid.infinite(),
        !mid.negative(),
        r1.is_finite(),
        r2.is_finite(),
        r1.le(r2),
        !skewed_bid(bid, ask, mid, r1, params).nan(),
        !skewed_bid(bid, ask, mid, r2, params).nan(),
    ensures
        skewed_bid(bid, ask, mid, r2, params).le(skewed_bid(bid, ask, mid, r1, params)),
{
    let one = num(ONE);
    let spread = params.bid_spread;
    lemma_add_nan(r1, one);
    lemma_add_nan(r2, one);
    lemma_add_mono(r1, r2, one);
    lemma_add_swap(r1, one);
    lemma_add_swap(r2, one);
    lemma_cut_product_mono(spread, one.add(r1), one.add(r2));
    let s1 = spread.mul(one.add(r1)).max(num(ZERO));
    let s2 = spread.mul(one.add(r2)).max(num(ZERO));
    lemma_sub_nan(one, s1);
    lemma_sub_nan(one, s2);
    lemma_sub_mono(one, one, s1, s2);
    lemma_top_beyond(bid, mid, one.sub(s1));
    lemma_top_beyond(bid, mid, one.sub(s2));
    lemma_shift(bid, ask, r1, r2);
    let h1 = inventory_shift(bid, ask, r1);
    let h2 = inventory_shift(bid, ask, r2);
    let top1 = bid.max(mid.mul(one.sub(s1)));
    let top2 = bid.max(mid.mul(one.sub(s2)));
    assert(top2.le(top1));
    lemma_value_order(h1, h2);
    lemma_value_order(h2, h1);
    lemma_sub_nan(top1, h1);
    lemma_sub_nan(top2, h1);
    lemma_sub_nan(top2, h2);
    lemma_sub_mono(top2, top2, h1, h2);
    lemma_sub_mono(top2, top1, h1, h1);
}

/// A larger ratio lowers the ask around an infinite mid too.
proof fn lemma_ask_falls_beyond(bid: B64, ask: B64, mid: B64, r1: B64, r2: B64, params: MmQuoteParams)
    requires
        mid_from_bbo(bid, ask) == Some(mid),
        mid.infinite(),
        !mid.negative(),
        r1.is_finite(),
        r2.is_finite(),
        r1.le(r2),
    ensures
        skewed_ask(bid, ask, mid, r2, params).le(skewed_ask(bid, ask, mid, r1, params)),
{
    lemma_ask_stays(ask, mid, params.ask_spread.mul(num(ONE).sub(r1)).max(num(ZERO)));
    lemma_ask_stays(ask, mid, params.ask_spread.mul(num(ONE).sub(r2)).max(num(ZERO)));
    lemma_shift(bid, ask, r1, r2);
    let h1 = inventory_shift(bid, ask, r1);
    let h2 = inventory_shift(bid, ask, r2);
    lemma_sub_nan(ask, h1);
    lemma_sub_nan(ask, h2);
    lemma_sub_mono(ask, ask, h1, h2);
}

/// An infinite mid leaves the ask at the best one.
proof fn lemma_ask_stays(ask: B64, mid: B64, s: B64)
    requires
        ask.is_finite(),
        mid.infinite(),
        !mid.negative(),
        !s.lt(num(ZERO)),
    ensures
        ask.min(mid.mul(num(ONE).add(s))) == ask,
{
    reveal(B64::spec_mul);
    let x = num(ONE).add(s);
    lemma_signs();
    if !s.nan() {
        lemma_value_order(s, num(ZERO));
        lemma_add_grows(num(ONE), s);
        lemma_value_order(num(ZERO), x);
        lemma_value_order(mid, ask);
        assert(mid.mul(x) == mid);
    } else {
        lemma_add_nan(num(ONE), s);
    }
}

/// A larger ratio moves size from the bid to the ask.
proof fn lemma_size_moves(base: B64, r1: B64, r2: B64)
    requires
        !base.lt(num(ZERO)),
        r1.is_finite(),
        r2.is_finite(),
        r1.le(r2),
    ensures
        base.mul(num(ONE).sub(num(HALF).mul(r2))).max(num(ZERO)).le(
            base.mul(num(ONE).sub(num(HALF).mul(r1))).max(num(ZERO)),
        ),
        base.mul(num(ONE).add(num(HALF).mul(r1))).max(num(ZERO)).le(
            base.mul(num(ONE).add(num(HALF).mul(r2))).max(num(ZERO)),
        ),
{
    lemma_signs();
    let one = num(ONE);
    let h1 = num(HALF).mul(r1);
    let h2 = num(HALF).mul(r2);
    lemma_scaled(num(HALF), r1, r2);
    lemma_sub_nan(one, h1);
    lemma_sub_nan(one, h2);
    lemma_sub_mono(one, one, h1, h2);
    lemma_cut_product_mono(base, one.sub(h2), one.sub(h1));
    lemma_add_nan(h1, one);
    lemma_add_nan(h2, one);
    lemma_add_mono(h1, h2, one);
    lemma_add_swap(h1, one);
    lemma_add_swap(h2, one);
    lemma_cut_product_mono(base, one.add(h1), one.add(h2));
}

/// The more inventory, the lower both prices, the smaller the bid and the
/// larger the ask: a long position makes the sell more aggressive and the buy
/// less, a short one the reverse. A bid price can be a NaN, which compares with
/// nothing, where the sum of the best prices overflows and nowhere else.
pub proof fn law_quotes_lean_with_inventory(bid: B64, ask: B64, i1: B64, i2: B64, params: MmQuoteParams)
    requires
        params.inventory_skew.is_finite(),
        params.inventory_skew.ge(num(ZERO)),
        params.inventory_target.is_finite(),
        i1.le(i2),
    ensures
        match (skewed_quote(bid, ask, i1, params), skewed_quote(bid, ask, i2, params)) {
            (Some(q1), Some(q2)) => {
                &&& q1.mid == q2.mid
                &&& !q1.bid_price.nan() && !q2.bid_price.nan() ==> q2.bid_price.le(q1.bid_price)
                &&& bid.add(ask).is_finite() ==> !q1.bid_price.nan() && !q2.bid_price.nan()
                &&& q2.ask_price.le(q1.ask_price)
                &&& q2.bid_qty.le(q1.bid_qty)
                &&& q1.ask_qty.le(q2.ask_qty)
            },
            _ => true,
        },
{
    if skewed_quote(bid, ask, i1, params) is Some && skewed_quote(bid, ask, i2, params) is Some {
        let mid = mid_from_bbo(bid, ask)->0;
        let r1 = skew_ratio(i1, params);
        let r2 = skew_ratio(i2, params);
        lemma_ratio(i1, i2, params);
        lemma_ratio(i2, i2, params);
        if bid.add(ask).is_finite() {
            crate::binary64::facts::lemma_midpoint(bid, ask);
            lemma_between(bid, mid, ask);
            lemma_bid_falls(bid, ask, mid, r1, r2, params);
            lemma_ask_falls(bid, ask, mid, r1, r2, params);
        } else {
            lemma_mid_overflows(bid, ask, mid);
            lemma_ask_falls_beyond(bid, ask, mid, r1, r2, params);
            if !skewed_bid(bid, ask, mid, r1, params).nan() && !skewed_bid(bid, ask, mid, r2, params).nan() {
                lemma_bid_falls_beyond(bid, ask, mid, r1, r2, params);
            }
        }
        let base = params.order_notional.div(mid);
        assert(!base.lt(num(ZERO))) by {
            let notional = params.order_notional;
            if notional.nan() || mid.infinite() {
                reveal(B64::spec_div);
                lemma_value_order(notional, num(ZERO));
                lemma_value_order(num(ZERO), notional);
                lemma_value_order(base, num(ZERO));
            } else {
                lemma_div_sign(notional, mid);
            }
        }
        lemma_size_moves(base, r1, r2);
    }
}

/// The skewed position grows with the position and stays finite.
proof fn lemma_norm(calc: CalcView, mid: B64, p1: B64, p2: B64)
    requires
        calc.skew.is_finite(),
        calc.skew.ge(num(ZERO)),
        calc.max_position_dollar.is_finite(),
        standing(mid),
        p1.le(p2),
    ensures
        calc.skew.mul(calc.norm_position(mid, p1)).le(calc.skew.mul(calc.norm_position(mid, p2))),
        calc.skew.mul(calc.norm_position(mid, p1)).finite(),
{
    lemma_signs();
    lemma_value_order(num(ZERO), mid);
    let limit = calc.max_position_dollar;
    let skew = calc.skew;
    let n1 = calc.norm_position(mid, p1);
    let n2 = calc.norm_position(mid, p2);
    lemma_value_order(num(MINUS_ONE), num(ZERO));
    if limit.gt(num(ZERO)) {
        lemma_mul_swap(mid, p1);
        lemma_mul_swap(mid, p2);
        lemma_scaled(mid, p1, p2);
        lemma_div_mono(p1.mul(mid), p2.mul(mid), limit);
    }
    assert(n1.le(n2) && num(MINUS_ONE).le(n1) && n1.le(num(ONE)) && num(MINUS_ONE).le(n2) && n2.le(
        num(ONE),
    ));
    lemma_between(num(MINUS_ONE), n1, num(ONE));
    lemma_between(num(MINUS_ONE), n2, num(ONE));
    lemma_mul_nan(n1, skew);
    lemma_mul_nan(n2, skew);
    lemma_mul_nan(num(ONE), skew);
    lemma_mul_nan(num(MINUS_ONE), skew);
    lemma_mul_mono(n1, n2, skew);
    lemma_mul_mono(n1, num(ONE), skew);
    lemma_mul_mono(num(MINUS_ONE), n1, skew);
    lemma_mul_swap(n1, skew);
    lemma_mul_swap(n2, skew);
    lemma_mul_swap(num(ONE), skew);
    lemma_mul_swap(num(MINUS_ONE), skew);
    lemma_times_one(skew);
    lemma_between(skew.neg(), n1.mul(skew), skew);
}

/// A depth in ticks, cut at zero, as a price keeps the order.
proof fn lemma_tick_depth(half: B64, u1: B64, u2: B64, tick: B64)
    requires
        !half.lt(num(ZERO)),
        u1.le(u2),
        tick.finite(),
        tick.gt(num(ZERO)),
    ensures
        half.mul(u1).max(num(ZERO)).mul(tick).le(half.mul(u2).max(num(ZERO)).mul(tick)),
        half.mul(u1).max(num(ZERO)).mul(tick).ge(num(ZERO)),
{
    lemma_cut_product_mono(half, u1, u2);
    let d1 = half.mul(u1).max(num(ZERO));
    let d2 = half.mul(u2).max(num(ZERO));
    lemma_scaled(tick, d1, d2);
    lemma_mul_swap(tick, d1);
    lemma_mul_swap(tick, d2);
    lemma_mul_sign(d1, tick);
}

/// The larger the position, the lower both prices of a volatility quote.
pub proof fn law_volatility_quotes_lean_with_position(calc: CalcView, mid: B64, p1: B64, p2: B64)
    requires
        calc.skew.is_finite(),
        calc.skew.ge(num(ZERO)),
        calc.max_position_dollar.is_finite(),
        calc.tick_size.is_finite(),
        calc.tick_size.gt(num(ZERO)),
        !calc.volatility.mul(calc.vol_to_half_spread).div(calc.tick_size).lt(num(ZERO)),
        mid.add(calc.c1.mul(calc.alpha)).is_finite(),
        p1.le(p2),
    ensures
        match (calc.quote(mid, p1), calc.quote(mid, p2)) {
            (Some(q1), Some(q2)) => q2.0.le(q1.0) && q2.1.le(q1.1),
            _ => true,
        },
{
    if calc.quote(mid, p1) is Some && calc.quote(mid, p2) is Some {
        lemma_value_order(mid, num(ZERO));
        lemma_norm(calc, mid, p1, p2);
        lemma_norm(calc, mid, p2, p2);
        let one = num(ONE);
        let tick = calc.tick_size;
        let half = calc.volatility.mul(calc.vol_to_half_spread).div(tick);
        let fair = mid.add(calc.c1.mul(calc.alpha));
        let s1 = calc.skew.mul(calc.norm_position(mid, p1));
        let s2 = calc.skew.mul(calc.norm_position(mid, p2));
        lemma_add_nan(s1, one);
        lemma_add_nan(s2, one);
        lemma_add_mono(s1, s2, one);
        lemma_add_swap(s1, one);
        lemma_add_swap(s2, one);
        lemma_tick_depth(half, one.add(s1), one.add(s2), tick);
        let d1 = half.mul(one.add(s1)).max(num(ZERO)).mul(tick);
        let d2 = half.mul(one.add(s2)).max(num(ZERO)).mul(tick);
        lemma_sub_nan(fair, d1);
        lemma_sub_nan(fair, d2);
        lemma_sub_mono(fair, fair, d1, d2);
        assert(calc.raw_bid(mid, p2).le(calc.raw_bid(mid, p1)));
        lemma_grid_mono(calc.raw_bid(mid, p2), calc.raw_bid(mid, p1), tick);
        lemma_sub_nan(one, s1);
        lemma_sub_nan(one, s2);
        lemma_sub_mono(one, one, s1, s2);
        lemma_tick_depth(half, one.sub(s2), one.sub(s1), tick);
        let e1 = half.mul(one.sub(s1)).max(num(ZERO)).mul(tick);
        let e2 = half.mul(one.sub(s2)).max(num(ZERO)).mul(tick);
        lemma_add_nan(e1, fair);
        lemma_add_nan(e2, fair);
        lemma_add_mono(e2, e1, fair);
        lemma_add_swap(e1, fair);
        lemma_add_swap(e2, fair);
        assert(calc.raw_ask(mid, p2).le(calc.raw_ask(mid, p1)));
        lemma_grid_mono(calc.raw_ask(mid, p2), calc.raw_ask(mid, p1), tick);
    }
}

/// The price on the tick grid at a depth below the mid.
pub open spec fn bid_at_depth(mid: B64, depth: B64, tick: B64) -> B64 {
    floored(mid.sub(depth), tick)
}

/// The price on the tick grid at a depth above the mid.
pub open spec fn ask_at_depth(mid: B64, depth: B64, tick: B64) -> B64 {
    ceiled(mid.add(depth), tick)
}

/// The depth of a side that the bias starts from: its distance from the mid,
/// at least the least depth.
pub open spec fn quoted_depth(distance: B64, mid: B64, tick: B64) -> B64 {
    distance.max(least_depth(mid, tick))
}

/// A deeper bid is never higher and a deeper ask never lower, on the grid.
pub proof fn law_depth_moves_away_from_mid(mid: B64, d1: B64, d2: B64, tick: B64)
    requires
        mid.is_finite(),
        d1.le(d2),
        tick.is_finite(),
    ensures
        bid_at_depth(mid, d2, tick).le(bid_at_depth(mid, d1, tick)),
        ask_at_depth(mid, d1, tick).le(ask_at_depth(mid, d2, tick)),
{
    lemma_sub_nan(mid, d1);
    lemma_sub_nan(mid, d2);
    lemma_sub_mono(mid, mid, d1, d2);
    lemma_add_nan(d1, mid);
    lemma_add_nan(d2, mid);
    lemma_add_mono(d1, d2, mid);
    lemma_add_swap(d1, mid);
    lemma_add_swap(d2, mid);
    if tick.gt(num(ZERO)) {
        lemma_grid_mono(mid.sub(d2), mid.sub(d1), tick);
        lemma_grid_mono(mid.add(d1), mid.add(d2), tick);
    }
}

/// The distance of two prices, one below the other or not, cut from below by a
/// finite depth.
proof fn lemma_cut_distance(low: B64, high: B64, least: B64)
    requires
        standing(low),
        standing(high),
        least.finite(),
        least.ge(num(ZERO)),
    ensures
        high.sub(low).max(least).finite(),
        least.le(high.sub(low).max(least)),
{
    if low.le(high) {
        lemma_gap_is_finite(low, high);
    } else {
        lemma_gap_is_finite(high, low);
        lemma_value_order(high.sub(low), least);
        lemma_value_order(least, high.sub(low));
        lemma_units_zero();
        lemma_value_order(high.sub(low), num(ZERO));
        lemma_value_order(num(ZERO), high.sub(low));
    }
}

proof fn lemma_least_depth(mid: B64, tick: B64)
    requires
        mid.is_finite(),
        mid.gt(num(ZERO)),
        tick.is_finite(),
    ensures
        least_depth(mid, tick).finite(),
        least_depth(mid, tick).gt(num(ZERO)),
{
    lemma_signs();
    if !tick.gt(num(ZERO)) {
        lemma_scaled(mid, num(TINY_6), num(ONE));
        lemma_times_one(mid);
        let p = mid.mul(num(TINY_6));
        lemma_mul_sign(mid, num(TINY_6));
        lemma_between(num(ZERO), p, mid);
        lemma_value_order(p, num(TINY_9));
    }
}

/// The share of the inventory is never negative.
proof fn lemma_share_is_not_negative(
    position: B64,
    mid: B64,
    max_pos_usd: B64,
    adverse_bps: B64,
    threshold_bps: B64,
    per_bps: B64,
    per_ratio: B64,
    limit: B64,
)
    requires
        mid.is_finite(),
        mid.gt(num(ZERO)),
        !max_pos_usd.le(num(ZERO)),
    ensures
        ratio_share(
            per_ratio,
            inventory_ratio(position, mid, max_pos_usd),
            adverse_boost(adverse_bps, threshold_bps, per_bps),
            limit,
        ).ge(num(ZERO)),
{
    lemma_signs();
    lemma_units_zero();
    let zero = num(ZERO);
    let ratio = inventory_ratio(position, mid, max_pos_usd);
    let boost = adverse_boost(adverse_bps, threshold_bps, per_bps);
    let per = per_ratio.max(zero);
    assert(ratio.nan() || ratio.ge(zero)) by {
        reveal(B64::spec_mul);
        reveal(B64::spec_div);
        let size = position.abs();
        lemma_value_order(size, zero);
        if !size.nan() {
            lemma_mul_sign(size, mid);
        }
        let product = size.mul(mid);
        if !product.nan() && !max_pos_usd.nan() {
            lemma_div_sign(product, max_pos_usd);
        }
    }
    assert(boost.ge(zero)) by {
        let excess = adverse_bps.sub(threshold_bps).max(zero);
        lemma_mul_sign(excess, per_bps.max(zero));
        let extra = excess.mul(per_bps.max(zero)).min(num(HALF));
        assert(extra.ge(zero));
        lemma_add_grows(num(ONE), extra);
    }
    let scaled = per.mul(ratio);
    assert(scaled.nan() || scaled.ge(zero)) by {
        lemma_mul_nan(per, ratio);
        if !ratio.nan() {
            lemma_mul_sign(per, ratio);
        }
    }
    let full = scaled.mul(boost);
    assert(full.nan() || full.ge(zero)) by {
        lemma_mul_nan(scaled, boost);
        if !scaled.nan() {
            lemma_mul_sign(scaled, boost);
        }
    }
}

/// The adding side is scaled by one or more, the reducing side by one or less.
proof fn lemma_factors(tighten: B64, widen: B64)
    requires
        tighten.ge(num(ZERO)),
        widen.ge(num(ZERO)),
    ensures
        depth_factor(false, tighten, widen).ge(num(ONE)),
        depth_factor(true, tighten, widen).le(num(ONE)),
{
    lemma_signs();
    lemma_add_grows(num(ONE), widen);
    lemma_sub_shrinks(num(ONE), tighten);
}

/// A reducing bid is never below the quoted depth, an adding one never above
/// it where the quoted depth lies below the mid.
proof fn lemma_biased_bid(bid: B64, mid: B64, tick: B64, tighten: B64, widen: B64)
    requires
        mid.is_finite(),
        mid.gt(num(ZERO)),
        tick.is_finite(),
        standing(bid),
        tighten.ge(num(ZERO)),
        widen.ge(num(ZERO)),
    ensures
        ({
            let quoted = bid_at_depth(mid, quoted_depth(mid.sub(bid), mid, tick), tick);
            &&& quoted.le(biased_bid(bid, mid, tick, depth_factor(true, tighten, widen)))
            &&& quoted.lt(mid) ==> biased_bid(bid, mid, tick, depth_factor(false, tighten, widen)).le(quoted)
        }),
{
    let least = least_depth(mid, tick);
    let depth = quoted_depth(mid.sub(bid), mid, tick);
    lemma_least_depth(mid, tick);
    lemma_cut_distance(bid, mid, least);
    lemma_factors(tighten, widen);
    let shrink = depth_factor(true, tighten, widen);
    let grow = depth_factor(false, tighten, widen);
    lemma_scaled(depth, shrink, num(ONE));
    lemma_scaled(depth, num(ONE), grow);
    lemma_times_one(depth);
    law_depth_moves_away_from_mid(mid, depth.mul(shrink), depth, tick);
    law_depth_moves_away_from_mid(mid, depth, depth.mul(grow), tick);
    law_depth_moves_away_from_mid(mid, least, depth, tick);
}

proof fn lemma_biased_ask(ask: B64, mid: B64, tick: B64, tighten: B64, widen: B64)
    requires
        mid.is_finite(),
        mid.gt(num(ZERO)),
        tick.is_finite(),
        standing(ask),
        tighten.ge(num(ZERO)),
        widen.ge(num(ZERO)),
    ensures
        ({
            let quoted = ask_at_depth(mid, quoted_depth(ask.sub(mid), mid, tick), tick);
            &&& biased_ask(ask, mid, tick, depth_factor(true, tighten, widen)).le(quoted)
            &&& quoted.gt(mid) ==> quoted.le(biased_ask(ask, mid, tick, depth_factor(false, tighten, widen)))
        }),
{
    let least = least_depth(mid, tick);
    let depth = quoted_depth(ask.sub(mid), mid, tick);
    lemma_least_depth(mid, tick);
    lemma_cut_distance(mid, ask, least);
    lemma_factors(tighten, widen);
    let shrink = depth_factor(true, tighten, widen);
    let grow = depth_factor(false, tighten, widen);
    lemma_scaled(depth, shrink, num(ONE));
    lemma_scaled(depth, num(ONE), grow);
    lemma_times_one(depth);
    law_depth_moves_away_from_mid(mid, depth.mul(shrink), depth, tick);
    law_depth_moves_away_from_mid(mid, depth, depth.mul(grow), tick);
    law_depth_moves_away_from_mid(mid, least, depth, tick);
}

/// The exit bias leans against the inventory. Compared with the quoted depths
/// on the grid, a long position never raises its ask and a short one never
/// lowers its bid; the side that would add inventory never comes closer to the
/// mid, where its quoted depth lies on its own side of the mid.
pub proof fn law_bias_leans_against_inventory(
    bid: B64,
    ask: B64,
    mid: B64,
    position: B64,
    max_pos_usd: B64,
    adverse_bps: B64,
    threshold_bps: B64,
    cfg: InventoryExitBias,
    tick: B64,
)
    requires
        mid.is_finite(),
        tick.is_finite(),
        standing(bid),
        standing(ask),
        bias_applies(cfg, mid, position, max_pos_usd),
    ensures
        ({
            let out = biased(
                bid,
                ask,
                mid,
                position,
                max_pos_usd,
                adverse_bps,
                threshold_bps,
                cfg,
                tick,
            );
            let quoted_bid = bid_at_depth(mid, quoted_depth(mid.sub(bid), mid, tick), tick);
            let quoted_ask = ask_at_depth(mid, quoted_depth(ask.sub(mid), mid, tick), tick);
            ||| out == (bid, ask)
            ||| {
                &&& position.gt(num(ZERO)) ==> out.1.le(quoted_ask) && (quoted_bid.lt(mid) ==> out.0.le(
                    quoted_bid,
                ))
                &&& position.lt(num(ZERO)) ==> quoted_bid.le(out.0) && (quoted_ask.gt(mid)
                    ==> quoted_ask.le(out.1))
            }
        }),
{
    let ratio = inventory_ratio(position, mid, max_pos_usd);
    let boost = adverse_boost(adverse_bps, threshold_bps, cfg.adverse_boost_per_bps);
    let tighten = ratio_share(cfg.exit_tighten_per_ratio, ratio, boost, cfg.max_exit_tighten);
    let widen = ratio_share(cfg.add_widen_per_ratio, ratio, boost, cfg.max_add_widen);
    lemma_share_is_not_negative(
        position,
        mid,
        max_pos_usd,
        adverse_bps,
        threshold_bps,
        cfg.adverse_boost_per_bps,
        cfg.exit_tighten_per_ratio,
        cfg.max_exit_tighten,
    );
    lemma_share_is_not_negative(
        position,
        mid,
        max_pos_usd,
        adverse_bps,
        threshold_bps,
        cfg.adverse_boost_per_bps,
        cfg.add_widen_per_ratio,
        cfg.max_add_widen,
    );
    lemma_biased_bid(bid, mid, tick, tighten, widen);
    lemma_biased_ask(ask, mid, tick, tighten, widen);
}

/// The bias grows with the inventory: a larger ratio never tightens or widens
/// less, and so never leaves the reducing side deeper or the adding side
/// shallower.
pub proof fn law_bias_grows_with_inventory(
    r1: B64,
    r2: B64,
    boost: B64,
    cfg: InventoryExitBias,
)
    requires
        cfg.exit_tighten_per_ratio.is_finite(),
        cfg.add_widen_per_ratio.is_finite(),
        boost.is_finite(),
        boost.gt(num(ZERO)),
        r2.is_finite(),
        num(ZERO).le(r1),
        r1.le(r2),
    ensures
        ({
            let tighten1 = ratio_share(cfg.exit_tighten_per_ratio, r1, boost, cfg.max_exit_tighten);
            let tighten2 = ratio_share(cfg.exit_tighten_per_ratio, r2, boost, cfg.max_exit_tighten);
            let widen1 = ratio_share(cfg.add_widen_per_ratio, r1, boost, cfg.max_add_widen);
            let widen2 = ratio_share(cfg.add_widen_per_ratio, r2, boost, cfg.max_add_widen);
            &&& tighten1.le(tighten2)
            &&& widen1.le(widen2)
            &&& depth_factor(true, tighten2, widen2).le(depth_factor(true, tighten1, widen1))
            &&& depth_factor(false, tighten1, widen1).le(depth_factor(false, tighten2, widen2))
        }),
{
    let one = num(ONE);
    lemma_signs();
    lemma_share_grows(cfg.exit_tighten_per_ratio, r1, r2, boost, cfg.max_exit_tighten);
    lemma_share_grows(cfg.add_widen_per_ratio, r1, r2, boost, cfg.max_add_widen);
    let t1 = ratio_share(cfg.exit_tighten_per_ratio, r1, boost, cfg.max_exit_tighten);
    let t2 = ratio_share(cfg.exit_tighten_per_ratio, r2, boost, cfg.max_exit_tighten);
    let w1 = ratio_share(cfg.add_widen_per_ratio, r1, boost, cfg.max_add_widen);
    let w2 = ratio_share(cfg.add_widen_per_ratio, r2, boost, cfg.max_add_widen);
    lemma_sub_nan(one, t1);
    lemma_sub_nan(one, t2);
    lemma_sub_mono(one, one, t1, t2);
    lemma_max_min_mono(one.sub(t2), one.sub(t1), num(P05));
    lemma_add_nan(w1, one);
    lemma_add_nan(w2, one);
    lemma_value_order(w1, num(ZERO));
    lemma_value_order(w2, num(ZERO));
    lemma_add_mono(w1, w2, one);
    lemma_add_swap(w1, one);
    lemma_add_swap(w2, one);
}

proof fn lemma_share_grows(per_ratio: B64, r1: B64, r2: B64, boost: B64, limit: B64)
    requires
        per_ratio.is_finite(),
        boost.is_finite(),
        boost.gt(num(ZERO)),
        r2.is_finite(),
        num(ZERO).le(r1),
        r1.le(r2),
    ensures
        ratio_share(per_ratio, r1, boost, limit).le(ratio_share(per_ratio, r2, boost, limit)),
        ratio_share(per_ratio, r1, boost, limit).ge(num(ZERO)),
{
    lemma_units_zero();
    lemma_between(num(ZERO), r1, r2);
    let per = per_ratio.max(num(ZERO));
    let p1 = per.mul(r1);
    let p2 = per.mul(r2);
    lemma_mul_nan(per, r1);
    lemma_mul_nan(per, r2);
    lemma_mul_swap(per, r1);
    lemma_mul_swap(per, r2);
    lemma_mul_mono(r1, r2, per);
    lemma_mul_sign(per, r1);
    lemma_value_order(boost, num(ZERO));
    lemma_scaled(boost, p1, p2);
    lemma_mul_swap(boost, p1);
    lemma_mul_swap(boost, p2);
    lemma_mul_sign(p1, boost);
}

/// A multiplier above one never moves a standing side towards the mid, on the
/// grid.
pub proof fn law_multiplier_widens(bid: B64, ask: B64, mid: B64, multiplier: B64, tick: B64)
    requires
        standing(mid),
        multiplier.is_finite(),
        multiplier.gt(num(ONE_P0001)),
        tick.is_finite(),
    ensures
        standing(bid) ==> widened(bid, ask, mid, multiplier, tick).0.le(
            bid_at_depth(mid, mid.sub(bid).max(num(ZERO)), tick),
        ),
        standing(ask) ==> ask_at_depth(mid, ask.sub(mid).max(num(ZERO)), tick).le(
            widened(bid, ask, mid, multiplier, tick).1,
        ),
{
    lemma_units_zero();
    if standing(bid) {
        let d = mid.sub(bid).max(num(ZERO));
        lemma_cut_distance(bid, mid, num(ZERO));
        lemma_stretched(d, multiplier);
        law_depth_moves_away_from_mid(mid, d, d.mul(multiplier), tick);
    }
    if standing(ask) {
        let e = ask.sub(mid).max(num(ZERO));
        lemma_cut_distance(mid, ask, num(ZERO));
        lemma_stretched(e, multiplier);
        law_depth_moves_away_from_mid(mid, e, e.mul(multiplier), tick);
    }
}

proof fn lemma_stretched(d: B64, multiplier: B64)
    requires
        d.finite(),
        d.ge(num(ZERO)),
        multiplier.is_finite(),
        multiplier.gt(num(ONE_P0001)),
    ensures
        d.le(d.mul(multiplier)),
{
    lemma_signs();
    lemma_mul_nan(num(ONE), d);
    lemma_mul_nan(multiplier, d);
    lemma_mul_mono(num(ONE), multiplier, d);
    lemma_mul_swap(num(ONE), d);
    lemma_mul_swap(multiplier, d);
    lemma_times_one(d);
}

} // verus!
