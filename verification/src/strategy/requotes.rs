//! When a quote is replaced: how far the mid or the inventory has to move.

use vstd::prelude::*;

use crate::binary64::consts::{QUARTER, TINY_6, TINY_9, ZERO};
use crate::binary64::error::{
    gap, lemma_div_near, lemma_exact_sign, lemma_mul_near, lemma_ratio_times, lemma_sub_near, limit, size,
    smallest, units_in_one, whole,
};
use crate::binary64::facts::{
    lemma_add_value, lemma_div_mono, lemma_gap_is_finite, lemma_mul_mono, lemma_mul_nan, lemma_rounded_range,
    lemma_self_difference, lemma_units_order, lemma_value_range,
};
use crate::binary64::layout::lemma_units_zero;
use crate::binary64::measure::{
    lemma_exact_order, lemma_exact_signs, lemma_range_of_sizes, lemma_tiny_6, lemma_tiny_9,
    lemma_whole_constants,
};
use crate::binary64::order::lemma_value_order;
use crate::binary64::rounding::lemma_rounded_mono;
use crate::binary64::{num, B64, UNIT_EXP};
use crate::clock::Timestamp;

use super::exact::{lemma_gap, lemma_gap_small, lemma_near_within, lemma_product_sum, product, ratio};
use super::imbalance::lemma_zero_over;
use super::market_making::{mid_moved, requote_due};

verus! {

/// Whether the minimal interval has passed.
pub open spec fn interval_passed(prev_ts: Timestamp, now: Timestamp, secs: i64) -> bool {
    &&& now.total() - prev_ts.total() >= 1_000_000_000
    &&& now.total() - prev_ts.total() >= secs * 1_000_000_000
}

pub proof fn lemma_value_of(a: B64)
    ensures
        a.exact() * units_in_one() == whole(a.value()),
        units_in_one() > 0real,
{
    reveal(B64::exact);
    vstd::arithmetic::power2::lemma_pow2_pos(UNIT_EXP as nat);
    lemma_ratio_times(whole(a.value()), units_in_one());
}

proof fn lemma_scaled_gap(x: real, y: real, u: real, v: real, one: real)
    by (nonlinear_arith)
    requires
        one > 0real,
        x - y <= u - v,
    ensures
        x * one - y * one <= u * one - v * one,
{
}

/// Distances that are not smaller do not round to smaller ones, whichever way
/// they go.
proof fn lemma_distance_order(a: B64, b: B64, p: B64)
    requires
        a.finite(),
        b.finite(),
        p.finite(),
        size(a.exact() - p.exact()) <= size(b.exact() - p.exact()),
    ensures
        a.sub(p).abs().le(b.sub(p).abs()),
{
    lemma_value_of(a);
    lemma_value_of(b);
    lemma_value_of(p);
    let one = units_in_one();
    let (x, y, z) = (a.exact(), b.exact(), p.exact());
    let u = if x >= z { x } else { z };
    let v = if x >= z { z } else { x };
    let t = if y >= z { y } else { z };
    let w = if y >= z { z } else { y };
    lemma_scaled_gap(u, v, t, w, one);
    assert(p.neg().value() == -p.value());
    let m = a.value() - p.value();
    let n = b.value() - p.value();
    lemma_add_value(a, p.neg());
    lemma_add_value(b, p.neg());
    let am = if m < 0 { -m } else { m };
    let an = if n < 0 { -n } else { n };
    lemma_exact_order(a, p);
    lemma_exact_order(b, p);
    assert(am <= an);
    lemma_rounded_mono(am, 1, an, 1);
    lemma_rounded_range(am, 1);
    lemma_rounded_range(an, 1);
    lemma_units_order(crate::binary64::rounding::rounded(am, 1), crate::binary64::rounding::rounded(an, 1));
    lemma_abs_value(a.sub(p));
    lemma_abs_value(b.sub(p));
}

pub proof fn lemma_abs_value(a: B64)
    ensures
        a.abs().value() == (if a.value() < 0 { -a.value() } else { a.value() }),
        a.abs().nan() == a.nan(),
{
    lemma_units_order(0, a.mag());
    lemma_units_zero();
}

/// Once the interval has passed, a mid that moved at least as far as one that
/// is reason for a new quote is reason for one too, in whichever direction
/// either of them went. In particular falls count as rises of the same size do.
pub proof fn law_moves_count_in_both_directions(
    prev_mid: B64,
    mid: B64,
    other: B64,
    inv: B64,
    prev_inv: B64,
    prev_ts: Timestamp,
    now: Timestamp,
    bid_spread: B64,
    secs: i64,
)
    requires
        prev_mid.finite() && prev_mid.gt(num(ZERO)),
        mid.finite() && mid.gt(num(ZERO)),
        other.finite() && other.gt(num(ZERO)),
        size(mid.exact() - prev_mid.exact()) <= size(other.exact() - prev_mid.exact()),
        requote_due(prev_mid, prev_inv, prev_ts, mid, inv, now, bid_spread, secs),
    ensures
        requote_due(prev_mid, prev_inv, prev_ts, other, inv, now, bid_spread, secs),
{
    lemma_distance_order(mid, other, prev_mid);
    lemma_div_mono(mid.sub(prev_mid).abs(), other.sub(prev_mid).abs(), prev_mid);
}

/// How far rounding can move the relative move of a mid or its bound.
pub open spec fn move_slack(moved: real, bid_spread: B64, prev_mid: B64) -> real {
    4real * product(gap(), moved + bid_spread.exact()) + 8real * smallest() + 4real * ratio(
        smallest(),
        prev_mid.exact(),
    )
}

pub proof fn lemma_over(a: real, b: real, e: real, p: real)
    requires
        p > 0real,
        size(a - b) <= e,
    ensures
        size(ratio(a, p) - ratio(b, p)) <= ratio(e, p),
{
    reveal(ratio);
    lemma_ratio_times(a, p);
    lemma_ratio_times(b, p);
    lemma_ratio_times(e, p);
    let (x, y, z) = (a / p, b / p, e / p);
    if x - y > z {
        assert(x * p - y * p > z * p) by (nonlinear_arith)
            requires
                x - y > z,
                p > 0real,
        ;
    }
    if y - x > z {
        assert(y * p - x * p > z * p) by (nonlinear_arith)
            requires
                y - x > z,
                p > 0real,
        ;
    }
}

/// Ratios of sums, and a fraction of a ratio.
pub proof fn lemma_ratio_parts(a: real, b: real, p: real)
    requires
        p > 0real,
        a >= 0real,
        b >= 0real,
    ensures
        ratio(product(gap(), a) + b, p) == product(gap(), ratio(a, p)) + ratio(b, p),
        ratio(a, p) >= 0real,
        ratio(b, p) >= 0real,
{
    reveal(ratio);
    reveal(product);
    let g = gap();
    lemma_ratio_times(a, p);
    lemma_ratio_times(b, p);
    let c = g * a;
    lemma_ratio_times(c + b, p);
    let (x, y, z) = (a / p, b / p, (c + b) / p);
    assert(z == g * x + y) by (nonlinear_arith)
        requires
            z * p == c + b,
            x * p == a,
            y * p == b,
            c == g * a,
            p > 0real,
    ;
    assert(x >= 0real) by (nonlinear_arith)
        requires
            x * p == a,
            a >= 0real,
            p > 0real,
    ;
    assert(y >= 0real) by (nonlinear_arith)
        requires
            y * p == b,
            b >= 0real,
            p > 0real,
    ;
}

/// The relative move of a mid, up to rounding.
proof fn lemma_relative_move(prev_mid: B64, mid: B64, moved: real)
    requires
        prev_mid.finite() && prev_mid.gt(num(ZERO)),
        mid.finite() && mid.gt(num(ZERO)),
        moved == ratio(size(mid.exact() - prev_mid.exact()), prev_mid.exact()),
        4real * (moved + ratio(smallest(), prev_mid.exact()) + 1real) <= limit(),
    ensures
        ({
            let q = mid.sub(prev_mid).abs().div(prev_mid);
            &&& q.finite()
            &&& size(q.exact() - moved) <= 3real * product(gap(), moved) + 2real * smallest() + 3real * ratio(
                smallest(),
                prev_mid.exact(),
            )
            &&& moved >= 0real
        }),
{
    let p = prev_mid.exact();
    let dist = size(mid.exact() - p);
    lemma_range_of_sizes();
    lemma_exact_sign(prev_mid);
    lemma_exact_sign(mid);
    let d = mid.sub(prev_mid);
    lemma_difference_is_finite(mid, prev_mid);
    lemma_sub_near(mid, prev_mid);
    lemma_near_within(d, mid.exact() - p, dist);
    lemma_exact_signs(d);
    let x = d.abs().exact();
    let e = product(gap(), dist) + smallest();
    lemma_over(x, dist, e, p);
    lemma_ratio_parts(dist, smallest(), p);
    let r = ratio(x, p);
    assert(r == x / p) by {
        reveal(ratio);
    }
    let s = ratio(smallest(), p);
    assert(size(r - moved) <= product(gap(), moved) + s);
    lemma_gap_small(moved);
    lemma_ratio_parts(x, 0real, p);
    lemma_div_near(d.abs(), prev_mid);
    let z = moved + moved + s;
    lemma_near_within(d.abs().div(prev_mid), r, z);
    lemma_product_sum(gap(), moved + moved, s);
    lemma_product_sum(gap(), moved, moved);
    lemma_gap_small(s);
}

/// The difference of two positive finite numbers is finite.
pub proof fn lemma_difference_is_finite(a: B64, b: B64)
    requires
        a.finite() && a.gt(num(ZERO)),
        b.finite() && b.gt(num(ZERO)),
    ensures
        a.sub(b).finite(),
{
    if a.le(b) {
        lemma_gap_is_finite(a, b);
    } else {
        lemma_gap_is_finite(b, a);
    }
    lemma_add_value(a, b.neg());
    lemma_add_value(b, a.neg());
    assert(a.neg().value() == -a.value() && b.neg().value() == -b.value());
    lemma_units_zero();
    crate::binary64::arith::lemma_rounded_zero(1);
    lemma_value_range(a.sub(b));
    lemma_value_range(b.sub(a));
}

/// With the inventory as it was, and before the 30 seconds are over, the mid
/// alone decides: a move of more than a quarter of the spread, measured against
/// the mid that was quoted, is reason for a new quote, and a smaller one is
/// not, in either direction and up to rounding.
pub proof fn law_a_quarter_of_the_spread_decides(
    prev_mid: B64,
    mid: B64,
    inv: B64,
    prev_ts: Timestamp,
    now: Timestamp,
    bid_spread: B64,
    secs: i64,
)
    requires
        prev_mid.finite() && prev_mid.gt(num(ZERO)),
        mid.finite() && mid.gt(num(ZERO)),
        inv.finite(),
        bid_spread.finite(),
        bid_spread.ge(num(TINY_6)),
        bid_spread.exact() <= limit(),
        interval_passed(prev_ts, now, secs),
        4real * (ratio(size(mid.exact() - prev_mid.exact()), prev_mid.exact()) + ratio(
            smallest(),
            prev_mid.exact(),
        ) + 1real) <= limit(),
    ensures
        ({
            let moved = ratio(size(mid.exact() - prev_mid.exact()), prev_mid.exact());
            let slack = move_slack(moved, bid_spread, prev_mid);
            let due = requote_due(prev_mid, inv, prev_ts, mid, inv, now, bid_spread, secs);
            &&& 4real * moved > bid_spread.exact() + 4real * slack ==> due
            &&& 4real * moved < bid_spread.exact() - 4real * slack && now.total() - prev_ts.total() < 30_000_000_000
                ==> !due
        }),
{
    let moved = ratio(size(mid.exact() - prev_mid.exact()), prev_mid.exact());
    let q = mid.sub(prev_mid).abs().div(prev_mid);
    lemma_relative_move(prev_mid, mid, moved);
    lemma_range_of_sizes();
    lemma_whole_constants();
    lemma_tiny_6();
    lemma_exact_order(bid_spread, num(TINY_6));
    lemma_value_order(bid_spread, num(TINY_6));
    let s = bid_spread.exact();
    let t = bid_spread.max(num(TINY_6)).mul(num(QUARTER));
    assert(bid_spread.max(num(TINY_6)) == bid_spread);
    let f = num(QUARTER).exact();
    assert(4real * (s * f) == s) by (nonlinear_arith)
        requires
            4real * f == 1real,
    ;
    assert(s >= 0real);
    lemma_mul_near(bid_spread, num(QUARTER));
    lemma_near_within(t, s * f, s);
    lemma_product_sum(gap(), moved, s);
    lemma_gap_small(moved);
    lemma_gap_small(s);
    lemma_exact_order(t, q);
    lemma_no_change(inv);
    lemma_exact_sign(prev_mid);
    lemma_ratio_parts(smallest(), smallest(), prev_mid.exact());
}

proof fn lemma_no_change(inv: B64)
    requires
        inv.finite(),
    ensures
        !inv.sub(inv).abs().gt(num(TINY_9)),
{
    lemma_units_zero();
    lemma_self_difference(inv);
    lemma_value_order(inv.sub(inv).abs(), num(ZERO));
    lemma_value_order(num(ZERO), num(TINY_9));
}

/// Once the interval has passed, a change of the inventory by clearly more than
/// a billionth is reason for a new quote, whichever way it went; by clearly
/// less, with a mid that stands and before the 30 seconds are over, it is not.
pub proof fn law_inventory_changes_lead_to_a_requote(
    mid: B64,
    prev_inv: B64,
    inv: B64,
    prev_ts: Timestamp,
    now: Timestamp,
    bid_spread: B64,
    secs: i64,
)
    requires
        mid.finite() && mid.gt(num(ZERO)),
        prev_inv.finite(),
        inv.finite(),
        size(inv.exact() - prev_inv.exact()) <= limit(),
        interval_passed(prev_ts, now, secs),
    ensures
        ({
            let change = size(inv.exact() - prev_inv.exact());
            let due = requote_due(mid, prev_inv, prev_ts, mid, inv, now, bid_spread, secs);
            &&& 1000000000real * change > 1real + 1real / 100real ==> due
            &&& 1000000000real * change < 1real - 1real / 100real && now.total() - prev_ts.total() < 30_000_000_000
                ==> !due
        }),
{
    let d = inv.sub(prev_inv);
    let change = size(inv.exact() - prev_inv.exact());
    lemma_range_of_sizes();
    lemma_tiny_scale();
    lemma_tiny_9();
    lemma_sub_near(inv, prev_inv);
    lemma_near_within(d, inv.exact() - prev_inv.exact(), change);
    lemma_exact_signs(d);
    lemma_exact_order(d.abs(), num(TINY_9));
    lemma_gap_small(change);
    lemma_still(mid, bid_spread);
}

pub proof fn lemma_tiny_scale()
    ensures
        1000000000000real * smallest() <= 1real,
        1024real * gap() <= 1real,
{
    lemma_gap();
    vstd::arithmetic::power2::lemma2_to64_rest();
    vstd::arithmetic::power2::lemma_pow2_strictly_increases(50, UNIT_EXP as nat);
    let s = smallest();
    let one = units_in_one();
    assert(1000000000000real * s <= 1real) by (nonlinear_arith)
        requires
            s > 0real,
            s * one == 1real,
            one >= 1000000000000real,
    ;
}

/// A mid that stands has not moved.
proof fn lemma_still(mid: B64, bid_spread: B64)
    requires
        mid.finite() && mid.gt(num(ZERO)),
    ensures
        !mid_moved(mid, mid, bid_spread),
{
    lemma_units_zero();
    let z = mid.sub(mid);
    lemma_self_difference(mid);
    lemma_value_order(z.abs(), num(ZERO));
    lemma_zero_over(z.abs(), mid);
    let s = bid_spread.max(num(TINY_6));
    lemma_value_order(num(ZERO), num(TINY_6));
    lemma_value_order(s, num(TINY_6));
    lemma_value_order(num(TINY_6), s);
    assert(s.ge(num(TINY_6)));
    let t = num(TINY_6).mul(num(QUARTER));
    lemma_value_order(num(ZERO), num(QUARTER));
    lemma_mul_nan(s, num(QUARTER));
    lemma_mul_nan(num(TINY_6), num(QUARTER));
    lemma_mul_mono(num(TINY_6), s, num(QUARTER));
    lemma_whole_constants();
    lemma_tiny_6();
    lemma_tiny_scale();
    lemma_range_of_sizes();
    let (a, f) = (num(TINY_6).exact(), num(QUARTER).exact());
    assert(4real * (a * f) == a) by (nonlinear_arith)
        requires
            4real * f == 1real,
    ;
    lemma_mul_near(num(TINY_6), num(QUARTER));
    lemma_near_within(t, a * f, a);
    lemma_gap_small(a);
    lemma_exact_sign(t);
}

} // verus!
