//! What the maker gates are for: fills that went wrong block their own side for
//! a while, and nothing else does.

use vstd::prelude::*;

use crate::binary64::consts::{FOUR, HALF, SIXTY, TEN_THOUSAND, TINY_12, TINY_9, TWENTY, TWO, ZERO};
use crate::binary64::error::{
    gap, lemma_add_near, lemma_div_near, lemma_exact_sign, lemma_mul_near, lemma_ratio_times, lemma_sub_near,
    limit, size, smallest,
};
use crate::binary64::facts::{
    lemma_add_mono, lemma_add_nan, lemma_div_mono, lemma_mul_mono, lemma_mul_nan, lemma_self_difference,
    lemma_sub_mono, lemma_sub_nan,
};
use crate::binary64::layout::lemma_units_zero;
use crate::binary64::measure::{
    lemma_exact_order, lemma_exact_signs, lemma_range_of_sizes, lemma_tiny_12, lemma_tiny_9,
    lemma_whole_constants,
};
use crate::binary64::order::lemma_value_order;
use crate::binary64::{num, B64};
use crate::clock::{Timestamp, MAX_SECS};
use crate::lighter::types::Side;
use crate::settings::{bool_settings, int_settings, list_settings, looked_up, number_setting};

use super::exact::{lemma_gap_small, lemma_near_within, lemma_product_sum, product, ratio};
use super::imbalance::lemma_zero_over;
use super::maker_volume::{
    apply_notional_inventory_cap, clamp_maker_only, market_ids, pulled, FillMark, GatesView, KeysView,
    MarkoutView,
};
use super::market_making::{mid_from_bbo, TwoSidedQuote};
use super::requotes::{lemma_difference_is_finite, lemma_over, lemma_ratio_parts};

verus! {

/// A side is blocked only where the mid went against its fill: after a buy
/// with the mid at or above that of the fill, or a sell with the mid at or
/// below it, no block is added or changed.
pub proof fn law_favourable_moves_block_nothing(
    tracker: MarkoutView,
    symbol: Seq<char>,
    inventory: B64,
    mid: B64,
    now: Timestamp,
    gates: GatesView,
)
    requires
        gates.markout_adverse_bps.gt(num(TINY_12)),
        tracker.seen(symbol, inventory, mid, now, gates).last_fill.dom().contains(symbol),
        ({
            let fill = tracker.seen(symbol, inventory, mid, now, gates).last_fill[symbol];
            ||| fill.side is Buy && mid.ge(fill.mid)
            ||| fill.side is Sell && mid.le(fill.mid)
        }),
    ensures
        tracker.seen(symbol, inventory, mid, now, gates).block_bid_until == tracker.block_bid_until,
        tracker.seen(symbol, inventory, mid, now, gates).block_ask_until == tracker.block_ask_until,
{
    let fill = tracker.seen(symbol, inventory, mid, now, gates).last_fill[symbol];
    if fill.mid.finite() && fill.mid.gt(num(ZERO)) && mid.finite() {
        lemma_units_zero();
        let p = fill.mid;
        let d = mid.sub(p);
        let zero = p.sub(p);
        let k = num(TEN_THOUSAND);
        lemma_sub_nan(mid, p);
        lemma_sub_nan(p, p);
        lemma_self_difference(p);
        lemma_zero_over(zero, p);
        lemma_value_order(num(ZERO), k);
        let q = d.div(p);
        let z = zero.div(p);
        lemma_value_order(z, num(ZERO));
        lemma_div_mono(d, d, p);
        lemma_mul_nan(q, k);
        lemma_mul_nan(z, k);
        lemma_zero_times(z, k);
        if mid.ge(p) {
            lemma_sub_mono(p, mid, p, p);
            lemma_div_mono(zero, d, p);
            lemma_mul_mono(z, q, k);
        }
        if mid.le(p) {
            lemma_sub_mono(mid, p, p, p);
            lemma_div_mono(d, zero, p);
            lemma_mul_mono(q, z, k);
        }
        let m = q.mul(k);
        let adverse = if fill.side is Buy { m.neg() } else { m };
        assert(adverse.le(num(ZERO)));
        let tiny = num(TINY_12);
        lemma_value_order(num(ZERO), tiny);
        lemma_add_nan(adverse, tiny);
        lemma_add_nan(num(ZERO), tiny);
        lemma_add_mono(adverse, num(ZERO), tiny);
        lemma_zero_plus(tiny);
    } else {
        lemma_value_order(fill.mid, num(ZERO));
    }
}

pub proof fn lemma_zero_times(z: B64, k: B64)
    requires
        z.zero(),
        k.finite(),
    ensures
        z.mul(k).eq_num(num(ZERO)),
{
    lemma_units_zero();
    lemma_value_order(z, num(ZERO));
    crate::binary64::facts::lemma_mul_value(z, k);
    vstd::arithmetic::power2::lemma_pow2_pos(crate::binary64::UNIT_EXP as nat);
    crate::binary64::arith::lemma_rounded_zero(
        vstd::arithmetic::power2::pow2(crate::binary64::UNIT_EXP as nat) as int,
    );
    assert(z.value() == 0);
    assert(z.value() * k.value() == 0) by (nonlinear_arith)
        requires
            z.value() == 0,
    ;
}

pub proof fn lemma_zero_plus(x: B64)
    requires
        x.finite(),
        x.ge(num(ZERO)),
    ensures
        num(ZERO).add(x).eq_num(x),
{
    lemma_units_zero();
    lemma_value_order(x, num(ZERO));
    crate::binary64::facts::lemma_add_value(num(ZERO), x);
    crate::binary64::rounding::lemma_rounded_exact(x.mag(), 1);
}

/// Nothing and a positive number.
pub proof fn lemma_zero_plus_any(x: B64)
    requires
        x.finite(),
        x.exact() > 0real,
    ensures
        num(ZERO).add(x).eq_num(x),
{
    lemma_exact_sign(x);
    lemma_zero_plus(x);
}

/// How far rounding can move a move in basis points.
pub open spec fn bps_slack(moved: real, start: real) -> real {
    65536real * (product(gap(), moved) + smallest() + ratio(smallest(), start)) + 4real / 1000000000000real
}

/// The signed relative move of a mid, up to rounding.
proof fn lemma_relative_change(p: B64, mid: B64, moved: real, rho: real, s: real)
    requires
        p.finite() && p.gt(num(ZERO)),
        mid.finite() && mid.gt(num(ZERO)),
        moved == ratio(size(mid.exact() - p.exact()), p.exact()),
        rho == ratio(mid.exact() - p.exact(), p.exact()),
        s == ratio(smallest(), p.exact()),
        4real * (moved + s + 1real) <= limit(),
    ensures
        mid.sub(p).div(p).finite(),
        size(mid.sub(p).div(p).exact() - rho) <= 3real * product(gap(), moved) + 2real * s + smallest(),
        size(rho) == moved,
        s >= 0real,
        moved >= 0real,
{
    let x = p.exact();
    let change = mid.exact() - x;
    let dist = size(change);
    lemma_range_of_sizes();
    lemma_exact_sign(p);
    lemma_exact_sign(mid);
    let d = mid.sub(p);
    lemma_difference_is_finite(mid, p);
    lemma_sub_near(mid, p);
    lemma_near_within(d, change, dist);
    let e = product(gap(), dist) + smallest();
    lemma_over(d.exact(), change, e, x);
    lemma_ratio_parts(dist, smallest(), x);
    lemma_ratio_size(change, x);
    let r = ratio(d.exact(), x);
    assert(r == d.exact() / x) by {
        reveal(ratio);
    }
    lemma_gap_small(moved);
    lemma_gap_small(s);
    assert(size(r - rho) <= product(gap(), moved) + s);
    lemma_div_near(d, p);
    let z = moved + moved + s;
    lemma_near_within(d.div(p), r, z);
    lemma_product_sum(gap(), moved + moved, s);
    lemma_product_sum(gap(), moved, moved);
}

/// Ten thousand times a number that is off.
pub proof fn lemma_in_bps(q: B64, rho: real, u: real)
    requires
        q.finite(),
        size(q.exact() - rho) <= u,
        10000real * (size(rho) + u) <= limit(),
    ensures
        q.mul(num(TEN_THOUSAND)).finite(),
        size(q.mul(num(TEN_THOUSAND)).exact() - 10000real * rho) <= 10000real * u + 10000real * product(
            gap(),
            size(rho),
        ) + 10000real * product(gap(), u) + smallest(),
{
    lemma_whole_constants();
    let k = num(TEN_THOUSAND);
    let (a, b) = (q.exact(), k.exact());
    let y = a * b;
    assert(y == 10000real * a) by (nonlinear_arith)
        requires
            y == a * b,
            b == 10000real,
    ;
    lemma_mul_near(q, k);
    let (c, d) = (10000real * size(rho), 10000real * u);
    lemma_near_within(q.mul(k), y, c + d);
    lemma_ten_thousand(size(rho));
    lemma_ten_thousand(u);
    lemma_product_sum(gap(), c, d);
}

/// A number that is off, and a little more, either way round.
proof fn lemma_and_a_little(x: B64, target: real, off: real)
    requires
        x.finite(),
        size(x.exact() - target) <= off,
        size(target) + off + 1real <= limit(),
    ensures
        x.add(num(TINY_12)).finite(),
        x.neg().add(num(TINY_12)).finite(),
        size(x.add(num(TINY_12)).exact() - target) <= off + product(gap(), size(target)) + product(gap(), off)
            + 3real / 1000000000000real,
        size(x.neg().add(num(TINY_12)).exact() + target) <= off + product(gap(), size(target)) + product(gap(), off)
            + 3real / 1000000000000real,
{
    lemma_exact_signs(x);
    lemma_tiny_12();
    lemma_range_of_sizes();
    super::requotes::lemma_tiny_scale();
    let tiny = num(TINY_12);
    let t = tiny.exact();
    assert(0real < t <= 1real / 500000000000real);
    lemma_add_near(x, tiny);
    lemma_add_near(x.neg(), tiny);
    let z = size(target) + off + t;
    lemma_near_within(x.add(tiny), x.exact() + t, z);
    lemma_near_within(x.neg().add(tiny), -x.exact() + t, z);
    lemma_product_sum(gap(), size(target) + off, t);
    lemma_product_sum(gap(), size(target), off);
    lemma_gap_small(t);
    lemma_smallest_tiny();
}

pub proof fn lemma_smallest_tiny()
    ensures
        10000000000000real * smallest() <= 1real,
        smallest() > 0real,
{
    super::exact::lemma_gap();
    vstd::arithmetic::power2::lemma2_to64_rest();
    vstd::arithmetic::power2::lemma_pow2_strictly_increases(50, crate::binary64::UNIT_EXP as nat);
    let s = smallest();
    let one = crate::binary64::error::units_in_one();
    assert(10000000000000real * s <= 1real) by (nonlinear_arith)
        requires
            s > 0real,
            s * one == 1real,
            one >= 10000000000000real,
    ;
}

/// The signed move of a mid in basis points, up to rounding.
proof fn lemma_move_in_bps(p: B64, mid: B64)
    requires
        p.finite() && p.gt(num(ZERO)),
        mid.finite() && mid.gt(num(ZERO)),
        65536real * (ratio(size(mid.exact() - p.exact()), p.exact()) + ratio(smallest(), p.exact()) + 1real) <= limit(),
    ensures
        ({
            let moved = ratio(size(mid.exact() - p.exact()), p.exact());
            let bps = mid.sub(p).div(p).mul(num(TEN_THOUSAND));
            let target = 10000real * ratio(mid.exact() - p.exact(), p.exact());
            let slack = bps_slack(moved, p.exact());
            &&& bps.finite()
            &&& bps.add(num(TINY_12)).finite()
            &&& bps.neg().add(num(TINY_12)).finite()
            &&& size(bps.add(num(TINY_12)).exact() - target) < slack
            &&& size(bps.neg().add(num(TINY_12)).exact() + target) < slack
        }),
{
    let moved = ratio(size(mid.exact() - p.exact()), p.exact());
    let rho = ratio(mid.exact() - p.exact(), p.exact());
    let s = ratio(smallest(), p.exact());
    lemma_exact_sign(p);
    lemma_smallest_tiny();
    lemma_ratio_parts(size(mid.exact() - p.exact()), smallest(), p.exact());
    lemma_ratio_size(mid.exact() - p.exact(), p.exact());
    lemma_range_of_sizes();
    lemma_relative_change(p, mid, moved, rho, s);
    let q = mid.sub(p).div(p);
    let u = 3real * product(gap(), moved) + 2real * s + smallest();
    lemma_gap_small(moved);
    lemma_gap_small(u);
    lemma_in_bps(q, rho, u);
    let off = 10000real * u + 10000real * product(gap(), moved) + 10000real * product(gap(), u) + smallest();
    let target = 10000real * rho;
    assert(size(target) == 10000real * moved);
    lemma_and_a_little(q.mul(num(TEN_THOUSAND)), target, off);
    lemma_ten_thousand(moved);
    lemma_gap_small(off);
    lemma_smallest_tiny();
}

pub proof fn lemma_ratio_size(a: real, p: real)
    requires
        p > 0real,
    ensures
        size(ratio(a, p)) == ratio(size(a), p),
{
    reveal(ratio);
    lemma_ratio_times(a, p);
    lemma_ratio_times(size(a), p);
    let (x, y) = (a / p, size(a) / p);
    if a >= 0real {
        assert(x >= 0real) by (nonlinear_arith)
            requires
                x * p == a,
                a >= 0real,
                p > 0real,
        ;
    } else {
        assert(x < 0real && y == -x) by (nonlinear_arith)
            requires
                x * p == a,
                y * p == -a,
                a < 0real,
                p > 0real,
        ;
    }
}

proof fn lemma_ten_thousand(x: real)
    ensures
        product(gap(), 10000real * x) == 10000real * product(gap(), x),
{
    reveal(product);
    let g = gap();
    assert(g * (10000real * x) == 10000real * (g * x)) by (nonlinear_arith);
}

/// A fill is marked out while its window lasts: a mid that went against it by
/// clearly more than the threshold, in basis points of the fill's mid, blocks
/// the fill's own side for the backoff, and by clearly less blocks nothing. The
/// other side keeps the block it had.
pub proof fn law_adverse_moves_block_the_side_filled(
    tracker: MarkoutView,
    symbol: Seq<char>,
    inventory: B64,
    mid: B64,
    now: Timestamp,
    gates: GatesView,
    later: Timestamp,
)
    requires
        tracker.seen(symbol, inventory, mid, now, gates).last_fill.dom().contains(symbol),
        ({
            let p = tracker.seen(symbol, inventory, mid, now, gates).last_fill[symbol].mid;
            &&& p.finite() && p.gt(num(ZERO))
            &&& 65536real * (ratio(size(mid.exact() - p.exact()), p.exact()) + ratio(smallest(), p.exact()) + 1real)
                <= limit()
        }),
        mid.finite() && mid.gt(num(ZERO)),
        gates.markout_adverse_bps.finite(),
        now.secs + gates.backoff_secs <= MAX_SECS,
        now.secs + 1 <= MAX_SECS,
    ensures
        ({
            let after = tracker.seen(symbol, inventory, mid, now, gates);
            let fill = after.last_fill[symbol];
            let start = fill.mid.exact();
            let slack = bps_slack(ratio(size(mid.exact() - start), start), start);
            let lost = if fill.side is Buy {
                10000real * ratio(start - mid.exact(), start)
            } else {
                10000real * ratio(mid.exact() - start, start)
            };
            let threshold = gates.markout_adverse_bps.exact();
            let age = now.total() - fill.ts.total();
            let in_window = age <= 1_000_000_000 || age <= gates.markout_window_secs * 1_000_000_000;
            let held = later.total() < now.total() + 1_000_000_000 || later.total() < now.total()
                + gates.backoff_secs * 1_000_000_000;
            &&& in_window && lost >= threshold + slack && fill.side is Buy ==> (after.bid_blocked(symbol, later)
                <==> held) && after.block_ask_until == tracker.block_ask_until
            &&& in_window && lost >= threshold + slack && fill.side is Sell ==> (after.ask_blocked(symbol, later)
                <==> held) && after.block_bid_until == tracker.block_bid_until
            &&& !in_window || lost <= threshold - slack ==> after.block_bid_until == tracker.block_bid_until
                && after.block_ask_until == tracker.block_ask_until
        }),
{
    let after = tracker.seen(symbol, inventory, mid, now, gates);
    let fill = after.last_fill[symbol];
    let p = fill.mid;
    lemma_move_in_bps(p, mid);
    lemma_exact_sign(p);
    lemma_turned(mid.exact() - p.exact(), p.exact());
    assert(p.exact() - mid.exact() == -(mid.exact() - p.exact()));
    let bps = mid.sub(p).div(p).mul(num(TEN_THOUSAND));
    lemma_exact_order(bps.add(num(TINY_12)), gates.markout_adverse_bps);
    lemma_exact_order(bps.neg().add(num(TINY_12)), gates.markout_adverse_bps);
    lemma_value_order(p, num(ZERO));
    let until = now.plus_secs(gates.backoff());
    assert(until.total() == now.total() + gates.backoff() * 1_000_000_000) by (nonlinear_arith)
        requires
            until.total() == (now.secs + gates.backoff()) * 1_000_000_000 + now.nanos,
            now.total() == now.secs * 1_000_000_000 + now.nanos,
    ;
}

proof fn lemma_turned(a: real, p: real)
    requires
        p > 0real,
    ensures
        ratio(-a, p) == -ratio(a, p),
{
    reveal(ratio);
    lemma_ratio_times(a, p);
    lemma_ratio_times(-a, p);
    let (x, y) = (a / p, (-a) / p);
    assert(y == -x) by (nonlinear_arith)
        requires
            x * p == a,
            y * p == -a,
            p > 0real,
    ;
}

/// An inventory that grew was bought at the present mid, one that shrank was
/// sold; one that stands, or is seen for the first time, leaves the last fill.
pub proof fn law_inventory_changes_are_fills(
    tracker: MarkoutView,
    symbol: Seq<char>,
    inventory: B64,
    mid: B64,
    now: Timestamp,
    gates: GatesView,
)
    requires
        inventory.finite(),
        mid.finite() && mid.gt(num(ZERO)),
        tracker.last_inv.dom().contains(symbol) ==> tracker.last_inv[symbol].finite() && size(
            inventory.exact() - tracker.last_inv[symbol].exact(),
        ) <= limit(),
    ensures
        ({
            let after = tracker.seen(symbol, inventory, mid, now, gates);
            let known = tracker.last_inv.dom().contains(symbol);
            let grown_by = inventory.exact() - tracker.last_inv[symbol].exact();
            &&& after.last_inv == tracker.last_inv.insert(symbol, inventory)
            &&& known && grown_by > 1real / 100000000000real ==> after.last_fill == tracker.last_fill.insert(
                symbol,
                FillMark { side: Side::Buy, mid, ts: now },
            )
            &&& known && grown_by < -1real / 100000000000real ==> after.last_fill == tracker.last_fill.insert(
                symbol,
                FillMark { side: Side::Sell, mid, ts: now },
            )
            &&& !known || grown_by == 0real ==> after.last_fill == tracker.last_fill
        }),
{
    if tracker.last_inv.dom().contains(symbol) {
        let prev = tracker.last_inv[symbol];
        let d = inventory.sub(prev);
        let change = inventory.exact() - prev.exact();
        lemma_range_of_sizes();
        super::requotes::lemma_tiny_scale();
        lemma_tiny_12();
        lemma_sub_near(inventory, prev);
        lemma_near_within(d, change, size(change));
        lemma_gap_small(size(change));
        lemma_exact_signs(d);
        lemma_exact_order(d.abs(), num(TINY_12));
        lemma_exact_sign(d);
        if change == 0real {
            lemma_exact_order(inventory, prev);
            lemma_same_difference(inventory, prev);
        }
    }
}

/// Equal numbers differ by 0.
proof fn lemma_same_difference(a: B64, b: B64)
    requires
        a.finite(),
        b.finite(),
        a.eq_num(b),
    ensures
        !a.sub(b).abs().gt(num(TINY_12)),
{
    lemma_units_zero();
    lemma_self_difference(a);
    crate::binary64::facts::lemma_add_value(a, b.neg());
    crate::binary64::facts::lemma_add_value(a, a.neg());
    assert(b.neg().value() == -b.value() && a.neg().value() == -a.value());
    lemma_value_order(a.sub(b), num(ZERO));
    lemma_value_order(a.sub(a), num(ZERO));
    lemma_value_order(a.sub(b).abs(), num(ZERO));
    lemma_value_order(num(ZERO), num(TINY_12));
}

/// A book of one market leaves the fills and blocks of every other.
pub proof fn law_markets_are_tracked_apart(
    tracker: MarkoutView,
    symbol: Seq<char>,
    other: Seq<char>,
    inventory: B64,
    mid: B64,
    now: Timestamp,
    gates: GatesView,
    later: Timestamp,
)
    requires
        other != symbol,
    ensures
        ({
            let after = tracker.seen(symbol, inventory, mid, now, gates);
            &&& after.bid_blocked(other, later) == tracker.bid_blocked(other, later)
            &&& after.ask_blocked(other, later) == tracker.ask_blocked(other, later)
            &&& after.last_fill.dom().contains(other) == tracker.last_fill.dom().contains(other)
            &&& tracker.last_fill.dom().contains(other) ==> after.last_fill[other] == tracker.last_fill[other]
        }),
{
}

/// A blocked side is taken out of a quote, the other stays as it was, and a
/// quote with no size left is dropped.
pub proof fn law_blocked_sides_are_pulled(quote: TwoSidedQuote, symbol: Seq<char>, now: Timestamp, tracker: MarkoutView)
    ensures
        ({
            let bid = quote.bid_qty.gt(num(ZERO)) && !tracker.bid_blocked(symbol, now);
            let ask = quote.ask_qty.gt(num(ZERO)) && !tracker.ask_blocked(symbol, now);
            match pulled(quote, symbol, now, tracker) {
                Some(q) => {
                    &&& q.mid == quote.mid
                    &&& q.bid_price == quote.bid_price
                    &&& q.ask_price == quote.ask_price
                    &&& q.bid_qty == (if tracker.bid_blocked(symbol, now) { num(ZERO) } else { quote.bid_qty })
                    &&& q.ask_qty == (if tracker.ask_blocked(symbol, now) { num(ZERO) } else { quote.ask_qty })
                },
                None => !bid && !ask,
            }
        }),
{
    lemma_value_order(num(ZERO), num(ZERO));
}

/// A quote that is passive on both sides passes the maker gate with the mid of
/// the book in it and nothing else changed; one whose side would take is left
/// without that side.
pub proof fn law_passive_quotes_pass(quote: TwoSidedQuote, best_bid: B64, best_ask: B64)
    requires
        mid_from_bbo(best_bid, best_ask) is Some,
        quote.bid_qty.gt(num(ZERO)),
        quote.ask_qty.gt(num(ZERO)),
        quote.bid_price.finite() && quote.bid_price.gt(num(ZERO)),
        quote.ask_price.finite() && quote.ask_price.gt(num(ZERO)),
    ensures
        ({
            let mid = mid_from_bbo(best_bid, best_ask)->0;
            let bid_rests = quote.bid_price.lt(mid) && quote.bid_price.lt(best_ask);
            let ask_rests = quote.ask_price.gt(mid) && quote.ask_price.gt(best_bid);
            let r = clamp_maker_only(quote, best_bid, best_ask);
            &&& bid_rests && ask_rests ==> r == Some(TwoSidedQuote { mid, ..quote })
            &&& bid_rests && !ask_rests ==> r == Some(TwoSidedQuote { mid, ask_qty: num(ZERO), ..quote })
            &&& !bid_rests && ask_rests ==> r == Some(TwoSidedQuote { mid, bid_qty: num(ZERO), ..quote })
            &&& !bid_rests && !ask_rests ==> r is None
        }),
{
    lemma_value_order(num(ZERO), num(ZERO));
}

/// The notional cap takes the bid from a long position worth the cap and the
/// ask from a short one, and leaves every position inside it alone; up to
/// rounding, by the exact worth of the inventory.
pub proof fn law_notional_cap_takes_the_adding_side(quote: TwoSidedQuote, inventory: B64, mid: B64, cap: B64)
    requires
        quote.bid_qty.gt(num(ZERO)),
        quote.ask_qty.gt(num(ZERO)),
        inventory.finite(),
        mid.finite() && mid.gt(num(ZERO)),
        cap.finite() && cap.gt(num(ZERO)),
        4real * (cap.exact() + 1real) <= limit(),
        size(inventory.exact() * mid.exact()) <= limit(),
    ensures
        ({
            let worth = inventory.exact() * mid.exact();
            let slack = 4real * product(gap(), size(worth) + cap.exact()) + 1real / 100000000real;
            let r = apply_notional_inventory_cap(quote, inventory, mid, cap);
            &&& worth >= cap.exact() + slack ==> r == Some(TwoSidedQuote { bid_qty: num(ZERO), ..quote })
            &&& worth <= -cap.exact() - slack ==> r == Some(TwoSidedQuote { ask_qty: num(ZERO), ..quote })
            &&& size(worth) < cap.exact() - slack ==> r == Some(quote)
        }),
{
    let worth = inventory.exact() * mid.exact();
    let n = inventory.mul(mid);
    let tiny = num(TINY_9);
    let c = cap.exact();
    lemma_range_of_sizes();
    super::requotes::lemma_tiny_scale();
    lemma_tiny_9();
    lemma_exact_sign(cap);
    lemma_mul_near(inventory, mid);
    lemma_near_within(n, worth, size(worth));
    lemma_exact_signs(cap);
    lemma_sub_near(cap, tiny);
    lemma_add_near(cap.neg(), tiny);
    let z = c + 1real / 1000000real;
    lemma_near_within(cap.sub(tiny), c - tiny.exact(), z);
    lemma_near_within(cap.neg().add(tiny), -c + tiny.exact(), z);
    lemma_product_sum(gap(), c, 1real / 1000000real);
    lemma_gap_small(1real / 1000000real);
    assert(product(gap(), 1real / 1000000real) <= 1real / 1000000000real);
    lemma_product_sum(gap(), size(worth), c);
    lemma_gap_small(size(worth));
    lemma_gap_small(c);
    lemma_exact_order(n, cap.sub(tiny));
    lemma_exact_order(n, cap.neg().add(tiny));
    lemma_value_order(num(ZERO), num(ZERO));
}

/// Each key sets what it names. Without a usable value the maker stays off, on
/// market 1, with an order of 20, a position of 60, a skew of 0.5, a
/// threshold of 4 over 3 seconds, a backoff of 15 and a half-spread of 2.
pub proof fn law_maker_volume_keys_set_what_they_name(settings: config::Config)
    ensures
        ({
            let g = KeysView::of(settings).gates();
            &&& g.enabled <==> looked_up(bool_settings(settings), "trading.strategies.maker_volume.enabled"@) == Some(
                true,
            )
            &&& g.allow_quotes <==> looked_up(
                bool_settings(settings),
                "trading.strategies.maker_volume.allow_quotes"@,
            ) == Some(true)
            &&& g.order_notional == positive_setting(
                settings,
                "trading.strategies.maker_volume.order_notional"@,
                num(TWENTY),
            )
            &&& g.max_position_notional == positive_setting(
                settings,
                "trading.strategies.maker_volume.max_position_notional"@,
                num(SIXTY),
            )
            &&& g.markout_adverse_bps == positive_setting(
                settings,
                "trading.strategies.maker_volume.markout_adverse_bps"@,
                num(FOUR),
            )
            &&& g.min_half_spread_bps == positive_setting(
                settings,
                "trading.strategies.maker_volume.min_half_spread_bps"@,
                num(TWO),
            )
            &&& match number_setting(settings, "trading.strategies.maker_volume.inventory_skew"@) {
                Some(x) => g.inventory_skew == (if x.finite() && x.ge(num(ZERO)) { x } else { num(HALF) }),
                None => g.inventory_skew == num(HALF),
            }
            &&& g.markout_window_secs == seconds_setting(
                settings,
                "trading.strategies.maker_volume.markout_window_secs"@,
                3,
            )
            &&& g.backoff_secs == seconds_setting(settings, "trading.strategies.maker_volume.backoff_secs"@, 15)
            &&& match looked_up(list_settings(settings), "trading.strategies.maker_volume.markets"@) {
                Some(items) => market_ids(items).len() > 0 ==> g.markets == market_ids(items),
                None => g.markets == seq![1u32],
            }
        }),
{
}

/// The positive finite number under a key, or another.
pub open spec fn positive_setting(settings: config::Config, key: Seq<char>, otherwise: B64) -> B64 {
    let given = number_setting(settings, key);
    if given is Some && given->0.finite() && given->0.gt(num(ZERO)) {
        given->0
    } else {
        otherwise
    }
}

/// The seconds under a key, at least 1, or another count.
pub open spec fn seconds_setting(settings: config::Config, key: Seq<char>, otherwise: i64) -> i64 {
    match looked_up(int_settings(settings), key) {
        Some(n) => if n >= 1 {
            n
        } else {
            1
        },
        None => otherwise,
    }
}

/// Each whole number from 0 on in a list of markets is one market of it, in
/// order; other items are none.
pub proof fn law_market_lists_are_read_in_order(items: Seq<Option<i64>>, id: u32)
    ensures
        market_ids(items.push(Some(id as i64))) == market_ids(items).push(id),
        market_ids(items.push(Some(-1i64))) == market_ids(items),
        market_ids(items.push(None)) == market_ids(items),
        market_ids(Seq::empty()) == Seq::<u32>::empty(),
{
    assert(items.push(Some(id as i64)).drop_last() =~= items);
    assert(items.push(Some(-1i64)).drop_last() =~= items);
    assert(items.push(None).drop_last() =~= items);
}

/// Only listed markets are allowed; an empty list allows all.
pub proof fn law_only_listed_markets_are_allowed(gates: GatesView, market_id: u32)
    ensures
        gates.markets.len() == 0 ==> gates.allows(market_id),
        gates.markets.len() > 0 ==> (gates.allows(market_id) <==> exists|i: int|
            0 <= i < gates.markets.len() && gates.markets[i] == market_id),
{
}

/// Without a positive finite cap and mid nothing is capped.
pub proof fn law_no_notional_cap_no_change(quote: TwoSidedQuote, inventory: B64, mid: B64, cap: B64)
    requires
        !cap.finite() || cap.le(num(ZERO)) || !mid.finite() || mid.le(num(ZERO)),
    ensures
        apply_notional_inventory_cap(quote, inventory, mid, cap) == Some(quote),
{
}

} // verus!
