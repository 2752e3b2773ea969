//! What the alpha of a book means: which levels count, on which side they
//! weigh, and how it moves the quote.

use vstd::arithmetic::power2::pow2;
use vstd::prelude::*;

use crate::binary64::consts::{MINUS_ONE, ONE, TINY_10, ZERO};
use crate::binary64::error::{
    gap, lemma_div_near, lemma_mul_near, lemma_ratio_times, lemma_sub_near, size, smallest,
};
use crate::binary64::facts::{
    lemma_add_grows, lemma_add_mono, lemma_add_nan, lemma_add_swap, lemma_add_value, lemma_cut_product_mono,
    lemma_div_mono, lemma_div_value, lemma_grid_mono, lemma_mul_mono, lemma_mul_nan, lemma_mul_sign,
    lemma_mul_swap, lemma_neg_order, lemma_self_difference, lemma_sub_mono, lemma_sub_nan, lemma_times_one,
};
use crate::binary64::layout::lemma_units_zero;
use crate::binary64::measure::{
    lemma_exact_order, lemma_finite_terms, lemma_less_term, lemma_next_term, lemma_range_of_sizes,
    lemma_scaled_off, lemma_tiny_10, lemma_whole_constants, scaled_error,
};
use crate::binary64::order::lemma_value_order;
use crate::binary64::rough::{lemma_powers, ordinary, power};
use crate::binary64::{num, B64, UNIT_EXP};

use super::drift::grown;
use super::exact::{lemma_near_within, product, ratio};
use super::rolling::StatsView;
use super::vol_obi::{ask_depth, bid_depth, floored_ask, floored_bid, CalcView};

verus! {

/// Levels with finite sizes that are not negative.
pub open spec fn sized(levels: Seq<(B64, B64)>) -> bool {
    forall|i: int| 0 <= i < levels.len() ==> (#[trigger] levels[i]).1.finite() && levels[i].1.ge(num(ZERO))
}

/// The same prices, with no size smaller.
pub open spec fn no_thinner(levels: Seq<(B64, B64)>, thicker: Seq<(B64, B64)>) -> bool {
    &&& levels.len() == thicker.len()
    &&& forall|i: int|
        0 <= i < levels.len() ==> (#[trigger] levels[i]).0 == thicker[i].0 && levels[i].1.le(thicker[i].1)
}

/// One more level: inside the window it adds its size to its side, outside it
/// adds nothing.
pub proof fn law_depth_is_the_size_in_the_window(levels: Seq<(B64, B64)>, price: B64, quantity: B64, edge: B64)
    requires
        !price.nan(),
        !edge.nan(),
    ensures
        price.ge(edge) ==> bid_depth(levels.push((price, quantity)), edge) == bid_depth(levels, edge).add(quantity),
        price.lt(edge) ==> bid_depth(levels.push((price, quantity)), edge) == bid_depth(levels, edge),
        price.le(edge) ==> ask_depth(levels.push((price, quantity)), edge) == ask_depth(levels, edge).add(quantity),
        price.gt(edge) ==> ask_depth(levels.push((price, quantity)), edge) == ask_depth(levels, edge),
        bid_depth(Seq::empty(), edge) == num(ZERO),
        ask_depth(Seq::empty(), edge) == num(ZERO),
{
    assert(levels.push((price, quantity)).drop_last() =~= levels);
}

proof fn lemma_depth_sign(levels: Seq<(B64, B64)>, edge: B64)
    requires
        sized(levels),
    ensures
        bid_depth(levels, edge).ge(num(ZERO)),
        ask_depth(levels, edge).ge(num(ZERO)),
    decreases levels.len(),
{
    lemma_value_order(num(ZERO), num(ZERO));
    if levels.len() > 0 {
        let front = levels.drop_last();
        assert(sized(front)) by {
            assert forall|i: int| 0 <= i < front.len() implies (#[trigger] front[i]).1.finite() && front[i].1.ge(
                num(ZERO),
            ) by {
                assert(front[i] == levels[i]);
            }
        }
        lemma_depth_sign(front, edge);
        let q = levels[levels.len() - 1].1;
        lemma_add_grows(q, bid_depth(front, edge));
        lemma_add_grows(q, ask_depth(front, edge));
        lemma_add_swap(q, bid_depth(front, edge));
        lemma_add_swap(q, ask_depth(front, edge));
    }
}

proof fn lemma_sum_order(a: B64, b: B64, c: B64, d: B64)
    requires
        a.ge(num(ZERO)),
        b.ge(num(ZERO)),
        c.ge(num(ZERO)),
        d.ge(num(ZERO)),
        a.le(b),
        c.le(d),
    ensures
        a.add(c).le(b.add(d)),
{
    lemma_value_order(a, num(ZERO));
    lemma_value_order(b, num(ZERO));
    lemma_value_order(c, num(ZERO));
    lemma_value_order(d, num(ZERO));
    lemma_add_nan(a, c);
    lemma_add_nan(b, c);
    lemma_add_nan(b, d);
    lemma_add_mono(a, b, c);
    lemma_add_swap(b, c);
    lemma_add_swap(b, d);
    lemma_add_mono(c, d, b);
}

/// More size at the same prices never lowers the depth of a side.
pub proof fn law_depth_grows_with_size(levels: Seq<(B64, B64)>, thicker: Seq<(B64, B64)>, edge: B64)
    requires
        sized(levels),
        sized(thicker),
        no_thinner(levels, thicker),
    ensures
        bid_depth(levels, edge).le(bid_depth(thicker, edge)),
        ask_depth(levels, edge).le(ask_depth(thicker, edge)),
    decreases levels.len(),
{
    lemma_depth_sign(levels, edge);
    lemma_depth_sign(thicker, edge);
    if levels.len() > 0 {
        let a = levels.drop_last();
        let b = thicker.drop_last();
        let n = a.len();
        assert forall|i: int| 0 <= i < n implies (#[trigger] a[i]).1.finite() && a[i].1.ge(num(ZERO)) && a[i].0
            == b[i].0 && a[i].1.le(b[i].1) by {
            assert(a[i] == levels[i] && b[i] == thicker[i]);
        }
        assert forall|i: int| 0 <= i < n implies (#[trigger] b[i]).1.finite() && b[i].1.ge(num(ZERO)) by {
            assert(b[i] == thicker[i]);
        }
        law_depth_grows_with_size(a, b, edge);
        lemma_depth_sign(a, edge);
        lemma_depth_sign(b, edge);
        assert(levels[n as int].0 == thicker[n as int].0 && thicker[n as int].1.finite());
        lemma_sum_order(bid_depth(a, edge), bid_depth(b, edge), levels[n as int].1, thicker[n as int].1);
        lemma_sum_order(ask_depth(a, edge), ask_depth(b, edge), levels[n as int].1, thicker[n as int].1);
    }
}

/// More bid size at the same prices never lowers the imbalance of a book, and
/// more ask size never raises it.
pub proof fn law_imbalance_weighs_bids_against_asks(
    calc: CalcView,
    mid: B64,
    bids: Seq<(B64, B64)>,
    more_bids: Seq<(B64, B64)>,
    asks: Seq<(B64, B64)>,
    more_asks: Seq<(B64, B64)>,
)
    requires
        sized(bids),
        sized(more_bids),
        no_thinner(bids, more_bids),
        sized(asks),
        sized(more_asks),
        no_thinner(asks, more_asks),
        !calc.imbalance(mid, bids, asks).nan(),
        !calc.imbalance(mid, more_bids, asks).nan(),
        !calc.imbalance(mid, bids, more_asks).nan(),
    ensures
        calc.imbalance(mid, bids, asks).le(calc.imbalance(mid, more_bids, asks)),
        calc.imbalance(mid, bids, more_asks).le(calc.imbalance(mid, bids, asks)),
{
    let lower = mid.mul(num(ONE).sub(calc.looking_depth));
    let upper = mid.mul(num(ONE).add(calc.looking_depth));
    law_depth_grows_with_size(bids, more_bids, lower);
    law_depth_grows_with_size(asks, more_asks, upper);
    let (b, b2) = (bid_depth(bids, lower), bid_depth(more_bids, lower));
    let (a, a2) = (ask_depth(asks, upper), ask_depth(more_asks, upper));
    lemma_sub_mono(b, b2, a, a);
    lemma_sub_mono(b, b, a, a2);
}

/// A book with bids alone has an imbalance of their size, and one with asks
/// alone that size with the sign turned: never the other way round.
pub proof fn law_one_sided_books_lean_to_their_side(
    calc: CalcView,
    mid: B64,
    levels: Seq<(B64, B64)>,
)
    requires
        sized(levels),
    ensures
        ({
            let bids_only = calc.imbalance(mid, levels, Seq::empty());
            let asks_only = calc.imbalance(mid, Seq::empty(), levels);
            &&& bids_only.ge(num(ZERO))
            &&& bids_only.eq_num(bid_depth(levels, mid.mul(num(ONE).sub(calc.looking_depth))))
            &&& asks_only.le(num(ZERO))
            &&& asks_only.neg().eq_num(ask_depth(levels, mid.mul(num(ONE).add(calc.looking_depth))))
        }),
{
    let lower = mid.mul(num(ONE).sub(calc.looking_depth));
    let upper = mid.mul(num(ONE).add(calc.looking_depth));
    lemma_depth_sign(levels, lower);
    lemma_depth_sign(levels, upper);
    let b = bid_depth(levels, lower);
    let a = ask_depth(levels, upper);
    lemma_zero_term(b);
    lemma_zero_term(a);
    lemma_value_order(b, num(ZERO));
    lemma_value_order(a, num(ZERO));
}

/// Taking 0 away, and taking away from 0.
proof fn lemma_zero_term(x: B64)
    requires
        x.ge(num(ZERO)),
    ensures
        x.sub(num(ZERO)).eq_num(x),
        num(ZERO).sub(x).neg().eq_num(x),
        num(ZERO).sub(x).le(num(ZERO)),
{
    lemma_units_zero();
    lemma_value_order(x, num(ZERO));
    lemma_sub_nan(x, num(ZERO));
    lemma_sub_nan(num(ZERO), x);
    let up = x.sub(num(ZERO));
    let down = num(ZERO).sub(x);
    if x.finite() {
        lemma_add_value(x, num(ZERO).neg());
        lemma_add_value(num(ZERO), x.neg());
        crate::binary64::rounding::lemma_rounded_exact(x.mag(), 1);
        assert(up.value() == x.value());
        assert(down.value() == -x.value());
    } else {
        reveal(B64::spec_add);
    }
}

/// While the statistics stand, a warmed-up calculator's local alpha never falls
/// with more bid size and never rises with more ask size.
pub proof fn law_alpha_follows_the_bids(
    calc: CalcView,
    now_ns: i64,
    mid: B64,
    bids: Seq<(B64, B64)>,
    more_bids: Seq<(B64, B64)>,
    asks: Seq<(B64, B64)>,
    more_asks: Seq<(B64, B64)>,
)
    requires
        mid.finite(),
        mid.gt(num(ZERO)),
        !calc.sample_due(now_ns),
        calc.total_samples >= calc.min_warmup_samples,
        calc.imb_stats.moments.mean.finite(),
        calc.imb_stats.deviation.finite(),
        sized(bids),
        sized(more_bids),
        no_thinner(bids, more_bids),
        sized(asks),
        sized(more_asks),
        no_thinner(asks, more_asks),
        !calc.imbalance(mid, bids, asks).nan(),
        !calc.imbalance(mid, more_bids, asks).nan(),
        !calc.imbalance(mid, bids, more_asks).nan(),
    ensures
        calc.updated(now_ns, mid, bids, asks).local_alpha.le(
            calc.updated(now_ns, mid, more_bids, asks).local_alpha,
        ),
        calc.updated(now_ns, mid, bids, more_asks).local_alpha.le(
            calc.updated(now_ns, mid, bids, asks).local_alpha,
        ),
        !calc.has_alpha_override ==> calc.updated(now_ns, mid, bids, asks).alpha == calc.updated(
            now_ns,
            mid,
            bids,
            asks,
        ).local_alpha,
{
    law_imbalance_weighs_bids_against_asks(calc, mid, bids, more_bids, asks, more_asks);
    lemma_value_order(mid, num(ZERO));
    law_scores_grow_with_the_value(
        calc.imb_stats,
        calc.imbalance(mid, bids, asks),
        calc.imbalance(mid, more_bids, asks),
    );
    law_scores_grow_with_the_value(
        calc.imb_stats,
        calc.imbalance(mid, bids, more_asks),
        calc.imbalance(mid, bids, asks),
    );
}

/// A larger value never scores lower; one above the mean does not score below
/// 0, nor one below the mean above 0.
pub proof fn law_scores_grow_with_the_value(stats: StatsView, x: B64, y: B64)
    requires
        stats.moments.mean.finite(),
        stats.deviation.finite(),
        x.le(y),
    ensures
        stats.zscore(x).le(stats.zscore(y)),
        x.ge(stats.moments.mean) ==> stats.zscore(x).ge(num(ZERO)),
        y.le(stats.moments.mean) ==> stats.zscore(y).le(num(ZERO)),
        stats.deviation.lt(num(TINY_10)) ==> stats.zscore(x).eq_num(num(ZERO)),
{
    lemma_value_order(num(ZERO), num(TINY_10));
    lemma_value_order(num(ZERO), num(ZERO));
    let m = stats.moments.mean;
    let d = stats.deviation;
    if !d.lt(num(TINY_10)) {
        lemma_units_zero();
        lemma_sub_nan(x, m);
        lemma_sub_nan(y, m);
        lemma_sub_nan(m, m);
        lemma_sub_mono(x, y, m, m);
        lemma_self_difference(m);
        lemma_value_order(m.sub(m), num(ZERO));
        let zero = m.sub(m);
        lemma_div_mono(x.sub(m), y.sub(m), d);
        lemma_zero_over(zero, d);
        if x.ge(m) {
            lemma_sub_mono(m, x, m, m);
            lemma_div_mono(zero, x.sub(m), d);
        }
        if y.le(m) {
            lemma_sub_mono(y, m, m, m);
            lemma_div_mono(y.sub(m), zero, d);
        }
    }
}

/// A score counts deviations: it is the distance of a value from the mean over
/// the deviation, with its sign and up to rounding.
pub proof fn law_scores_count_deviations(stats: StatsView, value: B64)
    requires
        value.finite(),
        stats.moments.mean.finite(),
        stats.deviation.finite(),
        stats.deviation.ge(num(TINY_10)),
        size(value.exact() - stats.moments.mean.exact()) <= 1000000000real,
        stats.deviation.exact() <= 1000000000real,
    ensures
        ({
            let target = ratio(value.exact() - stats.moments.mean.exact(), stats.deviation.exact());
            1000000real * size(stats.zscore(value).exact() - target) <= size(target) + 1real
        }),
{
    let (m, d) = (stats.moments.mean, stats.deviation);
    let x = value.exact() - m.exact();
    lemma_tiny_10();
    lemma_range_of_sizes();
    lemma_exact_order(d, num(TINY_10));
    let y = d.exact();
    assert(20000000000real * y >= 1real);
    super::vol_quotes::lemma_room();
    lemma_sub_near(value, m);
    let diff = value.sub(m);
    lemma_near_within(diff, x, size(x));
    super::grids::lemma_tiny_smallest();
    let e = product(gap(), size(x)) + smallest();
    super::requotes::lemma_over(diff.exact(), x, e, y);
    let (t, q) = (ratio(x, y), ratio(diff.exact(), y));
    super::markouts::lemma_ratio_size(x, y);
    super::requotes::lemma_ratio_parts(size(x), smallest(), y);
    super::exits::lemma_hundred_millionth(size(t));
    lemma_slack_over(y);
    assert(q == diff.exact() / y) by {
        reveal(ratio);
    }
    assert(1000000000real * size(q - t) <= size(t) + 1real);
    lemma_score_bound(x, y);
    lemma_div_near(diff, d);
    lemma_near_within(diff.div(d), q, 2real * size(t) + 2real);
    super::exits::lemma_hundred_millionth(2real * size(t) + 2real);
}

proof fn lemma_score_bound(x: real, y: real)
    requires
        y > 0real,
        20000000000real * y >= 1real,
        size(x) <= 1000000000real,
    ensures
        size(ratio(x, y)) <= 20000000000real * 1000000000real,
{
    super::markouts::lemma_ratio_size(x, y);
    reveal(ratio);
    lemma_ratio_times(size(x), y);
    let r = size(x) / y;
    assert(r <= 20000000000real * 1000000000real) by (nonlinear_arith)
        requires
            r * y == size(x),
            20000000000real * y >= 1real,
            size(x) <= 1000000000real,
            y > 0real,
    ;
}

proof fn lemma_slack_over(y: real)
    requires
        20000000000real * y >= 1real,
        y <= 1000000000real,
    ensures
        1000000000000000000real * ratio(smallest(), y) <= 1real,
{
    assert(ordinary(y, 100)) by {
        lemma_powers(40, 100);
        let p = power(100);
        assert(power(40) == 1099511627776real) by {
            reveal(power);
            vstd::arithmetic::power2::lemma2_to64_rest();
        }
        reveal(product);
        assert(y * p >= 1real) by (nonlinear_arith)
            requires
                20000000000real * y >= 1real,
                p >= 1099511627776real,
        ;
    }
    super::exits::lemma_smallest_under(y);
    reveal(ratio);
    lemma_ratio_times(smallest(), y);
    let (t, s) = (smallest(), smallest() / y);
    assert(1000000000000000000real * s <= 1real) by (nonlinear_arith)
        requires
            s * y == t,
            1000000000000000000real * t <= y,
            y > 0real,
    ;
}

/// Zero over a positive number.
pub proof fn lemma_zero_over(zero: B64, d: B64)
    requires
        zero.zero(),
        d.finite(),
        d.gt(num(ZERO)),
    ensures
        zero.div(d).eq_num(num(ZERO)),
{
    lemma_units_zero();
    lemma_value_order(zero, num(ZERO));
    lemma_value_order(d, num(ZERO));
    lemma_div_value(zero, d);
    crate::binary64::arith::lemma_rounded_zero(d.value());
    assert(zero.value() == 0);
    assert(zero.value() * pow2(UNIT_EXP as nat) == 0) by (nonlinear_arith)
        requires
            zero.value() == 0,
    ;
    lemma_value_order(zero.div(d), num(ZERO));
}

/// How far rounding can move an edge of the window around the mid.
pub open spec fn edge_slack(mid: B64, looking_depth: B64) -> real {
    let width = 1real + size(looking_depth.exact());
    scaled_error(mid.exact(), grown(0real, width), width)
}

proof fn lemma_edges(calc: CalcView, mid: B64)
    requires
        mid.finite(),
        calc.looking_depth.finite(),
        mid.mul(num(ONE).sub(calc.looking_depth)).finite(),
        mid.mul(num(ONE).add(calc.looking_depth)).finite(),
    ensures
        ({
            let lower = mid.mul(num(ONE).sub(calc.looking_depth));
            let upper = mid.mul(num(ONE).add(calc.looking_depth));
            let slack = edge_slack(mid, calc.looking_depth);
            &&& size(lower.exact() - product(mid.exact(), 1real - calc.looking_depth.exact())) <= slack
            &&& size(upper.exact() - product(mid.exact(), 1real + calc.looking_depth.exact())) <= slack
        }),
{
    let one = num(ONE);
    let d = calc.looking_depth;
    let width = 1real + size(d.exact());
    let e = grown(0real, width);
    lemma_whole_constants();
    lemma_finite_terms(mid, one.sub(d));
    lemma_finite_terms(mid, one.add(d));
    lemma_less_term(one, 1real, 0real, d, width);
    lemma_next_term(one, 1real, 0real, d, width);
    lemma_scaled_off(mid, one.sub(d), 1real - d.exact(), e, width);
    lemma_scaled_off(mid, one.add(d), 1real + d.exact(), e, width);
}

/// The window reaches the looking depth, a fraction of the mid, to both sides:
/// up to rounding, a bid below it and an ask above it change nothing, while a
/// lone bid or ask inside it counts with its size.
pub proof fn law_window_is_the_looking_depth(
    calc: CalcView,
    mid: B64,
    bids: Seq<(B64, B64)>,
    asks: Seq<(B64, B64)>,
    price: B64,
    quantity: B64,
)
    requires
        mid.finite(),
        calc.looking_depth.finite(),
        mid.mul(num(ONE).sub(calc.looking_depth)).finite(),
        mid.mul(num(ONE).add(calc.looking_depth)).finite(),
        price.finite(),
        quantity.finite(),
        quantity.ge(num(ZERO)),
    ensures
        ({
            let low = product(mid.exact(), 1real - calc.looking_depth.exact());
            let high = product(mid.exact(), 1real + calc.looking_depth.exact());
            let slack = edge_slack(mid, calc.looking_depth);
            let level = (price, quantity);
            &&& price.exact() < low - slack ==> calc.imbalance(mid, bids.push(level), asks) == calc.imbalance(
                mid,
                bids,
                asks,
            )
            &&& price.exact() > high + slack ==> calc.imbalance(mid, bids, asks.push(level)) == calc.imbalance(
                mid,
                bids,
                asks,
            )
            &&& price.exact() > low + slack ==> calc.imbalance(mid, seq![level], Seq::empty()).eq_num(quantity)
            &&& price.exact() < high - slack ==> calc.imbalance(mid, Seq::empty(), seq![level]).neg().eq_num(
                quantity,
            )
        }),
{
    let lower = mid.mul(num(ONE).sub(calc.looking_depth));
    let upper = mid.mul(num(ONE).add(calc.looking_depth));
    let level = (price, quantity);
    let lone = seq![level];
    lemma_edges(calc, mid);
    lemma_exact_order(price, lower);
    lemma_exact_order(price, upper);
    law_depth_is_the_size_in_the_window(bids, price, quantity, lower);
    law_depth_is_the_size_in_the_window(asks, price, quantity, upper);
    assert(lone =~= Seq::<(B64, B64)>::empty().push(level));
    law_depth_is_the_size_in_the_window(Seq::empty(), price, quantity, lower);
    law_depth_is_the_size_in_the_window(Seq::empty(), price, quantity, upper);
    assert(sized(lone));
    law_one_sided_books_lean_to_their_side(calc, mid, lone);
    lemma_zero_term(quantity);
    lemma_units_zero();
    assert(num(ZERO).add(quantity).eq_num(quantity)) by {
        lemma_add_value(num(ZERO), quantity);
        lemma_value_order(quantity, num(ZERO));
        crate::binary64::rounding::lemma_rounded_exact(quantity.mag(), 1);
    }
}

proof fn lemma_floored(a: B64, b: B64, mid: B64, least: B64)
    requires
        a.le(b),
    ensures
        floored_bid(a, mid, least).le(floored_bid(b, mid, least)),
        floored_ask(a, mid, least).le(floored_ask(b, mid, least)),
{
}

/// A higher alpha never lowers a price of a quote.
pub proof fn law_quotes_follow_alpha(calc: CalcView, alpha: B64, mid: B64, position: B64)
    requires
        calc.tick_size.finite(),
        calc.tick_size.gt(num(ZERO)),
        calc.c1.finite(),
        calc.c1.ge(num(ZERO)),
        calc.alpha.finite(),
        alpha.finite(),
        calc.alpha.le(alpha),
        mid.add(calc.c1.mul(calc.alpha)).finite(),
        mid.add(calc.c1.mul(alpha)).finite(),
    ensures
        match (calc.quote(mid, position), (CalcView { alpha, ..calc }).quote(mid, position)) {
            (Some((bid, ask)), Some((higher_bid, higher_ask))) => bid.le(higher_bid) && ask.le(higher_ask),
            _ => true,
        },
{
    let more = CalcView { alpha, ..calc };
    let tick = calc.tick_size;
    let (a, b) = (calc.c1.mul(calc.alpha), calc.c1.mul(alpha));
    lemma_mul_swap(calc.c1, calc.alpha);
    lemma_mul_swap(calc.c1, alpha);
    lemma_mul_nan(calc.alpha, calc.c1);
    lemma_mul_nan(alpha, calc.c1);
    lemma_mul_mono(calc.alpha, alpha, calc.c1);
    lemma_add_swap(mid, a);
    lemma_add_swap(mid, b);
    lemma_add_mono(a, b, mid);
    let (f, g) = (mid.add(a), mid.add(b));
    let half = calc.volatility.mul(calc.vol_to_half_spread).div(tick);
    let norm = calc.norm_position(mid, position);
    let down = half.mul(num(ONE).add(calc.skew.mul(norm))).max(num(ZERO));
    let up = half.mul(num(ONE).sub(calc.skew.mul(norm))).max(num(ZERO));
    lemma_distance(down, tick);
    lemma_distance(up, tick);
    lemma_sub_nan(f, down.mul(tick));
    lemma_sub_nan(g, down.mul(tick));
    lemma_sub_mono(f, g, down.mul(tick), down.mul(tick));
    lemma_add_nan(f, up.mul(tick));
    lemma_add_nan(g, up.mul(tick));
    lemma_add_mono(f, g, up.mul(tick));
    let least = calc.min_half_spread_bps;
    lemma_floored(f.sub(down.mul(tick)), g.sub(down.mul(tick)), mid, least);
    lemma_floored(f.add(up.mul(tick)), g.add(up.mul(tick)), mid, least);
    lemma_grid_mono(calc.raw_bid(mid, position), more.raw_bid(mid, position), tick);
    lemma_grid_mono(calc.raw_ask(mid, position), more.raw_ask(mid, position), tick);
}

/// A depth in ticks is a distance that is not negative.
proof fn lemma_distance(depth: B64, tick: B64)
    requires
        tick.finite(),
        tick.gt(num(ZERO)),
        depth.ge(num(ZERO)),
    ensures
        !depth.mul(tick).nan(),
        depth.mul(tick).ge(num(ZERO)),
{
    lemma_value_order(tick, num(ZERO));
    lemma_mul_nan(depth, tick);
    lemma_mul_sign(depth, tick);
}

/// The share of the half-spread that a side keeps is not negative while the
/// skew does not exceed 1.
proof fn lemma_share(calc: CalcView, mid: B64, position: B64)
    requires
        calc.skew.ge(num(ZERO)),
        calc.skew.le(num(ONE)),
    ensures
        ({
            let tilt = calc.skew.mul(calc.norm_position(mid, position));
            &&& num(ONE).add(tilt).ge(num(ZERO))
            &&& num(ONE).sub(tilt).ge(num(ZERO))
        }),
{
    let norm = calc.norm_position(mid, position);
    let skew = calc.skew;
    let (one, minus) = (num(ONE), num(MINUS_ONE));
    lemma_units_zero();
    lemma_value_order(num(ZERO), one);
    lemma_value_order(minus, num(ZERO));
    lemma_value_order(minus, one);
    lemma_value_order(one, skew);
    lemma_value_order(skew, one);
    lemma_value_order(skew, num(ZERO));
    assert(norm.ge(minus) && norm.le(one));
    lemma_value_order(norm, one);
    lemma_value_order(norm, minus);
    lemma_value_order(one, norm);
    lemma_value_order(minus, norm);
    assert(skew.finite() && norm.finite());
    lemma_mul_swap(skew, norm);
    lemma_mul_nan(norm, skew);
    lemma_mul_nan(minus, skew);
    lemma_mul_nan(one, skew);
    lemma_mul_mono(norm, one, skew);
    lemma_mul_mono(minus, norm, skew);
    lemma_mul_swap(one, skew);
    lemma_mul_swap(minus, skew);
    lemma_times_one(skew);
    let tilt = skew.mul(norm);
    assert(tilt.le(skew) && tilt.ge(skew.neg()));
    lemma_neg_order(skew, one);
    assert(one.neg() == minus);
    assert(tilt.ge(minus) && tilt.le(one));
    lemma_value_order(tilt, one);
    lemma_value_order(one, tilt);
    lemma_value_order(tilt, minus);
    lemma_value_order(minus, tilt);
    lemma_add_nan(tilt, one);
    lemma_sub_nan(one, tilt);
    lemma_add_nan(minus, one);
    lemma_add_mono(minus, tilt, one);
    lemma_add_swap(one, tilt);
    lemma_sub_nan(one, one);
    lemma_sub_mono(one, one, tilt, one);
    lemma_self_difference(one);
    lemma_value_order(one.sub(one), num(ZERO));
    lemma_add_swap(one, minus);
    assert(one.sub(one) == one.add(minus));
}

/// A higher volatility never brings a price of a quote closer to the mid: the
/// bid does not rise and the ask does not fall.
pub proof fn law_quotes_widen_with_volatility(calc: CalcView, volatility: B64, mid: B64, position: B64)
    requires
        calc.tick_size.finite(),
        calc.tick_size.gt(num(ZERO)),
        calc.vol_to_half_spread.finite(),
        calc.vol_to_half_spread.ge(num(ZERO)),
        calc.skew.ge(num(ZERO)),
        calc.skew.le(num(ONE)),
        calc.volatility.finite(),
        volatility.finite(),
        calc.volatility.le(volatility),
        mid.add(calc.c1.mul(calc.alpha)).finite(),
    ensures
        match (calc.quote(mid, position), (CalcView { volatility, ..calc }).quote(mid, position)) {
            (Some((bid, ask)), Some((lower_bid, higher_ask))) => lower_bid.le(bid) && ask.le(higher_ask),
            _ => true,
        },
{
    let more = CalcView { volatility, ..calc };
    let tick = calc.tick_size;
    let k = calc.vol_to_half_spread;
    let fair = mid.add(calc.c1.mul(calc.alpha));
    lemma_mul_nan(calc.volatility, k);
    lemma_mul_nan(volatility, k);
    lemma_mul_mono(calc.volatility, volatility, k);
    lemma_div_mono(calc.volatility.mul(k), volatility.mul(k), tick);
    let h = calc.volatility.mul(k).div(tick);
    let g = volatility.mul(k).div(tick);
    let tilt = calc.skew.mul(calc.norm_position(mid, position));
    assert(more.norm_position(mid, position) == calc.norm_position(mid, position));
    lemma_share(calc, mid, position);
    let (below, above) = (num(ONE).add(tilt), num(ONE).sub(tilt));
    lemma_mul_swap(h, below);
    lemma_mul_swap(g, below);
    lemma_mul_swap(h, above);
    lemma_mul_swap(g, above);
    lemma_cut_product_mono(below, h, g);
    lemma_cut_product_mono(above, h, g);
    let (d1, d2) = (h.mul(below).max(num(ZERO)), g.mul(below).max(num(ZERO)));
    let (u1, u2) = (h.mul(above).max(num(ZERO)), g.mul(above).max(num(ZERO)));
    lemma_distance(d1, tick);
    lemma_distance(d2, tick);
    lemma_distance(u1, tick);
    lemma_distance(u2, tick);
    lemma_mul_mono(d1, d2, tick);
    lemma_mul_mono(u1, u2, tick);
    lemma_sub_nan(fair, d1.mul(tick));
    lemma_sub_nan(fair, d2.mul(tick));
    lemma_sub_mono(fair, fair, d1.mul(tick), d2.mul(tick));
    lemma_add_nan(fair, u1.mul(tick));
    lemma_add_nan(fair, u2.mul(tick));
    lemma_add_swap(fair, u1.mul(tick));
    lemma_add_swap(fair, u2.mul(tick));
    lemma_add_mono(u1.mul(tick), u2.mul(tick), fair);
    let least = calc.min_half_spread_bps;
    lemma_floored(fair.sub(d2.mul(tick)), fair.sub(d1.mul(tick)), mid, least);
    lemma_floored(fair.add(u1.mul(tick)), fair.add(u2.mul(tick)), mid, least);
    lemma_grid_mono(more.raw_bid(mid, position), calc.raw_bid(mid, position), tick);
    lemma_grid_mono(calc.raw_ask(mid, position), more.raw_ask(mid, position), tick);
}

/// A sample records the change of the mid since the last one and the imbalance
/// of the book, and takes the volatility from the recorded changes: their
/// deviation per step, scaled to a second.
pub proof fn law_samples_record_the_change(
    calc: CalcView,
    now_ns: i64,
    mid: B64,
    bids: Seq<(B64, B64)>,
    asks: Seq<(B64, B64)>,
)
    requires
        mid.finite(),
        mid.gt(num(ZERO)),
        calc.sample_due(now_ns),
    ensures
        ({
            let after = calc.updated(now_ns, mid, bids, asks);
            &&& calc.has_prev_mid ==> after.mid_stats.window.last() == mid.sub(calc.prev_mid)
            &&& calc.has_prev_mid && calc.total_samples < i64::MAX ==> after.total_samples == calc.total_samples + 1
            &&& !calc.has_prev_mid ==> after.mid_stats == calc.mid_stats && after.total_samples
                == calc.total_samples
            &&& after.imb_stats.window.last() == calc.imbalance(mid, bids, asks)
            &&& after.prev_mid == mid
            &&& after.has_prev_mid
            &&& after.last_sample_ns == now_ns
            &&& after.total_samples >= calc.min_warmup_samples && after.mid_stats.deviation.mul(
                calc.vol_scale,
            ).finite() ==> after.warmed_up && after.volatility.near(
                after.mid_stats.deviation.exact() * calc.vol_scale.exact(),
            )
        }),
{
    let after = calc.updated(now_ns, mid, bids, asks);
    lemma_value_order(mid, num(ZERO));
    let (d, k) = (after.mid_stats.deviation, calc.vol_scale);
    if d.mul(k).finite() {
        lemma_finite_terms(d, k);
        lemma_mul_near(d, k);
    }
}

/// Between two samples a book changes the alpha alone: neither the statistics
/// nor the volatility.
pub proof fn law_no_sample_no_statistics(
    calc: CalcView,
    now_ns: i64,
    mid: B64,
    bids: Seq<(B64, B64)>,
    asks: Seq<(B64, B64)>,
)
    requires
        !calc.sample_due(now_ns),
    ensures
        ({
            let after = calc.updated(now_ns, mid, bids, asks);
            &&& after.mid_stats == calc.mid_stats
            &&& after.imb_stats == calc.imb_stats
            &&& after.volatility == calc.volatility
            &&& after.total_samples == calc.total_samples
            &&& after.last_sample_ns == calc.last_sample_ns
            &&& after.prev_mid == calc.prev_mid
        }),
{
}

/// The first sample is due at once, the next a step of the clock after the
/// last.
pub proof fn law_samples_are_a_step_apart(calc: CalcView, now_ns: i64)
    ensures
        calc.last_sample_ns == 0 ==> calc.sample_due(now_ns),
        calc.last_sample_ns != 0 ==> (calc.sample_due(now_ns) <==> now_ns - calc.last_sample_ns >= calc.step_ns),
{
}

/// An unusable mid changes nothing.
pub proof fn law_unusable_mids_change_nothing(
    calc: CalcView,
    now_ns: i64,
    mid: B64,
    bids: Seq<(B64, B64)>,
    asks: Seq<(B64, B64)>,
)
    requires
        !mid.finite() || mid.le(num(ZERO)),
    ensures
        calc.updated(now_ns, mid, bids, asks) == calc,
        forall|position: B64| #[trigger] calc.quote(mid, position) is None,
{
}

} // verus!
