//! Where the volatility quote stands: around the mid moved by the alpha, as far
//! away as the volatility asks for, on the tick grid.

use vstd::prelude::*;

use crate::binary64::consts::{BILLION, MINUS_ONE, NAN, ONE, TEN_THOUSAND, TINY_12, ZERO};
use crate::binary64::error::{
    gap, lemma_add_near, lemma_exact_sign, lemma_mul_near, lemma_sub_near, limit, size, whole,
};
use crate::binary64::measure::{lemma_exact_order, lemma_range_of_sizes, lemma_whole_constants};
use crate::binary64::order::lemma_value_order;
use crate::binary64::rough::{
    about, lemma_about_itself, lemma_about_looser, lemma_about_plain, lemma_about_product, lemma_about_ratio,
    lemma_about_smaller, lemma_ordinary_product, lemma_ordinary_ratio, lemma_ordinary_widens, lemma_powers,
    ordinary, power,
};
use crate::binary64::{num, B64};

use super::exact::{
    lemma_near_within, lemma_product_order, lemma_product_regroup, lemma_product_size, lemma_product_swap,
    lemma_product_units, product, ratio,
};
use super::exits::{lemma_hundred_millionth, lemma_smallest_under, lemma_wide};
use super::grids::law_grid_prices_are_within_a_tick;
use super::quotes::{larger, smaller};
use super::vol_obi::{floored_ask, floored_bid, reduce_min_depth, reducing_quote, CalcView, VolObiConfig};

verus! {

/// The share of the position limit that a long position takes up, to a few
/// millionths: the position at the mid over the limit, but no more than all of
/// it. Without a limit it is none.
pub proof fn law_norm_is_the_share_of_the_limit(calc: CalcView, mid: B64, position: B64)
    ensures
        !calc.max_position_dollar.gt(num(ZERO)) ==> calc.norm_position(mid, position) == num(ZERO),
        calc.max_position_dollar.finite() && ordinary(calc.max_position_dollar.exact(), 100) && mid.finite()
            && ordinary(mid.exact(), 100) && position.finite() && ordinary(position.exact(), 100) ==> about(
            calc.norm_position(mid, position),
            smaller(ratio(product(position.exact(), mid.exact()), calc.max_position_dollar.exact()), 1real),
            3real,
        ),
        !calc.norm_position(mid, position).nan(),
        calc.norm_position(mid, position).le(num(ONE)),
        calc.norm_position(mid, position).ge(num(MINUS_ONE)),
{
    let most = calc.max_position_dollar;
    lemma_value_order(num(MINUS_ONE), num(ONE));
    lemma_value_order(num(ZERO), num(ONE));
    lemma_value_order(num(MINUS_ONE), num(ZERO));
    crate::binary64::layout::lemma_units_zero();
    if most.finite() && ordinary(most.exact(), 100) && mid.finite() && ordinary(mid.exact(), 100)
        && position.finite() && ordinary(position.exact(), 100) {
        lemma_exact_sign(most);
        let (p, m, u) = (position.exact(), mid.exact(), most.exact());
        lemma_about_itself(position);
        lemma_about_itself(mid);
        lemma_about_itself(most);
        lemma_ordinary_product(p, m, 100, 100);
        lemma_about_product(position, mid, p, m, 0real, 0real, 200);
        lemma_ordinary_ratio(product(p, m), u, 200, 100);
        lemma_about_ratio(position.mul(mid), most, product(p, m), u, 1real, 0real, 300);
        let x = position.mul(mid).div(most);
        lemma_about_plain(x, ratio(product(p, m), u), 3real);
        lemma_exact_sign(x);
        lemma_value_order(x, num(ZERO));
        lemma_value_order(x, num(MINUS_ONE));
        assert(x.max(num(MINUS_ONE)) == x);
        lemma_whole_constants();
        lemma_about_itself(num(ONE));
        lemma_about_looser(num(ONE), 1real, 0real, 3real);
        lemma_about_smaller(x, num(ONE), ratio(product(p, m), u), 1real, 3real);
    }
}

/// Whether the parts of a volatility quote are ordinary numbers, with a skew and
/// an alpha that leave the quote on both sides of the mid.
pub open spec fn ordinary_calc(calc: CalcView, mid: B64, position: B64) -> bool {
    &&& calc.warmed_up
    &&& mid.finite() && ordinary(mid.exact(), 90)
    &&& calc.tick_size.finite() && ordinary(calc.tick_size.exact(), 90)
    &&& calc.volatility.finite() && ordinary(calc.volatility.exact(), 90)
    &&& calc.vol_to_half_spread.finite() && ordinary(calc.vol_to_half_spread.exact(), 90)
    &&& calc.skew.finite() && calc.skew.ge(num(ZERO))
    &&& 10real * calc.skew.exact() <= 9real
    &&& calc.c1.finite() && calc.alpha.finite()
    &&& size(product(calc.c1.exact(), calc.alpha.exact())) <= mid.exact() / 4real
    &&& calc.min_half_spread_bps.finite() && calc.min_half_spread_bps.exact() <= 5000real
}

/// The half-spread that the volatility asks for on a side.
pub open spec fn exact_half_spread(calc: CalcView, tilt: real) -> real {
    product(product(calc.volatility.exact(), calc.vol_to_half_spread.exact()), 1real + tilt)
}

/// A bid price, no closer to the mid than the least half-spread where there is
/// one.
pub open spec fn held_below(price: real, mid: real, least_bps: real) -> real {
    if least_bps > 0real {
        smaller(price, product(mid, 1real - least_bps / 10000real))
    } else {
        price
    }
}

/// An ask price, likewise.
pub open spec fn held_above(price: real, mid: real, least_bps: real) -> real {
    if least_bps > 0real {
        larger(price, product(mid, 1real + least_bps / 10000real))
    } else {
        price
    }
}

/// One more or less than the skewed share.
proof fn lemma_tilted(skew: B64, norm: B64)
    requires
        skew.finite() && skew.ge(num(ZERO)),
        10real * skew.exact() <= 9real,
        norm.finite(),
        size(norm.exact()) <= 1real,
    ensures
        about(num(ONE).add(skew.mul(norm)), 1real + product(skew.exact(), norm.exact()), 1real),
        about(num(ONE).sub(skew.mul(norm)), 1real - product(skew.exact(), norm.exact()), 1real),
        10real * size(product(skew.exact(), norm.exact())) <= 9real,
{
    lemma_whole_constants();
    lemma_range_of_sizes();
    lemma_exact_sign(num(ZERO));
    lemma_exact_order(skew, num(ZERO));
    let (s, n) = (skew.exact(), norm.exact());
    let x = product(s, n);
    lemma_product_size(s, n, s, 1real);
    lemma_product_units(s);
    assert(x == s * n) by {
        reveal(product);
    }
    lemma_mul_near(skew, norm);
    let tilt = skew.mul(norm);
    lemma_near_within(tilt, x, 1real);
    lemma_hundred_millionth(1real);
    super::grids::lemma_tiny_smallest();
    lemma_add_near(num(ONE), tilt);
    lemma_sub_near(num(ONE), tilt);
    lemma_near_within(num(ONE).add(tilt), 1real + tilt.exact(), 2real);
    lemma_near_within(num(ONE).sub(tilt), 1real - tilt.exact(), 2real);
    lemma_hundred_millionth(2real);
    lemma_product_units(1real + x);
    lemma_product_units(1real - x);
}

/// The distance of a side from the fair price.
proof fn lemma_half_spread(vol: B64, k: B64, tick: B64, f: B64, factor: real)
    requires
        vol.finite() && ordinary(vol.exact(), 90),
        k.finite() && ordinary(k.exact(), 90),
        tick.finite() && ordinary(tick.exact(), 90),
        about(f, factor, 1real),
        10real * factor >= 1real,
        factor <= 2real,
    ensures
        about(
            vol.mul(k).div(tick).mul(f).max(num(ZERO)).mul(tick),
            product(product(vol.exact(), k.exact()), factor),
            10real,
        ),
        ordinary(product(product(vol.exact(), k.exact()), factor), 200),
{
    let (v, h, t) = (vol.exact(), k.exact(), tick.exact());
    lemma_about_itself(vol);
    lemma_about_itself(k);
    lemma_about_itself(tick);
    lemma_ordinary_product(v, h, 90, 90);
    let a = product(v, h);
    lemma_about_product(vol, k, v, h, 0real, 0real, 180);
    lemma_ordinary_ratio(a, t, 180, 90);
    let q = ratio(a, t);
    lemma_about_ratio(vol.mul(k), tick, a, t, 1real, 0real, 270);
    super::exits::lemma_factor_range(factor);
    lemma_ordinary_product(q, factor, 270, 20);
    let half = vol.mul(k).div(tick);
    lemma_about_product(half, f, q, factor, 3real, 1real, 290);
    let d = half.mul(f);
    lemma_about_plain(d, product(q, factor), 5real);
    lemma_exact_sign(d);
    lemma_value_order(d, num(ZERO));
    assert(d.max(num(ZERO)) == d);
    lemma_product_regroup(q, t, factor);
    lemma_product_swap(factor, a);
    lemma_ordinary_product(a, factor, 180, 20);
    lemma_about_product(d, tick, product(q, factor), t, 5real, 0real, 200);
    lemma_about_looser(d.mul(tick), product(a, factor), 6real, 10real);
}

/// The mid moved by the alpha.
proof fn lemma_fair(mid: B64, c1: B64, alpha: B64)
    requires
        mid.finite() && ordinary(mid.exact(), 90),
        c1.finite() && alpha.finite(),
        size(product(c1.exact(), alpha.exact())) <= mid.exact() / 4real,
    ensures
        mid.add(c1.mul(alpha)).finite(),
        100000000000real * size(
            mid.add(c1.mul(alpha)).exact() - (mid.exact() + product(c1.exact(), alpha.exact())),
        ) <= mid.exact(),
{
    let (m, x) = (mid.exact(), product(c1.exact(), alpha.exact()));
    lemma_ordinary_widens(m, 90, 100);
    lemma_wide(m);
    assert(x == c1.exact() * alpha.exact()) by {
        reveal(product);
    }
    lemma_mul_near(c1, alpha);
    lemma_near_within(c1.mul(alpha), x, m);
    lemma_hundred_millionth(m);
    lemma_smallest_under(m);
    lemma_add_near(mid, c1.mul(alpha));
    lemma_near_within(mid.add(c1.mul(alpha)), m + c1.mul(alpha).exact(), 2real * m);
    lemma_hundred_millionth(2real * m);
}

/// A fair price less or more a distance.
proof fn lemma_away(fair: B64, center: real, away: B64, distance: real, m: real)
    requires
        ordinary(m, 90),
        fair.finite(),
        100000000000real * size(fair.exact() - center) <= m,
        size(center) <= 2real * m,
        about(away, distance, 10real),
        distance <= 100real * m,
    ensures
        fair.sub(away).finite(),
        fair.add(away).finite(),
        10000real * size(fair.sub(away).exact() - (center - distance)) <= distance + m / 1000000real,
        10000real * size(fair.add(away).exact() - (center + distance)) <= distance + m / 1000000real,
{
    lemma_ordinary_widens(m, 90, 100);
    lemma_wide(m);
    lemma_smallest_under(m);
    lemma_ten_times(distance);
    let z = 200real * m;
    lemma_sub_near(fair, away);
    lemma_add_near(fair, away);
    lemma_near_within(fair.sub(away), fair.exact() - away.exact(), z);
    lemma_near_within(fair.add(away), fair.exact() + away.exact(), z);
    lemma_hundred_millionth(z);
    lemma_finer(m);
}

proof fn lemma_ten_times(x: real)
    ensures
        product(10real, x) == 10real * x,
{
    reveal(product);
}

proof fn lemma_finer(m: real)
    requires
        m >= 0real,
    ensures
        1000000000000000real * product(gap(), 200real * m) <= 200real * m,
{
    let g = gap();
    super::exact::lemma_gap();
    let x = 200real * m;
    assert(1000000000000000real * g <= 1real);
    lemma_product_order(1000000000000000real * g, 1real, x);
    lemma_product_units(x);
    super::quotes::lemma_product_scaled(g, x, 1000000000000000real);
}

/// The price at the least half-spread.
proof fn lemma_least_price(mid: B64, bps: B64)
    requires
        mid.finite() && ordinary(mid.exact(), 90),
        bps.finite() && bps.gt(num(ZERO)),
        bps.exact() <= 5000real,
    ensures
        ({
            let fraction = bps.div(num(TEN_THOUSAND));
            let (low, high) = (mid.mul(num(ONE).sub(fraction)), mid.mul(num(ONE).add(fraction)));
            let b = bps.exact() / 10000real;
            &&& low.finite() && high.finite()
            &&& 1000000000real * size(low.exact() - product(mid.exact(), 1real - b)) <= mid.exact()
            &&& 1000000000real * size(high.exact() - product(mid.exact(), 1real + b)) <= mid.exact()
        }),
{
    lemma_whole_constants();
    lemma_range_of_sizes();
    lemma_exact_sign(bps);
    super::grids::lemma_tiny_smallest();
    let fraction = bps.div(num(TEN_THOUSAND));
    let (x, k) = (bps.exact(), num(TEN_THOUSAND).exact());
    let b = x / 10000real;
    assert(x / k == b);
    crate::binary64::error::lemma_div_near(bps, num(TEN_THOUSAND));
    lemma_near_within(fraction, b, 1real);
    lemma_hundred_millionth(1real);
    lemma_sub_near(num(ONE), fraction);
    lemma_add_near(num(ONE), fraction);
    lemma_near_within(num(ONE).sub(fraction), 1real - fraction.exact(), 2real);
    lemma_near_within(num(ONE).add(fraction), 1real + fraction.exact(), 2real);
    lemma_hundred_millionth(2real);
    let e = 5real / 1000000000000real;
    let m = mid.exact();
    lemma_ordinary_widens(m, 90, 100);
    lemma_wide(m);
    lemma_smallest_under(m);
    lemma_times_constant(m, e);
    lemma_product_order(product(m, 2real + e), 3real * m, gap());
    lemma_hundred_millionth(3real * m);
    crate::binary64::measure::lemma_scaled_off(mid, num(ONE).sub(fraction), 1real - b, e, 2real);
    crate::binary64::measure::lemma_scaled_off(mid, num(ONE).add(fraction), 1real + b, e, 2real);
}

proof fn lemma_times_constant(m: real, e: real)
    requires
        m > 0real,
        1000000000000real * e == 5real,
    ensures
        1000000000000real * product(m, e) == 5real * m,
        product(m, 2real + e) <= 3real * m,
{
    reveal(product);
    assert(1000000000000real * (m * e) == 5real * m) by (nonlinear_arith)
        requires
            1000000000000real * e == 5real,
    ;
    assert(m * (2real + e) == 2real * m + m * e) by (nonlinear_arith);
}

/// A price that is nearly right, and its neighbour on the grid.
proof fn lemma_on_grid(raw: B64, x: real, tick: B64, m: real, distance: real)
    requires
        ordinary(m, 90),
        tick.finite() && ordinary(tick.exact(), 90),
        raw.finite(),
        10000real * size(raw.exact() - x) <= distance + m / 1000real,
        10real * x >= m,
        x <= 3real * m,
        0real <= distance <= 100real * m,
    ensures
        ({
            let t = tick.exact();
            let low = raw.div(tick).floor().mul(tick);
            let high = raw.div(tick).ceil().mul(tick);
            let slack = distance / 1000real + (m + t) / 10000real;
            &&& low.finite() && high.finite()
            &&& x - t - slack <= low.exact() <= x + slack
            &&& x - slack <= high.exact() <= x + t + slack
        }),
{
    let r = raw.exact();
    lemma_near_mid(r, m);
    lemma_ordinary_widens(tick.exact(), 90, 100);
    lemma_exact_sign(tick);
    law_grid_prices_are_within_a_tick(raw, tick);
}

pub proof fn lemma_near_mid(r: real, m: real)
    requires
        ordinary(m, 90),
        1000real * r >= m,
        r <= 1000real * m,
    ensures
        ordinary(r, 100),
{
    lemma_powers(90, 10);
    let (p, q) = (power(90), power(100));
    assert(power(10) == 1024real) by {
        reveal(power);
        vstd::arithmetic::power2::lemma2_to64();
    }
    reveal(product);
    assert(q == p * 1024real);
    let mp = m * p;
    assert(r * q >= mp) by (nonlinear_arith)
        requires
            mp == m * p,
            q == p * 1024real,
            1000real * r >= m,
            p >= 1real,
            m > 0real,
    ;
}

/// Where a volatility quote stands. The fair price is the mid moved by `c1`
/// times the alpha. The bid stands below it, and the ask above it, by the
/// volatility times its factor, widened for the side that would add to the
/// position and narrowed for the other by the skewed share of the limit; but
/// never closer to the mid than the least half-spread. Both lie on the grid, the
/// bid less than a tick below and the ask less than a tick above. To one
/// thousandth of that distance and one hundredth of a percent of the price.
pub proof fn law_volatility_sets_the_distance(calc: CalcView, mid: B64, position: B64)
    requires
        ordinary_calc(calc, mid, position),
        ({
            let tilt = product(calc.skew.exact(), calc.norm_position(mid, position).exact());
            &&& exact_half_spread(calc, tilt) <= mid.exact() / 2real
            &&& exact_half_spread(calc, -tilt) <= mid.exact() / 2real
        }),
    ensures
        ({
            let (m, t) = (mid.exact(), calc.tick_size.exact());
            let tilt = product(calc.skew.exact(), calc.norm_position(mid, position).exact());
            let fair = m + product(calc.c1.exact(), calc.alpha.exact());
            let (below, above) = (exact_half_spread(calc, tilt), exact_half_spread(calc, -tilt));
            let low = held_below(fair - below, m, calc.min_half_spread_bps.exact());
            let high = held_above(fair + above, m, calc.min_half_spread_bps.exact());
            let slack = (below + above) / 1000real + (m + t) / 10000real;
            match calc.quote(mid, position) {
                Some((bid, ask)) => {
                    &&& bid.finite() && ask.finite()
                    &&& low - t - slack <= bid.exact() <= low + slack
                    &&& high - slack <= ask.exact() <= high + t + slack
                },
                None => low - t - slack <= 0real || high - low <= 2real * slack,
            }
        }),
{
    lemma_quote_parts(calc, mid, position);
    let bid = calc.raw_bid(mid, position).div(calc.tick_size).floor().mul(calc.tick_size);
    let ask = calc.raw_ask(mid, position).div(calc.tick_size).ceil().mul(calc.tick_size);
    lemma_exact_order(bid, ask);
    lemma_exact_order(bid, num(ZERO));
    lemma_exact_sign(num(ZERO));
    lemma_exact_sign(mid);
    lemma_exact_order(mid, num(ZERO));
}

proof fn lemma_quote_parts(calc: CalcView, mid: B64, position: B64)
    requires
        ordinary_calc(calc, mid, position),
        ({
            let tilt = product(calc.skew.exact(), calc.norm_position(mid, position).exact());
            &&& exact_half_spread(calc, tilt) <= mid.exact() / 2real
            &&& exact_half_spread(calc, -tilt) <= mid.exact() / 2real
        }),
    ensures
        ({
            let (m, t) = (mid.exact(), calc.tick_size.exact());
            let tilt = product(calc.skew.exact(), calc.norm_position(mid, position).exact());
            let fair = m + product(calc.c1.exact(), calc.alpha.exact());
            let (below, above) = (exact_half_spread(calc, tilt), exact_half_spread(calc, -tilt));
            let low = held_below(fair - below, m, calc.min_half_spread_bps.exact());
            let high = held_above(fair + above, m, calc.min_half_spread_bps.exact());
            let slack = (below + above) / 1000real + (m + t) / 10000real;
            let bid = calc.raw_bid(mid, position).div(calc.tick_size).floor().mul(calc.tick_size);
            let ask = calc.raw_ask(mid, position).div(calc.tick_size).ceil().mul(calc.tick_size);
            &&& bid.finite() && ask.finite()
            &&& low - t - slack <= bid.exact() <= low + slack
            &&& high - slack <= ask.exact() <= high + t + slack
        }),
{
    let (m, t) = (mid.exact(), calc.tick_size.exact());
    let norm = calc.norm_position(mid, position);
    law_norm_is_the_share_of_the_limit(calc, mid, position);
    lemma_unit_range(norm);
    lemma_tilted(calc.skew, norm);
    let tilt = product(calc.skew.exact(), norm.exact());
    let tilted = calc.skew.mul(norm);
    let (vol, k, tick) = (calc.volatility, calc.vol_to_half_spread, calc.tick_size);
    lemma_half_spread(vol, k, tick, num(ONE).add(tilted), 1real + tilt);
    lemma_half_spread(vol, k, tick, num(ONE).sub(tilted), 1real - tilt);
    assert(1real - tilt == 1real + (-tilt));
    let half = vol.mul(k).div(tick);
    let down = half.mul(num(ONE).add(tilted)).max(num(ZERO)).mul(tick);
    let up = half.mul(num(ONE).sub(tilted)).max(num(ZERO)).mul(tick);
    let center = m + product(calc.c1.exact(), calc.alpha.exact());
    let fair = mid.add(calc.c1.mul(calc.alpha));
    lemma_fair(mid, calc.c1, calc.alpha);
    let (below, above) = (exact_half_spread(calc, tilt), exact_half_spread(calc, -tilt));
    lemma_away(fair, center, down, below, m);
    lemma_away(fair, center, up, above, m);
    let (raw_low, raw_high) = (fair.sub(down), fair.add(up));
    let (x, y) = (center - below, center + above);
    let bps = calc.min_half_spread_bps;
    lemma_floor_bid(raw_low, x, mid, bps, below);
    lemma_floor_ask(raw_high, y, mid, bps, above);
    let (low, high) = (held_below(x, m, bps.exact()), held_above(y, m, bps.exact()));
    if bps.exact() > 0real {
        lemma_least_sizes(m, bps.exact() / 10000real);
    }
    lemma_on_grid(floored_bid(raw_low, mid, bps), low, tick, m, below);
    lemma_on_grid(floored_ask(raw_high, mid, bps), high, tick, m, above);
}

proof fn lemma_unit_range(x: B64)
    requires
        !x.nan(),
        x.le(num(ONE)),
        x.ge(num(MINUS_ONE)),
    ensures
        x.finite(),
        size(x.exact()) <= 1real,
{
    lemma_value_order(x, num(ONE));
    lemma_value_order(num(ONE), x);
    lemma_value_order(x, num(MINUS_ONE));
    lemma_value_order(num(MINUS_ONE), x);
    lemma_exact_order(x, num(ONE));
    lemma_exact_order(x, num(MINUS_ONE));
    lemma_whole_constants();
    crate::binary64::measure::lemma_exact_signs(num(ONE));
    assert(num(ONE).neg() == num(MINUS_ONE));
}

proof fn lemma_least_sizes(m: real, b: real)
    requires
        m > 0real,
        0real <= b <= 1real / 2real,
    ensures
        2real * product(m, 1real - b) >= m,
        product(m, 1real - b) <= m,
        product(m, 1real + b) >= m,
        product(m, 1real + b) <= 2real * m,
{
    reveal(product);
    assert(2real * (m * (1real - b)) >= m) by (nonlinear_arith)
        requires
            m > 0real,
            0real <= b <= 1real / 2real,
    ;
    assert(m * (1real - b) <= m) by (nonlinear_arith)
        requires
            m > 0real,
            0real <= b <= 1real / 2real,
    ;
    assert(m <= m * (1real + b) <= 2real * m) by (nonlinear_arith)
        requires
            m > 0real,
            0real <= b <= 1real / 2real,
    ;
}

proof fn lemma_floor_bid(raw: B64, x: real, mid: B64, bps: B64, distance: real)
    requires
        mid.finite() && ordinary(mid.exact(), 90),
        raw.finite(),
        10000real * size(raw.exact() - x) <= distance + mid.exact() / 1000000real,
        0real <= distance,
        2real * x <= 3real * mid.exact(),
        bps.finite() && bps.exact() <= 5000real,
    ensures
        ({
            let floor = floored_bid(raw, mid, bps);
            &&& floor.finite()
            &&& 10000real * size(floor.exact() - held_below(x, mid.exact(), bps.exact())) <= distance + mid.exact()
                / 1000real
        }),
{
    lemma_exact_sign(bps);
    if bps.gt(num(ZERO)) {
        lemma_least_price(mid, bps);
        let floor = mid.mul(num(ONE).sub(bps.div(num(TEN_THOUSAND))));
        lemma_exact_order(raw, floor);
    }
}

proof fn lemma_floor_ask(raw: B64, x: real, mid: B64, bps: B64, distance: real)
    requires
        mid.finite() && ordinary(mid.exact(), 90),
        raw.finite(),
        10000real * size(raw.exact() - x) <= distance + mid.exact() / 1000000real,
        0real <= distance,
        bps.finite() && bps.exact() <= 5000real,
    ensures
        ({
            let floor = floored_ask(raw, mid, bps);
            &&& floor.finite()
            &&& 10000real * size(floor.exact() - held_above(x, mid.exact(), bps.exact())) <= distance + mid.exact()
                / 1000real
        }),
{
    lemma_exact_sign(bps);
    if bps.gt(num(ZERO)) {
        lemma_least_price(mid, bps);
        let floor = mid.mul(num(ONE).add(bps.div(num(TEN_THOUSAND))));
        lemma_exact_order(raw, floor);
    }
}

/// Where the reducing quote stands: the ask of a long position above the mid,
/// the bid of a short one below it, by the fallback half-spread of at least a
/// basis point and at least a tick, on the grid. To one thousandth of the
/// distance and one hundredth of a percent of the price.
pub proof fn law_fallback_stands_its_distance_away(mid: B64, position: B64, tick: B64, fallback_bps: B64)
    requires
        mid.finite() && ordinary(mid.exact(), 90),
        position.finite() && position.abs().ge(num(TINY_12)),
        tick.finite() && ordinary(tick.exact(), 90),
        tick.ge(num(TINY_12)),
        tick.exact() <= mid.exact() / 4real,
        fallback_bps.finite() && fallback_bps.exact() <= 5000real,
    ensures
        ({
            let (m, t) = (mid.exact(), tick.exact());
            let distance = larger(product(m, larger(fallback_bps.exact(), 1real)) / 10000real, t);
            let slack = distance / 1000real + (m + t) / 10000real;
            match reducing_quote(mid, position, tick, fallback_bps) {
                Some((bid, ask)) => {
                    &&& position.exact() > 0real ==> bid.nan() && ask.finite() && m + distance - slack <= ask.exact()
                        <= m + distance + t + slack
                    &&& position.exact() < 0real ==> ask.nan() && bid.finite() && (bid.exact() <= m - distance
                        + slack || bid.exact() <= m - t + slack) && bid.exact() >= m - distance - t - slack
                },
                None => false,
            }
        }),
{
    let (m, t) = (mid.exact(), tick.exact());
    lemma_whole_constants();
    lemma_exact_sign(num(ZERO));
    lemma_exact_sign(mid);
    lemma_exact_sign(tick);
    lemma_exact_order(mid, num(ZERO));
    lemma_exact_sign(position);
    lemma_value_order(position, num(ZERO));
    lemma_value_order(position.abs(), num(ZERO));
    lemma_value_order(num(ZERO), num(TINY_12));
    lemma_value_order(tick, num(TINY_12));
    crate::binary64::layout::lemma_units_zero();
    let b = fallback_bps.max(num(ONE));
    lemma_exact_order(fallback_bps, num(ONE));
    lemma_value_order(fallback_bps, num(ONE));
    assert(b.finite() && b.exact() == larger(fallback_bps.exact(), 1real));
    lemma_fallback_depth(mid, b, tick);
    let distance = larger(product(m, b.exact()) / 10000real, t);
    let depth = mid.mul(b).div(num(TEN_THOUSAND)).max(tick);
    lemma_fallback_size(m, b.exact());
    assert(tick.max(num(TINY_12)) == tick || tick.max(num(TINY_12)).eq_num(tick));
    assert(tick.max(num(TINY_12)) == tick);
    lemma_away(mid, m, depth, distance, m);
    lemma_on_grid(mid.add(depth), m + distance, tick, m, distance);
    lemma_on_grid(mid.sub(depth), m - distance, tick, m, distance);
    lemma_about_itself(tick);
    lemma_about_looser(tick, t, 0real, 10real);
    lemma_away(mid, m, tick, t, m);
    let ask = mid.add(depth).div(tick).ceil().mul(tick);
    let bid = mid.sub(depth).div(tick).floor().mul(tick);
    lemma_exact_order(ask, mid);
    lemma_exact_order(bid, mid);
    lemma_exact_order(bid, num(ZERO));
    lemma_value_order(tick, num(ZERO));
    crate::binary64::facts::lemma_add_grows(mid, tick);
    lemma_exact_order(mid.add(tick), mid);
    assert(reduce_min_depth(mid, tick) == tick);
    assert(num(NAN).nan());
}

proof fn lemma_fallback_size(m: real, b: real)
    requires
        m > 0real,
        1real <= b <= 5000real,
    ensures
        product(m, b) / 10000real <= m / 2real,
        product(m, b) > 0real,
        10000real * (product(m, b) / 10000real) >= m,
{
    reveal(product);
    assert(m <= m * b <= 5000real * m) by (nonlinear_arith)
        requires
            m > 0real,
            1real <= b <= 5000real,
    ;
}

proof fn lemma_fallback_depth(mid: B64, b: B64, tick: B64)
    requires
        mid.finite() && ordinary(mid.exact(), 90),
        b.finite() && 1real <= b.exact() <= 5000real,
        tick.finite() && ordinary(tick.exact(), 90),
    ensures
        about(
            mid.mul(b).div(num(TEN_THOUSAND)).max(tick),
            larger(product(mid.exact(), b.exact()) / 10000real, tick.exact()),
            10real,
        ),
{
    let (m, x, t) = (mid.exact(), b.exact(), tick.exact());
    let k = num(TEN_THOUSAND);
    lemma_whole_constants();
    lemma_about_itself(mid);
    lemma_about_itself(b);
    lemma_about_itself(k);
    lemma_about_itself(tick);
    lemma_small_range(x);
    lemma_small_range(10000real);
    lemma_ordinary_product(m, x, 90, 20);
    lemma_about_product(mid, b, m, x, 0real, 0real, 110);
    lemma_ordinary_ratio(product(m, x), 10000real, 110, 20);
    lemma_about_ratio(mid.mul(b), k, product(m, x), 10000real, 1real, 0real, 130);
    assert(ratio(product(m, x), 10000real) == product(m, x) / 10000real) by {
        reveal(ratio);
    }
    let d = mid.mul(b).div(k);
    let target = product(m, x) / 10000real;
    lemma_about_looser(d, target, 3real, 10real);
    lemma_about_looser(tick, t, 0real, 10real);
    lemma_about_smaller(d, tick, target, t, 10real);
}

proof fn lemma_small_range(x: real)
    requires
        1real <= x <= 10000real,
    ensures
        ordinary(x, 20),
{
    assert(power(20) == 1048576real) by {
        reveal(power);
        vstd::arithmetic::power2::lemma2_to64();
    }
    reveal(product);
}

/// A new calculator keeps its settings: the window of at least two steps, the
/// step and the warm-up of at least one, the depth of view, the skew, the factor
/// and the floor of the half-spread; its alpha moves the price by the set `c1`,
/// or else by so many ticks, and it has seen nothing.
pub proof fn law_new_calculators_keep_their_settings(cfg: VolObiConfig, tick: B64, most: B64)
    ensures
        ({
            let calc = CalcView::fresh(cfg, tick, most);
            &&& calc.mid_stats.capacity == (if cfg.window_steps >= 2 { cfg.window_steps as nat } else { 2nat })
            &&& calc.imb_stats.capacity == calc.mid_stats.capacity
            &&& calc.mid_stats.window.len() == 0 && calc.imb_stats.window.len() == 0
            &&& calc.step_ns == (if cfg.step_ns >= 1 { cfg.step_ns } else { 1 })
            &&& calc.min_warmup_samples == (if cfg.min_warmup_samples >= 1 { cfg.min_warmup_samples } else { 1 })
            &&& calc.looking_depth == cfg.looking_depth
            &&& calc.skew == cfg.skew
            &&& calc.vol_to_half_spread == cfg.vol_to_half_spread
            &&& calc.min_half_spread_bps == cfg.min_half_spread_bps
            &&& calc.max_position_dollar == most
            &&& tick.gt(num(ZERO)) ==> calc.tick_size == tick
            &&& cfg.c1.gt(num(ZERO)) ==> calc.c1 == cfg.c1
            &&& !cfg.c1.gt(num(ZERO)) && calc.c1.finite() ==> calc.c1.near(
                cfg.c1_ticks.exact() * calc.tick_size.exact(),
            )
            &&& !calc.warmed_up && calc.total_samples == 0 && !calc.has_prev_mid && !calc.has_alpha_override
        }),
{
    let calc = CalcView::fresh(cfg, tick, most);
    if !cfg.c1.gt(num(ZERO)) && calc.c1.finite() {
        crate::binary64::measure::lemma_finite_terms(cfg.c1_ticks, calc.tick_size);
        lemma_mul_near(cfg.c1_ticks, calc.tick_size);
    }
}

/// The volatility per step is scaled to a second: the square of the scale is
/// the number of steps in a second, to a few millionths.
pub proof fn law_volatility_is_per_second(cfg: VolObiConfig, tick: B64, most: B64)
    requires
        1 <= cfg.step_ns <= 1_000_000_000_000,
    ensures
        ({
            let scale = CalcView::fresh(cfg, tick, most).vol_scale.exact();
            let steps = ratio(1000000000real, whole(cfg.step_ns as int));
            &&& scale >= 0real
            &&& 1000000real * size(scale * scale - steps) <= 4real * steps
        }),
{
    let n = B64::from_i64(cfg.step_ns);
    let x = whole(cfg.step_ns as int);
    lemma_whole_constants();
    lemma_step_exact(cfg.step_ns);
    lemma_step_range(x);
    lemma_step_range(1000000000real);
    lemma_about_itself(num(BILLION));
    lemma_about_itself(n);
    lemma_ordinary_ratio(1000000000real, x, 40, 40);
    let steps = ratio(1000000000real, x);
    lemma_about_ratio(num(BILLION), n, 1000000000real, x, 0real, 0real, 80);
    let q = num(BILLION).div(n);
    lemma_about_plain(q, steps, 2real);
    crate::binary64::error::lemma_sqrt_near(q);
    super::exact::lemma_gap();
    let (g, y) = (gap(), q.exact());
    assert(4real * g * y <= y / 1000000000real) by (nonlinear_arith)
        requires
            g == 1real / 4503599627370496real,
            y >= 0real,
    ;
    lemma_twice(steps);
}

proof fn lemma_twice(x: real)
    ensures
        product(0real + 0real + 2real, x) == 2real * x,
{
    reveal(product);
}

proof fn lemma_step_range(x: real)
    requires
        1real <= x <= 1000000000000real,
    ensures
        ordinary(x, 40),
{
    assert(power(40) == 1099511627776real) by {
        reveal(power);
        vstd::arithmetic::power2::lemma2_to64_rest();
    }
    reveal(product);
    let p = power(40);
    assert(x * p >= 1real) by (nonlinear_arith)
        requires
            x >= 1real,
            p >= 1real,
    ;
}

proof fn lemma_step_exact(n: i64)
    requires
        1 <= n <= 1_000_000_000_000,
    ensures
        B64::from_i64(n).finite(),
        B64::from_i64(n).exact() == whole(n as int),
{
    crate::binary64::error::lemma_count_exact(n as u64);
    assert(B64::from_i64(n) == B64::from_u64(n as u64)) by {
        reveal(B64::spec_from_i64);
        reveal(B64::spec_from_u64);
    }
}

/// The limit is far above ordinary numbers.
pub proof fn lemma_room()
    ensures
        limit() >= 100000000000000000000000000000000000000real,
{
    lemma_powers(64, 64);
    lemma_powers(128, 900);
    crate::binary64::rough::lemma_big_power();
    let a = power(64);
    assert(a == 18446744073709551616real) by {
        reveal(power);
        vstd::arithmetic::power2::lemma2_to64();
    }
    assert(a * a >= 100000000000000000000000000000000000000real) by (nonlinear_arith)
        requires
            a == 18446744073709551616real,
    ;
    reveal(product);
}

/// A limit that is positive is kept and any other is none; it changes nothing
/// else.
pub proof fn law_limits_are_positive_or_none(calc: CalcView, value: B64)
    ensures
        value.gt(num(ZERO)) ==> calc.limited(value) == (CalcView { max_position_dollar: value, ..calc }),
        !value.gt(num(ZERO)) ==> calc.limited(value) == (CalcView { max_position_dollar: num(ZERO), ..calc }),
{
}

/// A reset forgets what was seen and keeps every setting.
pub proof fn law_resets_keep_the_settings(calc: CalcView)
    ensures
        ({
            let r = calc.emptied();
            &&& r.mid_stats.window.len() == 0 && r.imb_stats.window.len() == 0
            &&& r.mid_stats.capacity == calc.mid_stats.capacity && r.imb_stats.capacity == calc.imb_stats.capacity
            &&& !r.warmed_up && r.total_samples == 0 && !r.has_prev_mid && r.last_sample_ns == 0
            &&& !r.has_alpha_override
            &&& r.tick_size == calc.tick_size && r.step_ns == calc.step_ns && r.vol_scale == calc.vol_scale
            &&& r.vol_to_half_spread == calc.vol_to_half_spread
            &&& r.min_half_spread_bps == calc.min_half_spread_bps
            &&& r.c1 == calc.c1 && r.skew == calc.skew && r.looking_depth == calc.looking_depth
            &&& r.min_warmup_samples == calc.min_warmup_samples
            &&& r.max_position_dollar == calc.max_position_dollar
        }),
{
}

/// A warm-up ends with the sample that completes it, and not before.
pub proof fn law_warm_up_ends_with_enough_samples(
    calc: CalcView,
    now_ns: i64,
    mid: B64,
    bids: Seq<(B64, B64)>,
    asks: Seq<(B64, B64)>,
)
    requires
        mid.finite() && mid.gt(num(ZERO)),
        !calc.warmed_up,
        calc.total_samples < i64::MAX,
    ensures
        ({
            let after = calc.updated(now_ns, mid, bids, asks);
            let samples = calc.total_samples + (if calc.has_prev_mid && calc.sample_due(now_ns) { 1int } else { 0int });
            after.warmed_up <==> samples >= calc.min_warmup_samples
        }),
{
    lemma_value_order(mid, num(ZERO));
}

} // verus!
