//! Volatility and order-book-imbalance quote engine.
//!
//! Mid changes and book imbalance are sampled on a `step_ns` clock. A quote
//! places a fair price at `mid + c1 * alpha` and a volatility-scaled
//! half-spread that is floored by `min_half_spread_bps`. An external alpha can
//! take the place of the local one.

use vstd::prelude::*;

use crate::binary64::consts::{
    BILLION, FORTY, MINUS_ONE, NAN, ONE, P01, P025, P1, SIX, TEN_THOUSAND, TINY_12, TINY_6, TINY_8,
    TINY_9, TWO, ZERO,
};
use crate::binary64::decimal::{at_least_power, decade, lemma_below_power, lemma_decade, reaches_power};
use crate::binary64::facts::{
    lemma_add_grows, lemma_add_nan, lemma_div_mono, lemma_grid_mono, lemma_mul_nan, lemma_sub_nan,
    lemma_sub_shrinks,
};
use crate::binary64::order::lemma_value_order;
use crate::binary64::{num, units, B64, INF_MAG};

use super::rolling::{RollingStats, StatsView};

verus! {

pub open spec fn clamped(x: B64, lo: B64, hi: B64) -> B64 {
    x.max(lo).min(hi)
}

fn clamp(x: B64, lo: B64, hi: B64) -> (r: B64)
    ensures
        r == clamped(x, lo, hi),
{
    x.max(lo).min(hi)
}

/// The summed size of the bids priced at or above `lower`, in book order.
pub open spec fn bid_depth(levels: Seq<(B64, B64)>, lower: B64) -> B64
    decreases levels.len(),
{
    if levels.len() == 0 {
        num(ZERO)
    } else {
        let rest = bid_depth(levels.drop_last(), lower);
        if levels.last().0.ge(lower) {
            rest.add(levels.last().1)
        } else {
            rest
        }
    }
}

/// The summed size of the asks priced at or below `upper`, in book order.
pub open spec fn ask_depth(levels: Seq<(B64, B64)>, upper: B64) -> B64
    decreases levels.len(),
{
    if levels.len() == 0 {
        num(ZERO)
    } else {
        let rest = ask_depth(levels.drop_last(), upper);
        if levels.last().0.le(upper) {
            rest.add(levels.last().1)
        } else {
            rest
        }
    }
}

/// Sums the size of bids with price >= `lower`.
pub fn sum_bid_from(levels: &[(B64, B64)], lower: B64) -> (r: B64)
    ensures
        r == bid_depth(levels@, lower),
{
    let mut sum: B64 = num(ZERO);
    let mut i: usize = 0;
    while i < levels.len()
        invariant
            i <= levels.len(),
            sum == bid_depth(levels@.take(i as int), lower),
        decreases levels.len() - i,
    {
        assert(levels@.take(i + 1).drop_last() == levels@.take(i as int));
        let (px, qty) = levels[i];
        if px.ge(lower) {
            sum = sum.add(qty);
        }
        i = i + 1;
    }
    assert(levels@.take(levels@.len() as int) == levels@);
    sum
}

/// Sums the size of asks with price <= `upper`.
pub fn sum_ask_to(levels: &[(B64, B64)], upper: B64) -> (r: B64)
    ensures
        r == ask_depth(levels@, upper),
{
    let mut sum: B64 = num(ZERO);
    let mut i: usize = 0;
    while i < levels.len()
        invariant
            i <= levels.len(),
            sum == ask_depth(levels@.take(i as int), upper),
        decreases levels.len() - i,
    {
        assert(levels@.take(i + 1).drop_last() == levels@.take(i as int));
        let (px, qty) = levels[i];
        if px.le(upper) {
            sum = sum.add(qty);
        }
        i = i + 1;
    }
    assert(levels@.take(levels@.len() as int) == levels@);
    sum
}

/// The gap between the two best levels, where there is a positive finite one.
pub open spec fn level_step(levels: Seq<(B64, B64)>) -> Option<B64> {
    let gap = levels[0].0.sub(levels[1].0).abs();
    if levels.len() >= 2 && gap.is_finite() && gap.gt(num(ZERO)) {
        Some(gap)
    } else {
        None
    }
}

/// The tick of a price without a book: four decades below its first digit, at
/// least 1e-8, and 0.01 where the price is unusable.
pub open spec fn decade_tick(mid: B64) -> B64 {
    if !mid.is_finite() || mid.le(num(ZERO)) {
        num(P01)
    } else {
        B64::spec_power_of_ten(decade(units(mid.mag())) - 4).max(num(TINY_8))
    }
}

pub open spec fn tick_of(bids: Seq<(B64, B64)>, asks: Seq<(B64, B64)>, mid: B64) -> B64 {
    match level_step(bids) {
        Some(t) => t,
        None => match level_step(asks) {
            Some(t) => t,
            None => decade_tick(mid),
        },
    }
}

fn step_of(levels: &[(B64, B64)]) -> (r: Option<B64>)
    ensures
        r == level_step(levels@),
{
    if levels.len() >= 2 {
        let t: B64 = levels[0].0.sub(levels[1].0).abs();
        if t.is_finite() && t.gt(num(ZERO)) {
            return Some(t);
        }
    }
    None
}

/// Finds the decade of a positive finite price.
fn decade_of(mid: B64) -> (d: i32)
    requires
        mid.finite(),
        mid.gt(num(ZERO)),
    ensures
        d == decade(units(mid.mag())),
        -400 <= d <= 400,
{
    let ghost u = units(mid.mag());
    proof {
        lemma_value_order(mid, num(ZERO));
        crate::binary64::layout::lemma_units_zero();
        crate::binary64::layout::lemma_units_mono(0, mid.mag());
        crate::binary64::decimal::lemma_above_power(u);
        lemma_below_power(mid.mag());
    }
    let mag: u64 = mid.abs().to_bits();
    let mut d: i32 = if at_least_power(mag, -8) { -8 } else { -400 };
    while d < 400 && at_least_power(mag, d + 1)
        invariant
            mag == mid.mag(),
            mag < INF_MAG,
            u == units(mag as int),
            -400 <= d <= 400,
            reaches_power(u, d as int),
            !reaches_power(u, 400),
        decreases 400 - d,
    {
        d = d + 1;
    }
    proof {
        lemma_decade(u, d as int);
    }
    d
}

/// Infers a tick from a two-sided book, falling back to a mid-based decade.
pub fn tick_size_from_levels(bids: &[(B64, B64)], asks: &[(B64, B64)], mid: B64) -> (r: B64)
    ensures
        r == tick_of(bids@, asks@, mid),
{
    if let Some(t) = step_of(bids) {
        return t;
    }
    if let Some(t) = step_of(asks) {
        return t;
    }
    if !mid.is_finite() || mid.le(num(ZERO)) {
        return num(P01);
    }
    B64::power_of_ten(decade_of(mid) - 4).max(num(TINY_8))
}

#[derive(Debug, Clone, Copy, PartialEq, Eq, Structural)]
pub struct VolObiConfig {
    pub window_steps: usize,
    pub step_ns: i64,
    pub vol_to_half_spread: B64,
    pub min_half_spread_bps: B64,
    pub c1_ticks: B64,
    pub c1: B64,
    pub skew: B64,
    pub looking_depth: B64,
    pub min_warmup_samples: i64,
}

pub open spec fn default_vol_obi_config() -> VolObiConfig {
    VolObiConfig {
        window_steps: 6000,
        step_ns: 100_000_000,
        vol_to_half_spread: num(SIX),
        min_half_spread_bps: num(TWO),
        c1_ticks: num(FORTY),
        c1: num(ZERO),
        skew: num(P1),
        looking_depth: num(P025),
        min_warmup_samples: 100,
    }
}

impl Default for VolObiConfig {
    fn default() -> (r: VolObiConfig)
        ensures
            r == default_vol_obi_config(),
    {
        VolObiConfig {
            window_steps: 6000,
            step_ns: 100_000_000,
            // Venue fees are 0 on a Standard account. Keep a thin floor for
            // adverse selection, not a fake commission pad. Width is about 4 bps.
            vol_to_half_spread: num(SIX),
            min_half_spread_bps: num(TWO),
            c1_ticks: num(FORTY),
            c1: num(ZERO),
            skew: num(P1),
            looking_depth: num(P025),
            min_warmup_samples: 100,
        }
    }
}

#[derive(Debug)]
pub struct VolObiCalculator {
    pub mid_stats: RollingStats,
    pub imb_stats: RollingStats,
    pub prev_mid: B64,
    pub has_prev_mid: bool,
    pub volatility: B64,
    pub alpha: B64,
    pub local_alpha: B64,
    pub alpha_override: B64,
    pub has_alpha_override: bool,
    pub warmed_up: bool,
    pub total_samples: i64,
    pub tick_size: B64,
    pub step_ns: i64,
    pub last_sample_ns: i64,
    pub vol_scale: B64,
    pub vol_to_half_spread: B64,
    pub min_half_spread_bps: B64,
    pub c1: B64,
    pub skew: B64,
    pub looking_depth: B64,
    pub min_warmup_samples: i64,
    pub max_position_dollar: B64,
}

pub open spec fn at_least_one(n: i64) -> i64 {
    if n < 1 {
        1
    } else {
        n
    }
}

fn max_one(n: i64) -> (r: i64)
    ensures
        r == at_least_one(n),
{
    if n < 1 {
        1
    } else {
        n
    }
}

/// The prices around a fair price at the given depths, held at least the
/// minimal half-spread from the mid.
pub open spec fn floored_bid(raw: B64, mid: B64, min_bps: B64) -> B64 {
    let floor = mid.mul(num(ONE).sub(min_bps.div(num(TEN_THOUSAND))));
    if min_bps.gt(num(ZERO)) && raw.gt(floor) {
        floor
    } else {
        raw
    }
}

pub open spec fn floored_ask(raw: B64, mid: B64, min_bps: B64) -> B64 {
    let floor = mid.mul(num(ONE).add(min_bps.div(num(TEN_THOUSAND))));
    if min_bps.gt(num(ZERO)) && raw.lt(floor) {
        floor
    } else {
        raw
    }
}

/// What the calculator holds.
#[verifier::ext_equal]
pub struct CalcView {
    pub mid_stats: StatsView,
    pub imb_stats: StatsView,
    pub prev_mid: B64,
    pub has_prev_mid: bool,
    pub volatility: B64,
    pub alpha: B64,
    pub local_alpha: B64,
    pub alpha_override: B64,
    pub has_alpha_override: bool,
    pub warmed_up: bool,
    pub total_samples: i64,
    pub tick_size: B64,
    pub step_ns: i64,
    pub last_sample_ns: i64,
    pub vol_scale: B64,
    pub vol_to_half_spread: B64,
    pub min_half_spread_bps: B64,
    pub c1: B64,
    pub skew: B64,
    pub looking_depth: B64,
    pub min_warmup_samples: i64,
    pub max_position_dollar: B64,
}

impl View for VolObiCalculator {
    type V = CalcView;

    open spec fn view(&self) -> CalcView {
        CalcView {
            mid_stats: self.mid_stats@,
            imb_stats: self.imb_stats@,
            prev_mid: self.prev_mid,
            has_prev_mid: self.has_prev_mid,
            volatility: self.volatility,
            alpha: self.alpha,
            local_alpha: self.local_alpha,
            alpha_override: self.alpha_override,
            has_alpha_override: self.has_alpha_override,
            warmed_up: self.warmed_up,
            total_samples: self.total_samples,
            tick_size: self.tick_size,
            step_ns: self.step_ns,
            last_sample_ns: self.last_sample_ns,
            vol_scale: self.vol_scale,
            vol_to_half_spread: self.vol_to_half_spread,
            min_half_spread_bps: self.min_half_spread_bps,
            c1: self.c1,
            skew: self.skew,
            looking_depth: self.looking_depth,
            min_warmup_samples: self.min_warmup_samples,
            max_position_dollar: self.max_position_dollar,
        }
    }
}

impl CalcView {
    /// A calculator that has seen nothing.
    pub open spec fn fresh(cfg: VolObiConfig, tick_size: B64, max_position_dollar: B64) -> CalcView {
        let capacity = if cfg.window_steps < 2 { 2 } else { cfg.window_steps as nat };
        let tick = if tick_size.gt(num(ZERO)) { tick_size } else { num(P01) };
        CalcView {
            mid_stats: StatsView::empty(capacity),
            imb_stats: StatsView::empty(capacity),
            prev_mid: num(ZERO),
            has_prev_mid: false,
            volatility: num(ZERO),
            alpha: num(ZERO),
            local_alpha: num(ZERO),
            alpha_override: num(ZERO),
            has_alpha_override: false,
            warmed_up: false,
            total_samples: 0,
            tick_size: tick,
            step_ns: at_least_one(cfg.step_ns),
            last_sample_ns: 0,
            vol_scale: num(BILLION).div(B64::from_i64(at_least_one(cfg.step_ns))).sqrt(),
            vol_to_half_spread: cfg.vol_to_half_spread,
            min_half_spread_bps: cfg.min_half_spread_bps,
            c1: if cfg.c1.gt(num(ZERO)) { cfg.c1 } else { cfg.c1_ticks.mul(tick) },
            skew: cfg.skew,
            looking_depth: cfg.looking_depth,
            min_warmup_samples: at_least_one(cfg.min_warmup_samples),
            max_position_dollar,
        }
    }

    /// The same settings without a sample.
    pub open spec fn emptied(self) -> CalcView {
        CalcView {
            mid_stats: StatsView::empty(self.mid_stats.capacity),
            imb_stats: StatsView::empty(self.imb_stats.capacity),
            prev_mid: num(ZERO),
            has_prev_mid: false,
            volatility: num(ZERO),
            alpha: num(ZERO),
            local_alpha: num(ZERO),
            has_alpha_override: false,
            warmed_up: false,
            total_samples: 0,
            last_sample_ns: 0,
            ..self
        }
    }

    /// Whether an update at `now_ns` is sampled.
    pub open spec fn sample_due(self, now_ns: i64) -> bool {
        self.last_sample_ns == 0 || now_ns - self.last_sample_ns >= self.step_ns
    }

    /// The size of the bids minus that of the asks within the looking depth.
    pub open spec fn imbalance(self, mid: B64, bids: Seq<(B64, B64)>, asks: Seq<(B64, B64)>) -> B64 {
        bid_depth(bids, mid.mul(num(ONE).sub(self.looking_depth))).sub(
            ask_depth(asks, mid.mul(num(ONE).add(self.looking_depth))),
        )
    }

    /// The samples of mid changes and imbalances after an update.
    pub open spec fn sampled(self, now_ns: i64, mid: B64, imbalance: B64) -> CalcView {
        if !self.sample_due(now_ns) {
            self
        } else {
            CalcView {
                mid_stats: if self.has_prev_mid {
                    self.mid_stats.pushed(mid.sub(self.prev_mid))
                } else {
                    self.mid_stats
                },
                imb_stats: self.imb_stats.pushed(imbalance),
                total_samples: if self.has_prev_mid && self.total_samples < i64::MAX {
                    (self.total_samples + 1) as i64
                } else {
                    self.total_samples
                },
                prev_mid: mid,
                has_prev_mid: true,
                last_sample_ns: now_ns,
                ..self
            }
        }
    }

    /// Volatility and alpha after an update, once there are samples enough.
    pub open spec fn refreshed(self, due: bool, imbalance: B64) -> CalcView {
        if self.total_samples < self.min_warmup_samples {
            self
        } else {
            let local_alpha = self.imb_stats.zscore(imbalance);
            CalcView {
                warmed_up: true,
                volatility: if due {
                    self.mid_stats.deviation.mul(self.vol_scale)
                } else {
                    self.volatility
                },
                local_alpha,
                alpha: if self.has_alpha_override { self.alpha_override } else { local_alpha },
                ..self
            }
        }
    }

    /// After a book update; a mid that is not positive and finite changes nothing.
    pub open spec fn updated(
        self,
        now_ns: i64,
        mid: B64,
        bids: Seq<(B64, B64)>,
        asks: Seq<(B64, B64)>,
    ) -> CalcView {
        let imbalance = self.imbalance(mid, bids, asks);
        if !mid.is_finite() || mid.le(num(ZERO)) {
            self
        } else {
            self.sampled(now_ns, mid, imbalance).refreshed(self.sample_due(now_ns), imbalance)
        }
    }

    /// With the external alpha set or cleared.
    pub open spec fn overridden(self, alpha: Option<B64>) -> CalcView {
        CalcView {
            has_alpha_override: alpha is Some,
            alpha_override: match alpha {
                Some(a) => a,
                None => self.alpha_override,
            },
            alpha: if !self.warmed_up {
                self.alpha
            } else {
                match alpha {
                    Some(a) => a,
                    None => self.local_alpha,
                }
            },
            ..self
        }
    }

    /// With another largest position; one that is not positive lifts the limit.
    pub open spec fn limited(self, value: B64) -> CalcView {
        CalcView { max_position_dollar: if value.gt(num(ZERO)) { value } else { num(ZERO) }, ..self }
    }

    /// The position as a fraction of the largest one, within -1 and 1.
    pub open spec fn norm_position(self, mid: B64, position: B64) -> B64 {
        if self.max_position_dollar.gt(num(ZERO)) {
            clamped(position.mul(mid).div(self.max_position_dollar), num(MINUS_ONE), num(ONE))
        } else {
            num(ZERO)
        }
    }

    pub open spec fn raw_bid(self, mid: B64, position: B64) -> B64 {
        let half = self.volatility.mul(self.vol_to_half_spread).div(self.tick_size);
        let norm = self.norm_position(mid, position);
        let depth = half.mul(num(ONE).add(self.skew.mul(norm))).max(num(ZERO));
        floored_bid(
            mid.add(self.c1.mul(self.alpha)).sub(depth.mul(self.tick_size)),
            mid,
            self.min_half_spread_bps,
        )
    }

    pub open spec fn raw_ask(self, mid: B64, position: B64) -> B64 {
        let half = self.volatility.mul(self.vol_to_half_spread).div(self.tick_size);
        let norm = self.norm_position(mid, position);
        let depth = half.mul(num(ONE).sub(self.skew.mul(norm))).max(num(ZERO));
        floored_ask(
            mid.add(self.c1.mul(self.alpha)).add(depth.mul(self.tick_size)),
            mid,
            self.min_half_spread_bps,
        )
    }

    /// The quote on the tick grid; none before the warm-up, around a mid that
    /// is not positive and finite, or where it would be crossed or not positive.
    pub open spec fn quote(self, mid: B64, position: B64) -> Option<(B64, B64)> {
        let bid = self.raw_bid(mid, position).div(self.tick_size).floor().mul(self.tick_size);
        let ask = self.raw_ask(mid, position).div(self.tick_size).ceil().mul(self.tick_size);
        if !self.warmed_up || !mid.is_finite() || mid.le(num(ZERO)) {
            None
        } else if bid.ge(ask) || bid.le(num(ZERO)) {
            None
        } else {
            Some((bid, ask))
        }
    }
}

impl VolObiCalculator {
    pub open spec fn wf(&self) -> bool {
        &&& self.mid_stats.wf()
        &&& self.imb_stats.wf()
        &&& self.step_ns >= 1
        &&& self.min_warmup_samples >= 1
        &&& self.total_samples >= 0
        &&& self.tick_size.gt(num(ZERO))
    }

    pub fn new(cfg: &VolObiConfig, tick_size: B64, max_position_dollar: B64) -> (r: VolObiCalculator)
        ensures
            r.wf(),
            r@ == CalcView::fresh(*cfg, tick_size, max_position_dollar),
    {
        let tick: B64 = if tick_size.gt(num(ZERO)) { tick_size } else { num(P01) };
        let c1: B64 = if cfg.c1.gt(num(ZERO)) { cfg.c1 } else { cfg.c1_ticks.mul(tick) };
        let steps: usize = if cfg.window_steps < 2 { 2 } else { cfg.window_steps };
        let step_ns: i64 = max_one(cfg.step_ns);
        proof {
            lemma_value_order(num(ZERO), num(P01));
        }
        VolObiCalculator {
            mid_stats: RollingStats::new(steps),
            imb_stats: RollingStats::new(steps),
            prev_mid: num(ZERO),
            has_prev_mid: false,
            volatility: num(ZERO),
            alpha: num(ZERO),
            local_alpha: num(ZERO),
            alpha_override: num(ZERO),
            has_alpha_override: false,
            warmed_up: false,
            total_samples: 0,
            tick_size: tick,
            step_ns,
            last_sample_ns: 0,
            vol_scale: num(BILLION).div(B64::from_i64(step_ns)).sqrt(),
            vol_to_half_spread: cfg.vol_to_half_spread,
            min_half_spread_bps: cfg.min_half_spread_bps,
            c1,
            skew: cfg.skew,
            looking_depth: cfg.looking_depth,
            min_warmup_samples: max_one(cfg.min_warmup_samples),
            max_position_dollar,
        }
    }

    /// Feeds a book update.
    pub fn on_book_update(
        &mut self,
        now_ns: i64,
        mid_price: B64,
        bids: &[(B64, B64)],
        asks: &[(B64, B64)],
    )
        requires
            old(self).wf(),
        ensures
            final(self).wf(),
            final(self)@ == old(self)@.updated(now_ns, mid_price, bids@, asks@),
    {
        if !mid_price.is_finite() || mid_price.le(num(ZERO)) {
            return;
        }
        let due: bool = self.last_sample_ns == 0 || now_ns as i128 - self.last_sample_ns as i128
            >= self.step_ns as i128;
        if due {
            if self.has_prev_mid {
                self.mid_stats.push(mid_price.sub(self.prev_mid));
                if self.total_samples < i64::MAX {
                    self.total_samples = self.total_samples + 1;
                }
            }
            self.prev_mid = mid_price;
            self.has_prev_mid = true;
            self.last_sample_ns = now_ns;
        }
        let lower: B64 = mid_price.mul(num(ONE).sub(self.looking_depth));
        let upper: B64 = mid_price.mul(num(ONE).add(self.looking_depth));
        let imbalance: B64 = sum_bid_from(bids, lower).sub(sum_ask_to(asks, upper));
        if due {
            self.imb_stats.push(imbalance);
        }
        if self.total_samples >= self.min_warmup_samples {
            self.warmed_up = true;
            if due {
                self.volatility = self.mid_stats.std_dev().mul(self.vol_scale);
            }
            self.local_alpha = self.imb_stats.zscore(imbalance);
            self.alpha = if self.has_alpha_override {
                self.alpha_override
            } else {
                self.local_alpha
            };
        }
    }

    /// A bid and an ask on the tick grid, around the fair price.
    pub fn quote(&self, mid_price: B64, position_size: B64) -> (r: Option<(B64, B64)>)
        ensures
            r == self@.quote(mid_price, position_size),
    {
        if !self.warmed_up || !mid_price.is_finite() || mid_price.le(num(ZERO)) {
            return None;
        }
        let tick: B64 = self.tick_size;
        let half_spread_price: B64 = self.volatility.mul(self.vol_to_half_spread);
        let half_spread_tick: B64 = half_spread_price.div(tick);
        let fair_price: B64 = mid_price.add(self.c1.mul(self.alpha));
        let norm_pos: B64 = if self.max_position_dollar.gt(num(ZERO)) {
            clamp(
                position_size.mul(mid_price).div(self.max_position_dollar),
                num(MINUS_ONE),
                num(ONE),
            )
        } else {
            num(ZERO)
        };
        let bid_depth_tick: B64 = half_spread_tick.mul(num(ONE).add(self.skew.mul(norm_pos))).max(num(ZERO));
        let ask_depth_tick: B64 = half_spread_tick.mul(num(ONE).sub(self.skew.mul(norm_pos))).max(num(ZERO));
        let mut raw_bid: B64 = fair_price.sub(bid_depth_tick.mul(tick));
        let mut raw_ask: B64 = fair_price.add(ask_depth_tick.mul(tick));
        if self.min_half_spread_bps.gt(num(ZERO)) {
            let fraction: B64 = self.min_half_spread_bps.div(num(TEN_THOUSAND));
            let min_bid: B64 = mid_price.mul(num(ONE).sub(fraction));
            if raw_bid.gt(min_bid) {
                raw_bid = min_bid;
            }
            let min_ask: B64 = mid_price.mul(num(ONE).add(fraction));
            if raw_ask.lt(min_ask) {
                raw_ask = min_ask;
            }
        }
        let bid_price: B64 = raw_bid.div(tick).floor().mul(tick);
        let ask_price: B64 = raw_ask.div(tick).ceil().mul(tick);
        if bid_price.ge(ask_price) || bid_price.le(num(ZERO)) {
            return None;
        }
        Some((bid_price, ask_price))
    }

    /// Sets or clears the external alpha.
    pub fn set_alpha_override(&mut self, alpha: Option<B64>)
        ensures
            final(self)@ == old(self)@.overridden(alpha),
            old(self).wf() ==> final(self).wf(),
    {
        match alpha {
            None => {
                self.has_alpha_override = false;
                if self.warmed_up {
                    self.alpha = self.local_alpha;
                }
            },
            Some(a) => {
                self.has_alpha_override = true;
                self.alpha_override = a;
                if self.warmed_up {
                    self.alpha = a;
                }
            },
        }
    }

    /// Sets the largest position; a limit that is not positive lifts it.
    pub fn set_max_position_dollar(&mut self, value: B64)
        ensures
            final(self)@ == old(self)@.limited(value),
            old(self).wf() ==> final(self).wf(),
    {
        self.max_position_dollar = if value.gt(num(ZERO)) { value } else { num(ZERO) };
    }

    /// Forgets every sample.
    pub fn reset(&mut self)
        requires
            old(self).wf(),
        ensures
            final(self).wf(),
            final(self)@ == old(self)@.emptied(),
    {
        self.mid_stats.clear();
        self.imb_stats.clear();
        self.prev_mid = num(ZERO);
        self.has_prev_mid = false;
        self.volatility = num(ZERO);
        self.alpha = num(ZERO);
        self.local_alpha = num(ZERO);
        self.has_alpha_override = false;
        self.warmed_up = false;
        self.total_samples = 0;
        self.last_sample_ns = 0;
    }

    pub fn warmed_up(&self) -> (r: bool)
        ensures
            r == self@.warmed_up,
    {
        self.warmed_up
    }

    pub fn volatility(&self) -> (r: B64)
        ensures
            r == self@.volatility,
    {
        self.volatility
    }

    pub fn alpha(&self) -> (r: B64)
        ensures
            r == self@.alpha,
    {
        self.alpha
    }

    pub fn total_samples(&self) -> (r: i64)
        ensures
            r == self@.total_samples,
    {
        self.total_samples
    }
}

pub open spec fn reduce_min_depth(mid: B64, tick: B64) -> B64 {
    if tick.gt(num(ZERO)) {
        tick
    } else {
        mid.mul(num(TINY_6)).max(num(TINY_9))
    }
}

/// The reducing quote: the ask of a long position or the bid of a short one,
/// the other side a NaN.
pub open spec fn reducing_quote(mid: B64, position: B64, tick: B64, fallback_bps: B64) -> Option<(B64, B64)> {
    let min_depth = reduce_min_depth(mid, tick);
    let depth = mid.mul(fallback_bps.max(num(ONE))).div(num(TEN_THOUSAND)).max(min_depth);
    let grid = tick.max(num(TINY_12));
    if position.abs().lt(num(TINY_12)) || mid.le(num(ZERO)) {
        None
    } else if position.gt(num(ZERO)) {
        let ask = mid.add(depth).div(grid).ceil().mul(grid);
        Some((num(NAN), if ask.le(mid) { mid.add(min_depth) } else { ask }))
    } else {
        let bid = mid.sub(depth).div(grid).floor().mul(grid);
        Some((if bid.ge(mid) || bid.le(num(ZERO)) { mid.sub(min_depth) } else { bid }, num(NAN)))
    }
}

/// Passive reducing quote when the engine is not ready but inventory is open.
pub fn fallback_reduce_only(mid: B64, position: B64, tick: B64, fallback_bps: B64) -> (r: Option<(B64, B64)>)
    ensures
        r == reducing_quote(mid, position, tick, fallback_bps),
{
    if position.abs().lt(num(TINY_12)) || mid.le(num(ZERO)) {
        return None;
    }
    let min_depth: B64 = if tick.gt(num(ZERO)) { tick } else { mid.mul(num(TINY_6)).max(num(TINY_9)) };
    let depth: B64 = mid.mul(fallback_bps.max(num(ONE))).div(num(TEN_THOUSAND)).max(min_depth);
    let grid: B64 = tick.max(num(TINY_12));
    if position.gt(num(ZERO)) {
        let mut ask: B64 = mid.add(depth).div(grid).ceil().mul(grid);
        if ask.le(mid) {
            ask = mid.add(min_depth);
        }
        Some((num(NAN), ask))
    } else {
        let mut bid: B64 = mid.sub(depth).div(grid).floor().mul(grid);
        if bid.ge(mid) || bid.le(num(ZERO)) {
            bid = mid.sub(min_depth);
        }
        Some((bid, num(NAN)))
    }
}

/// A calculator makes no quote before its warm-up, neither when it is new nor
/// after a reset.
pub proof fn law_cold_makes_no_quote(
    cfg: VolObiConfig,
    tick: B64,
    limit: B64,
    calc: CalcView,
    mid: B64,
    position: B64,
)
    ensures
        CalcView::fresh(cfg, tick, limit).quote(mid, position) is None,
        calc.emptied().quote(mid, position) is None,
{
}

/// A fresh sample is taken at most once per step of the clock.
pub proof fn law_one_sample_per_step(
    calc: CalcView,
    now_ns: i64,
    mid: B64,
    bids: Seq<(B64, B64)>,
    asks: Seq<(B64, B64)>,
    later_ns: i64,
)
    requires
        calc.sample_due(now_ns),
        mid.is_finite(),
        mid.gt(num(ZERO)),
        now_ns != 0,
        later_ns - now_ns < calc.step_ns,
    ensures
        !calc.updated(now_ns, mid, bids, asks).sample_due(later_ns),
{
}

/// Once warmed up, a calculator stays so until it is reset.
pub proof fn law_warm_up_lasts(
    calc: CalcView,
    now_ns: i64,
    mid: B64,
    bids: Seq<(B64, B64)>,
    asks: Seq<(B64, B64)>,
    alpha: Option<B64>,
    limit: B64,
)
    requires
        calc.warmed_up,
    ensures
        calc.updated(now_ns, mid, bids, asks).warmed_up,
        calc.overridden(alpha).warmed_up,
        calc.limited(limit).warmed_up,
        !calc.emptied().warmed_up,
{
}

/// The prices of a quote are positive and uncrossed, unless one is a NaN.
pub proof fn law_quotes_are_uncrossed(calc: CalcView, mid: B64, position: B64)
    ensures
        match calc.quote(mid, position) {
            Some((bid, ask)) => !bid.nan() && !ask.nan() ==> num(ZERO).lt(bid) && bid.lt(ask),
            None => true,
        },
{
}

/// Before they are put on the tick grid, the prices stay at least the minimal
/// half-spread away from the mid.
pub proof fn law_half_spread_is_floored(calc: CalcView, mid: B64, position: B64)
    requires
        calc.min_half_spread_bps.gt(num(ZERO)),
    ensures
        ({
            let fraction = calc.min_half_spread_bps.div(num(TEN_THOUSAND));
            &&& !calc.raw_bid(mid, position).gt(mid.mul(num(ONE).sub(fraction)))
            &&& !calc.raw_ask(mid, position).lt(mid.mul(num(ONE).add(fraction)))
        }),
{
}

/// An external alpha holds through book updates, and clearing it gives the
/// local one back and changes nothing else that a quote depends on.
pub proof fn law_cleared_override_restores_alpha(
    calc: CalcView,
    a: B64,
    now_ns: i64,
    bids: Seq<(B64, B64)>,
    asks: Seq<(B64, B64)>,
    mid: B64,
    position: B64,
)
    requires
        calc.warmed_up,
        calc.alpha == calc.local_alpha,
    ensures
        calc.overridden(Some(a)).alpha == a,
        calc.overridden(Some(a)).updated(now_ns, mid, bids, asks).alpha == a,
        calc.overridden(Some(a)).overridden(None).alpha == calc.alpha,
        calc.overridden(Some(a)).overridden(None).quote(mid, position) == calc.quote(mid, position),
{
}

/// The reducing quote of a long position has no bid and its ask never lies
/// below the mid; that of a short one has no ask and its bid never lies above.
pub proof fn law_fallback_only_reduces(mid: B64, position: B64, tick: B64, fallback_bps: B64)
    requires
        mid.is_finite(),
    ensures
        match reducing_quote(mid, position, tick, fallback_bps) {
            Some((bid, ask)) => if position.gt(num(ZERO)) {
                bid.nan() && !ask.lt(mid)
            } else {
                ask.nan() && !bid.gt(mid)
            },
            None => position.abs().lt(num(TINY_12)) || mid.le(num(ZERO)),
        },
{
    let depth = reduce_min_depth(mid, tick);
    lemma_value_order(num(ZERO), num(TINY_9));
    assert(depth.ge(num(ZERO)));
    lemma_add_grows(mid, depth);
    lemma_sub_shrinks(mid, depth);
}

/// On the tick grid too, a quote keeps the minimal half-spread: it is never
/// better than the floored prices on the grid.
pub proof fn law_grid_quotes_keep_the_half_spread(calc: CalcView, mid: B64, position: B64)
    requires
        calc.tick_size.is_finite(),
        calc.tick_size.gt(num(ZERO)),
        calc.min_half_spread_bps.is_finite(),
        calc.min_half_spread_bps.gt(num(ZERO)),
        !calc.raw_bid(mid, position).nan(),
        !calc.raw_ask(mid, position).nan(),
    ensures
        match calc.quote(mid, position) {
            Some((bid, ask)) => {
                let tick = calc.tick_size;
                let fraction = calc.min_half_spread_bps.div(num(TEN_THOUSAND));
                &&& bid.le(mid.mul(num(ONE).sub(fraction)).div(tick).floor().mul(tick))
                &&& ask.ge(mid.mul(num(ONE).add(fraction)).div(tick).ceil().mul(tick))
            },
            None => true,
        },
{
    let fraction = calc.min_half_spread_bps.div(num(TEN_THOUSAND));
    let low = mid.mul(num(ONE).sub(fraction));
    let high = mid.mul(num(ONE).add(fraction));
    if calc.quote(mid, position) is Some {
        lemma_value_order(num(ZERO), num(TEN_THOUSAND));
        lemma_value_order(num(ZERO), num(ONE));
        lemma_div_mono(num(ZERO), calc.min_half_spread_bps, num(TEN_THOUSAND));
        lemma_value_order(mid, num(ZERO));
        lemma_sub_nan(num(ONE), fraction);
        lemma_add_nan(num(ONE), fraction);
        lemma_mul_nan(mid, num(ONE).sub(fraction));
        lemma_mul_nan(mid, num(ONE).add(fraction));
        lemma_grid_mono(calc.raw_bid(mid, position), low, calc.tick_size);
        lemma_grid_mono(high, calc.raw_ask(mid, position), calc.tick_size);
    }
}

} // verus!
