//! Inventory exit bias and quality-spread widening of one two-sided quote.

use vstd::prelude::*;

use crate::binary64::consts::{
    HALF, ONE, ONE_P0001, P03, P05, P35, P45, P65, P75, TINY_12, TINY_6, TINY_9, ZERO,
};
use crate::binary64::{num, B64};

verus! {

#[derive(Debug, Clone, Copy, PartialEq, Eq, Structural)]
pub struct InventoryExitBias {
    pub enabled: bool,
    pub min_ratio: B64,
    pub exit_tighten_per_ratio: B64,
    pub add_widen_per_ratio: B64,
    pub max_exit_tighten: B64,
    pub max_add_widen: B64,
    pub adverse_boost_per_bps: B64,
}

pub open spec fn default_exit_bias() -> InventoryExitBias {
    InventoryExitBias {
        enabled: true,
        min_ratio: num(P05),
        exit_tighten_per_ratio: num(P45),
        add_widen_per_ratio: num(P75),
        max_exit_tighten: num(P35),
        max_add_widen: num(P65),
        adverse_boost_per_bps: num(P03),
    }
}

impl Default for InventoryExitBias {
    fn default() -> (r: InventoryExitBias)
        ensures
            r == default_exit_bias(),
    {
        InventoryExitBias {
            enabled: true,
            min_ratio: num(P05),
            exit_tighten_per_ratio: num(P45),
            add_widen_per_ratio: num(P75),
            max_exit_tighten: num(P35),
            max_add_widen: num(P65),
            adverse_boost_per_bps: num(P03),
        }
    }
}

/// The price rounded down to the tick grid, where there is one.
pub open spec fn floored(p: B64, tick: B64) -> B64 {
    if tick.gt(num(ZERO)) {
        p.div(tick).floor().mul(tick)
    } else {
        p
    }
}

/// The price rounded up to the tick grid, where there is one.
pub open spec fn ceiled(p: B64, tick: B64) -> B64 {
    if tick.gt(num(ZERO)) {
        p.div(tick).ceil().mul(tick)
    } else {
        p
    }
}

fn floor_tick(p: B64, tick: B64) -> (r: B64)
    ensures
        r == floored(p, tick),
{
    if tick.gt(num(ZERO)) {
        p.div(tick).floor().mul(tick)
    } else {
        p
    }
}

fn ceil_tick(p: B64, tick: B64) -> (r: B64)
    ensures
        r == ceiled(p, tick),
{
    if tick.gt(num(ZERO)) {
        p.div(tick).ceil().mul(tick)
    } else {
        p
    }
}

/// A side that stands in a quote: a finite positive price.
pub open spec fn standing(price: B64) -> bool {
    price.is_finite() && price.gt(num(ZERO))
}

/// The quote with both sides at `multiplier` times their distance from `mid`.
pub open spec fn widened(bid: B64, ask: B64, mid: B64, multiplier: B64, tick: B64) -> (B64, B64) {
    if multiplier.le(num(ONE_P0001)) || mid.le(num(ZERO)) {
        (bid, ask)
    } else {
        (
            if standing(bid) {
                floored(mid.sub(mid.sub(bid).max(num(ZERO)).mul(multiplier)), tick)
            } else {
                bid
            },
            if standing(ask) {
                ceiled(mid.add(ask.sub(mid).max(num(ZERO)).mul(multiplier)), tick)
            } else {
                ask
            },
        )
    }
}

/// Widens both sides away from mid when `multiplier` > 1 (adverse markouts).
pub fn apply_quality_spread_multiplier(bid: B64, ask: B64, mid: B64, multiplier: B64, tick: B64) -> (r: (
    B64,
    B64,
))
    ensures
        r == widened(bid, ask, mid, multiplier, tick),
{
    if multiplier.le(num(ONE_P0001)) || mid.le(num(ZERO)) {
        return (bid, ask);
    }
    let bid_out: B64 = if bid.is_finite() && bid.gt(num(ZERO)) {
        floor_tick(mid.sub(mid.sub(bid).max(num(ZERO)).mul(multiplier)), tick)
    } else {
        bid
    };
    let ask_out: B64 = if ask.is_finite() && ask.gt(num(ZERO)) {
        ceil_tick(mid.add(ask.sub(mid).max(num(ZERO)).mul(multiplier)), tick)
    } else {
        ask
    };
    (bid_out, ask_out)
}

/// What adverse fills beyond the threshold add to the bias.
pub open spec fn adverse_boost(adverse_bps: B64, threshold_bps: B64, per_bps: B64) -> B64 {
    num(ONE).add(
        adverse_bps.sub(threshold_bps).max(num(ZERO)).mul(per_bps.max(num(ZERO))).min(num(HALF)),
    )
}

/// A fraction that grows with the inventory ratio up to a limit.
pub open spec fn ratio_share(per_ratio: B64, ratio: B64, boost: B64, limit: B64) -> B64 {
    per_ratio.max(num(ZERO)).mul(ratio).mul(boost).min(limit.max(num(ZERO)))
}

pub open spec fn least_depth(mid: B64, tick: B64) -> B64 {
    if tick.gt(num(ZERO)) {
        tick
    } else {
        mid.mul(num(TINY_6)).max(num(TINY_9))
    }
}

/// How the depth of a side is scaled.
pub open spec fn depth_factor(reducing: bool, tighten: B64, widen: B64) -> B64 {
    if reducing {
        num(ONE).sub(tighten).max(num(P05))
    } else {
        num(ONE).add(widen)
    }
}

pub open spec fn biased_bid(bid: B64, mid: B64, tick: B64, factor: B64) -> B64 {
    let min_depth = least_depth(mid, tick);
    let moved = floored(mid.sub(mid.sub(bid).max(min_depth).mul(factor)), tick);
    if moved.ge(mid) {
        floored(mid.sub(min_depth), tick)
    } else {
        moved
    }
}

pub open spec fn biased_ask(ask: B64, mid: B64, tick: B64, factor: B64) -> B64 {
    let min_depth = least_depth(mid, tick);
    let moved = ceiled(mid.add(ask.sub(mid).max(min_depth).mul(factor)), tick);
    if moved.le(mid) {
        ceiled(mid.add(min_depth), tick)
    } else {
        moved
    }
}

/// The inventory as a fraction of its limit.
pub open spec fn inventory_ratio(position: B64, mid: B64, max_pos_usd: B64) -> B64 {
    position.abs().mul(mid).div(max_pos_usd)
}

/// Whether the inventory is large enough for a bias.
pub open spec fn bias_applies(cfg: InventoryExitBias, mid: B64, position: B64, max_pos_usd: B64) -> bool {
    &&& cfg.enabled
    &&& !mid.le(num(ZERO))
    &&& !max_pos_usd.le(num(ZERO))
    &&& !position.abs().lt(num(TINY_12))
    &&& !inventory_ratio(position, mid, max_pos_usd).lt(cfg.min_ratio)
}

/// The quote with its reducing side tightened and its adding side widened.
pub open spec fn biased(
    bid: B64,
    ask: B64,
    mid: B64,
    position: B64,
    max_pos_usd: B64,
    adverse_bps: B64,
    adverse_threshold_bps: B64,
    cfg: InventoryExitBias,
    tick: B64,
) -> (B64, B64) {
    let ratio = inventory_ratio(position, mid, max_pos_usd);
    let boost = adverse_boost(adverse_bps, adverse_threshold_bps, cfg.adverse_boost_per_bps);
    let tighten = ratio_share(cfg.exit_tighten_per_ratio, ratio, boost, cfg.max_exit_tighten);
    let widen = ratio_share(cfg.add_widen_per_ratio, ratio, boost, cfg.max_add_widen);
    if !bias_applies(cfg, mid, position, max_pos_usd) || (tighten.le(num(ZERO)) && widen.le(num(ZERO))) {
        (bid, ask)
    } else {
        (
            if standing(bid) {
                biased_bid(bid, mid, tick, depth_factor(position.lt(num(ZERO)), tighten, widen))
            } else {
                bid
            },
            if standing(ask) {
                biased_ask(ask, mid, tick, depth_factor(position.gt(num(ZERO)), tighten, widen))
            } else {
                ask
            },
        )
    }
}

/// Tightens the reducing side and widens the adding side as inventory grows.
pub fn apply_inventory_exit_bias(
    bid: B64,
    ask: B64,
    mid: B64,
    position: B64,
    max_pos_usd: B64,
    adverse_bps: B64,
    adverse_threshold_bps: B64,
    cfg: &InventoryExitBias,
    tick: B64,
) -> (r: (B64, B64))
    ensures
        r == biased(
            bid,
            ask,
            mid,
            position,
            max_pos_usd,
            adverse_bps,
            adverse_threshold_bps,
            *cfg,
            tick,
        ),
{
    if !cfg.enabled || mid.le(num(ZERO)) || max_pos_usd.le(num(ZERO)) || position.abs().lt(
        num(TINY_12),
    ) {
        return (bid, ask);
    }
    let ratio: B64 = position.abs().mul(mid).div(max_pos_usd);
    if ratio.lt(cfg.min_ratio) {
        return (bid, ask);
    }
    let adverse_excess: B64 = adverse_bps.sub(adverse_threshold_bps).max(num(ZERO));
    let boost: B64 = num(ONE).add(
        adverse_excess.mul(cfg.adverse_boost_per_bps.max(num(ZERO))).min(num(HALF)),
    );
    let exit_tighten: B64 = cfg.exit_tighten_per_ratio.max(num(ZERO)).mul(ratio).mul(boost).min(
        cfg.max_exit_tighten.max(num(ZERO)),
    );
    let add_widen: B64 = cfg.add_widen_per_ratio.max(num(ZERO)).mul(ratio).mul(boost).min(
        cfg.max_add_widen.max(num(ZERO)),
    );
    if exit_tighten.le(num(ZERO)) && add_widen.le(num(ZERO)) {
        return (bid, ask);
    }
    let min_depth: B64 = if tick.gt(num(ZERO)) { tick } else { mid.mul(num(TINY_6)).max(num(TINY_9)) };
    let mut bid_out: B64 = bid;
    let mut ask_out: B64 = ask;
    if bid.is_finite() && bid.gt(num(ZERO)) {
        let mut depth: B64 = mid.sub(bid).max(min_depth);
        if position.lt(num(ZERO)) {
            depth = depth.mul(num(ONE).sub(exit_tighten).max(num(P05)));
        } else {
            depth = depth.mul(num(ONE).add(add_widen));
        }
        bid_out = floor_tick(mid.sub(depth), tick);
        if bid_out.ge(mid) {
            bid_out = floor_tick(mid.sub(min_depth), tick);
        }
    }
    if ask.is_finite() && ask.gt(num(ZERO)) {
        let mut depth: B64 = ask.sub(mid).max(min_depth);
        if position.gt(num(ZERO)) {
            depth = depth.mul(num(ONE).sub(exit_tighten).max(num(P05)));
        } else {
            depth = depth.mul(num(ONE).add(add_widen));
        }
        ask_out = ceil_tick(mid.add(depth), tick);
        if ask_out.le(mid) {
            ask_out = ceil_tick(mid.add(min_depth), tick);
        }
    }
    (bid_out, ask_out)
}

/// Without adverse markouts the spread is not touched.
pub proof fn law_unit_multiplier_keeps_quote(bid: B64, ask: B64, mid: B64, multiplier: B64, tick: B64)
    requires
        multiplier.le(num(ONE_P0001)),
    ensures
        widened(bid, ask, mid, multiplier, tick) == (bid, ask),
{
}

/// A flat book, a disabled bias or an inventory below the least ratio leaves
/// the quote as it is.
pub proof fn law_small_inventory_keeps_quote(
    bid: B64,
    ask: B64,
    mid: B64,
    position: B64,
    max_pos_usd: B64,
    adverse_bps: B64,
    threshold_bps: B64,
    cfg: InventoryExitBias,
    tick: B64,
)
    requires
        !cfg.enabled || position.abs().lt(num(TINY_12)) || inventory_ratio(
            position,
            mid,
            max_pos_usd,
        ).lt(cfg.min_ratio),
    ensures
        biased(bid, ask, mid, position, max_pos_usd, adverse_bps, threshold_bps, cfg, tick) == (bid, ask),
{
}

/// A side that is not quoted stays unquoted.
pub proof fn law_missing_sides_stay_missing(
    bid: B64,
    ask: B64,
    mid: B64,
    position: B64,
    max_pos_usd: B64,
    adverse_bps: B64,
    threshold_bps: B64,
    cfg: InventoryExitBias,
    multiplier: B64,
    tick: B64,
)
    ensures
        !standing(bid) ==> widened(bid, ask, mid, multiplier, tick).0 == bid,
        !standing(ask) ==> widened(bid, ask, mid, multiplier, tick).1 == ask,
        !standing(bid) ==> biased(
            bid,
            ask,
            mid,
            position,
            max_pos_usd,
            adverse_bps,
            threshold_bps,
            cfg,
            tick,
        ).0 == bid,
        !standing(ask) ==> biased(
            bid,
            ask,
            mid,
            position,
            max_pos_usd,
            adverse_bps,
            threshold_bps,
            cfg,
            tick,
        ).1 == ask,
{
}

} // verus!
