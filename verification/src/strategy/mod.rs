//! Quoting strategies.

use vstd::prelude::*;

use crate::clock::Timestamp;
use crate::lighter::types::{MarketSnapshot, TradeSignal};

use self::error::StrategyError;

pub mod drift;
pub mod error;
pub mod exact;
pub mod exits;
pub mod factory;
pub mod grid_strategy;
pub mod grids;
pub mod imbalance;
pub mod inventory_bias;
pub mod keys;
pub mod leaning;
pub mod load;
pub mod maker_volume;
pub mod market_making;
pub mod markouts;
pub mod orders;
pub mod params;
pub mod plan;
pub mod quotes;
pub mod requotes;
pub mod rolling;
pub mod split_book;
pub mod vol_obi;
pub mod vol_quotes;

verus! {

/// A trading strategy.
pub trait Strategy: Sized {
    /// Whether a snapshot can be evaluated at the given wall-clock time.
    spec fn ready(&self, snapshot: &MarketSnapshot, now: Timestamp) -> bool;

    /// Whether evaluating a snapshot can turn one state into another with the
    /// given result.
    spec fn outcome(
        before: Self,
        snapshot: &MarketSnapshot,
        now: Timestamp,
        after: Self,
        r: Result<Option<Vec<TradeSignal>>, StrategyError>,
    ) -> bool;

    /// Whether a reset can turn one state into another.
    spec fn was_reset(before: Self, after: Self) -> bool;

    /// Whether clearing the filled and pending state can turn one state into
    /// another.
    spec fn was_cleared(before: Self, after: Self) -> bool;

    /// The name of the strategy.
    fn name(&self) -> &str;

    /// The orders that a snapshot calls for.
    fn evaluate(&mut self, snapshot: &MarketSnapshot, now: Timestamp) -> (r: Result<
        Option<Vec<TradeSignal>>,
        StrategyError,
    >)
        requires
            old(self).ready(snapshot, now),
        ensures
            Self::outcome(*old(self), snapshot, now, *final(self), r),
    ;

    /// Forgets everything that was seen.
    fn reset(&mut self)
        ensures
            Self::was_reset(*old(self), *final(self)),
    ;

    /// Clears filled and pending state, as after stale orders were cancelled.
    fn clear_filled_state(&mut self)
        ensures
            Self::was_cleared(*old(self), *final(self)),
    ;

    /// Whether a gated maker overlay is wrapped around this strategy.
    fn has_maker_volume_overlay(&self) -> (r: bool)
        default_ensures
            !r,
    {
        false
    }
}

} // verus!
