//! A trend book next to a gated maker overlay.

use vstd::prelude::*;

use crate::clock::Timestamp;
use crate::lighter::types::{signal_views, MarketSnapshot, SignalView, TradeSignal};

use super::error::StrategyError;
use super::market_making::MarketMakingStrategy;
use super::Strategy;

verus! {

/// Trend book plus a gated maker overlay. The name stays that of the trend, so
/// that cancelling a maker's orders does not wipe working trend orders.
#[derive(Debug)]
pub struct SplitBookStrategy<T: Strategy> {
    pub trend: T,
    pub maker: MarketMakingStrategy,
}

/// The orders in an optional list.
pub open spec fn orders_in(v: Option<Vec<TradeSignal>>) -> Seq<SignalView> {
    match v {
        Some(v) => signal_views(v@),
        None => Seq::empty(),
    }
}

/// The orders of the trend followed by those of the maker; nothing where there
/// are none.
pub fn join_signals(trend: Option<Vec<TradeSignal>>, maker: Option<Vec<TradeSignal>>) -> (r: Option<
    Vec<TradeSignal>,
>)
    ensures
        orders_in(r) == orders_in(trend) + orders_in(maker),
        r is Some <==> orders_in(trend).len() + orders_in(maker).len() > 0,
{
    let mut signals: Vec<TradeSignal> = match trend {
        Some(v) => v,
        None => Vec::new(),
    };
    let ghost first = signals@;
    assert(signal_views(first) =~= orders_in(trend));
    match maker {
        Some(v) => {
            let mut more: Vec<TradeSignal> = v;
            signals.append(&mut more);
        },
        None => {},
    }
    assert(signal_views(signals@) =~= orders_in(trend) + orders_in(maker));
    if signals.len() == 0 {
        assert(orders_in(trend).len() + orders_in(maker).len() == signal_views(signals@).len());
        None
    } else {
        Some(signals)
    }
}

/// What the trend's result leads to: its error as it is, with the maker left
/// alone, or its orders followed by those of the maker.
pub open spec fn split_result(
    before: MarketMakingStrategy,
    snapshot: &MarketSnapshot,
    now: Timestamp,
    after: MarketMakingStrategy,
    trend: Result<Option<Vec<TradeSignal>>, StrategyError>,
    r: Result<Option<Vec<TradeSignal>>, StrategyError>,
) -> bool {
    match trend {
        Ok(first) => {
            let (view, quotes) = before@.evaluated(snapshot.books(), snapshot.positions@, now);
            &&& after.wf()
            &&& after@ == view
            &&& r is Ok
            &&& orders_in(r->Ok_0) == orders_in(first) + quotes
            &&& r->Ok_0 is Some <==> orders_in(first).len() + quotes.len() > 0
        },
        Err(e) => after == before && r == Err::<Option<Vec<TradeSignal>>, _>(e),
    }
}

/// The orders of the trend followed by those of the maker.
fn follow(
    maker: &mut MarketMakingStrategy,
    first: Option<Vec<TradeSignal>>,
    snapshot: &MarketSnapshot,
    now: Timestamp,
) -> (r: Result<Option<Vec<TradeSignal>>, StrategyError>)
    requires
        old(maker).ready(snapshot, now),
    ensures
        split_result(
            *old(maker),
            snapshot,
            now,
            *final(maker),
            Ok::<_, StrategyError>(first),
            r,
        ),
{
    match maker.evaluate(snapshot, now) {
        Ok(quotes) => Ok(join_signals(first, quotes)),
        Err(e) => Err(e),
    }
}

impl<T: Strategy> Strategy for SplitBookStrategy<T> {
    open spec fn ready(&self, snapshot: &MarketSnapshot, now: Timestamp) -> bool {
        self.trend.ready(snapshot, now) && self.maker.ready(snapshot, now)
    }

    /// The trend is evaluated, and what it returns decides: its error is handed
    /// on and leaves the maker alone; its orders are followed by those of the
    /// maker, which never fails.
    open spec fn outcome(
        before: Self,
        snapshot: &MarketSnapshot,
        now: Timestamp,
        after: Self,
        r: Result<Option<Vec<TradeSignal>>, StrategyError>,
    ) -> bool {
        exists|trend: Result<Option<Vec<TradeSignal>>, StrategyError>|
            #[trigger] T::outcome(before.trend, snapshot, now, after.trend, trend) && split_result(
                before.maker,
                snapshot,
                now,
                after.maker,
                trend,
                r,
            )
    }

    /// Both books are reset.
    open spec fn was_reset(before: Self, after: Self) -> bool {
        T::was_reset(before.trend, after.trend) && MarketMakingStrategy::was_reset(before.maker, after.maker)
    }

    /// Both books are cleared.
    open spec fn was_cleared(before: Self, after: Self) -> bool {
        T::was_cleared(before.trend, after.trend) && MarketMakingStrategy::was_cleared(
            before.maker,
            after.maker,
        )
    }

    fn name(&self) -> (r: &str)
        ensures
            r@ == "trend_following"@,
    {
        "trend_following"
    }

    /// The orders of the trend, whatever they are, followed by those of the
    /// maker. An error of the trend leaves the maker alone.
    fn evaluate(&mut self, snapshot: &MarketSnapshot, now: Timestamp) -> (r: Result<
        Option<Vec<TradeSignal>>,
        StrategyError,
    >)
        ensures
            match r {
                Ok(v) => {
                    let (after, quotes) = old(self).maker@.evaluated(
                        snapshot.books(),
                        snapshot.positions@,
                        now,
                    );
                    &&& final(self).maker.wf()
                    &&& final(self).maker@ == after
                    &&& quotes.is_suffix_of(orders_in(v))
                    &&& v is Some <==> orders_in(v).len() > 0
                },
                Err(_) => final(self).maker == old(self).maker,
            },
    {
        let ghost before = *self;
        let evaluated = self.trend.evaluate(snapshot, now);
        let ghost trend = evaluated;
        match evaluated {
            Ok(first) => {
                let r = follow(&mut self.maker, first, snapshot, now);
                assert(T::outcome(before.trend, snapshot, now, self.trend, trend));
                assert(split_result(before.maker, snapshot, now, self.maker, trend, r));
                r
            },
            Err(e) => Err(e),
        }
    }

    fn reset(&mut self) {
        self.trend.reset();
        self.maker.reset();
    }

    fn clear_filled_state(&mut self) {
        self.trend.clear_filled_state();
        self.maker.clear_filled_state();
    }

    fn has_maker_volume_overlay(&self) -> (r: bool)
        ensures
            r,
    {
        true
    }
}

} // verus!
