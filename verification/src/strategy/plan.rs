//! What the factory decides on: a strategy and its settings.

use vstd::prelude::*;

use crate::binary64::B64;

use super::grid_strategy::GridPlan;
use super::market_making::{MarketMakingStrategy, MmView};

verus! {

/// The settings of a trend follower.
#[derive(Debug, Clone, Copy, PartialEq, Eq, Structural)]
pub struct TrendPlan {
    pub fast_ma: usize,
    pub slow_ma: usize,
    pub stop_loss: B64,
    pub take_profit: B64,
    pub trailing_stop: B64,
    pub notional: B64,
    pub adx_threshold: B64,
    pub adx_period: usize,
    pub confirm_slope_min: B64,
    pub confirm_lookback: usize,
}

/// The settings of a cost averager.
#[derive(Debug, Clone, Copy, PartialEq, Eq, Structural)]
pub struct DcaPlan {
    pub interval: B64,
    pub amount: B64,
    pub dip_threshold: B64,
}

/// A strategy with its settings.
#[derive(Debug)]
pub enum StrategyPlan {
    Grid(GridPlan),
    Trend(TrendPlan),
    /// A trend book with a gated maker overlay. It keeps the trend's name, so
    /// that cancelling a maker's orders never wipes working trend orders.
    SplitBook { trend: TrendPlan, maker: MarketMakingStrategy },
    Dca(DcaPlan),
    MarketMaking(MarketMakingStrategy),
}

/// What a plan says.
pub enum PlanView {
    Grid(GridPlan),
    Trend(TrendPlan),
    SplitBook { trend: TrendPlan, maker: MmView },
    Dca(DcaPlan),
    MarketMaking(MmView),
}

impl View for StrategyPlan {
    type V = PlanView;

    open spec fn view(&self) -> PlanView {
        match *self {
            StrategyPlan::Grid(plan) => PlanView::Grid(plan),
            StrategyPlan::Trend(plan) => PlanView::Trend(plan),
            StrategyPlan::SplitBook { trend, maker } => PlanView::SplitBook { trend, maker: maker@ },
            StrategyPlan::Dca(plan) => PlanView::Dca(plan),
            StrategyPlan::MarketMaking(maker) => PlanView::MarketMaking(maker@),
        }
    }
}

impl PlanView {
    pub open spec fn name(self) -> Seq<char> {
        match self {
            PlanView::Grid(_) => "grid_trading"@,
            PlanView::Trend(_) => "trend_following"@,
            PlanView::SplitBook { .. } => "trend_following"@,
            PlanView::Dca(_) => "dca"@,
            PlanView::MarketMaking(_) => "market_making"@,
        }
    }
}

impl StrategyPlan {
    pub open spec fn wf(&self) -> bool {
        match *self {
            StrategyPlan::SplitBook { trend, maker } => maker.wf(),
            StrategyPlan::MarketMaking(maker) => maker.wf(),
            _ => true,
        }
    }

    /// The name of the strategy.
    pub fn name(&self) -> (r: &str)
        ensures
            r@ == self@.name(),
    {
        match self {
            StrategyPlan::Grid(_) => "grid_trading",
            StrategyPlan::Trend(_) => "trend_following",
            StrategyPlan::SplitBook { .. } => "trend_following",
            StrategyPlan::Dca(_) => "dca",
            StrategyPlan::MarketMaking(_) => "market_making",
        }
    }

    /// Whether a gated maker overlay is part of the plan.
    pub fn has_maker_volume_overlay(&self) -> (r: bool)
        ensures
            r == (self@ is SplitBook),
    {
        match self {
            StrategyPlan::SplitBook { .. } => true,
            _ => false,
        }
    }
}

} // verus!
