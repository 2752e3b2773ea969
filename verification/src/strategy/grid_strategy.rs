//! The inventory policy and the settings of the grid strategy.

use vstd::prelude::*;

use crate::binary64::B64;
use crate::text::{chars_of, lower, same_chars, string_of, to_lower, trim, trimmed};

use super::error::{ErrorView, StrategyError};

verus! {

/// What happens when the inventory reaches its cap.
#[derive(Debug, Clone, Copy, PartialEq, Eq, Structural)]
pub enum InventoryMode {
    /// Quotes that add to the inventory are dropped.
    Hard,
    /// Quotes shrink between the soft cap and the hard cap.
    Soft,
    /// No cap; for research only.
    ResearchNoCap,
}

/// The key words of a setting: white space and case do not matter.
pub open spec fn keyword(raw: Seq<char>) -> Seq<char> {
    lower(trimmed(raw))
}

/// Reads the key word out of a setting.
pub fn keyword_of(raw: &str) -> (r: Vec<char>)
    ensures
        r@ == keyword(raw@),
{
    to_lower(&trim(&chars_of(raw)))
}

/// Whether a key word is the given one.
pub fn keyword_is(word: &[char], name: &str) -> (r: bool)
    ensures
        r == (word@ == name@),
{
    same_chars(word, &chars_of(name))
}

impl InventoryMode {
    pub open spec fn parsed(raw: Seq<char>, research_allowed: bool) -> Result<InventoryMode, ErrorView> {
        let word = keyword(raw);
        if word == "hard"@ {
            Ok(InventoryMode::Hard)
        } else if word == "soft"@ {
            Ok(InventoryMode::Soft)
        } else if word == "research_nocap"@ {
            if research_allowed {
                Ok(InventoryMode::ResearchNoCap)
            } else {
                Err(ErrorView::ResearchModeLocked)
            }
        } else {
            Err(ErrorView::UnknownInventoryMode(word))
        }
    }

    /// Reads a mode; the uncapped one only where research is allowed.
    pub fn parse(raw: &str, research_allowed: bool) -> (r: Result<InventoryMode, StrategyError>)
        ensures
            match r {
                Ok(mode) => InventoryMode::parsed(raw@, research_allowed) == Ok::<_, ErrorView>(mode),
                Err(e) => InventoryMode::parsed(raw@, research_allowed) == Err::<InventoryMode, _>(e@),
            },
    {
        let word = keyword_of(raw);
        if keyword_is(&word, "hard") {
            Ok(InventoryMode::Hard)
        } else if keyword_is(&word, "soft") {
            Ok(InventoryMode::Soft)
        } else if keyword_is(&word, "research_nocap") {
            if research_allowed {
                Ok(InventoryMode::ResearchNoCap)
            } else {
                Err(StrategyError::ResearchModeLocked)
            }
        } else {
            Err(StrategyError::UnknownInventoryMode(string_of(&word)))
        }
    }
}

/// The settings of a grid, with an inventory policy.
#[derive(Debug, Clone, Copy, PartialEq, Eq, Structural)]
pub struct GridPlan {
    pub grid_count: usize,
    pub investment: B64,
    pub deviation: B64,
    pub mode: InventoryMode,
    pub soft_cap: Option<B64>,
    pub hard_cap: Option<B64>,
}

/// Whether caps are in order: in soft mode a hard cap lies above a soft one.
pub open spec fn caps_in_order(mode: InventoryMode, soft_cap: Option<B64>, hard_cap: Option<B64>) -> bool {
    match (mode, soft_cap, hard_cap) {
        (InventoryMode::Soft, Some(soft), Some(hard)) => hard.gt(soft),
        _ => true,
    }
}

impl GridPlan {
    pub open spec fn planned(
        grid_count: usize,
        investment: B64,
        deviation: B64,
        mode: InventoryMode,
        soft_cap: Option<B64>,
        hard_cap: Option<B64>,
    ) -> Result<GridPlan, ErrorView> {
        if caps_in_order(mode, soft_cap, hard_cap) {
            Ok(GridPlan { grid_count, investment, deviation, mode, soft_cap, hard_cap })
        } else {
            Err(ErrorView::CapsOutOfOrder)
        }
    }

    /// A grid with an inventory policy; in soft mode the hard cap must lie
    /// above the soft cap.
    pub fn with_inventory(
        grid_count: usize,
        investment: B64,
        deviation: B64,
        mode: InventoryMode,
        soft_cap: Option<B64>,
        hard_cap: Option<B64>,
    ) -> (r: Result<GridPlan, StrategyError>)
        ensures
            ({
                let expected = GridPlan::planned(grid_count, investment, deviation, mode, soft_cap, hard_cap);
                match r {
                    Ok(plan) => expected == Ok::<_, ErrorView>(plan),
                    Err(e) => expected == Err::<GridPlan, _>(e@),
                }
            }),
    {
        match (mode, soft_cap, hard_cap) {
            (InventoryMode::Soft, Some(soft), Some(hard)) => {
                if !hard.gt(soft) {
                    return Err(StrategyError::CapsOutOfOrder);
                }
            },
            _ => {},
        }
        Ok(GridPlan { grid_count, investment, deviation, mode, soft_cap, hard_cap })
    }

    /// A grid under the hard cap.
    pub fn new(grid_count: usize, investment: B64, deviation: B64) -> (r: GridPlan)
        ensures
            r == (GridPlan {
                grid_count,
                investment,
                deviation,
                mode: InventoryMode::Hard,
                soft_cap: None,
                hard_cap: None,
            }),
    {
        GridPlan {
            grid_count,
            investment,
            deviation,
            mode: InventoryMode::Hard,
            soft_cap: None,
            hard_cap: None,
        }
    }
}

} // verus!
