//! What the strategies and their factory refuse.

use vstd::prelude::*;

use crate::text::{append, chars_of, copy_text};

verus! {

#[derive(Debug)]
pub enum StrategyError {
    UnknownQuoteEngine(String),
    UnknownAlphaSource(String),
    UnknownInventoryMode(String),
    UnknownStrategy(String),
    /// The uncapped mode needs the research switch.
    ResearchModeLocked,
    /// The uncapped mode is never live.
    ResearchModeLive,
    NegativeSpread,
    NotionalNotPositive,
    NegativeSkew,
    BadSoftCap(String),
    BadHardCap(String),
    /// The hard cap must lie above the soft cap.
    CapsOutOfOrder,
}

/// What an error says.
pub enum ErrorView {
    UnknownQuoteEngine(Seq<char>),
    UnknownAlphaSource(Seq<char>),
    UnknownInventoryMode(Seq<char>),
    UnknownStrategy(Seq<char>),
    ResearchModeLocked,
    ResearchModeLive,
    NegativeSpread,
    NotionalNotPositive,
    NegativeSkew,
    BadSoftCap(Seq<char>),
    BadHardCap(Seq<char>),
    CapsOutOfOrder,
}

impl View for StrategyError {
    type V = ErrorView;

    open spec fn view(&self) -> ErrorView {
        match *self {
            StrategyError::UnknownQuoteEngine(s) => ErrorView::UnknownQuoteEngine(s@),
            StrategyError::UnknownAlphaSource(s) => ErrorView::UnknownAlphaSource(s@),
            StrategyError::UnknownInventoryMode(s) => ErrorView::UnknownInventoryMode(s@),
            StrategyError::UnknownStrategy(s) => ErrorView::UnknownStrategy(s@),
            StrategyError::ResearchModeLocked => ErrorView::ResearchModeLocked,
            StrategyError::ResearchModeLive => ErrorView::ResearchModeLive,
            StrategyError::NegativeSpread => ErrorView::NegativeSpread,
            StrategyError::NotionalNotPositive => ErrorView::NotionalNotPositive,
            StrategyError::NegativeSkew => ErrorView::NegativeSkew,
            StrategyError::BadSoftCap(s) => ErrorView::BadSoftCap(s@),
            StrategyError::BadHardCap(s) => ErrorView::BadHardCap(s@),
            StrategyError::CapsOutOfOrder => ErrorView::CapsOutOfOrder,
        }
    }
}

/// Why a text is no number.
pub open spec fn number_fault(text: Seq<char>) -> Seq<char> {
    if text.len() == 0 {
        "cannot parse float from empty string"@
    } else {
        "invalid float literal"@
    }
}

fn fault_of(text: &str) -> (r: &str)
    ensures
        r@ == number_fault(text@),
{
    if chars_of(text).len() == 0 {
        "cannot parse float from empty string"
    } else {
        "invalid float literal"
    }
}

impl ErrorView {
    pub open spec fn message(self) -> Seq<char> {
        match self {
            ErrorView::UnknownQuoteEngine(s) => "unknown quote_engine '"@ + s + "' (simple|vol_obi)"@,
            ErrorView::UnknownAlphaSource(s) => "unknown alpha_source '"@ + s + "' (local|binance)"@,
            ErrorView::UnknownInventoryMode(s) => "unknown inventory_mode '"@ + s
                + "' (hard|soft|research_nocap)"@,
            ErrorView::UnknownStrategy(s) => "未知策略: "@ + s,
            ErrorView::ResearchModeLocked => "inventory_mode=research_nocap needs SOFT_CAP_RESEARCH=1"@,
            ErrorView::ResearchModeLive => "实盘配置不允许 inventory_mode=research_nocap（研究专用）"@,
            ErrorView::NegativeSpread => "bid_spread/ask_spread must be >= 0"@,
            ErrorView::NotionalNotPositive => "order_notional must be > 0"@,
            ErrorView::NegativeSkew => "inventory_skew must be >= 0"@,
            ErrorView::BadSoftCap(s) => "soft_cap 解析失败: "@ + number_fault(s),
            ErrorView::BadHardCap(s) => "hard_cap 解析失败: "@ + number_fault(s),
            ErrorView::CapsOutOfOrder => "hard_cap must be greater than soft_cap"@,
        }
    }
}

fn sentence(head: &str, middle: &str, tail: &str) -> (r: String)
    ensures
        r@ == head@ + middle@ + tail@,
{
    let mut r = copy_text(head);
    append(&mut r, middle);
    append(&mut r, tail);
    r
}

fn ending(head: &str, tail: &str) -> (r: String)
    ensures
        r@ == head@ + tail@,
{
    let mut r = copy_text(head);
    append(&mut r, tail);
    r
}

impl StrategyError {
    /// The error as a sentence.
    pub fn message(&self) -> (r: String)
        ensures
            r@ == self@.message(),
    {
        match self {
            StrategyError::UnknownQuoteEngine(s) => sentence(
                "unknown quote_engine '",
                s.as_str(),
                "' (simple|vol_obi)",
            ),
            StrategyError::UnknownAlphaSource(s) => sentence(
                "unknown alpha_source '",
                s.as_str(),
                "' (local|binance)",
            ),
            StrategyError::UnknownInventoryMode(s) => sentence(
                "unknown inventory_mode '",
                s.as_str(),
                "' (hard|soft|research_nocap)",
            ),
            StrategyError::UnknownStrategy(s) => ending("未知策略: ", s.as_str()),
            StrategyError::ResearchModeLocked => copy_text(
                "inventory_mode=research_nocap needs SOFT_CAP_RESEARCH=1",
            ),
            StrategyError::ResearchModeLive => copy_text(
                "实盘配置不允许 inventory_mode=research_nocap（研究专用）",
            ),
            StrategyError::NegativeSpread => copy_text("bid_spread/ask_spread must be >= 0"),
            StrategyError::NotionalNotPositive => copy_text("order_notional must be > 0"),
            StrategyError::NegativeSkew => copy_text("inventory_skew must be >= 0"),
            StrategyError::BadSoftCap(s) => ending(
                "soft_cap 解析失败: ",
                fault_of(s.as_str()),
            ),
            StrategyError::BadHardCap(s) => ending(
                "hard_cap 解析失败: ",
                fault_of(s.as_str()),
            ),
            StrategyError::CapsOutOfOrder => copy_text("hard_cap must be greater than soft_cap"),
        }
    }
}

} // verus!
