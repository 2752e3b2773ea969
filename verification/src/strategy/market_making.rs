//! Two-sided maker quotes around a mid, and the strategy that places them.

use vstd::prelude::*;

use crate::binary64::consts::{
    EPSILON, FIFTY, FIVE, HALF, MINUS_ONE, ONE, ONE_P15, P001, P01, P02, P05, P85, QUARTER, TEN_THOUSAND,
    TINY_6, TINY_9, TWO, ZERO,
};
use crate::binary64::facts::lemma_midpoint;
use crate::binary64::fixed::fixed_text;
use crate::binary64::{num, B64};
use crate::clock::{wall_millis, wall_millis_of, Timestamp, MAX_DURATION_SECS, MAX_SECS};
use crate::hft::binance_alpha::{BinanceAlphaHub, HubView};
use crate::lighter::types::{
    signal_views, BookView, MarketSnapshot, OrderBook, OrderType, PriceLevel, Side, SignalView,
    TradeSignal,
};
use crate::table::{each_once, Table};
use crate::text::{append, copy_text, string_of};

use super::error::{ErrorView, StrategyError};
use super::grid_strategy::{keyword, keyword_is, keyword_of, InventoryMode};
use super::inventory_bias::{
    apply_inventory_exit_bias, apply_quality_spread_multiplier, biased, default_exit_bias, standing, widened,
    InventoryExitBias,
};
use super::maker_volume::{
    apply_markout_pull, apply_notional_inventory_cap, clamp_maker_only, pulled, GatesView, MakerVolumeConfig,
    MarkoutTracker, MarkoutView,
};
use super::vol_obi::{
    default_vol_obi_config, fallback_reduce_only, reducing_quote, tick_of, tick_size_from_levels, CalcView,
    VolObiCalculator, VolObiConfig,
};
use super::Strategy;

verus! {

/// How quotes are priced.
#[derive(Debug, Clone, Copy, PartialEq, Eq, Structural)]
pub enum QuoteEngine {
    /// A configured offset from the mid that joins the best prices.
    Simple,
    /// Volatility and order-book imbalance, with an external alpha on crypto.
    VolObi,
}

impl QuoteEngine {
    pub open spec fn parsed(raw: Seq<char>) -> Result<QuoteEngine, ErrorView> {
        let word = keyword(raw);
        if word == ""@ || word == "simple"@ || word == "pmm"@ || word == "join"@ {
            Ok(QuoteEngine::Simple)
        } else if word == "vol_obi"@ || word == "vol-obi"@ || word == "djienne"@ || word == "obi"@ {
            Ok(QuoteEngine::VolObi)
        } else {
            Err(ErrorView::UnknownQuoteEngine(word))
        }
    }

    pub fn parse(raw: &str) -> (r: Result<QuoteEngine, StrategyError>)
        ensures
            match r {
                Ok(engine) => QuoteEngine::parsed(raw@) == Ok::<_, ErrorView>(engine),
                Err(e) => QuoteEngine::parsed(raw@) == Err::<QuoteEngine, _>(e@),
            },
    {
        let word = keyword_of(raw);
        if keyword_is(&word, "") || keyword_is(&word, "simple") || keyword_is(&word, "pmm") || keyword_is(
            &word,
            "join",
        ) {
            Ok(QuoteEngine::Simple)
        } else if keyword_is(&word, "vol_obi") || keyword_is(&word, "vol-obi") || keyword_is(
            &word,
            "djienne",
        ) || keyword_is(&word, "obi") {
            Ok(QuoteEngine::VolObi)
        } else {
            Err(StrategyError::UnknownQuoteEngine(string_of(&word)))
        }
    }
}

/// Where the alpha comes from.
#[derive(Debug, Clone, Copy, PartialEq, Eq, Structural)]
pub enum AlphaSource {
    Local,
    Binance,
}

impl AlphaSource {
    pub open spec fn parsed(raw: Seq<char>) -> Result<AlphaSource, ErrorView> {
        let word = keyword(raw);
        if word == ""@ || word == "local"@ || word == "book"@ || word == "none"@ {
            Ok(AlphaSource::Local)
        } else if word == "binance"@ {
            Ok(AlphaSource::Binance)
        } else {
            Err(ErrorView::UnknownAlphaSource(word))
        }
    }

    pub fn parse(raw: &str) -> (r: Result<AlphaSource, StrategyError>)
        ensures
            match r {
                Ok(source) => AlphaSource::parsed(raw@) == Ok::<_, ErrorView>(source),
                Err(e) => AlphaSource::parsed(raw@) == Err::<AlphaSource, _>(e@),
            },
    {
        let word = keyword_of(raw);
        if keyword_is(&word, "") || keyword_is(&word, "local") || keyword_is(&word, "book") || keyword_is(
            &word,
            "none",
        ) {
            Ok(AlphaSource::Local)
        } else if keyword_is(&word, "binance") {
            Ok(AlphaSource::Binance)
        } else {
            Err(StrategyError::UnknownAlphaSource(string_of(&word)))
        }
    }
}

#[derive(Debug, Clone, Copy, PartialEq, Eq, Structural)]
pub struct VolObiMmSettings {
    pub vol_obi: VolObiConfig,
    pub alpha_source: AlphaSource,
    pub alpha_stale_secs: B64,
    pub inventory_exit: InventoryExitBias,
    pub quality_multiplier: B64,
}

pub open spec fn default_vol_settings() -> VolObiMmSettings {
    VolObiMmSettings {
        vol_obi: default_vol_obi_config(),
        alpha_source: AlphaSource::Binance,
        alpha_stale_secs: num(FIVE),
        inventory_exit: default_exit_bias(),
        quality_multiplier: num(ONE),
    }
}

impl Default for VolObiMmSettings {
    fn default() -> (r: VolObiMmSettings)
        ensures
            r == default_vol_settings(),
    {
        VolObiMmSettings {
            vol_obi: VolObiConfig::default(),
            alpha_source: AlphaSource::Binance,
            alpha_stale_secs: num(FIVE),
            inventory_exit: InventoryExitBias::default(),
            quality_multiplier: num(ONE),
        }
    }
}

/// Quoting parameters (fractional spreads, not basis points).
#[derive(Debug, Clone, Copy, PartialEq, Eq, Structural)]
pub struct MmQuoteParams {
    pub bid_spread: B64,
    pub ask_spread: B64,
    pub order_notional: B64,
    /// How far inventory can push the quotes. 0 = no skew.
    pub inventory_skew: B64,
    /// Absolute inventory (base quantity) that maps to full skew. Must be > 0 to skew.
    pub inventory_target: B64,
    /// Hard inventory cap in base quantity. Same-side adding quotes are dropped at or above this.
    pub max_inventory: B64,
    /// Minimum time between cancel-replace cycles on one symbol.
    pub min_requote_secs: i64,
}

pub open spec fn default_mm_params() -> MmQuoteParams {
    MmQuoteParams {
        bid_spread: num(P001),
        ask_spread: num(P001),
        order_notional: num(FIFTY),
        inventory_skew: num(HALF),
        inventory_target: num(P01),
        max_inventory: num(P05),
        min_requote_secs: 10,
    }
}

impl Default for MmQuoteParams {
    fn default() -> (r: MmQuoteParams)
        ensures
            r == default_mm_params(),
    {
        MmQuoteParams {
            bid_spread: num(P001),
            ask_spread: num(P001),
            order_notional: num(FIFTY),
            inventory_skew: num(HALF),
            inventory_target: num(P01),
            max_inventory: num(P05),
            min_requote_secs: 10,
        }
    }
}

/// Two-sided maker quote around a mid, after inventory skew.
#[derive(Debug, Clone, Copy)]
pub struct TwoSidedQuote {
    pub mid: B64,
    pub bid_price: B64,
    pub ask_price: B64,
    pub bid_qty: B64,
    pub ask_qty: B64,
    pub expected_edge_bps: B64,
}

/// Numbers are compared by value: the zeros are equal, a NaN equals nothing.
impl PartialEq for TwoSidedQuote {
    fn eq(&self, other: &TwoSidedQuote) -> (r: bool) {
        self.mid.eq_num(other.mid)
            && self.bid_price.eq_num(other.bid_price)
            && self.ask_price.eq_num(other.ask_price)
            && self.bid_qty.eq_num(other.bid_qty)
            && self.ask_qty.eq_num(other.ask_qty)
            && self.expected_edge_bps.eq_num(other.expected_edge_bps)
    }
}

impl vstd::std_specs::cmp::PartialEqSpecImpl for TwoSidedQuote {
    open spec fn obeys_eq_spec() -> bool {
        true
    }

    open spec fn eq_spec(&self, other: &TwoSidedQuote) -> bool {
        &&& self.mid.eq_num(other.mid)
        &&& self.bid_price.eq_num(other.bid_price)
        &&& self.ask_price.eq_num(other.ask_price)
        &&& self.bid_qty.eq_num(other.bid_qty)
        &&& self.ask_qty.eq_num(other.ask_qty)
        &&& self.expected_edge_bps.eq_num(other.expected_edge_bps)
    }
}

pub open spec fn spec_mid_from_bbo(bid: B64, ask: B64) -> Option<B64> {
    let mid = bid.add(ask).div(num(TWO));
    if !bid.is_finite() || !ask.is_finite() || bid.le(num(ZERO)) || ask.le(num(ZERO)) || ask.lt(bid) {
        None
    } else if mid.gt(num(ZERO)) {
        Some(mid)
    } else {
        None
    }
}

/// Mid from a two-sided book. Rejects non-positive or crossed books.
#[verifier::when_used_as_spec(spec_mid_from_bbo)]
pub fn mid_from_bbo(bid: B64, ask: B64) -> (r: Option<B64>)
    ensures
        r == spec_mid_from_bbo(bid, ask),
{
    if !bid.is_finite() || !ask.is_finite() {
        return None;
    }
    if bid.le(num(ZERO)) || ask.le(num(ZERO)) {
        return None;
    }
    if ask.lt(bid) {
        return None;
    }
    let mid: B64 = bid.add(ask).div(num(TWO));
    if mid.gt(num(ZERO)) {
        Some(mid)
    } else {
        None
    }
}

/// The skew of the quotes: the inventory against its target, within -1 and 1,
/// times the configured skew.
pub open spec fn skew_ratio(inventory: B64, params: MmQuoteParams) -> B64 {
    if params.inventory_target.gt(num(ZERO)) && !params.inventory_skew.eq_num(num(ZERO)) {
        inventory.div(params.inventory_target).clamp(num(MINUS_ONE), num(ONE)).mul(params.inventory_skew)
    } else {
        num(ZERO)
    }
}

/// The bid: the better of the best bid and the skewed offset from the mid,
/// shifted by the inventory.
pub open spec fn skewed_bid(bid: B64, ask: B64, mid: B64, ratio: B64, params: MmQuoteParams) -> B64 {
    let spread = params.bid_spread.mul(num(ONE).add(ratio)).max(num(ZERO));
    bid.max(mid.mul(num(ONE).sub(spread))).sub(inventory_shift(bid, ask, ratio))
}

pub open spec fn skewed_ask(bid: B64, ask: B64, mid: B64, ratio: B64, params: MmQuoteParams) -> B64 {
    let spread = params.ask_spread.mul(num(ONE).sub(ratio)).max(num(ZERO));
    ask.min(mid.mul(num(ONE).add(spread))).sub(inventory_shift(bid, ask, ratio))
}

/// How far the inventory moves both prices.
pub open spec fn inventory_shift(bid: B64, ask: B64, ratio: B64) -> B64 {
    ratio.mul(ask.sub(bid).abs()).mul(num(QUARTER))
}

/// The inventory-aware quote around the mid of the best prices.
pub open spec fn skewed_quote(bid: B64, ask: B64, inventory: B64, params: MmQuoteParams) -> Option<
    TwoSidedQuote,
> {
    if params.bid_spread.lt(num(ZERO)) || params.ask_spread.lt(num(ZERO)) || params.order_notional.le(
        num(ZERO),
    ) {
        None
    } else {
        match mid_from_bbo(bid, ask) {
            Some(mid) => {
                let ratio = skew_ratio(inventory, params);
                let bid_price = skewed_bid(bid, ask, mid, ratio, params);
                let ask_price = skewed_ask(bid, ask, mid, ratio, params);
                let base = params.order_notional.div(mid);
                if bid_price.le(num(ZERO)) || ask_price.le(bid_price) {
                    None
                } else {
                    Some(
                        TwoSidedQuote {
                            mid,
                            bid_price,
                            ask_price,
                            bid_qty: base.mul(num(ONE).sub(num(HALF).mul(ratio))).max(num(ZERO)),
                            ask_qty: base.mul(num(ONE).add(num(HALF).mul(ratio))).max(num(ZERO)),
                            expected_edge_bps: ask_price.sub(bid_price).div(mid).mul(num(TEN_THOUSAND)),
                        },
                    )
                }
            },
            None => None,
        }
    }
}

/// Inventory-aware two-sided maker quote.
///
/// Quotes sit a configured fraction off mid, then inventory skew makes the
/// reducing side more aggressive and the adding side less aggressive (price
/// and size).
///
/// Long inventory (positive) lowers the ask (more aggressive sell) and lowers
/// the bid (less aggressive buy). Short inventory is the reverse.
pub fn quote_two_sided(bid: B64, ask: B64, inventory: B64, params: &MmQuoteParams) -> (r: Option<
    TwoSidedQuote,
>)
    ensures
        r == skewed_quote(bid, ask, inventory, *params),
{
    if params.bid_spread.lt(num(ZERO)) || params.ask_spread.lt(num(ZERO)) {
        return None;
    }
    if params.order_notional.le(num(ZERO)) {
        return None;
    }
    let mid: B64 = match mid_from_bbo(bid, ask) {
        Some(mid) => mid,
        None => return None,
    };
    proof {
        crate::binary64::order::lemma_value_order(num(MINUS_ONE), num(ONE));
    }
    let inv_ratio: B64 = if params.inventory_target.gt(num(ZERO)) && !params.inventory_skew.eq_num(num(ZERO)) {
        inventory.div(params.inventory_target).clamp(num(MINUS_ONE), num(ONE)).mul(params.inventory_skew)
    } else {
        num(ZERO)
    };
    // The floor is an offset from mid. If the live book is already inside that
    // floor, join it: that is how maker volume happens.
    let bid_spread: B64 = params.bid_spread.mul(num(ONE).add(inv_ratio)).max(num(ZERO));
    let ask_spread: B64 = params.ask_spread.mul(num(ONE).sub(inv_ratio)).max(num(ZERO));
    let floor_bid: B64 = mid.mul(num(ONE).sub(bid_spread));
    let floor_ask: B64 = mid.mul(num(ONE).add(ask_spread));
    let shift: B64 = inv_ratio.mul(ask.sub(bid).abs()).mul(num(QUARTER));
    let bid_price: B64 = bid.max(floor_bid).sub(shift);
    let ask_price: B64 = ask.min(floor_ask).sub(shift);
    if bid_price.le(num(ZERO)) || ask_price.le(bid_price) {
        return None;
    }
    // Size skew: long means a smaller bid and a larger ask, short the reverse.
    let base_qty: B64 = params.order_notional.div(mid);
    let bid_qty: B64 = base_qty.mul(num(ONE).sub(num(HALF).mul(inv_ratio))).max(num(ZERO));
    let ask_qty: B64 = base_qty.mul(num(ONE).add(num(HALF).mul(inv_ratio))).max(num(ZERO));
    let expected_edge_bps: B64 = ask_price.sub(bid_price).div(mid).mul(num(TEN_THOUSAND));
    Some(TwoSidedQuote { mid, bid_price, ask_price, bid_qty, ask_qty, expected_edge_bps })
}

/// The quote with the sides gone that `no_bid` and `no_ask` name; none where
/// no size is left.
pub open spec fn without_sides(quote: TwoSidedQuote, no_bid: bool, no_ask: bool) -> Option<TwoSidedQuote> {
    let q = TwoSidedQuote {
        bid_qty: if no_bid { num(ZERO) } else { quote.bid_qty },
        ask_qty: if no_ask { num(ZERO) } else { quote.ask_qty },
        ..quote
    };
    if q.bid_qty.le(num(ZERO)) && q.ask_qty.le(num(ZERO)) {
        None
    } else {
        Some(q)
    }
}

pub open spec fn spec_apply_inventory_cap(
    quote: TwoSidedQuote,
    inventory: B64,
    max_inventory: B64,
    mode: InventoryMode,
) -> Option<TwoSidedQuote> {
    if mode == InventoryMode::ResearchNoCap || max_inventory.le(num(ZERO)) {
        Some(quote)
    } else {
        without_sides(quote, inventory.ge(max_inventory), inventory.le(max_inventory.neg()))
    }
}

/// Applies a hard inventory cap: drops the same-side adding quote at or above
/// the cap.
#[verifier::when_used_as_spec(spec_apply_inventory_cap)]
pub fn apply_inventory_cap(
    quote: TwoSidedQuote,
    inventory: B64,
    max_inventory: B64,
    mode: InventoryMode,
) -> (r: Option<TwoSidedQuote>)
    ensures
        r == spec_apply_inventory_cap(quote, inventory, max_inventory, mode),
{
    if mode == InventoryMode::ResearchNoCap || max_inventory.le(num(ZERO)) {
        return Some(quote);
    }
    let mut q: TwoSidedQuote = quote;
    if inventory.ge(max_inventory) {
        q.bid_qty = num(ZERO);
    }
    if inventory.le(max_inventory.neg()) {
        q.ask_qty = num(ZERO);
    }
    if q.bid_qty.le(num(ZERO)) && q.ask_qty.le(num(ZERO)) {
        return None;
    }
    Some(q)
}

/// Whether the mid moved by a quarter of the spread or more.
pub open spec fn mid_moved(prev_mid: B64, mid: B64, bid_spread: B64) -> bool {
    &&& prev_mid.gt(num(ZERO))
    &&& mid.gt(num(ZERO))
    &&& mid.sub(prev_mid).abs().div(prev_mid).ge(bid_spread.max(num(TINY_6)).mul(num(QUARTER)))
}

pub open spec fn requote_due(
    prev_mid: B64,
    prev_inv: B64,
    prev_ts: Timestamp,
    mid: B64,
    inv: B64,
    now: Timestamp,
    bid_spread: B64,
    min_interval_secs: i64,
) -> bool {
    let elapsed = now.total() - prev_ts.total();
    let interval = if min_interval_secs < 1 { 1 } else { min_interval_secs as int };
    &&& elapsed >= interval * 1_000_000_000
    &&& mid_moved(prev_mid, mid, bid_spread) || inv.sub(prev_inv).abs().gt(num(TINY_9)) || elapsed
        >= 30_000_000_000
}

/// Whether to emit a new two-sided quote. Never more often than the minimal
/// interval, and only if the mid moved a meaningful fraction of the spread,
/// the inventory changed, or the last quote is 30 seconds old (refresh).
pub fn should_requote(
    prev_mid: B64,
    prev_inv: B64,
    prev_ts: Timestamp,
    mid: B64,
    inv: B64,
    now: Timestamp,
    bid_spread: B64,
    min_interval_secs: i64,
) -> (r: bool)
    requires
        min_interval_secs <= MAX_DURATION_SECS,
    ensures
        r == requote_due(prev_mid, prev_inv, prev_ts, mid, inv, now, bid_spread, min_interval_secs),
{
    let elapsed: i128 = now.nanos_since(prev_ts);
    let interval: i64 = if min_interval_secs < 1 { 1 } else { min_interval_secs };
    if elapsed < interval as i128 * 1_000_000_000 {
        return false;
    }
    let mid_moved: bool = prev_mid.gt(num(ZERO)) && mid.gt(num(ZERO)) && mid.sub(prev_mid).abs().div(
        prev_mid,
    ).ge(bid_spread.max(num(TINY_6)).mul(num(QUARTER)));
    let inv_changed: bool = inv.sub(prev_inv).abs().gt(num(TINY_9));
    mid_moved || inv_changed || elapsed >= 30_000_000_000
}

/// The capped quote of a book; none without a usable two-sided book.
pub open spec fn book_quote(book: BookView, inventory: B64, params: MmQuoteParams, mode: InventoryMode) -> Option<
    TwoSidedQuote,
> {
    match (book.best_bid(), book.best_ask()) {
        (Some(bid), Some(ask)) => match skewed_quote(bid, ask, inventory, params) {
            Some(quote) => apply_inventory_cap(quote, inventory, params.max_inventory, mode),
            None => None,
        },
        _ => None,
    }
}

/// Quote from an order book and a signed inventory.
pub fn quote_from_book(book: &OrderBook, inventory: B64, params: &MmQuoteParams, mode: InventoryMode) -> (r:
    Option<TwoSidedQuote>)
    ensures
        r == book_quote(book@, inventory, *params, mode),
{
    let bid: B64 = match book.best_bid() {
        Some(bid) => bid,
        None => return None,
    };
    let ask: B64 = match book.best_ask() {
        Some(ask) => ask,
        None => return None,
    };
    match quote_two_sided(bid, ask, inventory, params) {
        Some(quote) => apply_inventory_cap(quote, inventory, params.max_inventory, mode),
        None => None,
    }
}

/// The last quote on a symbol.
#[derive(Debug, Clone, Copy, PartialEq, Eq, Structural)]
pub struct LastQuote {
    pub mid: B64,
    pub inventory: B64,
    pub at: Timestamp,
}

/// Quotes both sides of every book it is shown.
#[derive(Debug)]
pub struct MarketMakingStrategy {
    pub params: MmQuoteParams,
    pub inventory_mode: InventoryMode,
    pub engine: QuoteEngine,
    pub vol_settings: VolObiMmSettings,
    pub last_quotes: Table<LastQuote>,
    pub vol_engines: Table<VolObiCalculator>,
    pub binance: Option<BinanceAlphaHub>,
    pub maker_volume: Option<MakerVolumeConfig>,
    pub markouts: MarkoutTracker,
}

/// What the strategy holds, by symbol.
#[verifier::ext_equal]
pub struct MmView {
    pub params: MmQuoteParams,
    pub inventory_mode: InventoryMode,
    pub engine: QuoteEngine,
    pub vol_settings: VolObiMmSettings,
    pub last_quotes: Map<Seq<char>, LastQuote>,
    pub vol_engines: Map<Seq<char>, CalcView>,
    pub binance: Option<HubView>,
    pub gates: Option<GatesView>,
    pub markouts: MarkoutView,
}

pub open spec fn engine_views(m: Map<Seq<char>, VolObiCalculator>) -> Map<Seq<char>, CalcView> {
    m.map_values(|c: VolObiCalculator| c@)
}

impl View for MarketMakingStrategy {
    type V = MmView;

    open spec fn view(&self) -> MmView {
        MmView {
            params: self.params,
            inventory_mode: self.inventory_mode,
            engine: self.engine,
            vol_settings: self.vol_settings,
            last_quotes: self.last_quotes@,
            vol_engines: engine_views(self.vol_engines@),
            binance: match self.binance {
                Some(hub) => Some(hub@),
                None => None,
            },
            gates: match self.maker_volume {
                Some(cfg) => Some(cfg@),
                None => None,
            },
            markouts: self.markouts@,
        }
    }
}

/// Prices and sizes of a side of a book.
pub open spec fn level_pairs(levels: Seq<PriceLevel>) -> Seq<(B64, B64)> {
    Seq::new(levels.len(), |i: int| (levels[i].price, levels[i].quantity))
}

/// The nanoseconds of an instant since the epoch fit 64 bits.
pub open spec fn nanos_fit(t: Timestamp) -> bool {
    i64::MIN <= t.secs * 1_000_000_000 && t.secs * 1_000_000_000 + t.nanos <= i64::MAX
}

/// The size of a side: less on the adding side, more on the reducing one.
pub open spec fn vol_qty(price: B64, base: B64, inventory: B64, adding: bool, reducing: bool) -> B64 {
    if !standing(price) {
        num(ZERO)
    } else if adding {
        base.mul(num(P85))
    } else if reducing {
        base.mul(num(ONE_P15))
    } else {
        base
    }
}

/// The quote at given prices, sized by the inventory; none where both sides
/// stand and cross.
pub open spec fn vol_sized(
    params: MmQuoteParams,
    min_half_spread_bps: B64,
    mid: B64,
    inventory: B64,
    bid_price: B64,
    ask_price: B64,
) -> Option<TwoSidedQuote> {
    let base = params.order_notional.div(mid);
    let long = inventory.gt(num(ZERO));
    let short = inventory.lt(num(ZERO));
    let bid_qty = vol_qty(bid_price, base, inventory, long, short);
    let ask_qty = vol_qty(ask_price, base, inventory, short, long);
    let has_bid = bid_qty.gt(num(ZERO));
    let has_ask = ask_qty.gt(num(ZERO));
    if has_bid && has_ask && bid_price.ge(ask_price) {
        None
    } else {
        let width = if has_bid && has_ask {
            ask_price.sub(bid_price).div(mid).mul(num(TEN_THOUSAND))
        } else {
            min_half_spread_bps.mul(num(TWO))
        };
        Some(
            TwoSidedQuote {
                mid,
                bid_price: if has_bid { bid_price } else { num(ZERO) },
                ask_price: if has_ask { ask_price } else { num(ZERO) },
                bid_qty,
                ask_qty,
                expected_edge_bps: width.max(num(ZERO)),
            },
        )
    }
}

/// The smallest notional that is worth an order.
pub open spec fn worth_placing(qty: B64, price: B64) -> bool {
    qty.mul(price).ge(num(ONE))
}

/// What an engine is called in the reason of an order.
pub open spec fn engine_label(engine: QuoteEngine) -> Seq<char> {
    match engine {
        QuoteEngine::VolObi => "vol_obi"@,
        QuoteEngine::Simple => "pmm"@,
    }
}

/// Why an order is placed: the engine, the side, and the price, the mid and the
/// inventory with six places.
pub open spec fn quote_reason(engine: QuoteEngine, side: Seq<char>, price: B64, mid: B64, inventory: B64) -> Seq<char> {
    "MM "@ + engine_label(engine) + side + fixed_text(price) + " mid="@ + fixed_text(mid) + " inv="@
        + fixed_text(inventory)
}

/// The orders of a quote.
pub open spec fn quote_signals(
    symbol: Seq<char>,
    market_id: u32,
    quote: TwoSidedQuote,
    inventory: B64,
    engine: QuoteEngine,
    ts: Timestamp,
) -> Seq<SignalView> {
    let buy = SignalView {
        symbol,
        market_id,
        side: Side::Buy,
        price: quote.bid_price,
        quantity: quote.bid_qty,
        order_type: OrderType::Limit,
        reason: quote_reason(engine, " bid "@, quote.bid_price, quote.mid, inventory),
        timestamp: ts,
        expected_edge_bps: Some(quote.expected_edge_bps),
        risk_reducing: inventory.lt(num(ZERO)) && quote.bid_qty.le(inventory.abs().add(num(EPSILON))),
    };
    let sell = SignalView {
        side: Side::Sell,
        price: quote.ask_price,
        quantity: quote.ask_qty,
        reason: quote_reason(engine, " ask "@, quote.ask_price, quote.mid, inventory),
        risk_reducing: inventory.gt(num(ZERO)) && quote.ask_qty.le(inventory.add(num(EPSILON))),
        ..buy
    };
    let bids = if worth_placing(quote.bid_qty, quote.bid_price) {
        seq![buy]
    } else {
        Seq::empty()
    };
    if worth_placing(quote.ask_qty, quote.ask_price) {
        bids.push(sell)
    } else {
        bids
    }
}

/// The position in a symbol, flat where there is none.
pub open spec fn position_of(positions: Map<Seq<char>, B64>, symbol: Seq<char>) -> B64 {
    if positions.dom().contains(symbol) {
        positions[symbol]
    } else {
        num(ZERO)
    }
}

impl MmView {
    /// The largest position in quote currency; 0 where there is no cap.
    pub open spec fn max_position(self, mid: B64) -> B64 {
        if self.params.max_inventory.gt(num(ZERO)) {
            self.params.max_inventory.mul(mid)
        } else {
            num(ZERO)
        }
    }

    /// The calculator of a symbol before a book, a fresh one on its first book.
    pub open spec fn calc_of(self, symbol: Seq<char>, tick: B64, max_pos_usd: B64) -> CalcView {
        if self.vol_engines.dom().contains(symbol) {
            self.vol_engines[symbol]
        } else {
            CalcView::fresh(self.vol_settings.vol_obi, tick, max_pos_usd)
        }
    }

    /// The hub after it was told to watch a symbol.
    pub open spec fn watching(self, symbol: Seq<char>) -> Option<HubView> {
        match self.binance {
            Some(hub) => Some(hub.watching(symbol)),
            None => None,
        }
    }

    /// The fresh external alpha of a symbol.
    pub open spec fn external_alpha(self, symbol: Seq<char>, now_ms: u64) -> Option<B64> {
        match self.watching(symbol) {
            Some(hub) => hub.alpha(symbol, self.vol_settings.alpha_stale_secs, now_ms),
            None => None,
        }
    }

    /// The calculator of a book's symbol after the book.
    pub open spec fn calc_after(self, book: BookView, mid: B64, now_ms: u64) -> CalcView {
        let bids = level_pairs(book.bids);
        let asks = level_pairs(book.asks);
        let tick = tick_of(bids, asks, mid);
        let now_ns = (book.timestamp.secs * 1_000_000_000 + book.timestamp.nanos) as i64;
        self.calc_of(book.symbol, tick, self.max_position(mid)).limited(self.max_position(mid)).overridden(
            self.external_alpha(book.symbol, now_ms),
        ).updated(now_ns, mid, bids, asks)
    }

    /// The prices around a book: those of its calculator, or else a reducing
    /// side, then widened and biased.
    pub open spec fn vol_prices(self, calc: CalcView, book: BookView, mid: B64, inventory: B64) -> Option<(B64, B64)> {
        let tick = tick_of(level_pairs(book.bids), level_pairs(book.asks), mid);
        let raw = match calc.quote(mid, inventory) {
            Some(pair) => Some(pair),
            None => reducing_quote(mid, inventory, tick, self.vol_settings.vol_obi.min_half_spread_bps),
        };
        match raw {
            Some(pair) => {
                let wide = widened(pair.0, pair.1, mid, self.vol_settings.quality_multiplier, tick);
                Some(
                    biased(
                        wide.0,
                        wide.1,
                        mid,
                        inventory,
                        self.max_position(mid),
                        num(ZERO),
                        num(TWO),
                        self.vol_settings.inventory_exit,
                        tick,
                    ),
                )
            },
            None => None,
        }
    }

    /// The mid of a book that is narrow enough to price by volatility.
    pub open spec fn narrow_mid(self, book: BookView) -> Option<B64> {
        match (book.best_bid(), book.best_ask()) {
            (Some(bid), Some(ask)) => match mid_from_bbo(bid, ask) {
                Some(mid) => if ask.sub(bid).div(mid).gt(num(P02)) {
                    None
                } else {
                    Some(mid)
                },
                None => None,
            },
            _ => None,
        }
    }

    /// The quote of the volatility engine, and the strategy after it.
    pub open spec fn vol_quoted(self, book: BookView, inventory: B64, now_ms: u64) -> (MmView, Option<
        TwoSidedQuote,
    >) {
        match self.narrow_mid(book) {
            Some(mid) => {
                let calc = self.calc_after(book, mid, now_ms);
                let after = MmView {
                    vol_engines: self.vol_engines.insert(book.symbol, calc),
                    binance: self.watching(book.symbol),
                    ..self
                };
                (
                    after,
                    match self.vol_prices(calc, book, mid, inventory) {
                        Some(prices) => vol_sized(
                            self.params,
                            self.vol_settings.vol_obi.min_half_spread_bps,
                            mid,
                            inventory,
                            prices.0,
                            prices.1,
                        ),
                        None => None,
                    },
                )
            },
            None => (self, None),
        }
    }

    /// The capped quote of the configured engine, and the strategy after it.
    pub open spec fn quoted(self, book: BookView, inventory: B64, now_ms: u64) -> (MmView, Option<TwoSidedQuote>) {
        if self.engine == QuoteEngine::VolObi {
            let (after, quote) = self.vol_quoted(book, inventory, now_ms);
            (
                after,
                match quote {
                    Some(q) => apply_inventory_cap(q, inventory, self.params.max_inventory, self.inventory_mode),
                    None => None,
                },
            )
        } else {
            (self, book_quote(book, inventory, self.params, self.inventory_mode))
        }
    }

    /// The quote that the maker-volume gates let stand.
    pub open spec fn gated(self, symbol: Seq<char>, book: BookView, inventory: B64, quote: TwoSidedQuote) -> (
        MmView,
        Option<TwoSidedQuote>,
    ) {
        match self.gates {
            Some(gates) => {
                let marks = self.markouts.seen(symbol, inventory, quote.mid, book.timestamp, gates);
                (
                    MmView { markouts: marks, ..self },
                    match clamp_maker_only(quote, book.best_bid()->0, book.best_ask()->0) {
                        Some(q) => match apply_notional_inventory_cap(
                            q,
                            inventory,
                            q.mid,
                            gates.max_position_notional,
                        ) {
                            Some(q) => pulled(q, symbol, book.timestamp, marks),
                            None => None,
                        },
                        None => None,
                    },
                )
            },
            None => (self, Some(quote)),
        }
    }

    /// Whether the gates let a market be quoted at all.
    pub open spec fn market_open(self, market_id: u32) -> bool {
        match self.gates {
            Some(gates) => gates.allows(market_id),
            None => true,
        }
    }

    /// Whether a quote would replace the last one too soon.
    pub open spec fn too_soon(self, symbol: Seq<char>, quote: TwoSidedQuote, inventory: B64, at: Timestamp) -> bool {
        let last = self.last_quotes[symbol];
        self.last_quotes.dom().contains(symbol) && !requote_due(
            last.mid,
            last.inventory,
            last.at,
            quote.mid,
            inventory,
            at,
            self.params.bid_spread,
            self.params.min_requote_secs,
        )
    }

    /// The orders for one book, and the strategy after it.
    pub open spec fn step(self, symbol: Seq<char>, book: BookView, inventory: B64, now: Timestamp) -> (
        MmView,
        Seq<SignalView>,
    ) {
        if !self.market_open(book.market_id) {
            (self, Seq::empty())
        } else {
            let (after, quote) = self.quoted(book, inventory, wall_millis(now));
            match quote {
                None => (after, Seq::empty()),
                Some(quote) => {
                    let (after, quote) = after.gated(symbol, book, inventory, quote);
                    match quote {
                        None => (after, Seq::empty()),
                        Some(quote) => if after.too_soon(symbol, quote, inventory, book.timestamp) {
                            (after, Seq::empty())
                        } else {
                            (
                                MmView {
                                    last_quotes: after.last_quotes.insert(
                                        symbol,
                                        LastQuote { mid: quote.mid, inventory, at: book.timestamp },
                                    ),
                                    ..after
                                },
                                quote_signals(
                                    symbol,
                                    book.market_id,
                                    quote,
                                    inventory,
                                    self.engine,
                                    if book.timestamp.secs > 0 { book.timestamp } else { now },
                                ),
                            )
                        },
                    }
                },
            }
        }
    }

    /// The orders for several books, one after the other.
    pub open spec fn walked(
        self,
        books: Seq<(Seq<char>, BookView)>,
        positions: Map<Seq<char>, B64>,
        now: Timestamp,
    ) -> (MmView, Seq<SignalView>)
        decreases books.len(),
    {
        if books.len() == 0 {
            (self, Seq::empty())
        } else {
            let (before, signals) = self.walked(books.drop_last(), positions, now);
            let (symbol, book) = books.last();
            let (after, more) = before.step(symbol, book, position_of(positions, symbol), now);
            (after, signals + more)
        }
    }

    /// The settings, which no book changes.
    pub open spec fn same_setup(self, other: MmView) -> bool {
        &&& self.params == other.params
        &&& self.inventory_mode == other.inventory_mode
        &&& self.engine == other.engine
        &&& self.vol_settings == other.vol_settings
        &&& self.gates == other.gates
    }

    /// Whether the gates forbid every quote.
    pub open spec fn disarmed(self) -> bool {
        match self.gates {
            Some(gates) => !gates.armed(),
            None => false,
        }
    }

    /// The orders for a snapshot, and the strategy after it.
    pub open spec fn evaluated(
        self,
        books: Seq<(Seq<char>, BookView)>,
        positions: Map<Seq<char>, B64>,
        now: Timestamp,
    ) -> (MmView, Seq<SignalView>) {
        if self.disarmed() {
            (self, Seq::empty())
        } else {
            self.walked(books, positions, now)
        }
    }

    /// Where the volatility engine prices a book, its instant is a count of
    /// nanoseconds.
    pub open spec fn book_usable(self, book: BookView) -> bool {
        self.engine == QuoteEngine::VolObi && self.narrow_mid(book) is Some ==> nanos_fit(book.timestamp)
    }

    /// Where gates hold a quote, the markouts can take it in.
    pub open spec fn quote_usable(
        self,
        symbol: Seq<char>,
        book: BookView,
        inventory: B64,
        quote: TwoSidedQuote,
    ) -> bool {
        match self.gates {
            Some(gates) => self.markouts.usable(symbol, inventory, quote.mid, book.timestamp, gates),
            None => true,
        }
    }

    /// The durations and instants that a book leads to exist, as far as it
    /// leads.
    pub open spec fn step_usable(self, symbol: Seq<char>, book: BookView, inventory: B64, now: Timestamp) -> bool {
        self.market_open(book.market_id) ==> {
            let (after, quote) = self.quoted(book, inventory, wall_millis(now));
            &&& self.book_usable(book)
            &&& match quote {
                Some(quote) => {
                    let (gated, left) = after.gated(symbol, book, inventory, quote);
                    &&& after.quote_usable(symbol, book, inventory, quote)
                    &&& left is Some && gated.last_quotes.dom().contains(symbol)
                        ==> self.params.min_requote_secs <= MAX_DURATION_SECS
                },
                None => true,
            }
        }
    }

    /// The same for several books, one after the other.
    pub open spec fn walk_usable(
        self,
        books: Seq<(Seq<char>, BookView)>,
        positions: Map<Seq<char>, B64>,
        now: Timestamp,
    ) -> bool {
        forall|i: int|
            0 <= i < books.len() ==> self.walked(books.take(i), positions, now).0.step_usable(
                (#[trigger] books[i]).0,
                books[i].1,
                position_of(positions, books[i].0),
                now,
            )
    }

    /// The intervals in the settings are durations that exist.
    pub open spec fn durations_exist(self) -> bool {
        &&& self.params.min_requote_secs <= MAX_DURATION_SECS
        &&& self.gates is Some ==> self.gates->0.durations_exist()
    }

    /// The instants that the settings lead to from a book's exist.
    pub open spec fn instant_usable(self, at: Timestamp) -> bool {
        &&& self.engine == QuoteEngine::VolObi ==> nanos_fit(at)
        &&& self.gates is Some ==> at.secs + self.gates->0.backoff() <= MAX_SECS
    }
}

/// Parameters that a strategy can be made with.
pub open spec fn params_fault(params: MmQuoteParams) -> Option<ErrorView> {
    if params.bid_spread.lt(num(ZERO)) || params.ask_spread.lt(num(ZERO)) {
        Some(ErrorView::NegativeSpread)
    } else if params.order_notional.le(num(ZERO)) {
        Some(ErrorView::NotionalNotPositive)
    } else if params.inventory_skew.lt(num(ZERO)) {
        Some(ErrorView::NegativeSkew)
    } else {
        None
    }
}

/// A strategy that has seen nothing.
pub open spec fn fresh_strategy(
    params: MmQuoteParams,
    inventory_mode: InventoryMode,
    engine: QuoteEngine,
    vol_settings: VolObiMmSettings,
    runtime_available: bool,
) -> MmView {
    MmView {
        params,
        inventory_mode,
        engine,
        vol_settings,
        last_quotes: Map::empty(),
        vol_engines: Map::empty(),
        binance: if engine == QuoteEngine::VolObi && vol_settings.alpha_source == AlphaSource::Binance
            && runtime_available {
            Some(HubView { alphas: Map::empty(), wanted: Seq::empty() })
        } else {
            None
        },
        gates: None,
        markouts: MarkoutView::empty(),
    }
}

fn levels(side: &Vec<PriceLevel>) -> (r: Vec<(B64, B64)>)
    ensures
        r@ == level_pairs(side@),
{
    let mut out: Vec<(B64, B64)> = Vec::new();
    let mut i: usize = 0;
    while i < side.len()
        invariant
            i <= side.len(),
            out.len() == i,
            forall|k: int| 0 <= k < i ==> #[trigger] out@[k] == (side@[k].price, side@[k].quantity),
        decreases side.len() - i,
    {
        out.push((side[i].price, side[i].quantity));
        i = i + 1;
    }
    assert(out@ =~= level_pairs(side@));
    out
}

/// Sizes a quote by the inventory.
fn size_quote(
    params: &MmQuoteParams,
    min_half_spread_bps: B64,
    mid: B64,
    inventory: B64,
    bid_price: B64,
    ask_price: B64,
) -> (r: Option<TwoSidedQuote>)
    ensures
        r == vol_sized(*params, min_half_spread_bps, mid, inventory, bid_price, ask_price),
{
    let base_qty: B64 = params.order_notional.div(mid);
    let mut bid_qty: B64 = base_qty;
    let mut ask_qty: B64 = base_qty;
    if inventory.gt(num(ZERO)) {
        ask_qty = ask_qty.mul(num(ONE_P15));
        bid_qty = bid_qty.mul(num(P85));
    } else if inventory.lt(num(ZERO)) {
        bid_qty = bid_qty.mul(num(ONE_P15));
        ask_qty = ask_qty.mul(num(P85));
    }
    if !bid_price.is_finite() || !bid_price.gt(num(ZERO)) {
        bid_qty = num(ZERO);
    }
    if !ask_price.is_finite() || !ask_price.gt(num(ZERO)) {
        ask_qty = num(ZERO);
    }
    let has_bid: bool = bid_qty.gt(num(ZERO));
    let has_ask: bool = ask_qty.gt(num(ZERO));
    if has_bid && has_ask && bid_price.ge(ask_price) {
        return None;
    }
    let width: B64 = if has_bid && has_ask {
        ask_price.sub(bid_price).div(mid).mul(num(TEN_THOUSAND))
    } else {
        min_half_spread_bps.mul(num(TWO))
    };
    Some(
        TwoSidedQuote {
            mid,
            bid_price: if has_bid { bid_price } else { num(ZERO) },
            ask_price: if has_ask { ask_price } else { num(ZERO) },
            bid_qty,
            ask_qty,
            expected_edge_bps: width.max(num(ZERO)),
        },
    )
}

impl MarketMakingStrategy {
    pub open spec fn wf(&self) -> bool {
        &&& self.last_quotes.wf()
        &&& self.vol_engines.wf()
        &&& forall|k: Seq<char>| #[trigger] self.vol_engines@.dom().contains(k) ==> self.vol_engines@[k].wf()
        &&& self.binance is Some ==> self.binance->0.wf()
        &&& self.markouts.wf()
    }

    /// A strategy that joins the best prices.
    pub fn new(params: MmQuoteParams, inventory_mode: InventoryMode) -> (r: Result<
        MarketMakingStrategy,
        StrategyError,
    >)
        ensures
            match r {
                Ok(s) => {
                    &&& params_fault(params) is None
                    &&& s.wf()
                    &&& s@ == fresh_strategy(
                        params,
                        inventory_mode,
                        QuoteEngine::Simple,
                        default_vol_settings(),
                        false,
                    )
                },
                Err(e) => params_fault(params) == Some(e@),
            },
    {
        MarketMakingStrategy::with_engine(
            params,
            inventory_mode,
            QuoteEngine::Simple,
            VolObiMmSettings::default(),
            false,
        )
    }

    /// A strategy with a given engine. An external alpha needs a runtime that
    /// can feed it.
    pub fn with_engine(
        params: MmQuoteParams,
        inventory_mode: InventoryMode,
        engine: QuoteEngine,
        vol_settings: VolObiMmSettings,
        runtime_available: bool,
    ) -> (r: Result<MarketMakingStrategy, StrategyError>)
        ensures
            match r {
                Ok(s) => {
                    &&& params_fault(params) is None
                    &&& s.wf()
                    &&& s@ == fresh_strategy(params, inventory_mode, engine, vol_settings, runtime_available)
                },
                Err(e) => params_fault(params) == Some(e@),
            },
    {
        if params.bid_spread.lt(num(ZERO)) || params.ask_spread.lt(num(ZERO)) {
            return Err(StrategyError::NegativeSpread);
        }
        if params.order_notional.le(num(ZERO)) {
            return Err(StrategyError::NotionalNotPositive);
        }
        if params.inventory_skew.lt(num(ZERO)) {
            return Err(StrategyError::NegativeSkew);
        }
        let binance = if engine == QuoteEngine::VolObi && vol_settings.alpha_source == AlphaSource::Binance
            && runtime_available {
            Some(BinanceAlphaHub::new())
        } else {
            None
        };
        let s = MarketMakingStrategy {
            params,
            inventory_mode,
            engine,
            vol_settings,
            last_quotes: Table::new(),
            vol_engines: Table::new(),
            binance,
            maker_volume: None,
            markouts: MarkoutTracker::default(),
        };
        assert(engine_views(s.vol_engines@) =~= Map::<Seq<char>, CalcView>::empty());
        Ok(s)
    }

    /// The strategy behind maker-volume gates.
    pub fn with_maker_volume(self, gates: MakerVolumeConfig) -> (r: MarketMakingStrategy)
        ensures
            self.wf() ==> r.wf(),
            r@ == (MmView { gates: Some(gates@), ..self@ }),
    {
        let mut r = self;
        r.maker_volume = Some(gates);
        r
    }

    pub fn quote_engine(&self) -> (r: QuoteEngine)
        ensures
            r == self@.engine,
    {
        self.engine
    }

    /// The calculator of a symbol, taken out of the table.
    fn take_calc(&mut self, symbol: &str, tick: B64, max_pos_usd: B64) -> (r: VolObiCalculator)
        requires
            old(self).wf(),
        ensures
            final(self).wf(),
            r.wf(),
            r@ == old(self)@.calc_of(symbol@, tick, max_pos_usd),
            final(self)@ == (MmView { vol_engines: old(self)@.vol_engines.remove(symbol@), ..old(self)@ }),
    {
        let ghost before = self@;
        let taken: Option<VolObiCalculator> = self.vol_engines.remove(symbol);
        assert(engine_views(self.vol_engines@) =~= before.vol_engines.remove(symbol@));
        match taken {
            Some(calc) => calc,
            None => VolObiCalculator::new(&self.vol_settings.vol_obi, tick, max_pos_usd),
        }
    }

    /// Puts the calculator of a symbol into the table.
    fn put_calc(&mut self, symbol: &str, calc: VolObiCalculator)
        requires
            old(self).wf(),
            calc.wf(),
        ensures
            final(self).wf(),
            final(self)@ == (MmView { vol_engines: old(self)@.vol_engines.insert(symbol@, calc@), ..old(self)@ }),
    {
        let ghost before = self@;
        self.vol_engines.insert(symbol, calc);
        assert(engine_views(self.vol_engines@) =~= before.vol_engines.insert(symbol@, calc@));
    }

    /// Tells the hub to watch a symbol and asks it for the alpha.
    fn fetch_alpha(&mut self, symbol: &str, now_ms: u64) -> (r: Option<B64>)
        requires
            old(self).wf(),
        ensures
            final(self).wf(),
            r == old(self)@.external_alpha(symbol@, now_ms),
            final(self)@ == (MmView { binance: old(self)@.watching(symbol@), ..old(self)@ }),
    {
        let stale_secs: B64 = self.vol_settings.alpha_stale_secs;
        match self.binance.take() {
            Some(hub) => {
                let mut hub = hub;
                hub.watch_one(symbol);
                let alpha: Option<B64> = hub.alpha(symbol, stale_secs, now_ms);
                self.binance = Some(hub);
                alpha
            },
            None => None,
        }
    }

    /// The quote of the volatility engine.
    pub fn quote_vol_obi(&mut self, book: &OrderBook, inventory: B64, now_ms: u64) -> (r: Option<TwoSidedQuote>)
        requires
            old(self).wf(),
            old(self)@.narrow_mid(book@) is Some ==> nanos_fit(book.timestamp),
        ensures
            final(self).wf(),
            (final(self)@, r) == old(self)@.vol_quoted(book@, inventory, now_ms),
    {
        let bid: B64 = match book.best_bid() {
            Some(bid) => bid,
            None => return None,
        };
        let ask: B64 = match book.best_ask() {
            Some(ask) => ask,
            None => return None,
        };
        let mid: B64 = match mid_from_bbo(bid, ask) {
            Some(mid) => mid,
            None => return None,
        };
        // A partial book can print a deep leftover level as its best price.
        if ask.sub(bid).div(mid).gt(num(P02)) {
            return None;
        }
        let ghost before = self@;
        let bids = levels(&book.bids);
        let asks = levels(&book.asks);
        let tick: B64 = tick_size_from_levels(&bids, &asks, mid);
        let max_pos_usd: B64 = if self.params.max_inventory.gt(num(ZERO)) {
            self.params.max_inventory.mul(mid)
        } else {
            num(ZERO)
        };
        let ext: Option<B64> = self.fetch_alpha(book.symbol.as_str(), now_ms);
        let now_ns: i64 = book.timestamp.secs * 1_000_000_000 + book.timestamp.nanos as i64;
        let mut calc: VolObiCalculator = self.take_calc(book.symbol.as_str(), tick, max_pos_usd);
        calc.set_max_position_dollar(max_pos_usd);
        calc.set_alpha_override(ext);
        calc.on_book_update(now_ns, mid, &bids, &asks);
        assert(calc@ == before.calc_after(book@, mid, now_ms));
        let raw: Option<(B64, B64)> = calc.quote(mid, inventory);
        let ghost after = calc@;
        self.put_calc(book.symbol.as_str(), calc);
        assert(self@ =~= (MmView {
            vol_engines: before.vol_engines.insert(book.symbol@, after),
            binance: before.watching(book.symbol@),
            ..before
        }));
        let min_bps: B64 = self.vol_settings.vol_obi.min_half_spread_bps;
        let prices: (B64, B64) = match raw {
            Some(pair) => pair,
            None => match fallback_reduce_only(mid, inventory, tick, min_bps) {
                Some(pair) => pair,
                None => return None,
            },
        };
        let wide: (B64, B64) = apply_quality_spread_multiplier(
            prices.0,
            prices.1,
            mid,
            self.vol_settings.quality_multiplier,
            tick,
        );
        let moved: (B64, B64) = apply_inventory_exit_bias(
            wide.0,
            wide.1,
            mid,
            inventory,
            max_pos_usd,
            num(ZERO),
            num(TWO),
            &self.vol_settings.inventory_exit,
            tick,
        );
        size_quote(&self.params, min_bps, mid, inventory, moved.0, moved.1)
    }

    /// The capped quote of the configured engine.
    fn quote_book(&mut self, book: &OrderBook, inventory: B64, now_ms: u64) -> (r: Option<TwoSidedQuote>)
        requires
            old(self).wf(),
            old(self)@.book_usable(book@),
        ensures
            final(self).wf(),
            (final(self)@, r) == old(self)@.quoted(book@, inventory, now_ms),
    {
        if self.engine == QuoteEngine::VolObi {
            match self.quote_vol_obi(book, inventory, now_ms) {
                Some(q) => apply_inventory_cap(q, inventory, self.params.max_inventory, self.inventory_mode),
                None => None,
            }
        } else {
            quote_from_book(book, inventory, &self.params, self.inventory_mode)
        }
    }

    /// Holds a quote against the maker-volume gates.
    fn gate_quote(&mut self, symbol: &str, book: &OrderBook, inventory: B64, quote: TwoSidedQuote) -> (r: Option<
        TwoSidedQuote,
    >)
        requires
            old(self).wf(),
            old(self)@.quote_usable(symbol@, book@, inventory, quote),
            book@.best_bid() is Some,
            book@.best_ask() is Some,
        ensures
            final(self).wf(),
            (final(self)@, r) == old(self)@.gated(symbol@, book@, inventory, quote),
    {
        let gates: &MakerVolumeConfig = match &self.maker_volume {
            Some(gates) => gates,
            None => return Some(quote),
        };
        let max_notional: B64 = gates.max_position_notional;
        self.markouts.on_book(symbol, inventory, quote.mid, book.timestamp, gates);
        let bid: B64 = match book.best_bid() {
            Some(bid) => bid,
            None => return None,
        };
        let ask: B64 = match book.best_ask() {
            Some(ask) => ask,
            None => return None,
        };
        let passive: TwoSidedQuote = match clamp_maker_only(quote, bid, ask) {
            Some(q) => q,
            None => return None,
        };
        match apply_notional_inventory_cap(passive, inventory, passive.mid, max_notional) {
            Some(q) => apply_markout_pull(q, symbol, book.timestamp, &self.markouts),
            None => None,
        }
    }

    /// The orders for one book.
    fn step_book(
        &mut self,
        symbol: &str,
        book: &OrderBook,
        inventory: B64,
        now: Timestamp,
        signals: &mut Vec<TradeSignal>,
    )
        requires
            old(self).wf(),
            old(self)@.step_usable(symbol@, book@, inventory, now),
            now.secs <= MAX_SECS,
        ensures
            final(self).wf(),
            final(self)@ == old(self)@.step(symbol@, book@, inventory, now).0,
            signal_views(final(signals)@) == signal_views(old(signals)@) + old(self)@.step(
                symbol@,
                book@,
                inventory,
                now,
            ).1,
    {
        let ghost had = signal_views(signals@);
        let open: bool = match &self.maker_volume {
            Some(gates) => gates.allows_market(book.market_id),
            None => true,
        };
        assert(had + Seq::<SignalView>::empty() =~= had);
        if !open {
            return;
        }
        let quote: TwoSidedQuote = match self.quote_book(book, inventory, wall_millis_of(now)) {
            Some(quote) => quote,
            None => return,
        };
        let quote: TwoSidedQuote = match self.gate_quote(symbol, book, inventory, quote) {
            Some(quote) => quote,
            None => return,
        };
        match self.last_quotes.get(symbol) {
            Some(last) => {
                if !should_requote(
                    last.mid,
                    last.inventory,
                    last.at,
                    quote.mid,
                    inventory,
                    book.timestamp,
                    self.params.bid_spread,
                    self.params.min_requote_secs,
                ) {
                    return;
                }
            },
            None => {},
        }
        self.last_quotes.insert(symbol, LastQuote { mid: quote.mid, inventory, at: book.timestamp });
        let ts: Timestamp = if book.timestamp.secs > 0 { book.timestamp } else { now };
        push_signals(symbol, book.market_id, quote, inventory, self.engine, ts, signals);
    }
}

fn reason_of(engine: QuoteEngine, side: &str, price: B64, mid: B64, inventory: B64) -> (r: String)
    ensures
        r@ == quote_reason(engine, side@, price, mid, inventory),
{
    let mut r: String = copy_text("MM ");
    append(
        &mut r,
        match engine {
            QuoteEngine::VolObi => "vol_obi",
            QuoteEngine::Simple => "pmm",
        },
    );
    append(&mut r, side);
    append(&mut r, price.to_fixed().as_str());
    append(&mut r, " mid=");
    append(&mut r, mid.to_fixed().as_str());
    append(&mut r, " inv=");
    append(&mut r, inventory.to_fixed().as_str());
    r
}

/// Adds the orders of a quote.
fn push_signals(
    symbol: &str,
    market_id: u32,
    quote: TwoSidedQuote,
    inventory: B64,
    engine: QuoteEngine,
    ts: Timestamp,
    signals: &mut Vec<TradeSignal>,
)
    ensures
        signal_views(final(signals)@) == signal_views(old(signals)@) + quote_signals(
            symbol@,
            market_id,
            quote,
            inventory,
            engine,
            ts,
        ),
{
    let ghost had = signal_views(signals@);
    if quote.bid_qty.mul(quote.bid_price).ge(num(ONE)) {
        signals.push(
            TradeSignal {
                symbol: copy_text(symbol),
                market_id,
                side: Side::Buy,
                price: quote.bid_price,
                quantity: quote.bid_qty,
                order_type: OrderType::Limit,
                reason: reason_of(engine, " bid ", quote.bid_price, quote.mid, inventory),
                timestamp: ts,
                expected_edge_bps: Some(quote.expected_edge_bps),
                risk_reducing: inventory.lt(num(ZERO)) && quote.bid_qty.le(inventory.abs().add(num(EPSILON))),
            },
        );
    }
    if quote.ask_qty.mul(quote.ask_price).ge(num(ONE)) {
        signals.push(
            TradeSignal {
                symbol: copy_text(symbol),
                market_id,
                side: Side::Sell,
                price: quote.ask_price,
                quantity: quote.ask_qty,
                order_type: OrderType::Limit,
                reason: reason_of(engine, " ask ", quote.ask_price, quote.mid, inventory),
                timestamp: ts,
                expected_edge_bps: Some(quote.expected_edge_bps),
                risk_reducing: inventory.gt(num(ZERO)) && quote.ask_qty.le(inventory.add(num(EPSILON))),
            },
        );
    }
    assert(signal_views(signals@) =~= had + quote_signals(symbol@, market_id, quote, inventory, engine, ts));
}

impl Strategy for MarketMakingStrategy {
    open spec fn ready(&self, snapshot: &MarketSnapshot, now: Timestamp) -> bool {
        &&& self.wf()
        &&& snapshot.wf()
        &&& now.secs <= MAX_SECS
        &&& self@.disarmed() || self@.walk_usable(snapshot.books(), snapshot.positions@, now)
    }

    /// The strategy never fails: it steps through the books and returns the
    /// orders, if there are any.
    open spec fn outcome(
        before: Self,
        snapshot: &MarketSnapshot,
        now: Timestamp,
        after: Self,
        r: Result<Option<Vec<TradeSignal>>, StrategyError>,
    ) -> bool {
        let (view, signals) = before@.evaluated(snapshot.books(), snapshot.positions@, now);
        &&& after.wf()
        &&& after@ == view
        &&& match r {
            Ok(Some(v)) => signals.len() > 0 && signal_views(v@) == signals,
            Ok(None) => signals.len() == 0,
            Err(_) => false,
        }
    }

    /// The quotes and the engines are forgotten; the setup stays.
    open spec fn was_reset(before: Self, after: Self) -> bool {
        &&& after@ == (MmView { last_quotes: Map::empty(), vol_engines: Map::empty(), ..before@ })
        &&& before.wf() ==> after.wf()
    }

    /// The quotes are forgotten; the engines and the setup stay.
    open spec fn was_cleared(before: Self, after: Self) -> bool {
        &&& after@ == (MmView { last_quotes: Map::empty(), ..before@ })
        &&& before.wf() ==> after.wf()
    }

    fn name(&self) -> (r: &str)
        ensures
            r@ == "market_making"@,
    {
        "market_making"
    }

    /// The orders for a snapshot: none where there is nothing to do.
    fn evaluate(&mut self, snapshot: &MarketSnapshot, now: Timestamp) -> (r: Result<
        Option<Vec<TradeSignal>>,
        StrategyError,
    >)
        ensures
            final(self).wf(),
            ({
                let (after, signals) = old(self)@.evaluated(snapshot.books(), snapshot.positions@, now);
                &&& final(self)@ == after
                &&& match r {
                    Ok(Some(v)) => signals.len() > 0 && signal_views(v@) == signals,
                    Ok(None) => signals.len() == 0,
                    Err(_) => false,
                }
            }),
    {
        let ghost before = self@;
        let armed: bool = match &self.maker_volume {
            Some(gates) => gates.quotes_armed(),
            None => true,
        };
        if !armed {
            return Ok(None);
        }
        let ghost books = snapshot.books();
        let mut signals: Vec<TradeSignal> = Vec::new();
        let mut i: usize = 0;
        assert(books.take(0) == Seq::<(Seq<char>, BookView)>::empty());
        assert(signal_views(signals@) =~= Seq::<SignalView>::empty());
        while i < snapshot.order_books.entries.len()
            invariant
                i <= snapshot.order_books.entries.len(),
                books == snapshot.books(),
                snapshot.positions.wf(),
                now.secs <= MAX_SECS,
                self.wf(),
                before.walk_usable(books, snapshot.positions@, now),
                (self@, signal_views(signals@)) == before.walked(books.take(i as int), snapshot.positions@, now),
            decreases snapshot.order_books.entries.len() - i,
        {
            let symbol: &str = snapshot.order_books.entries[i].0.as_str();
            let book: &OrderBook = &snapshot.order_books.entries[i].1;
            proof {
                assert(books.take(i as int + 1).drop_last() == books.take(i as int));
                assert(books.take(i as int + 1).last() == (symbol@, book@));
                assert(books[i as int] == (symbol@, book@));
            }
            let inventory: B64 = match snapshot.positions.get(symbol) {
                Some(v) => *v,
                None => num(ZERO),
            };
            self.step_book(symbol, book, inventory, now, &mut signals);
            i = i + 1;
        }
        assert(books.take(i as int) == books);
        if signals.len() == 0 {
            Ok(None)
        } else {
            Ok(Some(signals))
        }
    }

    fn reset(&mut self) {
        self.last_quotes.clear();
        self.vol_engines.clear();
        assert(engine_views(self.vol_engines@) =~= Map::<Seq<char>, CalcView>::empty());
    }

    fn clear_filled_state(&mut self) {
        self.last_quotes.clear();
    }

    fn has_maker_volume_overlay(&self) -> (r: bool)
        ensures
            !r,
    {
        false
    }
}

proof fn lemma_setup_usable(strategy: MmView, symbol: Seq<char>, book: BookView, inventory: B64, now: Timestamp)
    requires
        strategy.durations_exist(),
        strategy.instant_usable(book.timestamp),
    ensures
        strategy.step_usable(symbol, book, inventory, now),
{
}

/// Intervals that are durations and books whose instants leave room for them
/// are enough to evaluate any snapshot.
pub proof fn law_ordinary_settings_are_usable(
    strategy: MmView,
    books: Seq<(Seq<char>, BookView)>,
    positions: Map<Seq<char>, B64>,
    now: Timestamp,
)
    requires
        strategy.durations_exist(),
        forall|i: int| 0 <= i < books.len() ==> strategy.instant_usable((#[trigger] books[i]).1.timestamp),
    ensures
        strategy.walk_usable(books, positions, now),
{
    assert forall|i: int| 0 <= i < books.len() implies strategy.walked(
        books.take(i),
        positions,
        now,
    ).0.step_usable((#[trigger] books[i]).0, books[i].1, position_of(positions, books[i].0), now) by {
        let before = strategy.walked(books.take(i), positions, now).0;
        law_settings_stay(strategy, books.take(i), positions, now);
        lemma_setup_usable(before, books[i].0, books[i].1, position_of(positions, books[i].0), now);
    }
}

proof fn lemma_step_signals(strategy: MmView, symbol: Seq<char>, book: BookView, inventory: B64, now: Timestamp)
    ensures
        forall|i: int|
            0 <= i < strategy.step(symbol, book, inventory, now).1.len() ==> (#[trigger] strategy.step(
                symbol,
                book,
                inventory,
                now,
            ).1[i]).symbol == symbol,
        forall|i: int, j: int|
            0 <= i < j < strategy.step(symbol, book, inventory, now).1.len() ==> (#[trigger] strategy.step(
                symbol,
                book,
                inventory,
                now,
            ).1[i]).side != (#[trigger] strategy.step(symbol, book, inventory, now).1[j]).side,
{
}

proof fn lemma_walked_signals(
    strategy: MmView,
    books: Seq<(Seq<char>, BookView)>,
    positions: Map<Seq<char>, B64>,
    now: Timestamp,
)
    requires
        each_once(books),
    ensures
        ({
            let signals = strategy.walked(books, positions, now).1;
            &&& forall|i: int|
                0 <= i < signals.len() ==> exists|k: int|
                    0 <= k < books.len() && (#[trigger] books[k]).0 == (#[trigger] signals[i]).symbol
            &&& forall|i: int, j: int|
                0 <= i < j < signals.len() && (#[trigger] signals[i]).symbol == (#[trigger] signals[j]).symbol
                    ==> signals[i].side != signals[j].side
        }),
    decreases books.len(),
{
    if books.len() > 0 {
        let front = books.drop_last();
        assert forall|i: int, j: int| 0 <= i < j < front.len() implies (#[trigger] front[i]).0 != (
        #[trigger] front[j]).0 by {
            assert(books[i] == front[i] && books[j] == front[j]);
        }
        lemma_walked_signals(strategy, front, positions, now);
        let (before, had) = strategy.walked(front, positions, now);
        let (symbol, book) = books.last();
        let inventory = position_of(positions, symbol);
        lemma_step_signals(before, symbol, book, inventory, now);
        let more = before.step(symbol, book, inventory, now).1;
        let signals = strategy.walked(books, positions, now).1;
        assert(signals == had + more);
        assert forall|i: int| 0 <= i < signals.len() implies exists|k: int|
            0 <= k < books.len() && (#[trigger] books[k]).0 == (#[trigger] signals[i]).symbol by {
            if i < had.len() {
                assert(signals[i] == had[i]);
                let k = choose|k: int| 0 <= k < front.len() && (#[trigger] front[k]).0 == had[i].symbol;
                assert(books[k] == front[k]);
            } else {
                assert(signals[i] == more[i - had.len()]);
                assert(books[books.len() - 1].0 == symbol);
            }
        }
        assert forall|i: int, j: int|
            0 <= i < j < signals.len() && (#[trigger] signals[i]).symbol == (#[trigger] signals[j]).symbol
            implies signals[i].side != signals[j].side by {
            if j < had.len() {
                assert(signals[i] == had[i] && signals[j] == had[j]);
            } else if i >= had.len() {
                assert(signals[i] == more[i - had.len()] && signals[j] == more[j - had.len()]);
            } else {
                assert(signals[i] == had[i] && signals[j] == more[j - had.len()]);
                let k = choose|k: int| 0 <= k < front.len() && (#[trigger] front[k]).0 == had[i].symbol;
                assert(books[k] == front[k]);
                assert(books[k].0 != books[books.len() - 1].0);
            }
        }
    }
}

/// A snapshot leads to one buy and one sell per symbol at most: two orders in
/// one symbol are on different sides.
pub proof fn law_one_order_per_symbol_and_side(strategy: MmView, snapshot: &MarketSnapshot, now: Timestamp)
    requires
        snapshot.wf(),
    ensures
        ({
            let signals = strategy.evaluated(snapshot.books(), snapshot.positions@, now).1;
            forall|i: int, j: int|
                0 <= i < j < signals.len() && (#[trigger] signals[i]).symbol == (#[trigger] signals[j]).symbol
                    ==> signals[i].side != signals[j].side
        }),
{
    let books = snapshot.books();
    assert(each_once(books)) by {
        assert forall|i: int, j: int| 0 <= i < j < books.len() implies (#[trigger] books[i]).0 != (
        #[trigger] books[j]).0 by {
            assert(snapshot.order_books.entries@[i].0@ != snapshot.order_books.entries@[j].0@);
        }
    }
    lemma_walked_signals(strategy, books, snapshot.positions@, now);
}

/// The mid lies between the best prices, as long as their sum is finite.
pub proof fn law_mid_lies_between(bid: B64, ask: B64)
    requires
        bid.add(ask).is_finite(),
    ensures
        match mid_from_bbo(bid, ask) {
            Some(mid) => bid.le(mid) && mid.le(ask),
            None => true,
        },
{
    if mid_from_bbo(bid, ask) is Some {
        lemma_midpoint(bid, ask);
    }
}

/// A book that is one-sided, crossed, or not of positive finite prices gives
/// no quote.
pub proof fn law_invalid_books_give_no_quote(bid: B64, ask: B64, inventory: B64, params: MmQuoteParams)
    requires
        !bid.is_finite() || !ask.is_finite() || bid.le(num(ZERO)) || ask.le(num(ZERO)) || ask.lt(bid),
    ensures
        mid_from_bbo(bid, ask) is None,
        skewed_quote(bid, ask, inventory, params) is None,
{
}

/// The prices of a quote are positive and uncrossed, unless one is a NaN.
pub proof fn law_quotes_are_two_sided(bid: B64, ask: B64, inventory: B64, params: MmQuoteParams)
    ensures
        match skewed_quote(bid, ask, inventory, params) {
            Some(q) => {
                &&& mid_from_bbo(bid, ask) == Some(q.mid)
                &&& !q.bid_price.nan() && !q.ask_price.nan() ==> q.bid_price.gt(num(ZERO)) && q.bid_price.lt(
                    q.ask_price,
                )
                &&& q.bid_qty.ge(num(ZERO)) && q.ask_qty.ge(num(ZERO))
            },
            None => true,
        },
{
    crate::binary64::order::lemma_value_order(num(ZERO), num(ZERO));
}

/// Only the uncapped mode and a cap that is not positive lift the cap; at the
/// cap the adding side has no size left, and below it nothing changes.
pub proof fn law_cap_drops_the_adding_side(
    quote: TwoSidedQuote,
    inventory: B64,
    max_inventory: B64,
    mode: InventoryMode,
)
    requires
        max_inventory.gt(num(ZERO)),
    ensures
        apply_inventory_cap(quote, inventory, max_inventory, InventoryMode::ResearchNoCap) == Some(quote),
        mode != InventoryMode::ResearchNoCap ==> match apply_inventory_cap(
            quote,
            inventory,
            max_inventory,
            mode,
        ) {
            Some(q) => {
                &&& inventory.ge(max_inventory) ==> q.bid_qty == num(ZERO)
                &&& inventory.le(max_inventory.neg()) ==> q.ask_qty == num(ZERO)
                &&& !inventory.ge(max_inventory) ==> q.bid_qty == quote.bid_qty
                &&& !inventory.le(max_inventory.neg()) ==> q.ask_qty == quote.ask_qty
            },
            None => true,
        },
{
}

/// A quote is never replaced within the minimal interval, and always after
/// 30 seconds once that has passed.
pub proof fn law_requotes_keep_the_interval(
    prev_mid: B64,
    prev_inv: B64,
    prev_ts: Timestamp,
    mid: B64,
    inv: B64,
    now: Timestamp,
    bid_spread: B64,
    secs: i64,
)
    ensures
        now.total() - prev_ts.total() < secs * 1_000_000_000 ==> !requote_due(
            prev_mid,
            prev_inv,
            prev_ts,
            mid,
            inv,
            now,
            bid_spread,
            secs,
        ),
        now.total() - prev_ts.total() < 1_000_000_000 ==> !requote_due(
            prev_mid,
            prev_inv,
            prev_ts,
            mid,
            inv,
            now,
            bid_spread,
            secs,
        ),
        now.total() - prev_ts.total() >= 30_000_000_000 && secs <= 30 ==> requote_due(
            prev_mid,
            prev_inv,
            prev_ts,
            mid,
            inv,
            now,
            bid_spread,
            secs,
        ),
{
    assert(secs <= 30 ==> secs * 1_000_000_000 <= 30_000_000_000);
}

/// No book changes the settings of a strategy.
pub proof fn law_settings_stay(
    m: MmView,
    books: Seq<(Seq<char>, BookView)>,
    positions: Map<Seq<char>, B64>,
    now: Timestamp,
)
    ensures
        m.evaluated(books, positions, now).0.same_setup(m),
        m.walked(books, positions, now).0.same_setup(m),
    decreases books.len(),
{
    if books.len() > 0 {
        law_settings_stay(m, books.drop_last(), positions, now);
    }
}

/// Quotes are not stacked: a book that comes within the minimal interval after
/// a quote on its symbol gives no order.
pub proof fn law_quotes_are_not_stacked(
    m: MmView,
    symbol: Seq<char>,
    book: BookView,
    inventory: B64,
    now: Timestamp,
    next: BookView,
    next_inventory: B64,
    next_now: Timestamp,
)
    requires
        m.step(symbol, book, inventory, now).1.len() > 0,
        next.timestamp.total() - book.timestamp.total() < m.params.min_requote_secs * 1_000_000_000,
    ensures
        m.step(symbol, book, inventory, now).0.step(symbol, next, next_inventory, next_now).1.len() == 0,
{
    let after = m.step(symbol, book, inventory, now).0;
    assert(after.last_quotes.dom().contains(symbol));
    assert(after.last_quotes[symbol].at == book.timestamp);
    assert(after.same_setup(m));
    let quoted = after.quoted(next, next_inventory, wall_millis(next_now));
    assert(quoted.0.last_quotes == after.last_quotes);
    if quoted.1 is Some {
        let gated = quoted.0.gated(symbol, next, next_inventory, quoted.1->0);
        assert(gated.0.last_quotes == after.last_quotes);
        if gated.1 is Some {
            let q = gated.1->0;
            law_requotes_keep_the_interval(
                after.last_quotes[symbol].mid,
                after.last_quotes[symbol].inventory,
                book.timestamp,
                q.mid,
                next_inventory,
                next.timestamp,
                m.params.bid_spread,
                m.params.min_requote_secs,
            );
            assert(gated.0.too_soon(symbol, q, next_inventory, next.timestamp));
        }
    }
}

/// What every order says of its book.
pub open spec fn maker_limit(m: MmView, signal: SignalView, symbol: Seq<char>, market_id: u32) -> bool {
    &&& signal.order_type == OrderType::Limit
    &&& signal.expected_edge_bps is Some
    &&& worth_placing(signal.quantity, signal.price)
    &&& m.market_open(signal.market_id)
    &&& signal.symbol == symbol
    &&& signal.market_id == market_id
}

proof fn lemma_step_orders(
    m: MmView,
    symbol: Seq<char>,
    book: BookView,
    inventory: B64,
    now: Timestamp,
    j: int,
)
    requires
        0 <= j < m.step(symbol, book, inventory, now).1.len(),
    ensures
        maker_limit(m, m.step(symbol, book, inventory, now).1[j], symbol, book.market_id),
{
    let more = m.step(symbol, book, inventory, now).1;
    let quoted = m.quoted(book, inventory, wall_millis(now));
    let gated = quoted.0.gated(symbol, book, inventory, quoted.1->0);
    let ts = if book.timestamp.secs > 0 { book.timestamp } else { now };
    assert(more == quote_signals(symbol, book.market_id, gated.1->0, inventory, m.engine, ts));
}

/// Every order is a limit order on a book of the snapshot, worth placing, with
/// an expected edge, on a market that the gates allow.
pub proof fn law_orders_are_maker_limits(
    m: MmView,
    books: Seq<(Seq<char>, BookView)>,
    positions: Map<Seq<char>, B64>,
    now: Timestamp,
    i: int,
)
    requires
        0 <= i < m.walked(books, positions, now).1.len(),
    ensures
        ({
            let signal = m.walked(books, positions, now).1[i];
            exists|k: int|
                0 <= k < books.len() && maker_limit(
                    m,
                    signal,
                    (#[trigger] books[k]).0,
                    books[k].1.market_id,
                )
        }),
    decreases books.len(),
{
    let before = m.walked(books.drop_last(), positions, now);
    let signal = m.walked(books, positions, now).1[i];
    law_settings_stay(m, books.drop_last(), positions, now);
    if i < before.1.len() {
        law_orders_are_maker_limits(m, books.drop_last(), positions, now, i);
        let k = choose|k: int|
            0 <= k < books.drop_last().len() && maker_limit(
                m,
                signal,
                (#[trigger] books.drop_last()[k]).0,
                books.drop_last()[k].1.market_id,
            );
        assert(books[k] == books.drop_last()[k]);
    } else {
        let last = books.last();
        assert(books[books.len() - 1] == last);
        let inventory = position_of(positions, last.0);
        lemma_step_orders(before.0, last.0, last.1, inventory, now, i - before.1.len());
        assert(signal == before.0.step(last.0, last.1, inventory, now).1[i - before.1.len()]);
        assert(maker_limit(m, signal, last.0, last.1.market_id));
    }
}

/// Gates that are not armed let no order through and leave the strategy as it
/// was.
pub proof fn law_disarmed_gates_stay_silent(
    m: MmView,
    gates: GatesView,
    books: Seq<(Seq<char>, BookView)>,
    positions: Map<Seq<char>, B64>,
    now: Timestamp,
)
    requires
        m.gates == Some(gates),
        !(gates.enabled && gates.allow_quotes),
    ensures
        m.evaluated(books, positions, now) == (m, Seq::<SignalView>::empty()),
{
}

/// A reset strategy without gates and without an external alpha is a new one.
pub proof fn law_reset_is_a_fresh_start(m: MmView)
    requires
        m.gates is None,
        m.binance is None,
        m.markouts == MarkoutView::empty(),
    ensures
        (MmView { last_quotes: Map::empty(), vol_engines: Map::empty(), ..m }) == fresh_strategy(
            m.params,
            m.inventory_mode,
            m.engine,
            m.vol_settings,
            false,
        ),
{
}

} // verus!
