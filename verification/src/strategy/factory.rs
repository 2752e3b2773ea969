//! From configurations and parameter lists to strategies.

use vstd::prelude::*;

use crate::binary64::consts::{
    EIGHT, FIFTY, FIVE, FOUR, HALF, HUNDRED, P001, P008, P01, P02, P03, P05, P06, P1, THOUSAND, TWO, ZERO,
};
use crate::binary64::decimal::number_text;
use crate::binary64::{num, B64};
use crate::settings::{
    bool_settings, get_bool, get_float, get_int, get_string, int_settings, looked_up, number_setting,
    text_settings,
};
use crate::text::{chars_of, copy_text, i64_value, parse_i64, same_text};

use super::error::{ErrorView, StrategyError};
use super::grid_strategy::{keyword, keyword_is, keyword_of, GridPlan, InventoryMode};
use super::maker_volume::{
    gates_declared, maker_volume_from_keys, read_keys, KeysView, MakerVolumeConfig, MakerVolumeKeys,
};
use super::market_making::{
    default_mm_params, default_vol_settings, fresh_strategy, params_fault, AlphaSource, MarketMakingStrategy,
    MmQuoteParams, MmView, QuoteEngine, VolObiMmSettings,
};
use super::params::{count_or, either, integer_or, number_or, params_of, Params};
use super::plan::{DcaPlan, PlanView, StrategyPlan, TrendPlan};

verus! {

/// What the process around the strategies provides.
#[derive(Debug, Clone, Copy, PartialEq, Eq, Structural)]
pub struct Host {
    /// The switch that unlocks the uncapped inventory mode.
    pub research_allowed: bool,
    /// Whether a runtime can feed an external alpha.
    pub runtime_available: bool,
}

/// What the configuration says of the grid.
#[derive(Debug)]
pub struct GridKeys {
    pub enabled: Option<bool>,
    pub grid_count: Option<i64>,
    pub investment: Option<B64>,
    pub deviation: Option<B64>,
    pub inventory_mode: Option<String>,
    pub soft_cap: Option<B64>,
    pub hard_cap: Option<B64>,
}

pub struct GridKeysView {
    pub enabled: Option<bool>,
    pub grid_count: Option<i64>,
    pub investment: Option<B64>,
    pub deviation: Option<B64>,
    pub inventory_mode: Option<Seq<char>>,
    pub soft_cap: Option<B64>,
    pub hard_cap: Option<B64>,
}

/// The text in an optional string.
pub open spec fn text_of(s: Option<String>) -> Option<Seq<char>> {
    match s {
        Some(s) => Some(s@),
        None => None,
    }
}

impl View for GridKeys {
    type V = GridKeysView;

    open spec fn view(&self) -> GridKeysView {
        GridKeysView {
            enabled: self.enabled,
            grid_count: self.grid_count,
            investment: self.investment,
            deviation: self.deviation,
            inventory_mode: text_of(self.inventory_mode),
            soft_cap: self.soft_cap,
            hard_cap: self.hard_cap,
        }
    }
}

/// What the configuration says of the trend follower.
#[derive(Debug, Clone, Copy, PartialEq, Eq)]
pub struct TrendKeys {
    pub enabled: Option<bool>,
    pub fast_ma: Option<i64>,
    pub slow_ma: Option<i64>,
    pub stop_loss: Option<B64>,
    pub take_profit: Option<B64>,
    pub trailing_stop: Option<B64>,
    pub notional: Option<B64>,
    pub adx_threshold: Option<B64>,
    pub adx_period: Option<i64>,
    pub confirm_slope_min: Option<B64>,
    pub confirm_lookback: Option<i64>,
}

/// What the configuration says of the market maker.
#[derive(Debug)]
pub struct MmKeys {
    pub enabled: Option<bool>,
    pub bid_spread: Option<B64>,
    pub ask_spread: Option<B64>,
    pub order_notional: Option<B64>,
    pub order_amount: Option<B64>,
    pub inventory_skew: Option<B64>,
    pub inventory_target: Option<B64>,
    pub max_inventory: Option<B64>,
    pub min_requote_secs: Option<i64>,
    pub inventory_mode: Option<String>,
    pub quote_engine: Option<String>,
    pub alpha_source: Option<String>,
    pub alpha_stale_secs: Option<B64>,
    pub window_steps: Option<B64>,
    pub step_ns: Option<i64>,
    pub vol_to_half_spread: Option<B64>,
    pub min_half_spread_bps: Option<B64>,
    pub c1_ticks: Option<B64>,
    pub skew: Option<B64>,
    pub looking_depth: Option<B64>,
    pub min_warmup_samples: Option<i64>,
}

pub struct MmKeysView {
    pub enabled: Option<bool>,
    pub bid_spread: Option<B64>,
    pub ask_spread: Option<B64>,
    pub order_notional: Option<B64>,
    pub order_amount: Option<B64>,
    pub inventory_skew: Option<B64>,
    pub inventory_target: Option<B64>,
    pub max_inventory: Option<B64>,
    pub min_requote_secs: Option<i64>,
    pub inventory_mode: Option<Seq<char>>,
    pub quote_engine: Option<Seq<char>>,
    pub alpha_source: Option<Seq<char>>,
    pub alpha_stale_secs: Option<B64>,
    pub window_steps: Option<B64>,
    pub step_ns: Option<i64>,
    pub vol_to_half_spread: Option<B64>,
    pub min_half_spread_bps: Option<B64>,
    pub c1_ticks: Option<B64>,
    pub skew: Option<B64>,
    pub looking_depth: Option<B64>,
    pub min_warmup_samples: Option<i64>,
}

impl View for MmKeys {
    type V = MmKeysView;

    open spec fn view(&self) -> MmKeysView {
        MmKeysView {
            enabled: self.enabled,
            bid_spread: self.bid_spread,
            ask_spread: self.ask_spread,
            order_notional: self.order_notional,
            order_amount: self.order_amount,
            inventory_skew: self.inventory_skew,
            inventory_target: self.inventory_target,
            max_inventory: self.max_inventory,
            min_requote_secs: self.min_requote_secs,
            inventory_mode: text_of(self.inventory_mode),
            quote_engine: text_of(self.quote_engine),
            alpha_source: text_of(self.alpha_source),
            alpha_stale_secs: self.alpha_stale_secs,
            window_steps: self.window_steps,
            step_ns: self.step_ns,
            vol_to_half_spread: self.vol_to_half_spread,
            min_half_spread_bps: self.min_half_spread_bps,
            c1_ticks: self.c1_ticks,
            skew: self.skew,
            looking_depth: self.looking_depth,
            min_warmup_samples: self.min_warmup_samples,
        }
    }
}

/// Everything that the configuration says of strategies.
#[derive(Debug)]
pub struct StrategyKeys {
    pub grid: GridKeys,
    pub trend: TrendKeys,
    pub mm: MmKeys,
    pub overlay_engine: Option<String>,
    pub gates: MakerVolumeKeys,
}

#[verifier::ext_equal]
pub struct StrategyKeysView {
    pub grid: GridKeysView,
    pub trend: TrendKeys,
    pub mm: MmKeysView,
    pub overlay_engine: Option<Seq<char>>,
    pub gates: KeysView,
}

impl View for StrategyKeys {
    type V = StrategyKeysView;

    open spec fn view(&self) -> StrategyKeysView {
        StrategyKeysView {
            grid: self.grid@,
            trend: self.trend,
            mm: self.mm@,
            overlay_engine: text_of(self.overlay_engine),
            gates: self.gates@,
        }
    }
}

pub open spec fn number_key(settings: config::Config, key: Seq<char>) -> Option<B64> {
    number_setting(settings, key)
}

pub open spec fn int_key(settings: config::Config, key: Seq<char>) -> Option<i64> {
    looked_up(int_settings(settings), key)
}

pub open spec fn flag_key(settings: config::Config, key: Seq<char>) -> Option<bool> {
    looked_up(bool_settings(settings), key)
}

pub open spec fn text_key(settings: config::Config, key: Seq<char>) -> Option<Seq<char>> {
    looked_up(text_settings(settings), key)
}

impl StrategyKeysView {
    /// The keys of a configuration.
    pub open spec fn of(settings: config::Config) -> StrategyKeysView {
        StrategyKeysView {
            grid: GridKeysView {
                enabled: flag_key(settings, "trading.strategies.grid_trading.enabled"@),
                grid_count: int_key(settings, "trading.strategies.grid_trading.grid_count"@),
                investment: number_key(settings, "trading.strategies.grid_trading.investment_per_grid"@),
                deviation: number_key(settings, "trading.strategies.grid_trading.price_deviation"@),
                inventory_mode: text_key(settings, "trading.strategies.grid_trading.inventory_mode"@),
                soft_cap: number_key(settings, "trading.strategies.grid_trading.soft_cap_grids"@),
                hard_cap: number_key(settings, "trading.strategies.grid_trading.hard_cap_grids"@),
            },
            trend: TrendKeys {
                enabled: flag_key(settings, "trading.strategies.trend_following.enabled"@),
                fast_ma: int_key(settings, "trading.strategies.trend_following.fast_ma"@),
                slow_ma: int_key(settings, "trading.strategies.trend_following.slow_ma"@),
                stop_loss: number_key(settings, "trading.strategies.trend_following.stop_loss"@),
                take_profit: number_key(settings, "trading.strategies.trend_following.take_profit"@),
                trailing_stop: number_key(settings, "trading.strategies.trend_following.trailing_stop"@),
                notional: number_key(settings, "trading.strategies.trend_following.notional"@),
                adx_threshold: number_key(settings, "trading.strategies.trend_following.adx_threshold"@),
                adx_period: int_key(settings, "trading.strategies.trend_following.adx_period"@),
                confirm_slope_min: number_key(
                    settings,
                    "trading.strategies.trend_following.confirm_slope_min"@,
                ),
                confirm_lookback: int_key(settings, "trading.strategies.trend_following.confirm_lookback"@),
            },
            mm: MmKeysView {
                enabled: flag_key(settings, "trading.strategies.market_making.enabled"@),
                bid_spread: number_key(settings, "trading.strategies.market_making.bid_spread"@),
                ask_spread: number_key(settings, "trading.strategies.market_making.ask_spread"@),
                order_notional: number_key(settings, "trading.strategies.market_making.order_notional"@),
                order_amount: number_key(settings, "trading.strategies.market_making.order_amount"@),
                inventory_skew: number_key(settings, "trading.strategies.market_making.inventory_skew"@),
                inventory_target: number_key(settings, "trading.strategies.market_making.inventory_target"@),
                max_inventory: number_key(settings, "trading.strategies.market_making.max_inventory"@),
                min_requote_secs: int_key(settings, "trading.strategies.market_making.min_requote_secs"@),
                inventory_mode: text_key(settings, "trading.strategies.market_making.inventory_mode"@),
                quote_engine: text_key(settings, "trading.strategies.market_making.quote_engine"@),
                alpha_source: text_key(settings, "trading.strategies.market_making.alpha_source"@),
                alpha_stale_secs: number_key(settings, "trading.strategies.market_making.alpha_stale_secs"@),
                window_steps: number_key(settings, "trading.strategies.market_making.vol_obi.window_steps"@),
                step_ns: int_key(settings, "trading.strategies.market_making.vol_obi.step_ns"@),
                vol_to_half_spread: number_key(
                    settings,
                    "trading.strategies.market_making.vol_obi.vol_to_half_spread"@,
                ),
                min_half_spread_bps: number_key(
                    settings,
                    "trading.strategies.market_making.vol_obi.min_half_spread_bps"@,
                ),
                c1_ticks: number_key(settings, "trading.strategies.market_making.vol_obi.c1_ticks"@),
                skew: number_key(settings, "trading.strategies.market_making.vol_obi.skew"@),
                looking_depth: number_key(
                    settings,
                    "trading.strategies.market_making.vol_obi.looking_depth"@,
                ),
                min_warmup_samples: int_key(
                    settings,
                    "trading.strategies.market_making.vol_obi.min_warmup_samples"@,
                ),
            },
            overlay_engine: text_key(settings, "trading.strategies.maker_volume.quote_engine"@),
            gates: KeysView::of(settings),
        }
    }
}

fn read_grid(settings: &config::Config) -> (r: GridKeys)
    ensures
        r@ == StrategyKeysView::of(*settings).grid,
{
    GridKeys {
        enabled: get_bool(settings, "trading.strategies.grid_trading.enabled"),
        grid_count: get_int(settings, "trading.strategies.grid_trading.grid_count"),
        investment: get_float(settings, "trading.strategies.grid_trading.investment_per_grid"),
        deviation: get_float(settings, "trading.strategies.grid_trading.price_deviation"),
        inventory_mode: get_string(settings, "trading.strategies.grid_trading.inventory_mode"),
        soft_cap: get_float(settings, "trading.strategies.grid_trading.soft_cap_grids"),
        hard_cap: get_float(settings, "trading.strategies.grid_trading.hard_cap_grids"),
    }
}

fn read_trend(settings: &config::Config) -> (r: TrendKeys)
    ensures
        r == StrategyKeysView::of(*settings).trend,
{
    TrendKeys {
        enabled: get_bool(settings, "trading.strategies.trend_following.enabled"),
        fast_ma: get_int(settings, "trading.strategies.trend_following.fast_ma"),
        slow_ma: get_int(settings, "trading.strategies.trend_following.slow_ma"),
        stop_loss: get_float(settings, "trading.strategies.trend_following.stop_loss"),
        take_profit: get_float(settings, "trading.strategies.trend_following.take_profit"),
        trailing_stop: get_float(settings, "trading.strategies.trend_following.trailing_stop"),
        notional: get_float(settings, "trading.strategies.trend_following.notional"),
        adx_threshold: get_float(settings, "trading.strategies.trend_following.adx_threshold"),
        adx_period: get_int(settings, "trading.strategies.trend_following.adx_period"),
        confirm_slope_min: get_float(settings, "trading.strategies.trend_following.confirm_slope_min"),
        confirm_lookback: get_int(settings, "trading.strategies.trend_following.confirm_lookback"),
    }
}

fn read_mm(settings: &config::Config) -> (r: MmKeys)
    ensures
        r@ == StrategyKeysView::of(*settings).mm,
{
    MmKeys {
        enabled: get_bool(settings, "trading.strategies.market_making.enabled"),
        bid_spread: get_float(settings, "trading.strategies.market_making.bid_spread"),
        ask_spread: get_float(settings, "trading.strategies.market_making.ask_spread"),
        order_notional: get_float(settings, "trading.strategies.market_making.order_notional"),
        order_amount: get_float(settings, "trading.strategies.market_making.order_amount"),
        inventory_skew: get_float(settings, "trading.strategies.market_making.inventory_skew"),
        inventory_target: get_float(settings, "trading.strategies.market_making.inventory_target"),
        max_inventory: get_float(settings, "trading.strategies.market_making.max_inventory"),
        min_requote_secs: get_int(settings, "trading.strategies.market_making.min_requote_secs"),
        inventory_mode: get_string(settings, "trading.strategies.market_making.inventory_mode"),
        quote_engine: get_string(settings, "trading.strategies.market_making.quote_engine"),
        alpha_source: get_string(settings, "trading.strategies.market_making.alpha_source"),
        alpha_stale_secs: get_float(settings, "trading.strategies.market_making.alpha_stale_secs"),
        window_steps: get_float(settings, "trading.strategies.market_making.vol_obi.window_steps"),
        step_ns: get_int(settings, "trading.strategies.market_making.vol_obi.step_ns"),
        vol_to_half_spread: get_float(
            settings,
            "trading.strategies.market_making.vol_obi.vol_to_half_spread",
        ),
        min_half_spread_bps: get_float(
            settings,
            "trading.strategies.market_making.vol_obi.min_half_spread_bps",
        ),
        c1_ticks: get_float(settings, "trading.strategies.market_making.vol_obi.c1_ticks"),
        skew: get_float(settings, "trading.strategies.market_making.vol_obi.skew"),
        looking_depth: get_float(settings, "trading.strategies.market_making.vol_obi.looking_depth"),
        min_warmup_samples: get_int(settings, "trading.strategies.market_making.vol_obi.min_warmup_samples"),
    }
}

/// Reads every key of a configuration that the factory looks at.
pub fn read_strategy_keys(settings: &config::Config) -> (r: StrategyKeys)
    ensures
        r@ == StrategyKeysView::of(*settings),
{
    StrategyKeys {
        grid: read_grid(settings),
        trend: read_trend(settings),
        mm: read_mm(settings),
        overlay_engine: get_string(settings, "trading.strategies.maker_volume.quote_engine"),
        gates: read_keys(settings),
    }
}

/// A number or its default.
pub open spec fn given(v: Option<B64>, default: B64) -> B64 {
    match v {
        Some(x) => x,
        None => default,
    }
}

fn or_default(v: Option<B64>, default: B64) -> (r: B64)
    ensures
        r == given(v, default),
{
    match v {
        Some(x) => x,
        None => default,
    }
}

/// A whole number as a machine count; the sign bit is reinterpreted.
pub open spec fn as_count(v: Option<i64>, default: i64) -> usize {
    (match v {
        Some(n) => n,
        None => default,
    }) as usize
}

fn count_of(v: Option<i64>, default: i64) -> (r: usize)
    ensures
        r == as_count(v, default),
{
    let n: i64 = match v {
        Some(n) => n,
        None => default,
    };
    #[verifier::truncate]
    (n as usize)
}

/// The inventory mode of a live strategy, which is never the uncapped one.
pub open spec fn live_mode(raw: Option<Seq<char>>) -> Result<InventoryMode, ErrorView> {
    let text = match raw {
        Some(s) => s,
        None => "hard"@,
    };
    if keyword(text) == "research_nocap"@ {
        Err(ErrorView::ResearchModeLive)
    } else {
        InventoryMode::parsed(text, false)
    }
}

/// Reads the inventory mode of a live strategy.
pub fn live_inventory_mode(raw: Option<&str>) -> (r: Result<InventoryMode, StrategyError>)
    ensures
        ({
            let expected = live_mode(
                match raw {
                    Some(s) => Some(s@),
                    None => None,
                },
            );
            match r {
                Ok(mode) => expected == Ok::<_, ErrorView>(mode),
                Err(e) => expected == Err::<InventoryMode, _>(e@),
            }
        }),
{
    let text: &str = match raw {
        Some(s) => s,
        None => "hard",
    };
    if keyword_is(&keyword_of(text), "research_nocap") {
        return Err(StrategyError::ResearchModeLive);
    }
    InventoryMode::parse(text, false)
}

fn str_of(s: &Option<String>) -> (r: Option<&str>)
    ensures
        (match r {
            Some(s) => Some(s@),
            None => None::<Seq<char>>,
        }) == text_of(*s),
{
    match s {
        Some(s) => Some(s.as_str()),
        None => None,
    }
}

impl MmKeysView {
    pub open spec fn params(self) -> MmQuoteParams {
        MmQuoteParams {
            bid_spread: given(self.bid_spread, num(P001)),
            ask_spread: given(self.ask_spread, num(P001)),
            order_notional: given(self.order_notional, given(self.order_amount, num(FIFTY))),
            inventory_skew: given(self.inventory_skew, num(HALF)),
            inventory_target: given(self.inventory_target, num(P01)),
            max_inventory: given(self.max_inventory, num(P05)),
            min_requote_secs: match self.min_requote_secs {
                Some(n) => n,
                None => 10,
            },
        }
    }

    pub open spec fn vol_settings(self) -> VolObiMmSettings {
        let base = default_vol_settings();
        VolObiMmSettings {
            alpha_source: match self.alpha_source {
                Some(raw) => match AlphaSource::parsed(raw) {
                    Ok(source) => source,
                    Err(_) => base.alpha_source,
                },
                None => base.alpha_source,
            },
            alpha_stale_secs: given(self.alpha_stale_secs, base.alpha_stale_secs),
            vol_obi: crate::strategy::vol_obi::VolObiConfig {
                window_steps: match self.window_steps {
                    Some(v) => steps_of(v),
                    None => base.vol_obi.window_steps,
                },
                step_ns: match self.step_ns {
                    Some(n) => crate::strategy::vol_obi::at_least_one(n),
                    None => base.vol_obi.step_ns,
                },
                vol_to_half_spread: given(self.vol_to_half_spread, base.vol_obi.vol_to_half_spread),
                min_half_spread_bps: given(self.min_half_spread_bps, base.vol_obi.min_half_spread_bps),
                c1_ticks: given(self.c1_ticks, base.vol_obi.c1_ticks),
                skew: given(self.skew, base.vol_obi.skew),
                looking_depth: given(self.looking_depth, base.vol_obi.looking_depth),
                min_warmup_samples: match self.min_warmup_samples {
                    Some(n) => crate::strategy::vol_obi::at_least_one(n),
                    None => base.vol_obi.min_warmup_samples,
                },
                ..base.vol_obi
            },
            ..base
        }
    }
}

/// A number of window steps as a count: at least 2, saturating.
pub open spec fn steps_of(v: B64) -> usize {
    let n = v.max(num(TWO)).to_u64();
    if n > usize::MAX {
        usize::MAX
    } else {
        n as usize
    }
}

fn window_steps_of(v: B64) -> (r: usize)
    ensures
        r == steps_of(v),
{
    let n: u64 = v.max(num(TWO)).to_u64();
    if n > usize::MAX as u64 {
        usize::MAX
    } else {
        n as usize
    }
}

fn positive_count(n: i64) -> (r: i64)
    ensures
        r == crate::strategy::vol_obi::at_least_one(n),
{
    if n < 1 {
        1
    } else {
        n
    }
}

impl MmKeys {
    fn params(&self) -> (r: MmQuoteParams)
        ensures
            r == self@.params(),
    {
        MmQuoteParams {
            bid_spread: or_default(self.bid_spread, num(P001)),
            ask_spread: or_default(self.ask_spread, num(P001)),
            order_notional: or_default(self.order_notional, or_default(self.order_amount, num(FIFTY))),
            inventory_skew: or_default(self.inventory_skew, num(HALF)),
            inventory_target: or_default(self.inventory_target, num(P01)),
            max_inventory: or_default(self.max_inventory, num(P05)),
            min_requote_secs: match self.min_requote_secs {
                Some(n) => n,
                None => 10,
            },
        }
    }

    fn vol_settings(&self) -> (r: VolObiMmSettings)
        ensures
            r == self@.vol_settings(),
    {
        let mut cfg = VolObiMmSettings::default();
        if let Some(raw) = str_of(&self.alpha_source) {
            if let Ok(source) = AlphaSource::parse(raw) {
                cfg.alpha_source = source;
            }
        }
        if let Some(v) = self.alpha_stale_secs {
            cfg.alpha_stale_secs = v;
        }
        if let Some(v) = self.window_steps {
            cfg.vol_obi.window_steps = window_steps_of(v);
        }
        if let Some(n) = self.step_ns {
            cfg.vol_obi.step_ns = positive_count(n);
        }
        if let Some(v) = self.vol_to_half_spread {
            cfg.vol_obi.vol_to_half_spread = v;
        }
        if let Some(v) = self.min_half_spread_bps {
            cfg.vol_obi.min_half_spread_bps = v;
        }
        if let Some(v) = self.c1_ticks {
            cfg.vol_obi.c1_ticks = v;
        }
        if let Some(v) = self.skew {
            cfg.vol_obi.skew = v;
        }
        if let Some(v) = self.looking_depth {
            cfg.vol_obi.looking_depth = v;
        }
        if let Some(n) = self.min_warmup_samples {
            cfg.vol_obi.min_warmup_samples = positive_count(n);
        }
        cfg
    }
}

/// An engine by name; an unknown or absent name gives the default.
pub open spec fn engine_or(raw: Option<Seq<char>>, default: QuoteEngine) -> QuoteEngine {
    match raw {
        Some(s) => match QuoteEngine::parsed(s) {
            Ok(engine) => engine,
            Err(_) => default,
        },
        None => default,
    }
}

fn engine_of(raw: &Option<String>, default: QuoteEngine) -> (r: QuoteEngine)
    ensures
        r == engine_or(text_of(*raw), default),
{
    match raw {
        Some(s) => match QuoteEngine::parse(s.as_str()) {
            Ok(engine) => engine,
            Err(_) => default,
        },
        None => default,
    }
}

/// A market maker with checked parameters.
pub open spec fn built_mm(
    params: MmQuoteParams,
    mode: Result<InventoryMode, ErrorView>,
    engine: QuoteEngine,
    vol: VolObiMmSettings,
    host: Host,
) -> Result<MmView, ErrorView> {
    match mode {
        Err(e) => Err(e),
        Ok(mode) => match params_fault(params) {
            Some(e) => Err(e),
            None => Ok(fresh_strategy(params, mode, engine, vol, host.runtime_available)),
        },
    }
}

impl StrategyKeysView {
    /// The market maker that the configuration asks for.
    pub open spec fn market_maker(self, host: Host) -> Result<MmView, ErrorView> {
        built_mm(
            self.mm.params(),
            live_mode(self.mm.inventory_mode),
            engine_or(self.mm.quote_engine, QuoteEngine::VolObi),
            self.mm.vol_settings(),
            host,
        )
    }

    /// The maker overlay that the configuration asks for. Its engine joins the
    /// best prices unless another is named, and then needs no external alpha.
    pub open spec fn overlay(self, host: Host) -> Result<MmView, ErrorView> {
        let engine = engine_or(self.overlay_engine, QuoteEngine::Simple);
        let vol = self.mm.vol_settings();
        let built = built_mm(
            self.mm.params(),
            live_mode(self.mm.inventory_mode),
            engine,
            if engine == QuoteEngine::Simple {
                VolObiMmSettings { alpha_source: AlphaSource::Local, ..vol }
            } else {
                vol
            },
            host,
        );
        match built {
            Ok(mm) => Ok(MmView { gates: Some(self.gates.gates()), ..mm }),
            Err(e) => Err(e),
        }
    }

    /// A trend plan, with the overlay where the gates are armed.
    pub open spec fn with_overlay(self, trend: TrendPlan, host: Host) -> Result<PlanView, ErrorView> {
        if !self.gates.gates().armed() {
            Ok(PlanView::Trend(trend))
        } else {
            match self.overlay(host) {
                Ok(maker) => Ok(PlanView::SplitBook { trend, maker }),
                Err(e) => Err(e),
            }
        }
    }

    pub open spec fn trend_plan(self) -> TrendPlan {
        let slow_ma = as_count(self.trend.slow_ma, 30);
        TrendPlan {
            fast_ma: as_count(self.trend.fast_ma, 10),
            slow_ma,
            stop_loss: given(self.trend.stop_loss, num(P05)),
            take_profit: given(self.trend.take_profit, num(P1)),
            trailing_stop: given(self.trend.trailing_stop, num(ZERO)),
            notional: given(self.trend.notional, num(THOUSAND)),
            adx_threshold: given(self.trend.adx_threshold, num(ZERO)),
            adx_period: as_count(self.trend.adx_period, 14),
            confirm_slope_min: given(self.trend.confirm_slope_min, num(ZERO)),
            confirm_lookback: match self.trend.confirm_lookback {
                Some(n) => n as usize,
                None => half_count(slow_ma),
            },
        }
    }

    pub open spec fn grid_plan(self) -> Result<GridPlan, ErrorView> {
        match live_mode(self.grid.inventory_mode) {
            Err(e) => Err(e),
            Ok(mode) => GridPlan::planned(
                as_count(self.grid.grid_count, 10),
                given(self.grid.investment, num(HUNDRED)),
                given(self.grid.deviation, num(P02)),
                mode,
                self.grid.soft_cap,
                self.grid.hard_cap,
            ),
        }
    }

    /// The strategy that the configuration asks for: the first enabled one of
    /// grid, trend and market maker, or else a default grid.
    pub open spec fn plan(self, host: Host) -> Result<PlanView, ErrorView> {
        if self.grid.enabled == Some(true) {
            match self.grid_plan() {
                Ok(plan) => Ok(PlanView::Grid(plan)),
                Err(e) => Err(e),
            }
        } else if self.trend.enabled == Some(true) {
            self.with_overlay(self.trend_plan(), host)
        } else if self.mm.enabled == Some(true) {
            match self.market_maker(host) {
                Ok(mm) => Ok(
                    PlanView::MarketMaking(
                        if self.gates.declared {
                            MmView { gates: Some(self.gates.gates()), ..mm }
                        } else {
                            mm
                        },
                    ),
                ),
                Err(e) => Err(e),
            }
        } else {
            Ok(
                PlanView::Grid(
                    GridPlan {
                        grid_count: 10,
                        investment: num(HUNDRED),
                        deviation: num(P02),
                        mode: InventoryMode::Hard,
                        soft_cap: None,
                        hard_cap: None,
                    },
                ),
            )
        }
    }
}

/// Half a count, at least 1.
pub open spec fn half_count(n: usize) -> usize {
    if n / 2 < 1 {
        1
    } else {
        n / 2
    }
}

fn half_of(n: usize) -> (r: usize)
    ensures
        r == half_count(n),
{
    if n / 2 < 1 {
        1
    } else {
        n / 2
    }
}

/// What a plan promises of an expected outcome.
pub open spec fn plan_matches(r: Result<StrategyPlan, StrategyError>, expected: Result<PlanView, ErrorView>) -> bool {
    match r {
        Ok(plan) => plan.wf() && expected == Ok::<_, ErrorView>(plan@),
        Err(e) => expected == Err::<PlanView, _>(e@),
    }
}

fn build_mm(keys: &StrategyKeys, host: Host) -> (r: Result<MarketMakingStrategy, StrategyError>)
    ensures
        match r {
            Ok(mm) => mm.wf() && keys@.market_maker(host) == Ok::<_, ErrorView>(mm@),
            Err(e) => keys@.market_maker(host) == Err::<MmView, _>(e@),
        },
{
    let mode = match live_inventory_mode(str_of(&keys.mm.inventory_mode)) {
        Ok(mode) => mode,
        Err(e) => return Err(e),
    };
    MarketMakingStrategy::with_engine(
        keys.mm.params(),
        mode,
        engine_of(&keys.mm.quote_engine, QuoteEngine::VolObi),
        keys.mm.vol_settings(),
        host.runtime_available,
    )
}

fn build_overlay_mm(keys: &StrategyKeys, host: Host) -> (r: Result<MarketMakingStrategy, StrategyError>)
    ensures
        match r {
            Ok(mm) => mm.wf() && keys@.overlay(host) == Ok::<_, ErrorView>(mm@),
            Err(e) => keys@.overlay(host) == Err::<MmView, _>(e@),
        },
{
    let mode = match live_inventory_mode(str_of(&keys.mm.inventory_mode)) {
        Ok(mode) => mode,
        Err(e) => return Err(e),
    };
    let engine = engine_of(&keys.overlay_engine, QuoteEngine::Simple);
    let mut vol = keys.mm.vol_settings();
    if engine == QuoteEngine::Simple {
        vol.alpha_source = AlphaSource::Local;
    }
    match MarketMakingStrategy::with_engine(keys.mm.params(), mode, engine, vol, host.runtime_available) {
        Ok(mm) => Ok(mm.with_maker_volume(maker_volume_from_keys(&keys.gates))),
        Err(e) => Err(e),
    }
}

/// Attaches the maker overlay where both flags are armed.
pub fn attach_maker_overlay(trend: TrendPlan, keys: &StrategyKeys, host: Host) -> (r: Result<
    StrategyPlan,
    StrategyError,
>)
    ensures
        plan_matches(r, keys@.with_overlay(trend, host)),
{
    let gates: MakerVolumeConfig = maker_volume_from_keys(&keys.gates);
    if !gates.quotes_armed() {
        return Ok(StrategyPlan::Trend(trend));
    }
    match build_overlay_mm(keys, host) {
        Ok(maker) => Ok(StrategyPlan::SplitBook { trend, maker }),
        Err(e) => Err(e),
    }
}

/// The strategy that a set of keys asks for.
pub fn strategy_from_keys(keys: &StrategyKeys, host: Host) -> (r: Result<StrategyPlan, StrategyError>)
    ensures
        plan_matches(r, keys@.plan(host)),
{
    if let Some(true) = keys.grid.enabled {
        let mode = match live_inventory_mode(str_of(&keys.grid.inventory_mode)) {
            Ok(mode) => mode,
            Err(e) => return Err(e),
        };
        return match GridPlan::with_inventory(
            count_of(keys.grid.grid_count, 10),
            or_default(keys.grid.investment, num(HUNDRED)),
            or_default(keys.grid.deviation, num(P02)),
            mode,
            keys.grid.soft_cap,
            keys.grid.hard_cap,
        ) {
            Ok(plan) => Ok(StrategyPlan::Grid(plan)),
            Err(e) => Err(e),
        };
    }
    if let Some(true) = keys.trend.enabled {
        let slow_ma: usize = count_of(keys.trend.slow_ma, 30);
        let trend = TrendPlan {
            fast_ma: count_of(keys.trend.fast_ma, 10),
            slow_ma,
            stop_loss: or_default(keys.trend.stop_loss, num(P05)),
            take_profit: or_default(keys.trend.take_profit, num(P1)),
            trailing_stop: or_default(keys.trend.trailing_stop, num(ZERO)),
            notional: or_default(keys.trend.notional, num(THOUSAND)),
            adx_threshold: or_default(keys.trend.adx_threshold, num(ZERO)),
            adx_period: count_of(keys.trend.adx_period, 14),
            confirm_slope_min: or_default(keys.trend.confirm_slope_min, num(ZERO)),
            confirm_lookback: match keys.trend.confirm_lookback {
                Some(n) => count_of(Some(n), 0),
                None => half_of(slow_ma),
            },
        };
        return attach_maker_overlay(trend, keys, host);
    }
    if let Some(true) = keys.mm.enabled {
        let mm = match build_mm(keys, host) {
            Ok(mm) => mm,
            Err(e) => return Err(e),
        };
        return Ok(
            StrategyPlan::MarketMaking(
                if keys.gates.declared {
                    mm.with_maker_volume(maker_volume_from_keys(&keys.gates))
                } else {
                    mm
                },
            ),
        );
    }
    Ok(StrategyPlan::Grid(GridPlan::new(10, num(HUNDRED), num(P02))))
}

/// The strategy that a configuration asks for.
pub fn create_strategy(settings: &config::Config, host: Host) -> (r: Result<StrategyPlan, StrategyError>)
    ensures
        plan_matches(r, StrategyKeysView::of(*settings).plan(host)),
{
    strategy_from_keys(&read_strategy_keys(settings), host)
}

/// A configured market maker runs behind the gates exactly where the
/// configuration declares their section.
pub proof fn law_a_declared_section_gates_the_maker(settings: config::Config, host: Host)
    ensures
        match StrategyKeysView::of(settings).plan(host) {
            Ok(PlanView::MarketMaking(mm)) => mm.gates == if gates_declared(settings) {
                Some(KeysView::of(settings).gates())
            } else {
                None
            },
            _ => true,
        },
{
}

/// A cap in a parameter list: absent, a number, or a text that is none.
pub open spec fn cap_given(v: Option<Seq<char>>) -> Result<Option<B64>, Seq<char>> {
    match v {
        None => Ok(None),
        Some(s) => match number_text(s) {
            Some(x) => Ok(Some(x)),
            None => Err(s),
        },
    }
}

/// A grid out of a parameter list.
pub open spec fn grid_from_params(kv: Map<Seq<char>, Seq<char>>, host: Host) -> Result<GridPlan, ErrorView> {
    let grid_count = count_or(looked_up(kv, "grid_count"@), 10);
    let investment = number_or(either(kv, "investment_per_grid"@, "investment"@), num(EIGHT));
    let deviation = number_or(either(kv, "price_deviation"@, "deviation"@), num(P008));
    let mode = looked_up(kv, "inventory_mode"@);
    match cap_given(either(kv, "soft_cap"@, "soft_cap_grids"@)) {
        Err(s) => Err(ErrorView::BadSoftCap(s)),
        Ok(soft_cap) => match cap_given(either(kv, "hard_cap"@, "hard_cap_grids"@)) {
            Err(s) => Err(ErrorView::BadHardCap(s)),
            Ok(hard_cap) => if mode is None && soft_cap is None && hard_cap is None {
                Ok(
                    GridPlan {
                        grid_count,
                        investment,
                        deviation,
                        mode: InventoryMode::Hard,
                        soft_cap: None,
                        hard_cap: None,
                    },
                )
            } else {
                match InventoryMode::parsed(
                    match mode {
                        Some(s) => s,
                        None => "hard"@,
                    },
                    host.research_allowed,
                ) {
                    Err(e) => Err(e),
                    Ok(mode) => GridPlan::planned(
                        grid_count,
                        investment,
                        deviation,
                        mode,
                        soft_cap,
                        hard_cap,
                    ),
                }
            },
        },
    }
}

/// A trend follower out of a parameter list.
pub open spec fn trend_from_params(kv: Map<Seq<char>, Seq<char>>) -> TrendPlan {
    let slow_ma = count_or(looked_up(kv, "slow_ma"@), 21);
    TrendPlan {
        fast_ma: count_or(looked_up(kv, "fast_ma"@), 7),
        slow_ma,
        stop_loss: number_or(looked_up(kv, "stop_loss"@), num(P03)),
        take_profit: number_or(looked_up(kv, "take_profit"@), num(P06)),
        trailing_stop: number_or(looked_up(kv, "trailing_stop"@), num(ZERO)),
        notional: number_or(looked_up(kv, "notional"@), num(THOUSAND)),
        adx_threshold: number_or(looked_up(kv, "adx_threshold"@), num(ZERO)),
        adx_period: count_or(looked_up(kv, "adx_period"@), 14),
        confirm_slope_min: number_or(looked_up(kv, "confirm_slope_min"@), num(ZERO)),
        confirm_lookback: count_or(looked_up(kv, "confirm_lookback"@), half_count(slow_ma)),
    }
}

/// A cost averager out of a parameter list.
pub open spec fn dca_from_params(kv: Map<Seq<char>, Seq<char>>) -> DcaPlan {
    DcaPlan {
        interval: number_or(looked_up(kv, "interval"@), num(FOUR)),
        amount: number_or(looked_up(kv, "amount"@), num(FIVE)),
        dip_threshold: number_or(looked_up(kv, "dip_threshold"@), num(TWO)),
    }
}

/// The quoting parameters in a list.
pub open spec fn mm_params(kv: Map<Seq<char>, Seq<char>>) -> MmQuoteParams {
    let base = default_mm_params();
    MmQuoteParams {
        bid_spread: number_or(looked_up(kv, "bid_spread"@), base.bid_spread),
        ask_spread: number_or(looked_up(kv, "ask_spread"@), base.ask_spread),
        order_notional: number_or(either(kv, "order_notional"@, "order_amount"@), base.order_notional),
        inventory_skew: number_or(looked_up(kv, "inventory_skew"@), base.inventory_skew),
        inventory_target: number_or(looked_up(kv, "inventory_target"@), base.inventory_target),
        max_inventory: number_or(looked_up(kv, "max_inventory"@), base.max_inventory),
        min_requote_secs: integer_or(looked_up(kv, "min_requote_secs"@), base.min_requote_secs),
    }
}

/// The engine settings in a list. The simple engine needs no external alpha.
pub open spec fn mm_vol_settings(kv: Map<Seq<char>, Seq<char>>, engine: QuoteEngine) -> Result<
    VolObiMmSettings,
    ErrorView,
> {
    let base = default_vol_settings();
    let source = match looked_up(kv, "alpha_source"@) {
        Some(raw) => AlphaSource::parsed(raw),
        None => Ok(base.alpha_source),
    };
    match source {
        Err(e) => Err(e),
        Ok(source) => Ok(
            VolObiMmSettings {
                alpha_source: if engine == QuoteEngine::Simple { AlphaSource::Local } else { source },
                vol_obi: crate::strategy::vol_obi::VolObiConfig {
                    min_half_spread_bps: number_or(
                        looked_up(kv, "min_half_spread_bps"@),
                        base.vol_obi.min_half_spread_bps,
                    ),
                    vol_to_half_spread: number_or(
                        looked_up(kv, "vol_to_half_spread"@),
                        base.vol_obi.vol_to_half_spread,
                    ),
                    min_warmup_samples: match looked_up(kv, "min_warmup_samples"@) {
                        Some(s) => match i64_value(s) {
                            Some(n) => crate::strategy::vol_obi::at_least_one(n),
                            None => base.vol_obi.min_warmup_samples,
                        },
                        None => base.vol_obi.min_warmup_samples,
                    },
                    ..base.vol_obi
                },
                ..base
            },
        ),
    }
}

/// A market maker out of a parameter list.
pub open spec fn mm_from_params(kv: Map<Seq<char>, Seq<char>>, host: Host) -> Result<MmView, ErrorView> {
    let mode = InventoryMode::parsed(
        match looked_up(kv, "inventory_mode"@) {
            Some(s) => s,
            None => "hard"@,
        },
        host.research_allowed,
    );
    let engine = match looked_up(kv, "quote_engine"@) {
        Some(raw) => QuoteEngine::parsed(raw),
        None => Ok(QuoteEngine::VolObi),
    };
    match mode {
        Err(e) => Err(e),
        Ok(mode) => match engine {
            Err(e) => Err(e),
            Ok(engine) => match mm_vol_settings(kv, engine) {
                Err(e) => Err(e),
                Ok(vol) => built_mm(mm_params(kv), Ok(mode), engine, vol, host),
            },
        },
    }
}

pub open spec fn names_grid(name: Seq<char>) -> bool {
    name == "grid_trading"@ || name == "grid"@
}

pub open spec fn names_trend(name: Seq<char>) -> bool {
    name == "trend_following"@ || name == "trend"@
}

pub open spec fn names_mm(name: Seq<char>) -> bool {
    name == "market_making"@ || name == "mm"@
}

/// The strategy of a given name, out of a parameter list. A trend follower
/// gets the maker overlay where a configuration arms it.
pub open spec fn named_plan(
    name: Seq<char>,
    kv: Map<Seq<char>, Seq<char>>,
    keys: Option<StrategyKeysView>,
    host: Host,
) -> Result<PlanView, ErrorView> {
    if names_grid(name) {
        match grid_from_params(kv, host) {
            Ok(plan) => Ok(PlanView::Grid(plan)),
            Err(e) => Err(e),
        }
    } else if names_trend(name) {
        match keys {
            Some(keys) => keys.with_overlay(trend_from_params(kv), host),
            None => Ok(PlanView::Trend(trend_from_params(kv))),
        }
    } else if name == "dca"@ {
        Ok(PlanView::Dca(dca_from_params(kv)))
    } else if names_mm(name) {
        match mm_from_params(kv, host) {
            Ok(mm) => Ok(PlanView::MarketMaking(mm)),
            Err(e) => Err(e),
        }
    } else {
        Err(ErrorView::UnknownStrategy(name))
    }
}

fn read_cap(v: Option<&str>) -> (r: Result<Option<B64>, String>)
    ensures
        ({
            let expected = cap_given(
                match v {
                    Some(s) => Some(s@),
                    None => None,
                },
            );
            match r {
                Ok(cap) => expected == Ok::<_, Seq<char>>(cap),
                Err(s) => expected == Err::<Option<B64>, _>(s@),
            }
        }),
{
    match v {
        None => Ok(None),
        Some(s) => match B64::parse(&chars_of(s)) {
            Some(x) => Ok(Some(x)),
            None => Err(copy_text(s)),
        },
    }
}

fn build_grid(kv: &Params, host: Host) -> (r: Result<GridPlan, StrategyError>)
    requires
        kv.wf(),
    ensures
        match r {
            Ok(plan) => grid_from_params(kv@, host) == Ok::<_, ErrorView>(plan),
            Err(e) => grid_from_params(kv@, host) == Err::<GridPlan, _>(e@),
        },
{
    let grid_count: usize = kv.count("grid_count", 10);
    let investment: B64 = kv.number_either("investment_per_grid", "investment", num(EIGHT));
    let deviation: B64 = kv.number_either("price_deviation", "deviation", num(P008));
    // Without a policy the live hard cap stays.
    let mode_raw: Option<&str> = kv.get("inventory_mode");
    let soft_cap: Option<B64> = match read_cap(kv.get_either("soft_cap", "soft_cap_grids")) {
        Ok(cap) => cap,
        Err(s) => return Err(StrategyError::BadSoftCap(s)),
    };
    let hard_cap: Option<B64> = match read_cap(kv.get_either("hard_cap", "hard_cap_grids")) {
        Ok(cap) => cap,
        Err(s) => return Err(StrategyError::BadHardCap(s)),
    };
    if mode_raw.is_none() && soft_cap.is_none() && hard_cap.is_none() {
        return Ok(GridPlan::new(grid_count, investment, deviation));
    }
    let raw: &str = match mode_raw {
        Some(s) => s,
        None => "hard",
    };
    match InventoryMode::parse(raw, host.research_allowed) {
        Ok(mode) => GridPlan::with_inventory(grid_count, investment, deviation, mode, soft_cap, hard_cap),
        Err(e) => Err(e),
    }
}

fn build_trend(kv: &Params) -> (r: TrendPlan)
    requires
        kv.wf(),
    ensures
        r == trend_from_params(kv@),
{
    let slow_ma: usize = kv.count("slow_ma", 21);
    TrendPlan {
        fast_ma: kv.count("fast_ma", 7),
        slow_ma,
        stop_loss: kv.number("stop_loss", num(P03)),
        take_profit: kv.number("take_profit", num(P06)),
        trailing_stop: kv.number("trailing_stop", num(ZERO)),
        notional: kv.number("notional", num(THOUSAND)),
        adx_threshold: kv.number("adx_threshold", num(ZERO)),
        adx_period: kv.count("adx_period", 14),
        confirm_slope_min: kv.number("confirm_slope_min", num(ZERO)),
        confirm_lookback: kv.count("confirm_lookback", half_of(slow_ma)),
    }
}

fn build_mm_params(kv: &Params) -> (r: MmQuoteParams)
    requires
        kv.wf(),
    ensures
        r == mm_params(kv@),
{
    let base = MmQuoteParams::default();
    MmQuoteParams {
        bid_spread: kv.number("bid_spread", base.bid_spread),
        ask_spread: kv.number("ask_spread", base.ask_spread),
        order_notional: kv.number_either("order_notional", "order_amount", base.order_notional),
        inventory_skew: kv.number("inventory_skew", base.inventory_skew),
        inventory_target: kv.number("inventory_target", base.inventory_target),
        max_inventory: kv.number("max_inventory", base.max_inventory),
        min_requote_secs: kv.integer("min_requote_secs", base.min_requote_secs),
    }
}

fn build_vol_settings(kv: &Params, engine: QuoteEngine) -> (r: Result<VolObiMmSettings, StrategyError>)
    requires
        kv.wf(),
    ensures
        match r {
            Ok(vol) => mm_vol_settings(kv@, engine) == Ok::<_, ErrorView>(vol),
            Err(e) => mm_vol_settings(kv@, engine) == Err::<VolObiMmSettings, _>(e@),
        },
{
    let mut vol = VolObiMmSettings::default();
    if let Some(raw) = kv.get("alpha_source") {
        match AlphaSource::parse(raw) {
            Ok(source) => {
                vol.alpha_source = source;
            },
            Err(e) => return Err(e),
        }
    }
    if engine == QuoteEngine::Simple {
        vol.alpha_source = AlphaSource::Local;
    }
    vol.vol_obi.min_half_spread_bps = kv.number("min_half_spread_bps", vol.vol_obi.min_half_spread_bps);
    vol.vol_obi.vol_to_half_spread = kv.number("vol_to_half_spread", vol.vol_obi.vol_to_half_spread);
    if let Some(s) = kv.get("min_warmup_samples") {
        if let Some(n) = parse_i64(&chars_of(s)) {
            vol.vol_obi.min_warmup_samples = positive_count(n);
        }
    }
    Ok(vol)
}

fn build_mm_from_params(kv: &Params, host: Host) -> (r: Result<MarketMakingStrategy, StrategyError>)
    requires
        kv.wf(),
    ensures
        match r {
            Ok(mm) => mm.wf() && mm_from_params(kv@, host) == Ok::<_, ErrorView>(mm@),
            Err(e) => mm_from_params(kv@, host) == Err::<MmView, _>(e@),
        },
{
    let params = build_mm_params(kv);
    let raw: &str = match kv.get("inventory_mode") {
        Some(s) => s,
        None => "hard",
    };
    let mode = match InventoryMode::parse(raw, host.research_allowed) {
        Ok(mode) => mode,
        Err(e) => return Err(e),
    };
    let engine = match kv.get("quote_engine") {
        Some(raw) => match QuoteEngine::parse(raw) {
            Ok(engine) => engine,
            Err(e) => return Err(e),
        },
        None => QuoteEngine::VolObi,
    };
    let vol = match build_vol_settings(kv, engine) {
        Ok(vol) => vol,
        Err(e) => return Err(e),
    };
    MarketMakingStrategy::with_engine(params, mode, engine, vol, host.runtime_available)
}

/// The strategy of a given name, out of a parameter list and the keys of a
/// configuration.
pub fn strategy_from_params(name: &str, kv: &Params, keys: Option<&StrategyKeys>, host: Host) -> (r: Result<
    StrategyPlan,
    StrategyError,
>)
    requires
        kv.wf(),
    ensures
        plan_matches(
            r,
            named_plan(
                name@,
                kv@,
                match keys {
                    Some(keys) => Some(keys@),
                    None => None,
                },
                host,
            ),
        ),
{
    if same_text(name, "grid_trading") || same_text(name, "grid") {
        match build_grid(kv, host) {
            Ok(plan) => Ok(StrategyPlan::Grid(plan)),
            Err(e) => Err(e),
        }
    } else if same_text(name, "trend_following") || same_text(name, "trend") {
        let trend = build_trend(kv);
        match keys {
            Some(keys) => attach_maker_overlay(trend, keys, host),
            None => Ok(StrategyPlan::Trend(trend)),
        }
    } else if same_text(name, "dca") {
        Ok(
            StrategyPlan::Dca(
                DcaPlan {
                    interval: kv.number("interval", num(FOUR)),
                    amount: kv.number("amount", num(FIVE)),
                    dip_threshold: kv.number("dip_threshold", num(TWO)),
                },
            ),
        )
    } else if same_text(name, "market_making") || same_text(name, "mm") {
        match build_mm_from_params(kv, host) {
            Ok(mm) => Ok(StrategyPlan::MarketMaking(mm)),
            Err(e) => Err(e),
        }
    } else {
        Err(StrategyError::UnknownStrategy(copy_text(name)))
    }
}

/// The characters of an optional list; an absent list is an empty one.
pub open spec fn list_text(params: Option<&str>) -> Seq<char> {
    match params {
        Some(s) => s@,
        None => ""@,
    }
}

fn parse_params(params: Option<&str>) -> (r: Params)
    ensures
        r.wf(),
        r@ == params_of(list_text(params)),
{
    match params {
        Some(s) => Params::parse(s),
        None => Params::parse(""),
    }
}

/// The strategy of a given name with optional parameters, as in
/// `grid_count=10,investment=8.0,deviation=0.008`. Where a configuration is
/// given and both maker-volume flags are armed, a trend book gets the same
/// gated overlay as from the configuration alone.
pub fn create_strategy_with_params_and_settings(
    name: &str,
    params: Option<&str>,
    settings: Option<&config::Config>,
    host: Host,
) -> (r: Result<StrategyPlan, StrategyError>)
    ensures
        plan_matches(
            r,
            named_plan(
                name@,
                params_of(list_text(params)),
                match settings {
                    Some(settings) => Some(StrategyKeysView::of(*settings)),
                    None => None,
                },
                host,
            ),
        ),
{
    let kv = parse_params(params);
    match settings {
        Some(settings) => {
            let keys = read_strategy_keys(settings);
            strategy_from_params(name, &kv, Some(&keys), host)
        },
        None => strategy_from_params(name, &kv, None, host),
    }
}

/// The strategy of a given name with optional parameters.
pub fn create_strategy_with_params(name: &str, params: Option<&str>, host: Host) -> (r: Result<
    StrategyPlan,
    StrategyError,
>)
    ensures
        plan_matches(r, named_plan(name@, params_of(list_text(params)), None, host)),
{
    create_strategy_with_params_and_settings(name, params, None, host)
}

/// The strategy of a given name with its default parameters.
pub fn create_strategy_from_name(name: &str, host: Host) -> (r: Result<StrategyPlan, StrategyError>)
    ensures
        plan_matches(r, named_plan(name@, params_of(""@), None, host)),
{
    create_strategy_with_params(name, None, host)
}

/// A configuration never leads to the uncapped inventory mode, whatever the
/// host allows.
pub proof fn law_live_is_always_capped(keys: StrategyKeysView, host: Host)
    ensures
        match keys.plan(host) {
            Ok(PlanView::Grid(plan)) => plan.mode != InventoryMode::ResearchNoCap,
            Ok(PlanView::MarketMaking(mm)) => mm.inventory_mode != InventoryMode::ResearchNoCap,
            Ok(PlanView::SplitBook { trend, maker }) => maker.inventory_mode != InventoryMode::ResearchNoCap,
            Ok(_) => true,
            Err(_) => true,
        },
        keys.grid.enabled == Some(true) && keys.grid.inventory_mode is Some && keyword(
            keys.grid.inventory_mode->0,
        ) == "research_nocap"@ ==> keys.plan(host) == Err::<PlanView, _>(ErrorView::ResearchModeLive),
{
}

/// The overlay is part of a plan exactly where both flags are on, and it
/// carries those gates.
pub proof fn law_overlay_needs_both_flags(keys: StrategyKeysView, trend: TrendPlan, host: Host)
    ensures
        match keys.with_overlay(trend, host) {
            Ok(PlanView::SplitBook { trend: t, maker }) => {
                &&& keys.gates.enabled == Some(true) && keys.gates.allow_quotes == Some(true)
                &&& t == trend
                &&& maker.gates == Some(keys.gates.gates())
            },
            Ok(plan) => plan == PlanView::Trend(trend) && !keys.gates.gates().armed(),
            Err(_) => keys.gates.gates().armed(),
        },
{
}

/// The uncapped inventory mode needs the research switch.
pub proof fn law_research_mode_needs_the_switch(
    name: Seq<char>,
    kv: Map<Seq<char>, Seq<char>>,
    keys: Option<StrategyKeysView>,
    host: Host,
)
    requires
        !host.research_allowed,
    ensures
        match named_plan(name, kv, keys, host) {
            Ok(PlanView::Grid(plan)) => plan.mode != InventoryMode::ResearchNoCap,
            Ok(PlanView::MarketMaking(mm)) => mm.inventory_mode != InventoryMode::ResearchNoCap,
            Ok(_) => true,
            Err(_) => true,
        },
{
}

/// Only the known names lead to a strategy, and the strategy has that name.
pub proof fn law_names_are_kept(
    name: Seq<char>,
    kv: Map<Seq<char>, Seq<char>>,
    keys: Option<StrategyKeysView>,
    host: Host,
)
    ensures
        match named_plan(name, kv, keys, host) {
            Ok(plan) => {
                &&& names_grid(name) ==> plan.name() == "grid_trading"@
                &&& names_trend(name) ==> plan.name() == "trend_following"@
                &&& names_mm(name) ==> plan.name() == "market_making"@
                &&& names_grid(name) || names_trend(name) || names_mm(name) || name == "dca"@
            },
            Err(_) => true,
        },
        !names_grid(name) && !names_trend(name) && !names_mm(name) && name != "dca"@ ==> named_plan(
            name,
            kv,
            keys,
            host,
        ) == Err::<PlanView, _>(ErrorView::UnknownStrategy(name)),
{
    reveal_strlit("grid_trading");
    reveal_strlit("grid");
    reveal_strlit("trend_following");
    reveal_strlit("trend");
    reveal_strlit("market_making");
    reveal_strlit("mm");
    reveal_strlit("dca");
    assert("grid"@[0] == 'g' && "grid_trading"@[0] == 'g');
    assert("trend"@[0] == 't' && "trend_following"@[0] == 't');
    assert("mm"@[0] == 'm' && "market_making"@[0] == 'm');
}

} // verus!
