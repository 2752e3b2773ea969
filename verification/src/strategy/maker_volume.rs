//! Maker-volume gates: maker-only prices, a list of markets, a notional
//! inventory cap and a short markout backoff. Both enable flags default to
//! false, so that nothing quotes unless it is asked to.

use vstd::prelude::*;

use crate::binary64::consts::{FOUR, HALF, SIXTY, TEN_THOUSAND, TINY_12, TINY_9, TWENTY, TWO, ZERO};
use crate::binary64::{num, B64};
use crate::clock::{Timestamp, MAX_DURATION_SECS, MAX_SECS};
use crate::lighter::types::Side;
use crate::settings::{
    bool_settings, get_bool, get_float, get_int, get_int_list, has_table, int_settings, list_settings,
    looked_up, number_setting, reads, table_settings, within_table,
};
use crate::table::Table;
use crate::text::{lower, same_ignoring_case};

use super::market_making::{mid_from_bbo, without_sides, TwoSidedQuote};

verus! {

/// Hard gates of a maker-volume book. The defaults never arm quotes.
#[derive(Debug)]
pub struct MakerVolumeConfig {
    pub enabled: bool,
    pub allow_quotes: bool,
    pub markets: Vec<u32>,
    pub order_notional: B64,
    pub max_position_notional: B64,
    pub inventory_skew: B64,
    pub markout_window_secs: i64,
    pub markout_adverse_bps: B64,
    pub backoff_secs: i64,
    pub min_half_spread_bps: B64,
}

fn same_markets(a: &[u32], b: &[u32]) -> (r: bool)
    ensures
        r == (a@ == b@),
{
    if a.len() != b.len() {
        return false;
    }
    let mut i: usize = 0;
    while i < a.len()
        invariant
            i <= a.len(),
            a.len() == b.len(),
            forall|k: int| 0 <= k < i ==> a@[k] == b@[k],
        decreases a.len() - i,
    {
        if a[i] != b[i] {
            return false;
        }
        i = i + 1;
    }
    assert(a@ =~= b@);
    true
}

/// Numbers are compared by value: the zeros are equal, a NaN equals nothing.
impl PartialEq for MakerVolumeConfig {
    fn eq(&self, other: &MakerVolumeConfig) -> (r: bool) {
        self.enabled == other.enabled
            && self.allow_quotes == other.allow_quotes
            && same_markets(self.markets.as_slice(), other.markets.as_slice())
            && self.order_notional.eq_num(other.order_notional)
            && self.max_position_notional.eq_num(other.max_position_notional)
            && self.inventory_skew.eq_num(other.inventory_skew)
            && self.markout_window_secs == other.markout_window_secs
            && self.markout_adverse_bps.eq_num(other.markout_adverse_bps)
            && self.backoff_secs == other.backoff_secs
            && self.min_half_spread_bps.eq_num(other.min_half_spread_bps)
    }
}

impl vstd::std_specs::cmp::PartialEqSpecImpl for MakerVolumeConfig {
    open spec fn obeys_eq_spec() -> bool {
        true
    }

    open spec fn eq_spec(&self, other: &MakerVolumeConfig) -> bool {
        &&& self.enabled == other.enabled
        &&& self.allow_quotes == other.allow_quotes
        &&& self.markets@ == other.markets@
        &&& self.order_notional.eq_num(other.order_notional)
        &&& self.max_position_notional.eq_num(other.max_position_notional)
        &&& self.inventory_skew.eq_num(other.inventory_skew)
        &&& self.markout_window_secs == other.markout_window_secs
        &&& self.markout_adverse_bps.eq_num(other.markout_adverse_bps)
        &&& self.backoff_secs == other.backoff_secs
        &&& self.min_half_spread_bps.eq_num(other.min_half_spread_bps)
    }
}

/// What the gates say.
#[verifier::ext_equal]
pub struct GatesView {
    pub enabled: bool,
    pub allow_quotes: bool,
    pub markets: Seq<u32>,
    pub order_notional: B64,
    pub max_position_notional: B64,
    pub inventory_skew: B64,
    pub markout_window_secs: i64,
    pub markout_adverse_bps: B64,
    pub backoff_secs: i64,
    pub min_half_spread_bps: B64,
}

impl View for MakerVolumeConfig {
    type V = GatesView;

    open spec fn view(&self) -> GatesView {
        GatesView {
            enabled: self.enabled,
            allow_quotes: self.allow_quotes,
            markets: self.markets@,
            order_notional: self.order_notional,
            max_position_notional: self.max_position_notional,
            inventory_skew: self.inventory_skew,
            markout_window_secs: self.markout_window_secs,
            markout_adverse_bps: self.markout_adverse_bps,
            backoff_secs: self.backoff_secs,
            min_half_spread_bps: self.min_half_spread_bps,
        }
    }
}

impl GatesView {
    pub open spec fn closed_gates() -> GatesView {
        GatesView {
            enabled: false,
            allow_quotes: false,
            markets: seq![1u32],
            order_notional: num(TWENTY),
            max_position_notional: num(SIXTY),
            inventory_skew: num(HALF),
            markout_window_secs: 3,
            markout_adverse_bps: num(FOUR),
            backoff_secs: 15,
            min_half_spread_bps: num(TWO),
        }
    }

    pub open spec fn armed(self) -> bool {
        self.enabled && self.allow_quotes
    }

    pub open spec fn allows(self, market_id: u32) -> bool {
        self.markets.len() == 0 || self.markets.contains(market_id)
    }

    /// The window and the backoff are durations that exist.
    pub open spec fn durations_exist(self) -> bool {
        self.markout_window_secs <= MAX_DURATION_SECS && self.backoff_secs <= MAX_DURATION_SECS
    }

    pub open spec fn window(self) -> i64 {
        if self.markout_window_secs < 1 {
            1
        } else {
            self.markout_window_secs
        }
    }

    pub open spec fn backoff(self) -> i64 {
        if self.backoff_secs < 1 {
            1
        } else {
            self.backoff_secs
        }
    }
}

impl Default for MakerVolumeConfig {
    fn default() -> (r: MakerVolumeConfig)
        ensures
            r@ == GatesView::closed_gates(),
    {
        let mut markets: Vec<u32> = Vec::new();
        markets.push(1);
        let r = MakerVolumeConfig {
            enabled: false,
            allow_quotes: false,
            markets,
            order_notional: num(TWENTY),
            max_position_notional: num(SIXTY),
            inventory_skew: num(HALF),
            markout_window_secs: 3,
            markout_adverse_bps: num(FOUR),
            backoff_secs: 15,
            min_half_spread_bps: num(TWO),
        };
        assert(r.markets@ =~= seq![1u32]);
        r
    }
}

impl Clone for MakerVolumeConfig {
    fn clone(&self) -> (r: MakerVolumeConfig)
        ensures
            r@ == self@,
    {
        let markets: Vec<u32> = self.markets.clone();
        assert(markets@ =~= self.markets@);
        MakerVolumeConfig {
            enabled: self.enabled,
            allow_quotes: self.allow_quotes,
            markets,
            order_notional: self.order_notional,
            max_position_notional: self.max_position_notional,
            inventory_skew: self.inventory_skew,
            markout_window_secs: self.markout_window_secs,
            markout_adverse_bps: self.markout_adverse_bps,
            backoff_secs: self.backoff_secs,
            min_half_spread_bps: self.min_half_spread_bps,
        }
    }
}

impl MakerVolumeConfig {
    /// Whether both flags are on.
    pub fn quotes_armed(&self) -> (r: bool)
        ensures
            r == self@.armed(),
    {
        self.enabled && self.allow_quotes
    }

    /// Whether a market is on the list; an empty list allows every market.
    pub fn allows_market(&self, market_id: u32) -> (r: bool)
        ensures
            r == self@.allows(market_id),
    {
        if self.markets.len() == 0 {
            return true;
        }
        let mut i: usize = 0;
        while i < self.markets.len()
            invariant
                i <= self.markets.len(),
                forall|k: int| 0 <= k < i ==> self.markets@[k] != market_id,
            decreases self.markets.len() - i,
        {
            if self.markets[i] == market_id {
                assert(self.markets@.contains(market_id));
                return true;
            }
            i = i + 1;
        }
        false
    }
}

/// What the configuration holds on the gates; `None` where a key is absent or
/// does not read as its type.
#[derive(Debug)]
pub struct MakerVolumeKeys {
    /// Whether the section is there at all.
    pub declared: bool,
    pub enabled: Option<bool>,
    pub allow_quotes: Option<bool>,
    pub markets: Option<Vec<Option<i64>>>,
    pub order_notional: Option<B64>,
    pub max_position_notional: Option<B64>,
    pub inventory_skew: Option<B64>,
    pub markout_window_secs: Option<i64>,
    pub markout_adverse_bps: Option<B64>,
    pub backoff_secs: Option<i64>,
    pub min_half_spread_bps: Option<B64>,
}

#[verifier::ext_equal]
pub struct KeysView {
    pub declared: bool,
    pub enabled: Option<bool>,
    pub allow_quotes: Option<bool>,
    pub markets: Option<Seq<Option<i64>>>,
    pub order_notional: Option<B64>,
    pub max_position_notional: Option<B64>,
    pub inventory_skew: Option<B64>,
    pub markout_window_secs: Option<i64>,
    pub markout_adverse_bps: Option<B64>,
    pub backoff_secs: Option<i64>,
    pub min_half_spread_bps: Option<B64>,
}

impl View for MakerVolumeKeys {
    type V = KeysView;

    open spec fn view(&self) -> KeysView {
        KeysView {
            declared: self.declared,
            enabled: self.enabled,
            allow_quotes: self.allow_quotes,
            markets: match self.markets {
                Some(v) => Some(v@),
                None => None,
            },
            order_notional: self.order_notional,
            max_position_notional: self.max_position_notional,
            inventory_skew: self.inventory_skew,
            markout_window_secs: self.markout_window_secs,
            markout_adverse_bps: self.markout_adverse_bps,
            backoff_secs: self.backoff_secs,
            min_half_spread_bps: self.min_half_spread_bps,
        }
    }
}

/// The market ids in a list: items that are no integer or negative are passed
/// over, larger ones are reduced to 32 bits.
pub open spec fn market_ids(items: Seq<Option<i64>>) -> Seq<u32>
    decreases items.len(),
{
    if items.len() == 0 {
        Seq::empty()
    } else {
        let rest = market_ids(items.drop_last());
        match items.last() {
            Some(n) => if n >= 0 {
                rest.push((n as int % 0x1_0000_0000) as u32)
            } else {
                rest
            },
            None => rest,
        }
    }
}

pub open spec fn positive_or(v: Option<B64>, default: B64) -> B64 {
    match v {
        Some(x) => if x.is_finite() && x.gt(num(ZERO)) {
            x
        } else {
            default
        },
        None => default,
    }
}

pub open spec fn secs_or(v: Option<i64>, default: i64) -> i64 {
    match v {
        Some(n) => if n < 1 {
            1
        } else {
            n
        },
        None => default,
    }
}

impl KeysView {
    /// The keys of a configuration.
    pub open spec fn of(settings: config::Config) -> KeysView {
        KeysView {
            declared: table_settings(settings).contains("trading.strategies.maker_volume"@),
            enabled: looked_up(bool_settings(settings), "trading.strategies.maker_volume.enabled"@),
            allow_quotes: looked_up(bool_settings(settings), "trading.strategies.maker_volume.allow_quotes"@),
            markets: looked_up(list_settings(settings), "trading.strategies.maker_volume.markets"@),
            order_notional: number_setting(settings, "trading.strategies.maker_volume.order_notional"@),
            max_position_notional: number_setting(
                settings,
                "trading.strategies.maker_volume.max_position_notional"@,
            ),
            inventory_skew: number_setting(settings, "trading.strategies.maker_volume.inventory_skew"@),
            markout_window_secs: looked_up(
                int_settings(settings),
                "trading.strategies.maker_volume.markout_window_secs"@,
            ),
            markout_adverse_bps: number_setting(
                settings,
                "trading.strategies.maker_volume.markout_adverse_bps"@,
            ),
            backoff_secs: looked_up(int_settings(settings), "trading.strategies.maker_volume.backoff_secs"@),
            min_half_spread_bps: number_setting(
                settings,
                "trading.strategies.maker_volume.min_half_spread_bps"@,
            ),
        }
    }

    /// Whether one of the keys reads.
    pub open spec fn any_given(self) -> bool {
        ||| self.enabled is Some
        ||| self.allow_quotes is Some
        ||| self.markets is Some
        ||| self.order_notional is Some
        ||| self.max_position_notional is Some
        ||| self.inventory_skew is Some
        ||| self.markout_window_secs is Some
        ||| self.markout_adverse_bps is Some
        ||| self.backoff_secs is Some
        ||| self.min_half_spread_bps is Some
    }

    /// The gates that the keys ask for; a value out of range keeps the default.
    pub open spec fn gates(self) -> GatesView {
        let closed = GatesView::closed_gates();
        GatesView {
            enabled: self.enabled.unwrap_or(false),
            allow_quotes: self.allow_quotes.unwrap_or(false),
            markets: match self.markets {
                Some(items) => if market_ids(items).len() > 0 {
                    market_ids(items)
                } else {
                    closed.markets
                },
                None => closed.markets,
            },
            order_notional: positive_or(self.order_notional, closed.order_notional),
            max_position_notional: positive_or(self.max_position_notional, closed.max_position_notional),
            inventory_skew: match self.inventory_skew {
                Some(x) => if x.is_finite() && x.ge(num(ZERO)) {
                    x
                } else {
                    closed.inventory_skew
                },
                None => closed.inventory_skew,
            },
            markout_window_secs: secs_or(self.markout_window_secs, closed.markout_window_secs),
            markout_adverse_bps: positive_or(self.markout_adverse_bps, closed.markout_adverse_bps),
            backoff_secs: secs_or(self.backoff_secs, closed.backoff_secs),
            min_half_spread_bps: positive_or(self.min_half_spread_bps, closed.min_half_spread_bps),
        }
    }
}

fn ids_of(items: &Vec<Option<i64>>) -> (r: Vec<u32>)
    ensures
        r@ == market_ids(items@),
{
    let mut ids: Vec<u32> = Vec::new();
    let mut i: usize = 0;
    assert(items@.take(0) == Seq::<Option<i64>>::empty());
    while i < items.len()
        invariant
            i <= items.len(),
            ids@ == market_ids(items@.take(i as int)),
        decreases items.len() - i,
    {
        proof {
            assert(items@.take(i as int + 1).drop_last() == items@.take(i as int));
            assert(items@.take(i as int + 1).last() == items@[i as int]);
        }
        match items[i] {
            Some(n) => if n >= 0 {
                ids.push((n % 0x1_0000_0000) as u32);
            },
            None => {},
        }
        i = i + 1;
    }
    assert(items@.take(i as int) == items@);
    ids
}

fn usable(v: Option<B64>, default: B64) -> (r: B64)
    ensures
        r == positive_or(v, default),
{
    match v {
        Some(x) => if x.is_finite() && x.gt(num(ZERO)) {
            x
        } else {
            default
        },
        None => default,
    }
}

fn at_least_a_second(v: Option<i64>, default: i64) -> (r: i64)
    ensures
        r == secs_or(v, default),
{
    match v {
        Some(n) => if n < 1 {
            1
        } else {
            n
        },
        None => default,
    }
}

/// The gates that a set of keys asks for.
pub fn maker_volume_from_keys(keys: &MakerVolumeKeys) -> (r: MakerVolumeConfig)
    ensures
        r@ == keys@.gates(),
{
    let mut cfg = MakerVolumeConfig::default();
    if let Some(v) = keys.enabled {
        cfg.enabled = v;
    }
    if let Some(v) = keys.allow_quotes {
        cfg.allow_quotes = v;
    }
    cfg.order_notional = usable(keys.order_notional, cfg.order_notional);
    cfg.max_position_notional = usable(keys.max_position_notional, cfg.max_position_notional);
    if let Some(v) = keys.inventory_skew {
        if v.is_finite() && v.ge(num(ZERO)) {
            cfg.inventory_skew = v;
        }
    }
    cfg.markout_window_secs = at_least_a_second(keys.markout_window_secs, cfg.markout_window_secs);
    cfg.markout_adverse_bps = usable(keys.markout_adverse_bps, cfg.markout_adverse_bps);
    cfg.backoff_secs = at_least_a_second(keys.backoff_secs, cfg.backoff_secs);
    cfg.min_half_spread_bps = usable(keys.min_half_spread_bps, cfg.min_half_spread_bps);
    match &keys.markets {
        Some(items) => {
            let ids = ids_of(items);
            if ids.len() > 0 {
                cfg.markets = ids;
            }
        },
        None => {},
    }
    cfg
}

/// Reads the keys of the gates.
pub fn read_keys(settings: &config::Config) -> (r: MakerVolumeKeys)
    ensures
        r@ == KeysView::of(*settings),
        r@.any_given() ==> r.declared,
{
    let r = MakerVolumeKeys {
        declared: has_table(settings, "trading.strategies.maker_volume"),
        enabled: get_bool(settings, "trading.strategies.maker_volume.enabled"),
        allow_quotes: get_bool(settings, "trading.strategies.maker_volume.allow_quotes"),
        markets: get_int_list(settings, "trading.strategies.maker_volume.markets"),
        order_notional: get_float(settings, "trading.strategies.maker_volume.order_notional"),
        max_position_notional: get_float(settings, "trading.strategies.maker_volume.max_position_notional"),
        inventory_skew: get_float(settings, "trading.strategies.maker_volume.inventory_skew"),
        markout_window_secs: get_int(settings, "trading.strategies.maker_volume.markout_window_secs"),
        markout_adverse_bps: get_float(settings, "trading.strategies.maker_volume.markout_adverse_bps"),
        backoff_secs: get_int(settings, "trading.strategies.maker_volume.backoff_secs"),
        min_half_spread_bps: get_float(settings, "trading.strategies.maker_volume.min_half_spread_bps"),
    };
    proof {
        lemma_names_in_section();
        assert(forall|name: Seq<char>|
            #[trigger] reads(*settings, within_table("trading.strategies.maker_volume"@, name)) ==> r.declared);
        assert(reads(*settings, "trading.strategies.maker_volume.enabled"@) ==> r.declared);
        assert(reads(*settings, "trading.strategies.maker_volume.allow_quotes"@) ==> r.declared);
        assert(reads(*settings, "trading.strategies.maker_volume.markets"@) ==> r.declared);
        assert(reads(*settings, "trading.strategies.maker_volume.order_notional"@) ==> r.declared);
        assert(reads(*settings, "trading.strategies.maker_volume.max_position_notional"@) ==> r.declared);
        assert(reads(*settings, "trading.strategies.maker_volume.inventory_skew"@) ==> r.declared);
        assert(reads(*settings, "trading.strategies.maker_volume.markout_window_secs"@) ==> r.declared);
        assert(reads(*settings, "trading.strategies.maker_volume.markout_adverse_bps"@) ==> r.declared);
        assert(reads(*settings, "trading.strategies.maker_volume.backoff_secs"@) ==> r.declared);
        assert(reads(*settings, "trading.strategies.maker_volume.min_half_spread_bps"@) ==> r.declared);
    }
    r
}

/// The names of the keys, as they stand within their section.
proof fn lemma_names_in_section()
    ensures
        within_table("trading.strategies.maker_volume"@, "enabled"@) == "trading.strategies.maker_volume.enabled"@,
        within_table("trading.strategies.maker_volume"@, "allow_quotes"@) == "trading.strategies.maker_volume.allow_quotes"@,
        within_table("trading.strategies.maker_volume"@, "markets"@) == "trading.strategies.maker_volume.markets"@,
        within_table("trading.strategies.maker_volume"@, "order_notional"@) == "trading.strategies.maker_volume.order_notional"@,
        within_table("trading.strategies.maker_volume"@, "max_position_notional"@) == "trading.strategies.maker_volume.max_position_notional"@,
        within_table("trading.strategies.maker_volume"@, "inventory_skew"@) == "trading.strategies.maker_volume.inventory_skew"@,
        within_table("trading.strategies.maker_volume"@, "markout_window_secs"@) == "trading.strategies.maker_volume.markout_window_secs"@,
        within_table("trading.strategies.maker_volume"@, "markout_adverse_bps"@) == "trading.strategies.maker_volume.markout_adverse_bps"@,
        within_table("trading.strategies.maker_volume"@, "backoff_secs"@) == "trading.strategies.maker_volume.backoff_secs"@,
        within_table("trading.strategies.maker_volume"@, "min_half_spread_bps"@) == "trading.strategies.maker_volume.min_half_spread_bps"@,
{
    reveal_strlit("trading.strategies.maker_volume");
    reveal_strlit(".");
    reveal_strlit("enabled");
    reveal_strlit("trading.strategies.maker_volume.enabled");
    reveal_strlit("allow_quotes");
    reveal_strlit("trading.strategies.maker_volume.allow_quotes");
    reveal_strlit("markets");
    reveal_strlit("trading.strategies.maker_volume.markets");
    reveal_strlit("order_notional");
    reveal_strlit("trading.strategies.maker_volume.order_notional");
    reveal_strlit("max_position_notional");
    reveal_strlit("trading.strategies.maker_volume.max_position_notional");
    reveal_strlit("inventory_skew");
    reveal_strlit("trading.strategies.maker_volume.inventory_skew");
    reveal_strlit("markout_window_secs");
    reveal_strlit("trading.strategies.maker_volume.markout_window_secs");
    reveal_strlit("markout_adverse_bps");
    reveal_strlit("trading.strategies.maker_volume.markout_adverse_bps");
    reveal_strlit("backoff_secs");
    reveal_strlit("trading.strategies.maker_volume.backoff_secs");
    reveal_strlit("min_half_spread_bps");
    reveal_strlit("trading.strategies.maker_volume.min_half_spread_bps");
    assert(within_table("trading.strategies.maker_volume"@, "enabled"@)
        =~= "trading.strategies.maker_volume.enabled"@);
    assert(within_table("trading.strategies.maker_volume"@, "allow_quotes"@)
        =~= "trading.strategies.maker_volume.allow_quotes"@);
    assert(within_table("trading.strategies.maker_volume"@, "markets"@)
        =~= "trading.strategies.maker_volume.markets"@);
    assert(within_table("trading.strategies.maker_volume"@, "order_notional"@)
        =~= "trading.strategies.maker_volume.order_notional"@);
    assert(within_table("trading.strategies.maker_volume"@, "max_position_notional"@)
        =~= "trading.strategies.maker_volume.max_position_notional"@);
    assert(within_table("trading.strategies.maker_volume"@, "inventory_skew"@)
        =~= "trading.strategies.maker_volume.inventory_skew"@);
    assert(within_table("trading.strategies.maker_volume"@, "markout_window_secs"@)
        =~= "trading.strategies.maker_volume.markout_window_secs"@);
    assert(within_table("trading.strategies.maker_volume"@, "markout_adverse_bps"@)
        =~= "trading.strategies.maker_volume.markout_adverse_bps"@);
    assert(within_table("trading.strategies.maker_volume"@, "backoff_secs"@)
        =~= "trading.strategies.maker_volume.backoff_secs"@);
    assert(within_table("trading.strategies.maker_volume"@, "min_half_spread_bps"@)
        =~= "trading.strategies.maker_volume.min_half_spread_bps"@);
}

/// Whether the configuration declares the section of the gates.
pub open spec fn gates_declared(settings: config::Config) -> bool {
    table_settings(settings).contains("trading.strategies.maker_volume"@)
}

/// Whether the configuration declares the section of the gates. It does where
/// one of the section's keys reads.
pub fn maker_volume_configured(settings: &config::Config) -> (r: bool)
    ensures
        r == gates_declared(*settings),
        KeysView::of(*settings).any_given() ==> r,
{
    read_keys(settings).declared
}

/// The gates that the configuration asks for.
pub fn maker_volume_from_settings(settings: &config::Config) -> (r: MakerVolumeConfig)
    ensures
        r@ == KeysView::of(*settings).gates(),
{
    maker_volume_from_keys(&read_keys(settings))
}

/// Whether a saved strategy name is the market maker's.
pub open spec fn names_market_maker(name: Seq<char>) -> bool {
    lower(name) == lower("market_making"@) || lower(name) == lower("mm"@)
}

/// A persisted market maker is refused unless the gates are armed.
pub fn refuse_saved_mm(saved_name: &str, gates: &MakerVolumeConfig) -> (r: bool)
    ensures
        r == (names_market_maker(saved_name@) && !gates@.armed()),
{
    let is_mm: bool = same_ignoring_case(saved_name, "market_making") || same_ignoring_case(saved_name, "mm");
    is_mm && !gates.quotes_armed()
}

/// A persisted market maker must not start quoting unless both flags are on.
pub fn refuse_persisted_mm(saved_name: &str, settings: &config::Config) -> (r: bool)
    ensures
        r == (names_market_maker(saved_name@) && !KeysView::of(*settings).gates().armed()),
{
    refuse_saved_mm(saved_name, &maker_volume_from_settings(settings))
}

/// A bid that neither crosses nor locks: below the best ask and the mid.
pub open spec fn passive_bid(price: B64, best_ask: B64, mid: B64) -> bool {
    price.is_finite() && price.gt(num(ZERO)) && price.lt(best_ask) && price.lt(mid)
}

pub open spec fn passive_ask(price: B64, best_bid: B64, mid: B64) -> bool {
    price.is_finite() && price.gt(num(ZERO)) && price.gt(best_bid) && price.gt(mid)
}

pub open spec fn spec_clamp_maker_only(quote: TwoSidedQuote, best_bid: B64, best_ask: B64) -> Option<
    TwoSidedQuote,
> {
    match mid_from_bbo(best_bid, best_ask) {
        Some(mid) => {
            let no_bid = quote.bid_qty.gt(num(ZERO)) && !passive_bid(quote.bid_price, best_ask, mid);
            let no_ask = quote.ask_qty.gt(num(ZERO)) && !passive_ask(quote.ask_price, best_bid, mid);
            let both = quote.bid_qty.gt(num(ZERO)) && !no_bid && quote.ask_qty.gt(num(ZERO)) && !no_ask;
            if both && quote.bid_price.ge(quote.ask_price) {
                None
            } else {
                without_sides(TwoSidedQuote { mid, ..quote }, no_bid, no_ask)
            }
        },
        None => None,
    }
}

/// Drops any price that would cross or lock the spread.
#[verifier::when_used_as_spec(spec_clamp_maker_only)]
pub fn clamp_maker_only(quote: TwoSidedQuote, best_bid: B64, best_ask: B64) -> (r: Option<TwoSidedQuote>)
    ensures
        r == spec_clamp_maker_only(quote, best_bid, best_ask),
{
    let mid: B64 = match mid_from_bbo(best_bid, best_ask) {
        Some(mid) => mid,
        None => return None,
    };
    proof {
        crate::binary64::order::lemma_value_order(num(ZERO), num(ZERO));
    }
    let mut q: TwoSidedQuote = quote;
    q.mid = mid;
    if q.bid_qty.gt(num(ZERO)) && !(q.bid_price.is_finite() && q.bid_price.gt(num(ZERO)) && q.bid_price.lt(
        best_ask,
    ) && q.bid_price.lt(mid)) {
        q.bid_qty = num(ZERO);
    }
    if q.ask_qty.gt(num(ZERO)) && !(q.ask_price.is_finite() && q.ask_price.gt(num(ZERO)) && q.ask_price.gt(
        best_bid,
    ) && q.ask_price.gt(mid)) {
        q.ask_qty = num(ZERO);
    }
    if q.bid_qty.gt(num(ZERO)) && q.ask_qty.gt(num(ZERO)) && q.bid_price.ge(q.ask_price) {
        return None;
    }
    if q.bid_qty.le(num(ZERO)) && q.ask_qty.le(num(ZERO)) {
        return None;
    }
    Some(q)
}

pub open spec fn spec_apply_notional_inventory_cap(
    quote: TwoSidedQuote,
    inventory_base: B64,
    mid: B64,
    max_position_notional: B64,
) -> Option<TwoSidedQuote> {
    let notional = inventory_base.mul(mid);
    if !max_position_notional.is_finite() || max_position_notional.le(num(ZERO)) || !mid.is_finite()
        || mid.le(num(ZERO)) {
        Some(quote)
    } else {
        without_sides(
            quote,
            notional.ge(max_position_notional.sub(num(TINY_9))),
            notional.le(max_position_notional.neg().add(num(TINY_9))),
        )
    }
}

/// Hard notional cap: stops bidding when long-full, stops offering when
/// short-full.
#[verifier::when_used_as_spec(spec_apply_notional_inventory_cap)]
pub fn apply_notional_inventory_cap(
    quote: TwoSidedQuote,
    inventory_base: B64,
    mid: B64,
    max_position_notional: B64,
) -> (r: Option<TwoSidedQuote>)
    ensures
        r == spec_apply_notional_inventory_cap(quote, inventory_base, mid, max_position_notional),
{
    if !max_position_notional.is_finite() || max_position_notional.le(num(ZERO)) || !mid.is_finite()
        || mid.le(num(ZERO)) {
        return Some(quote);
    }
    let notional: B64 = inventory_base.mul(mid);
    let mut q: TwoSidedQuote = quote;
    if notional.ge(max_position_notional.sub(num(TINY_9))) {
        q.bid_qty = num(ZERO);
    }
    if notional.le(max_position_notional.neg().add(num(TINY_9))) {
        q.ask_qty = num(ZERO);
    }
    if q.bid_qty.le(num(ZERO)) && q.ask_qty.le(num(ZERO)) {
        return None;
    }
    Some(q)
}

/// The last fill that was seen on a symbol.
#[derive(Clone, Copy, Debug, PartialEq, Eq, Structural)]
pub struct FillMark {
    pub side: Side,
    pub mid: B64,
    pub ts: Timestamp,
}

/// Inventory-delta markout: pulls the filled side when the mid goes against it.
#[derive(Debug)]
pub struct MarkoutTracker {
    pub last_inv: Table<B64>,
    pub last_fill: Table<FillMark>,
    pub block_bid_until: Table<Timestamp>,
    pub block_ask_until: Table<Timestamp>,
}

/// What the tracker holds, by symbol.
#[verifier::ext_equal]
pub struct MarkoutView {
    pub last_inv: Map<Seq<char>, B64>,
    pub last_fill: Map<Seq<char>, FillMark>,
    pub block_bid_until: Map<Seq<char>, Timestamp>,
    pub block_ask_until: Map<Seq<char>, Timestamp>,
}

impl View for MarkoutTracker {
    type V = MarkoutView;

    open spec fn view(&self) -> MarkoutView {
        MarkoutView {
            last_inv: self.last_inv@,
            last_fill: self.last_fill@,
            block_bid_until: self.block_bid_until@,
            block_ask_until: self.block_ask_until@,
        }
    }
}

/// How far the mid moved against a fill, in basis points.
pub open spec fn adverse_move(fill: FillMark, mid: B64) -> B64 {
    let move_bps = mid.sub(fill.mid).div(fill.mid).mul(num(TEN_THOUSAND));
    match fill.side {
        Side::Buy => move_bps.neg(),
        Side::Sell => move_bps,
    }
}

/// Whether the mid can be held against a fill.
pub open spec fn weighable(fill: FillMark, mid: B64) -> bool {
    fill.mid.is_finite() && !fill.mid.le(num(ZERO)) && mid.is_finite()
}

/// Whether a fill is recent and the mid went against it by the threshold.
pub open spec fn markout_hit(fill: FillMark, mid: B64, now: Timestamp, gates: GatesView) -> bool {
    &&& weighable(fill, mid)
    &&& now.total() - fill.ts.total() <= gates.window() * 1_000_000_000
    &&& !adverse_move(fill, mid).add(num(TINY_12)).lt(gates.markout_adverse_bps)
}

impl MarkoutView {
    pub open spec fn empty() -> MarkoutView {
        MarkoutView {
            last_inv: Map::empty(),
            last_fill: Map::empty(),
            block_bid_until: Map::empty(),
            block_ask_until: Map::empty(),
        }
    }

    /// A change of the inventory is a fill at the current mid.
    pub open spec fn marked(self, symbol: Seq<char>, inventory: B64, mid: B64, now: Timestamp) -> MarkoutView {
        let delta = inventory.sub(self.last_inv[symbol]);
        let filled = self.last_inv.dom().contains(symbol) && delta.abs().gt(num(TINY_12)) && mid.is_finite()
            && mid.gt(num(ZERO));
        MarkoutView {
            last_inv: self.last_inv.insert(symbol, inventory),
            last_fill: if filled {
                self.last_fill.insert(
                    symbol,
                    FillMark { side: if delta.gt(num(ZERO)) { Side::Buy } else { Side::Sell }, mid, ts: now },
                )
            } else {
                self.last_fill
            },
            ..self
        }
    }

    /// The filled side is blocked for a while where the mid went against it.
    pub open spec fn blocked(self, symbol: Seq<char>, mid: B64, now: Timestamp, gates: GatesView) -> MarkoutView {
        let fill = self.last_fill[symbol];
        let until = now.plus_secs(gates.backoff());
        if !self.last_fill.dom().contains(symbol) || !markout_hit(fill, mid, now, gates) {
            self
        } else {
            match fill.side {
                Side::Buy => MarkoutView { block_bid_until: self.block_bid_until.insert(symbol, until), ..self },
                Side::Sell => MarkoutView { block_ask_until: self.block_ask_until.insert(symbol, until), ..self },
            }
        }
    }

    pub open spec fn seen(
        self,
        symbol: Seq<char>,
        inventory: B64,
        mid: B64,
        now: Timestamp,
        gates: GatesView,
    ) -> MarkoutView {
        self.marked(symbol, inventory, mid, now).blocked(symbol, mid, now, gates)
    }

    /// Where a fill is weighed the window is a duration that exists, and where
    /// the mid went against it so is the backoff, and a date at its end.
    pub open spec fn usable(
        self,
        symbol: Seq<char>,
        inventory: B64,
        mid: B64,
        now: Timestamp,
        gates: GatesView,
    ) -> bool {
        let fills = self.marked(symbol, inventory, mid, now).last_fill;
        fills.dom().contains(symbol) && weighable(fills[symbol], mid) ==> {
            &&& gates.markout_window_secs <= MAX_DURATION_SECS
            &&& markout_hit(fills[symbol], mid, now, gates) ==> gates.backoff_secs <= MAX_DURATION_SECS && now.secs
                + gates.backoff() <= MAX_SECS
        }
    }

    pub open spec fn bid_blocked(self, symbol: Seq<char>, now: Timestamp) -> bool {
        self.block_bid_until.dom().contains(symbol) && now.total() < self.block_bid_until[symbol].total()
    }

    pub open spec fn ask_blocked(self, symbol: Seq<char>, now: Timestamp) -> bool {
        self.block_ask_until.dom().contains(symbol) && now.total() < self.block_ask_until[symbol].total()
    }
}

impl Default for MarkoutTracker {
    fn default() -> (r: MarkoutTracker)
        ensures
            r.wf(),
            r@ == MarkoutView::empty(),
    {
        MarkoutTracker {
            last_inv: Table::new(),
            last_fill: Table::new(),
            block_bid_until: Table::new(),
            block_ask_until: Table::new(),
        }
    }
}

impl MarkoutTracker {
    pub open spec fn wf(&self) -> bool {
        &&& self.last_inv.wf()
        &&& self.last_fill.wf()
        &&& self.block_bid_until.wf()
        &&& self.block_ask_until.wf()
    }

    fn mark(&mut self, symbol: &str, inventory: B64, mid: B64, now: Timestamp)
        requires
            old(self).wf(),
        ensures
            final(self).wf(),
            final(self)@ == old(self)@.marked(symbol@, inventory, mid, now),
    {
        let prev: Option<B64> = match self.last_inv.get(symbol) {
            Some(v) => Some(*v),
            None => None,
        };
        if let Some(prev) = prev {
            let delta: B64 = inventory.sub(prev);
            if delta.abs().gt(num(TINY_12)) && mid.is_finite() && mid.gt(num(ZERO)) {
                self.last_fill.insert(
                    symbol,
                    FillMark { side: if delta.gt(num(ZERO)) { Side::Buy } else { Side::Sell }, mid, ts: now },
                );
            }
        }
        self.last_inv.insert(symbol, inventory);
    }

    /// Takes the inventory and the mid of a symbol in.
    pub fn on_book(&mut self, symbol: &str, inventory: B64, mid: B64, now: Timestamp, cfg: &MakerVolumeConfig)
        requires
            old(self).wf(),
            old(self)@.usable(symbol@, inventory, mid, now, cfg@),
        ensures
            final(self).wf(),
            final(self)@ == old(self)@.seen(symbol@, inventory, mid, now, cfg@),
    {
        self.mark(symbol, inventory, mid, now);
        let fill: FillMark = match self.last_fill.get(symbol) {
            Some(fill) => *fill,
            None => return,
        };
        if !fill.mid.is_finite() || fill.mid.le(num(ZERO)) || !mid.is_finite() {
            return;
        }
        let window: i64 = if cfg.markout_window_secs < 1 { 1 } else { cfg.markout_window_secs };
        if now.nanos_since(fill.ts) > window as i128 * 1_000_000_000 {
            return;
        }
        let move_bps: B64 = mid.sub(fill.mid).div(fill.mid).mul(num(TEN_THOUSAND));
        let adverse: B64 = match fill.side {
            Side::Buy => move_bps.neg(),
            Side::Sell => move_bps,
        };
        if adverse.add(num(TINY_12)).lt(cfg.markout_adverse_bps) {
            return;
        }
        let backoff: i64 = if cfg.backoff_secs < 1 { 1 } else { cfg.backoff_secs };
        let until: Timestamp = now.plus_secs(backoff);
        match fill.side {
            Side::Buy => self.block_bid_until.insert(symbol, until),
            Side::Sell => self.block_ask_until.insert(symbol, until),
        }
    }

    /// Whether bids on a symbol are pulled.
    pub fn bid_blocked(&self, symbol: &str, now: Timestamp) -> (r: bool)
        requires
            self.wf(),
        ensures
            r == self@.bid_blocked(symbol@, now),
    {
        match self.block_bid_until.get(symbol) {
            Some(until) => now.before(*until),
            None => false,
        }
    }

    /// Whether asks on a symbol are pulled.
    pub fn ask_blocked(&self, symbol: &str, now: Timestamp) -> (r: bool)
        requires
            self.wf(),
        ensures
            r == self@.ask_blocked(symbol@, now),
    {
        match self.block_ask_until.get(symbol) {
            Some(until) => now.before(*until),
            None => false,
        }
    }
}

/// The quote without its blocked sides.
pub open spec fn pulled(quote: TwoSidedQuote, symbol: Seq<char>, now: Timestamp, tracker: MarkoutView) -> Option<
    TwoSidedQuote,
> {
    without_sides(quote, tracker.bid_blocked(symbol, now), tracker.ask_blocked(symbol, now))
}

/// Drops the blocked sides of a quote.
pub fn apply_markout_pull(quote: TwoSidedQuote, symbol: &str, now: Timestamp, tracker: &MarkoutTracker) -> (r:
    Option<TwoSidedQuote>)
    requires
        tracker.wf(),
    ensures
        r == pulled(quote, symbol@, now, tracker@),
{
    let mut q: TwoSidedQuote = quote;
    if tracker.bid_blocked(symbol, now) {
        q.bid_qty = num(ZERO);
    }
    if tracker.ask_blocked(symbol, now) {
        q.ask_qty = num(ZERO);
    }
    if q.bid_qty.le(num(ZERO)) && q.ask_qty.le(num(ZERO)) {
        return None;
    }
    Some(q)
}

/// Both flags are needed to arm the gates, and an empty configuration arms
/// nothing.
pub proof fn law_both_flags_arm(keys: KeysView)
    ensures
        keys.gates().armed() == (keys.enabled == Some(true) && keys.allow_quotes == Some(true)),
{
}

/// The gates that come out of a configuration are usable: positive numbers and
/// at least one market.
pub proof fn law_gates_are_usable(keys: KeysView)
    ensures
        ({
            let gates = keys.gates();
            &&& gates.markets.len() > 0
            &&& gates.order_notional.gt(num(ZERO))
            &&& gates.max_position_notional.gt(num(ZERO))
            &&& gates.inventory_skew.ge(num(ZERO))
            &&& gates.markout_adverse_bps.gt(num(ZERO))
            &&& gates.min_half_spread_bps.gt(num(ZERO))
            &&& gates.markout_window_secs >= 1
            &&& gates.backoff_secs >= 1
        }),
{
    crate::binary64::order::lemma_value_order(num(ZERO), num(TWENTY));
    crate::binary64::order::lemma_value_order(num(ZERO), num(SIXTY));
    crate::binary64::order::lemma_value_order(num(ZERO), num(HALF));
    crate::binary64::order::lemma_value_order(num(ZERO), num(FOUR));
    crate::binary64::order::lemma_value_order(num(ZERO), num(TWO));
}

/// What the maker-only clamp lets stand never crosses or locks: every sized
/// side rests strictly on its own side of the mid and of the opposite best
/// price.
pub proof fn law_clamped_quotes_are_passive(quote: TwoSidedQuote, best_bid: B64, best_ask: B64)
    ensures
        match clamp_maker_only(quote, best_bid, best_ask) {
            Some(q) => {
                &&& mid_from_bbo(best_bid, best_ask) == Some(q.mid)
                &&& q.bid_qty.gt(num(ZERO)) ==> q.bid_price.lt(q.mid) && q.bid_price.lt(best_ask)
                &&& q.ask_qty.gt(num(ZERO)) ==> q.ask_price.gt(q.mid) && q.ask_price.gt(best_bid)
                &&& q.bid_qty.gt(num(ZERO)) && q.ask_qty.gt(num(ZERO)) ==> q.bid_price.lt(q.ask_price)
            },
            None => true,
        },
{
    crate::binary64::order::lemma_value_order(num(ZERO), num(ZERO));
}

/// A gate only takes size away: the sizes that are left are those of the quote
/// or zero.
pub proof fn law_gates_never_add_size(
    quote: TwoSidedQuote,
    best_bid: B64,
    best_ask: B64,
    inventory: B64,
    mid: B64,
    cap: B64,
    symbol: Seq<char>,
    now: Timestamp,
    tracker: MarkoutView,
)
    ensures
        match clamp_maker_only(quote, best_bid, best_ask) {
            Some(q) => only_shrunk(quote, q),
            None => true,
        },
        match apply_notional_inventory_cap(quote, inventory, mid, cap) {
            Some(q) => only_shrunk(quote, q),
            None => true,
        },
        match pulled(quote, symbol, now, tracker) {
            Some(q) => only_shrunk(quote, q),
            None => true,
        },
{
}

/// The prices are those of `before`, and each size is or it is zero.
pub open spec fn only_shrunk(before: TwoSidedQuote, after: TwoSidedQuote) -> bool {
    &&& after.bid_price == before.bid_price
    &&& after.ask_price == before.ask_price
    &&& after.bid_qty == before.bid_qty || after.bid_qty == num(ZERO)
    &&& after.ask_qty == before.ask_qty || after.ask_qty == num(ZERO)
}

/// A block ends: after the backoff the side may quote again. The other side
/// never notices.
pub proof fn law_block_expires(
    tracker: MarkoutView,
    symbol: Seq<char>,
    mid: B64,
    now: Timestamp,
    gates: GatesView,
    later: Timestamp,
)
    requires
        now.secs + gates.backoff() <= MAX_SECS,
        tracker.last_fill.dom().contains(symbol),
        markout_hit(tracker.last_fill[symbol], mid, now, gates),
    ensures
        ({
            let after = tracker.blocked(symbol, mid, now, gates);
            let held = later.total() < now.total() + gates.backoff() * 1_000_000_000;
            match tracker.last_fill[symbol].side {
                Side::Buy => after.bid_blocked(symbol, later) == held && after.ask_blocked(symbol, later)
                    == tracker.ask_blocked(symbol, later),
                Side::Sell => after.ask_blocked(symbol, later) == held && after.bid_blocked(symbol, later)
                    == tracker.bid_blocked(symbol, later),
            }
        }),
{
    let until = now.plus_secs(gates.backoff());
    assert(until.total() == now.total() + gates.backoff() * 1_000_000_000) by (nonlinear_arith)
        requires
            until.total() == (now.secs + gates.backoff()) * 1_000_000_000 + now.nanos,
            now.total() == now.secs * 1_000_000_000 + now.nanos,
    ;
}

/// At the notional cap nothing is quoted that would add: no bid when long-full,
/// no offer when short-full.
pub proof fn law_full_book_only_reduces(quote: TwoSidedQuote, inventory: B64, mid: B64, cap: B64)
    requires
        cap.is_finite(),
        cap.gt(num(ZERO)),
        mid.is_finite(),
        mid.gt(num(ZERO)),
    ensures
        match apply_notional_inventory_cap(quote, inventory, mid, cap) {
            Some(q) => {
                &&& inventory.mul(mid).ge(cap.sub(num(TINY_9))) ==> q.bid_qty == num(ZERO)
                &&& inventory.mul(mid).le(cap.neg().add(num(TINY_9))) ==> q.ask_qty == num(ZERO)
            },
            None => true,
        },
{
}

} // verus!
