//! Whether a proposed order is worth its costs.

use vstd::prelude::*;

use crate::binary64::consts::ZERO;
use crate::binary64::error::{gap, lemma_exact_sign, limit, size, smallest};
use crate::binary64::facts::{lemma_add_grows, lemma_add_nan, lemma_add_swap, lemma_sub_mono, lemma_sub_nan};
use crate::binary64::measure::{
    lemma_exact_order, lemma_grown, lemma_less_term, lemma_next_term, lemma_range_of_sizes,
};
use crate::binary64::order::lemma_value_order;
use crate::binary64::{num, B64};
use crate::settings::{bool_settings, get_bool, get_float, looked_up, number_setting};
use crate::strategy::drift::grown;
use crate::strategy::exact::{lemma_product_order, product};
use crate::text::{append, copy_text, same_text};

verus! {

/// Friction floors where a key is omitted. An advertised fee of 0 is not a
/// measured fee of 0. Held by their bit patterns.
pub const DEFAULT_ENTRY_FEE_BPS: u64 = 0x3FF0_0000_0000_0000;

pub const DEFAULT_EXIT_FEE_BPS: u64 = 0x3FF0_0000_0000_0000;

pub const DEFAULT_ENTRY_SLIPPAGE_BPS: u64 = 0x3FF0_0000_0000_0000;

pub const DEFAULT_EXIT_SLIPPAGE_BPS: u64 = 0x3FF0_0000_0000_0000;

pub const DEFAULT_FUNDING_BPS: u64 = 0x3FE0_0000_0000_0000;

pub const DEFAULT_ADVERSE_SELECTION_BPS: u64 = 0x4000_0000_0000_0000;

pub const DEFAULT_MIN_NET_EDGE_BPS: u64 = 0x3FF0_0000_0000_0000;

/// What a strategy says of one proposed order.
#[derive(Debug, Clone, Copy)]
pub struct SignalEconomics {
    pub expected_edge_bps: Option<B64>,
    pub risk_reducing: bool,
}

/// Numbers are compared by value: the zeros are equal, a NaN equals nothing.
impl PartialEq for SignalEconomics {
    fn eq(&self, other: &SignalEconomics) -> (r: bool) {
        B64::same_option(self.expected_edge_bps, other.expected_edge_bps)
            && self.risk_reducing == other.risk_reducing
    }
}

impl vstd::std_specs::cmp::PartialEqSpecImpl for SignalEconomics {
    open spec fn obeys_eq_spec() -> bool {
        true
    }

    open spec fn eq_spec(&self, other: &SignalEconomics) -> bool {
        &&& B64::same_option(self.expected_edge_bps, other.expected_edge_bps)
        &&& self.risk_reducing == other.risk_reducing
    }
}

impl SignalEconomics {
    pub fn entry(expected_edge_bps: Option<B64>) -> (r: SignalEconomics)
        ensures
            r == (SignalEconomics { expected_edge_bps, risk_reducing: false }),
    {
        SignalEconomics { expected_edge_bps, risk_reducing: false }
    }

    pub fn exit() -> (r: SignalEconomics)
        ensures
            r == (SignalEconomics { expected_edge_bps: None, risk_reducing: true }),
    {
        SignalEconomics { expected_edge_bps: None, risk_reducing: true }
    }
}

/// The auditable result of [`ProfitabilityGuard::evaluate`].
#[derive(Debug, Clone, Copy)]
pub struct ProfitabilityDecision {
    pub allowed: bool,
    pub expected_edge_bps: Option<B64>,
    pub total_cost_bps: B64,
    pub net_edge_bps: Option<B64>,
    pub required_net_edge_bps: B64,
    pub reason: &'static str,
}

pub struct DecisionView {
    pub allowed: bool,
    pub expected_edge_bps: Option<B64>,
    pub total_cost_bps: B64,
    pub net_edge_bps: Option<B64>,
    pub required_net_edge_bps: B64,
    pub reason: Seq<char>,
}

impl View for ProfitabilityDecision {
    type V = DecisionView;

    open spec fn view(&self) -> DecisionView {
        DecisionView {
            allowed: self.allowed,
            expected_edge_bps: self.expected_edge_bps,
            total_cost_bps: self.total_cost_bps,
            net_edge_bps: self.net_edge_bps,
            required_net_edge_bps: self.required_net_edge_bps,
            reason: self.reason@,
        }
    }
}

/// Numbers are compared by value: the zeros are equal, a NaN equals nothing.
impl PartialEq for ProfitabilityDecision {
    fn eq(&self, other: &ProfitabilityDecision) -> (r: bool) {
        self.allowed == other.allowed
            && B64::same_option(self.expected_edge_bps, other.expected_edge_bps)
            && self.total_cost_bps.eq_num(other.total_cost_bps)
            && B64::same_option(self.net_edge_bps, other.net_edge_bps)
            && self.required_net_edge_bps.eq_num(other.required_net_edge_bps)
            && same_text(self.reason, other.reason)
    }
}

impl vstd::std_specs::cmp::PartialEqSpecImpl for ProfitabilityDecision {
    open spec fn obeys_eq_spec() -> bool {
        true
    }

    open spec fn eq_spec(&self, other: &ProfitabilityDecision) -> bool {
        &&& self.allowed == other.allowed
        &&& B64::same_option(self.expected_edge_bps, other.expected_edge_bps)
        &&& self.total_cost_bps.eq_num(other.total_cost_bps)
        &&& B64::same_option(self.net_edge_bps, other.net_edge_bps)
        &&& self.required_net_edge_bps.eq_num(other.required_net_edge_bps)
        &&& self.reason@ == other.reason@
    }
}

/// Conservative round-trip cost model.
#[derive(Debug, Clone, Copy, PartialEq, Eq, Structural)]
pub struct ProfitabilityGuard {
    pub enabled: bool,
    pub entry_fee_bps: B64,
    pub exit_fee_bps: B64,
    pub entry_slippage_bps: B64,
    pub exit_slippage_bps: B64,
    pub funding_bps: B64,
    pub adverse_selection_bps: B64,
    pub min_net_edge_bps: B64,
}

/// What the configuration says of the guard.
#[derive(Debug, Clone, Copy, PartialEq, Eq)]
pub struct ProfitabilityKeys {
    pub enabled: Option<bool>,
    pub entry_fee_bps: Option<B64>,
    pub exit_fee_bps: Option<B64>,
    pub entry_slippage_bps: Option<B64>,
    pub exit_slippage_bps: Option<B64>,
    pub funding_bps: Option<B64>,
    pub adverse_selection_bps: Option<B64>,
    pub min_net_edge_bps: Option<B64>,
}

/// A setting that a guard cannot be made with.
#[derive(Debug, Clone, Copy)]
pub enum GuardError {
    NotFinite(&'static str),
    NotFiniteOrNegative(&'static str),
    NegativeTotal,
}

pub enum GuardFault {
    NotFinite(Seq<char>),
    NotFiniteOrNegative(Seq<char>),
    NegativeTotal,
}

impl View for GuardError {
    type V = GuardFault;

    open spec fn view(&self) -> GuardFault {
        match *self {
            GuardError::NotFinite(name) => GuardFault::NotFinite(name@),
            GuardError::NotFiniteOrNegative(name) => GuardFault::NotFiniteOrNegative(name@),
            GuardError::NegativeTotal => GuardFault::NegativeTotal,
        }
    }
}

impl GuardFault {
    pub open spec fn message(self) -> Seq<char> {
        match self {
            GuardFault::NotFinite(name) => "profitability."@ + name + " must be finite"@,
            GuardFault::NotFiniteOrNegative(name) => "profitability."@ + name + " must be finite and >= 0"@,
            GuardFault::NegativeTotal => "profitability total cost must be >= 0 after rebates"@,
        }
    }
}

impl GuardError {
    /// The error as a sentence.
    pub fn message(&self) -> (r: String)
        ensures
            r@ == self@.message(),
    {
        match self {
            GuardError::NotFinite(name) => {
                let mut r = copy_text("profitability.");
                append(&mut r, *name);
                append(&mut r, " must be finite");
                r
            },
            GuardError::NotFiniteOrNegative(name) => {
                let mut r = copy_text("profitability.");
                append(&mut r, *name);
                append(&mut r, " must be finite and >= 0");
                r
            },
            GuardError::NegativeTotal => copy_text("profitability total cost must be >= 0 after rebates"),
        }
    }
}

/// A number, or the default where it is absent.
pub open spec fn or_floor(v: Option<B64>, floor: B64) -> B64 {
    match v {
        Some(x) => x,
        None => floor,
    }
}

fn floor_of(v: Option<B64>, floor: B64) -> (r: B64)
    ensures
        r == or_floor(v, floor),
{
    match v {
        Some(x) => x,
        None => floor,
    }
}

impl ProfitabilityKeys {
    /// The keys of a configuration.
    pub open spec fn of(settings: config::Config) -> ProfitabilityKeys {
        ProfitabilityKeys {
            enabled: looked_up(bool_settings(settings), "profitability.enabled"@),
            entry_fee_bps: number_setting(settings, "profitability.entry_fee_bps"@),
            exit_fee_bps: number_setting(settings, "profitability.exit_fee_bps"@),
            entry_slippage_bps: number_setting(settings, "profitability.entry_slippage_bps"@),
            exit_slippage_bps: number_setting(settings, "profitability.exit_slippage_bps"@),
            funding_bps: number_setting(settings, "profitability.funding_bps"@),
            adverse_selection_bps: number_setting(settings, "profitability.adverse_selection_bps"@),
            min_net_edge_bps: number_setting(settings, "profitability.min_net_edge_bps"@),
        }
    }

    /// The guard that the keys ask for, before it is checked.
    pub open spec fn guard(self) -> ProfitabilityGuard {
        ProfitabilityGuard {
            enabled: match self.enabled {
                Some(b) => b,
                None => true,
            },
            entry_fee_bps: or_floor(self.entry_fee_bps, num(DEFAULT_ENTRY_FEE_BPS)),
            exit_fee_bps: or_floor(self.exit_fee_bps, num(DEFAULT_EXIT_FEE_BPS)),
            entry_slippage_bps: or_floor(self.entry_slippage_bps, num(DEFAULT_ENTRY_SLIPPAGE_BPS)),
            exit_slippage_bps: or_floor(self.exit_slippage_bps, num(DEFAULT_EXIT_SLIPPAGE_BPS)),
            funding_bps: or_floor(self.funding_bps, num(DEFAULT_FUNDING_BPS)),
            adverse_selection_bps: or_floor(self.adverse_selection_bps, num(DEFAULT_ADVERSE_SELECTION_BPS)),
            min_net_edge_bps: or_floor(self.min_net_edge_bps, num(DEFAULT_MIN_NET_EDGE_BPS)),
        }
    }
}

pub open spec fn not_negative(x: B64) -> bool {
    x.is_finite() && !x.lt(num(ZERO))
}

impl ProfitabilityGuard {
    pub open spec fn spec_total_cost_bps(&self) -> B64 {
        self.entry_fee_bps.add(self.exit_fee_bps).add(self.entry_slippage_bps).add(self.exit_slippage_bps).add(
            self.funding_bps,
        ).add(self.adverse_selection_bps)
    }

    /// What is wrong with the settings: fees and funding must be finite, the
    /// others finite and not negative, and the total not negative.
    pub open spec fn fault(&self) -> Option<GuardFault> {
        if !self.entry_fee_bps.is_finite() {
            Some(GuardFault::NotFinite("entry_fee_bps"@))
        } else if !self.exit_fee_bps.is_finite() {
            Some(GuardFault::NotFinite("exit_fee_bps"@))
        } else if !self.funding_bps.is_finite() {
            Some(GuardFault::NotFinite("funding_bps"@))
        } else if !not_negative(self.entry_slippage_bps) {
            Some(GuardFault::NotFiniteOrNegative("entry_slippage_bps"@))
        } else if !not_negative(self.exit_slippage_bps) {
            Some(GuardFault::NotFiniteOrNegative("exit_slippage_bps"@))
        } else if !not_negative(self.adverse_selection_bps) {
            Some(GuardFault::NotFiniteOrNegative("adverse_selection_bps"@))
        } else if !not_negative(self.min_net_edge_bps) {
            Some(GuardFault::NotFiniteOrNegative("min_net_edge_bps"@))
        } else if self.total_cost_bps().lt(num(ZERO)) {
            Some(GuardFault::NegativeTotal)
        } else {
            None
        }
    }

    fn validate(&self) -> (r: Result<(), GuardError>)
        ensures
            match r {
                Ok(_) => self.fault() is None,
                Err(e) => self.fault() == Some(e@),
            },
    {
        if !self.entry_fee_bps.is_finite() {
            return Err(GuardError::NotFinite("entry_fee_bps"));
        }
        if !self.exit_fee_bps.is_finite() {
            return Err(GuardError::NotFinite("exit_fee_bps"));
        }
        if !self.funding_bps.is_finite() {
            return Err(GuardError::NotFinite("funding_bps"));
        }
        if !self.entry_slippage_bps.is_finite() || self.entry_slippage_bps.lt(num(ZERO)) {
            return Err(GuardError::NotFiniteOrNegative("entry_slippage_bps"));
        }
        if !self.exit_slippage_bps.is_finite() || self.exit_slippage_bps.lt(num(ZERO)) {
            return Err(GuardError::NotFiniteOrNegative("exit_slippage_bps"));
        }
        if !self.adverse_selection_bps.is_finite() || self.adverse_selection_bps.lt(num(ZERO)) {
            return Err(GuardError::NotFiniteOrNegative("adverse_selection_bps"));
        }
        if !self.min_net_edge_bps.is_finite() || self.min_net_edge_bps.lt(num(ZERO)) {
            return Err(GuardError::NotFiniteOrNegative("min_net_edge_bps"));
        }
        if self.total_cost_bps().lt(num(ZERO)) {
            return Err(GuardError::NegativeTotal);
        }
        Ok(())
    }

    /// The guard that a set of keys asks for.
    pub fn from_keys(keys: &ProfitabilityKeys) -> (r: Result<ProfitabilityGuard, GuardError>)
        ensures
            match r {
                Ok(guard) => guard == keys.guard() && guard.fault() is None,
                Err(e) => keys.guard().fault() == Some(e@),
            },
    {
        let guard = ProfitabilityGuard {
            enabled: match keys.enabled {
                Some(b) => b,
                None => true,
            },
            entry_fee_bps: floor_of(keys.entry_fee_bps, num(DEFAULT_ENTRY_FEE_BPS)),
            exit_fee_bps: floor_of(keys.exit_fee_bps, num(DEFAULT_EXIT_FEE_BPS)),
            entry_slippage_bps: floor_of(keys.entry_slippage_bps, num(DEFAULT_ENTRY_SLIPPAGE_BPS)),
            exit_slippage_bps: floor_of(keys.exit_slippage_bps, num(DEFAULT_EXIT_SLIPPAGE_BPS)),
            funding_bps: floor_of(keys.funding_bps, num(DEFAULT_FUNDING_BPS)),
            adverse_selection_bps: floor_of(keys.adverse_selection_bps, num(DEFAULT_ADVERSE_SELECTION_BPS)),
            min_net_edge_bps: floor_of(keys.min_net_edge_bps, num(DEFAULT_MIN_NET_EDGE_BPS)),
        };
        match guard.validate() {
            Ok(_) => Ok(guard),
            Err(e) => Err(e),
        }
    }

    /// The guard that a configuration asks for.
    pub fn from_config(settings: &config::Config) -> (r: Result<ProfitabilityGuard, GuardError>)
        ensures
            ({
                let keys = ProfitabilityKeys::of(*settings);
                match r {
                    Ok(guard) => guard == keys.guard() && guard.fault() is None,
                    Err(e) => keys.guard().fault() == Some(e@),
                }
            }),
    {
        let keys = ProfitabilityKeys {
            enabled: get_bool(settings, "profitability.enabled"),
            entry_fee_bps: get_float(settings, "profitability.entry_fee_bps"),
            exit_fee_bps: get_float(settings, "profitability.exit_fee_bps"),
            entry_slippage_bps: get_float(settings, "profitability.entry_slippage_bps"),
            exit_slippage_bps: get_float(settings, "profitability.exit_slippage_bps"),
            funding_bps: get_float(settings, "profitability.funding_bps"),
            adverse_selection_bps: get_float(settings, "profitability.adverse_selection_bps"),
            min_net_edge_bps: get_float(settings, "profitability.min_net_edge_bps"),
        };
        ProfitabilityGuard::from_keys(&keys)
    }

    /// What an edge leaves after the costs.
    pub open spec fn net(&self, edge: Option<B64>) -> Option<B64> {
        match edge {
            Some(x) => Some(x.sub(self.total_cost_bps())),
            None => None,
        }
    }

    pub open spec fn decided(
        &self,
        allowed: bool,
        edge: Option<B64>,
        net_edge: Option<B64>,
        reason: Seq<char>,
    ) -> DecisionView {
        DecisionView {
            allowed,
            expected_edge_bps: edge,
            total_cost_bps: self.total_cost_bps(),
            net_edge_bps: net_edge,
            required_net_edge_bps: self.min_net_edge_bps,
            reason,
        }
    }

    /// The decision on an order: exits always pass, a disabled guard lets all
    /// pass, and an entry needs a finite edge that leaves more than the
    /// required net edge.
    pub open spec fn decision(&self, economics: SignalEconomics) -> DecisionView {
        let edge = economics.expected_edge_bps;
        if economics.risk_reducing {
            self.decided(true, edge, self.net(edge), "risk_reducing_exit"@)
        } else if !self.enabled {
            self.decided(true, edge, self.net(edge), "guard_disabled"@)
        } else {
            match edge {
                None => self.decided(false, None, None, "missing_expected_edge"@),
                Some(x) => if !x.is_finite() || x.lt(num(ZERO)) {
                    self.decided(false, edge, None, "invalid_expected_edge"@)
                } else if x.sub(self.total_cost_bps()).gt(self.min_net_edge_bps) {
                    self.decided(true, edge, self.net(edge), "positive_net_edge"@)
                } else {
                    self.decided(false, edge, self.net(edge), "insufficient_net_edge"@)
                },
            }
        }
    }

    /// Decides on an order.
    pub fn evaluate(&self, economics: SignalEconomics) -> (r: ProfitabilityDecision)
        ensures
            r@ == self.decision(economics),
    {
        let total_cost_bps: B64 = self.total_cost_bps();
        let edge: Option<B64> = economics.expected_edge_bps;
        let net_edge_bps: Option<B64> = match edge {
            Some(x) => Some(x.sub(total_cost_bps)),
            None => None,
        };
        let required_net_edge_bps: B64 = self.min_net_edge_bps;
        if economics.risk_reducing {
            return ProfitabilityDecision {
                allowed: true,
                expected_edge_bps: edge,
                total_cost_bps,
                net_edge_bps,
                required_net_edge_bps,
                reason: "risk_reducing_exit",
            };
        }
        if !self.enabled {
            return ProfitabilityDecision {
                allowed: true,
                expected_edge_bps: edge,
                total_cost_bps,
                net_edge_bps,
                required_net_edge_bps,
                reason: "guard_disabled",
            };
        }
        let expected: B64 = match edge {
            Some(x) => x,
            None => {
                return ProfitabilityDecision {
                    allowed: false,
                    expected_edge_bps: None,
                    total_cost_bps,
                    net_edge_bps: None,
                    required_net_edge_bps,
                    reason: "missing_expected_edge",
                };
            },
        };
        if !expected.is_finite() || expected.lt(num(ZERO)) {
            return ProfitabilityDecision {
                allowed: false,
                expected_edge_bps: Some(expected),
                total_cost_bps,
                net_edge_bps: None,
                required_net_edge_bps,
                reason: "invalid_expected_edge",
            };
        }
        let net: B64 = expected.sub(total_cost_bps);
        let allowed: bool = net.gt(self.min_net_edge_bps);
        ProfitabilityDecision {
            allowed,
            expected_edge_bps: Some(expected),
            total_cost_bps,
            net_edge_bps: Some(net),
            required_net_edge_bps,
            reason: if allowed {
                "positive_net_edge"
            } else {
                "insufficient_net_edge"
            },
        }
    }

    /// The cost of a round trip.
    #[verifier::when_used_as_spec(spec_total_cost_bps)]
    pub fn total_cost_bps(&self) -> (r: B64)
        ensures
            r == self.spec_total_cost_bps(),
    {
        self.entry_fee_bps.add(self.exit_fee_bps).add(self.entry_slippage_bps).add(self.exit_slippage_bps).add(
            self.funding_bps,
        ).add(self.adverse_selection_bps)
    }

    pub fn entry_fee_bps(&self) -> (r: B64)
        ensures
            r == self.entry_fee_bps,
    {
        self.entry_fee_bps
    }

    pub fn exit_fee_bps(&self) -> (r: B64)
        ensures
            r == self.exit_fee_bps,
    {
        self.exit_fee_bps
    }

    pub fn entry_slippage_bps(&self) -> (r: B64)
        ensures
            r == self.entry_slippage_bps,
    {
        self.entry_slippage_bps
    }

    pub fn exit_slippage_bps(&self) -> (r: B64)
        ensures
            r == self.exit_slippage_bps,
    {
        self.exit_slippage_bps
    }

    pub fn adverse_selection_bps(&self) -> (r: B64)
        ensures
            r == self.adverse_selection_bps,
    {
        self.adverse_selection_bps
    }
}

/// Exits always pass, whatever they cost.
pub proof fn law_exits_always_pass(guard: ProfitabilityGuard, economics: SignalEconomics)
    requires
        economics.risk_reducing,
    ensures
        guard.decision(economics).allowed,
{
}

/// An entry that an enabled guard lets pass has a finite edge that is not
/// negative and leaves more than the required net edge.
pub proof fn law_entries_pay_their_costs(guard: ProfitabilityGuard, economics: SignalEconomics)
    requires
        guard.enabled,
        !economics.risk_reducing,
        guard.decision(economics).allowed,
    ensures
        economics.expected_edge_bps is Some,
        not_negative(economics.expected_edge_bps->0),
        economics.expected_edge_bps->0.sub(guard.total_cost_bps()).gt(guard.min_net_edge_bps),
{
}

/// An edge at least as large as one that passes passes too.
pub proof fn law_larger_edges_pass(guard: ProfitabilityGuard, smaller: B64, larger: B64)
    requires
        smaller.le(larger),
        larger.is_finite(),
        guard.decision(SignalEconomics { expected_edge_bps: Some(smaller), risk_reducing: false }).allowed,
    ensures
        guard.decision(SignalEconomics { expected_edge_bps: Some(larger), risk_reducing: false }).allowed,
{
    let cost = guard.total_cost_bps();
    if guard.enabled {
        lemma_sub_nan(smaller, cost);
        lemma_sub_nan(larger, cost);
        lemma_sub_mono(smaller, larger, cost, cost);
    }
}

/// A configuration without cost keys does not lead to a free round trip: every
/// default is positive, and so is their sum.
pub proof fn law_default_costs_are_positive(enabled: Option<bool>)
    ensures
        ({
            let guard = (ProfitabilityKeys {
                enabled,
                entry_fee_bps: None,
                exit_fee_bps: None,
                entry_slippage_bps: None,
                exit_slippage_bps: None,
                funding_bps: None,
                adverse_selection_bps: None,
                min_net_edge_bps: None,
            }).guard();
            &&& guard.entry_fee_bps.gt(num(ZERO))
            &&& guard.exit_fee_bps.gt(num(ZERO))
            &&& guard.entry_slippage_bps.gt(num(ZERO))
            &&& guard.exit_slippage_bps.gt(num(ZERO))
            &&& guard.funding_bps.gt(num(ZERO))
            &&& guard.adverse_selection_bps.gt(num(ZERO))
            &&& guard.total_cost_bps().gt(num(ZERO))
        }),
{
    crate::binary64::order::lemma_value_order(num(ZERO), num(DEFAULT_ENTRY_FEE_BPS));
    crate::binary64::order::lemma_value_order(num(ZERO), num(DEFAULT_FUNDING_BPS));
    crate::binary64::order::lemma_value_order(num(ZERO), num(DEFAULT_ADVERSE_SELECTION_BPS));
    let a = num(DEFAULT_ENTRY_FEE_BPS);
    lemma_add_keeps_positive(a, num(DEFAULT_EXIT_FEE_BPS));
    let b = a.add(num(DEFAULT_EXIT_FEE_BPS));
    lemma_add_keeps_positive(b, num(DEFAULT_ENTRY_SLIPPAGE_BPS));
    let c = b.add(num(DEFAULT_ENTRY_SLIPPAGE_BPS));
    lemma_add_keeps_positive(c, num(DEFAULT_EXIT_SLIPPAGE_BPS));
    let d = c.add(num(DEFAULT_EXIT_SLIPPAGE_BPS));
    lemma_add_keeps_positive(d, num(DEFAULT_FUNDING_BPS));
    let e = d.add(num(DEFAULT_FUNDING_BPS));
    lemma_add_keeps_positive(e, num(DEFAULT_ADVERSE_SELECTION_BPS));
}

/// A positive number stays positive when another one is added.
proof fn lemma_add_keeps_positive(a: B64, b: B64)
    requires
        a.gt(num(ZERO)),
        b.gt(num(ZERO)),
    ensures
        a.add(b).gt(num(ZERO)),
{
    crate::binary64::order::lemma_value_order(num(ZERO), a);
    crate::binary64::order::lemma_value_order(num(ZERO), b);
    if a.finite() {
        lemma_add_grows(a, b);
    } else {
        reveal(B64::spec_add);
    }
}

/// How large the six parts of a cost are together.
pub open spec fn cost_scale(guard: ProfitabilityGuard) -> real {
    size(guard.entry_fee_bps.exact()) + size(guard.exit_fee_bps.exact()) + size(guard.entry_slippage_bps.exact())
        + size(guard.exit_slippage_bps.exact()) + size(guard.funding_bps.exact()) + size(
        guard.adverse_selection_bps.exact(),
    )
}

/// Whether the six parts of a cost are finite, and far from overflow.
pub open spec fn countable_costs(guard: ProfitabilityGuard) -> bool {
    &&& guard.entry_fee_bps.finite()
    &&& guard.exit_fee_bps.finite()
    &&& guard.entry_slippage_bps.finite()
    &&& guard.exit_slippage_bps.finite()
    &&& guard.funding_bps.finite()
    &&& guard.adverse_selection_bps.finite()
    &&& 2real * cost_scale(guard) <= limit()
}

/// The cost of a round trip is the exact sum of both fees, both slippages, the
/// funding and the adverse selection, up to the rounding of five additions.
pub proof fn law_cost_is_the_sum_of_its_parts(guard: ProfitabilityGuard)
    requires
        countable_costs(guard),
    ensures
        guard.total_cost_bps().finite(),
        size(
            guard.total_cost_bps().exact() - (guard.entry_fee_bps.exact() + guard.exit_fee_bps.exact()
                + guard.entry_slippage_bps.exact() + guard.exit_slippage_bps.exact() + guard.funding_bps.exact()
                + guard.adverse_selection_bps.exact()),
        ) <= 8real * product(gap(), cost_scale(guard)) + 8real * smallest(),
{
    let w = cost_scale(guard);
    let (a, b, c) = (guard.entry_fee_bps, guard.exit_fee_bps, guard.entry_slippage_bps);
    let (d, e, f) = (guard.exit_slippage_bps, guard.funding_bps, guard.adverse_selection_bps);
    lemma_range_of_sizes();
    let e1 = grown(0real, w);
    let e2 = grown(e1, w);
    let e3 = grown(e2, w);
    let e4 = grown(e3, w);
    let e5 = grown(e4, w);
    lemma_grown(0real, w);
    lemma_grown(e1, w);
    lemma_grown(e2, w);
    lemma_grown(e3, w);
    lemma_grown(e4, w);
    let sum = a.exact();
    lemma_next_term(a, sum, 0real, b, w);
    let (t, sum) = (a.add(b), sum + b.exact());
    lemma_next_term(t, sum, e1, c, w);
    let (t, sum) = (t.add(c), sum + c.exact());
    lemma_next_term(t, sum, e2, d, w);
    let (t, sum) = (t.add(d), sum + d.exact());
    lemma_next_term(t, sum, e3, e, w);
    let (t, sum) = (t.add(e), sum + e.exact());
    lemma_next_term(t, sum, e4, f, w);
}

/// Of two guards whose parts stay below a billion, the one whose parts come to
/// a full basis point more costs more: no part is left out of the cost.
pub proof fn law_every_part_adds_to_the_cost(cheap: ProfitabilityGuard, dear: ProfitabilityGuard)
    requires
        countable_costs(cheap),
        countable_costs(dear),
        cost_scale(cheap) <= 1000000000real,
        cost_scale(dear) <= 1000000000real,
        dear.entry_fee_bps.exact() + dear.exit_fee_bps.exact() + dear.entry_slippage_bps.exact()
            + dear.exit_slippage_bps.exact() + dear.funding_bps.exact() + dear.adverse_selection_bps.exact() >= 1real
            + cheap.entry_fee_bps.exact() + cheap.exit_fee_bps.exact() + cheap.entry_slippage_bps.exact()
            + cheap.exit_slippage_bps.exact() + cheap.funding_bps.exact() + cheap.adverse_selection_bps.exact(),
    ensures
        cheap.total_cost_bps().lt(dear.total_cost_bps()),
{
    law_cost_is_the_sum_of_its_parts(cheap);
    law_cost_is_the_sum_of_its_parts(dear);
    lemma_range_of_sizes();
    let w = 1000000000real;
    lemma_product_order(cost_scale(cheap), w, gap());
    lemma_product_order(cost_scale(dear), w, gap());
    assert(product(gap(), w) <= 1real / 1024real) by {
        reveal(product);
    }
    lemma_exact_order(cheap.total_cost_bps(), dear.total_cost_bps());
}

/// A cost whose parts are finite and not negative is at least each of them.
pub proof fn law_cost_covers_each_part(guard: ProfitabilityGuard)
    requires
        not_negative(guard.entry_fee_bps),
        not_negative(guard.exit_fee_bps),
        not_negative(guard.entry_slippage_bps),
        not_negative(guard.exit_slippage_bps),
        not_negative(guard.funding_bps),
        not_negative(guard.adverse_selection_bps),
    ensures
        guard.total_cost_bps().ge(guard.entry_fee_bps),
        guard.total_cost_bps().ge(guard.exit_fee_bps),
        guard.total_cost_bps().ge(guard.entry_slippage_bps),
        guard.total_cost_bps().ge(guard.exit_slippage_bps),
        guard.total_cost_bps().ge(guard.funding_bps),
        guard.total_cost_bps().ge(guard.adverse_selection_bps),
{
    let (a, b, c) = (guard.entry_fee_bps, guard.exit_fee_bps, guard.entry_slippage_bps);
    let (d, e, f) = (guard.exit_slippage_bps, guard.funding_bps, guard.adverse_selection_bps);
    lemma_covers(a, b);
    lemma_covers(a.add(b), c);
    lemma_covers(a.add(b).add(c), d);
    lemma_covers(a.add(b).add(c).add(d), e);
    lemma_covers(a.add(b).add(c).add(d).add(e), f);
}

/// A sum of two numbers that are not negative is at least each of them.
proof fn lemma_covers(a: B64, b: B64)
    requires
        a.ge(num(ZERO)),
        b.ge(num(ZERO)),
    ensures
        a.add(b).ge(a),
        a.add(b).ge(b),
        a.add(b).ge(num(ZERO)),
{
    lemma_value_order(a, num(ZERO));
    lemma_value_order(b, num(ZERO));
    lemma_add_swap(a, b);
    lemma_add_nan(a, b);
    if a.finite() {
        lemma_add_grows(a, b);
    } else {
        reveal(B64::spec_add);
    }
    if b.finite() {
        lemma_add_grows(b, a);
    } else {
        reveal(B64::spec_add);
    }
}

/// A decision reports the whole cost, what the edge leaves of it up to rounding,
/// and the net edge that is required.
pub proof fn law_decisions_report_the_margin(guard: ProfitabilityGuard, edge: B64, risk_reducing: bool)
    requires
        countable_costs(guard),
        edge.finite(),
        edge.ge(num(ZERO)),
        4real * (cost_scale(guard) + edge.exact()) <= limit(),
    ensures
        ({
            let r = guard.decision(SignalEconomics { expected_edge_bps: Some(edge), risk_reducing });
            let costs = guard.entry_fee_bps.exact() + guard.exit_fee_bps.exact() + guard.entry_slippage_bps.exact()
                + guard.exit_slippage_bps.exact() + guard.funding_bps.exact()
                + guard.adverse_selection_bps.exact();
            &&& r.total_cost_bps == guard.total_cost_bps()
            &&& r.expected_edge_bps == Some(edge)
            &&& r.required_net_edge_bps == guard.min_net_edge_bps
            &&& r.net_edge_bps is Some
            &&& r.net_edge_bps->0.finite()
            &&& size(r.net_edge_bps->0.exact() - (edge.exact() - costs)) <= 16real * product(
                gap(),
                cost_scale(guard) + edge.exact(),
            ) + 16real * smallest()
        }),
{
    law_cost_is_the_sum_of_its_parts(guard);
    lemma_range_of_sizes();
    lemma_exact_order(edge, num(ZERO));
    lemma_exact_sign(edge);
    let w = cost_scale(guard);
    let z = w + edge.exact();
    let cost = guard.total_cost_bps();
    let error = 8real * product(gap(), w) + 8real * smallest();
    lemma_product_order(w, z, gap());
    lemma_grown(0real, w);
    lemma_grown(error, z);
    lemma_grown(0real, z + error);
    lemma_product_order(0real, error, gap());
    crate::strategy::exact::lemma_product_sum(gap(), z, error);
    crate::strategy::exact::lemma_gap_small(error);
    lemma_less_term(edge, edge.exact(), 0real, cost, z + error);
}

/// An enabled guard lets an entry pass exactly where its edge leaves more than
/// the required net edge: by a clear margin either way, the exact costs decide.
pub proof fn law_clear_margins_decide(guard: ProfitabilityGuard, edge: B64)
    requires
        guard.enabled,
        countable_costs(guard),
        edge.finite(),
        edge.ge(num(ZERO)),
        guard.min_net_edge_bps.finite(),
        4real * (cost_scale(guard) + edge.exact()) <= limit(),
    ensures
        ({
            let allowed = guard.decision(
                SignalEconomics { expected_edge_bps: Some(edge), risk_reducing: false },
            ).allowed;
            let margin = edge.exact() - (guard.entry_fee_bps.exact() + guard.exit_fee_bps.exact()
                + guard.entry_slippage_bps.exact() + guard.exit_slippage_bps.exact() + guard.funding_bps.exact()
                + guard.adverse_selection_bps.exact()) - guard.min_net_edge_bps.exact();
            let slack = 16real * product(gap(), cost_scale(guard) + edge.exact()) + 16real * smallest();
            &&& margin > slack ==> allowed
            &&& margin < -slack ==> !allowed
        }),
{
    law_decisions_report_the_margin(guard, edge, false);
    lemma_exact_order(edge.sub(guard.total_cost_bps()), guard.min_net_edge_bps);
}

/// An enabled guard stops an entry that names no edge, or one that is not a
/// finite number of 0 or more, and says which it was.
pub proof fn law_unknown_edges_stop(guard: ProfitabilityGuard, edge: B64)
    requires
        guard.enabled,
        !edge.finite() || edge.lt(num(ZERO)),
    ensures
        ({
            let missing = guard.decision(SignalEconomics { expected_edge_bps: None, risk_reducing: false });
            let invalid = guard.decision(SignalEconomics { expected_edge_bps: Some(edge), risk_reducing: false });
            &&& !missing.allowed
            &&& missing.net_edge_bps is None
            &&& missing.reason == "missing_expected_edge"@
            &&& !invalid.allowed
            &&& invalid.net_edge_bps is None
            &&& invalid.reason == "invalid_expected_edge"@
        }),
{
}

/// A guard that is switched off stops nothing.
pub proof fn law_disabled_guards_stop_nothing(guard: ProfitabilityGuard, economics: SignalEconomics)
    requires
        !guard.enabled,
    ensures
        guard.decision(economics).allowed,
{
}

/// A guard is made only of finite parts, of slippages, adverse selection and a
/// required edge that are not negative, and of parts that do not pay out in
/// sum; and every such set of parts makes one.
pub proof fn law_guards_are_made_of_real_costs(guard: ProfitabilityGuard)
    ensures
        guard.fault() is None ==> {
            &&& guard.entry_fee_bps.finite()
            &&& guard.exit_fee_bps.finite()
            &&& guard.funding_bps.finite()
            &&& guard.entry_slippage_bps.finite() && guard.entry_slippage_bps.ge(num(ZERO))
            &&& guard.exit_slippage_bps.finite() && guard.exit_slippage_bps.ge(num(ZERO))
            &&& guard.adverse_selection_bps.finite() && guard.adverse_selection_bps.ge(num(ZERO))
            &&& guard.min_net_edge_bps.finite() && guard.min_net_edge_bps.ge(num(ZERO))
        },
        guard.fault() is None && countable_costs(guard) ==> guard.total_cost_bps().exact() >= 0real,
        countable_costs(guard) && guard.entry_fee_bps.ge(num(ZERO)) && guard.exit_fee_bps.ge(num(ZERO))
            && guard.funding_bps.ge(num(ZERO)) && guard.entry_slippage_bps.ge(num(ZERO))
            && guard.exit_slippage_bps.ge(num(ZERO)) && guard.adverse_selection_bps.ge(num(ZERO))
            && guard.min_net_edge_bps.finite() && guard.min_net_edge_bps.ge(num(ZERO)) ==> guard.fault() is None,
{
    if countable_costs(guard) {
        law_cost_is_the_sum_of_its_parts(guard);
        lemma_exact_order(guard.total_cost_bps(), num(ZERO));
        lemma_exact_sign(num(ZERO));
        if not_negative(guard.entry_fee_bps) && not_negative(guard.exit_fee_bps) && not_negative(guard.funding_bps)
            && not_negative(guard.entry_slippage_bps) && not_negative(guard.exit_slippage_bps) && not_negative(
            guard.adverse_selection_bps,
        ) {
            law_cost_covers_each_part(guard);
        }
    }
}

/// Each key sets the part of the cost that it names, and a missing key leaves
/// that part at its floor: 1 for a fee, a slippage and the required net edge,
/// 0.5 for funding, 2 for adverse selection.
pub proof fn law_keys_set_the_parts_they_name(settings: config::Config)
    ensures
        ({
            let guard = ProfitabilityKeys::of(settings).guard();
            let one = num(0x3FF0_0000_0000_0000);
            &&& guard.enabled <==> looked_up(bool_settings(settings), "profitability.enabled"@) != Some(false)
            &&& guard.entry_fee_bps == given_or(settings, "profitability.entry_fee_bps"@, one)
            &&& guard.exit_fee_bps == given_or(settings, "profitability.exit_fee_bps"@, one)
            &&& guard.entry_slippage_bps == given_or(settings, "profitability.entry_slippage_bps"@, one)
            &&& guard.exit_slippage_bps == given_or(settings, "profitability.exit_slippage_bps"@, one)
            &&& guard.funding_bps == given_or(settings, "profitability.funding_bps"@, num(0x3FE0_0000_0000_0000))
            &&& guard.adverse_selection_bps == given_or(
                settings,
                "profitability.adverse_selection_bps"@,
                num(0x4000_0000_0000_0000),
            )
            &&& guard.min_net_edge_bps == given_or(settings, "profitability.min_net_edge_bps"@, one)
        }),
{
}

/// The number under a key, or another where there is none.
pub open spec fn given_or(settings: config::Config, key: Seq<char>, otherwise: B64) -> B64 {
    match number_setting(settings, key) {
        Some(x) => x,
        None => otherwise,
    }
}

} // verus!
