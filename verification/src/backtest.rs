//! Costs that a backtest assumes.

use vstd::prelude::*;

use crate::binary64::consts::ZERO;
use crate::binary64::error::size;
use crate::binary64::measure::lemma_exact_of;
use crate::binary64::{num, B64};
use crate::settings::{get_float, number_setting};

verus! {

/// 2 basis points per side. The floor where the configuration omits
/// `commission_percent` or sets it to 0 without a measured fee of exactly 0.
/// This is execution friction, not an advertised fee. Held by its bit pattern.
pub const DEFAULT_COMMISSION_RATE: u64 = 0x3F2A_36E2_EB1C_432D;

/// A positive finite rate, or else the default.
pub open spec fn commission_or_floor(value: Option<B64>) -> B64 {
    match value {
        Some(x) => if x.is_finite() && x.gt(num(ZERO)) {
            x
        } else {
            num(DEFAULT_COMMISSION_RATE)
        },
        None => num(DEFAULT_COMMISSION_RATE),
    }
}

/// A positive finite rate, or else the default.
pub fn commission_rate(value: Option<B64>) -> (r: B64)
    ensures
        r == commission_or_floor(value),
{
    match value {
        Some(x) => if x.is_finite() && x.gt(num(ZERO)) {
            x
        } else {
            num(DEFAULT_COMMISSION_RATE)
        },
        None => num(DEFAULT_COMMISSION_RATE),
    }
}

/// Reads `backtest.commission_percent`, refusing a silent zero default.
pub fn commission_rate_from_config(settings: &config::Config) -> (r: B64)
    ensures
        r == commission_or_floor(number_setting(*settings, "backtest.commission_percent"@)),
{
    commission_rate(get_float(settings, "backtest.commission_percent"))
}

/// The commission is never zero.
pub proof fn law_commission_is_positive(value: Option<B64>)
    ensures
        commission_or_floor(value).gt(num(ZERO)),
        commission_or_floor(value).is_finite(),
{
    crate::binary64::order::lemma_value_order(num(ZERO), num(DEFAULT_COMMISSION_RATE));
}

/// A positive finite rate is taken as it is given; anything else costs two
/// basis points, up to rounding.
pub proof fn law_given_rates_are_kept(value: B64)
    ensures
        value.finite() && value.gt(num(ZERO)) ==> commission_or_floor(Some(value)) == value,
        !value.finite() || value.le(num(ZERO)) ==> commission_or_floor(Some(value)) == commission_or_floor(None),
        size(10000real * commission_or_floor(None).exact() - 2real) <= 1real / 1000000000000real,
{
    vstd::arithmetic::power2::lemma2_to64();
    vstd::arithmetic::power2::lemma2_to64_rest();
    vstd::arithmetic::power2::lemma_pow2_adds(64, 1);
    lemma_exact_of(
        DEFAULT_COMMISSION_RATE,
        1009,
        7378697629483821,
        65,
        36893488147419103232real,
        7378697629483821real,
    );
}

} // verus!
