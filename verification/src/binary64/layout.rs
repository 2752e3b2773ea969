//! How magnitudes, significands and exponents relate.

use vstd::arithmetic::div_mod::{lemma_fundamental_div_mod_converse, lemma_fundamental_div_mod};
use vstd::arithmetic::power2::{lemma2_to64, lemma_pow2_pos, lemma_pow2_unfold, pow2};
use vstd::prelude::*;

use super::{units, HIDDEN, INF_MAG};

verus! {

/// `q` is a significand whose last place has weight `2^t`.
pub open spec fn significand(t: nat, q: int) -> bool {
    0 <= q <= 2 * HIDDEN && (t == 0 || HIDDEN <= q)
}

/// A magnitude is its exponent times `2^52` plus its significand, and its
/// value is the significand scaled by the exponent.
pub proof fn lemma_units_of(t: nat, q: int)
    requires
        significand(t, q),
    ensures
        units(t * HIDDEN + q) == q * pow2(t),
{
    reveal(units);
    lemma2_to64();
    let mag = t * HIDDEN + q;
    let h = HIDDEN as int;
    if q == 2 * HIDDEN {
        assert(mag == (t + 2) * h + 0) by (nonlinear_arith)
            requires
                mag == t * h + 2 * h,
        ;
        lemma_fundamental_div_mod_converse(mag, h, (t + 2) as int, 0);
        lemma_pow2_unfold(t + 1);
        assert(h * pow2(t + 1) == q * pow2(t)) by (nonlinear_arith)
            requires
                pow2(t + 1) == 2 * pow2(t),
                q == 2 * h,
        ;
    } else if q >= HIDDEN {
        assert(mag == (t + 1) * h + (q - h)) by (nonlinear_arith)
            requires
                mag == t * h + q,
        ;
        lemma_fundamental_div_mod_converse(mag, h, (t + 1) as int, q - h);
    } else {
        assert(t * HIDDEN == 0) by (nonlinear_arith)
            requires
                t == 0,
        ;
        lemma_fundamental_div_mod_converse(mag, h, 0, q);
        assert(q * pow2(t) == q) by (nonlinear_arith)
            requires
                pow2(t) == 1,
        ;
    }
}

/// The exponent of a magnitude.
pub open spec fn exponent_of(mag: int) -> nat {
    if mag / (HIDDEN as int) == 0 {
        0
    } else {
        (mag / (HIDDEN as int) - 1) as nat
    }
}

/// The significand of a magnitude.
pub open spec fn significand_of(mag: int) -> int {
    if mag / (HIDDEN as int) == 0 {
        mag
    } else {
        mag % (HIDDEN as int) + HIDDEN
    }
}

/// Every magnitude splits into an exponent and a significand.
pub proof fn lemma_split(mag: int)
    requires
        0 <= mag,
    ensures
        mag == exponent_of(mag) * HIDDEN + significand_of(mag),
        significand(exponent_of(mag), significand_of(mag)),
        significand_of(mag) < 2 * HIDDEN,
        units(mag) == significand_of(mag) * pow2(exponent_of(mag)),
        mag <= INF_MAG ==> exponent_of(mag) <= 2046,
        mag < INF_MAG ==> exponent_of(mag) <= 2045,
{
    let h = HIDDEN as int;
    let field = mag / h;
    lemma_fundamental_div_mod(mag, h);
    assert(exponent_of(mag) * h + significand_of(mag) == mag) by (nonlinear_arith)
        requires
            mag == h * field + mag % h,
            field == mag / h,
            field == 0 ==> exponent_of(mag) == 0 && significand_of(mag) == mag,
            field != 0 ==> exponent_of(mag) == field - 1 && significand_of(mag) == mag % h + h,
    ;
    lemma_units_of(exponent_of(mag), significand_of(mag));
}

/// The gap above a magnitude.
pub proof fn lemma_units_step(mag: int)
    requires
        0 <= mag,
    ensures
        units(mag + 1) == units(mag) + pow2(exponent_of(mag)),
        pow2(exponent_of(mag)) > 0,
{
    lemma_split(mag);
    let t = exponent_of(mag);
    let q = significand_of(mag);
    lemma_units_of(t, q + 1);
    lemma_pow2_pos(t);
    assert((q + 1) * pow2(t) == q * pow2(t) + pow2(t)) by (nonlinear_arith);
}

/// Larger magnitudes have larger values.
pub proof fn lemma_units_mono(a: int, b: int)
    requires
        0 <= a < b,
    ensures
        units(a) < units(b),
    decreases b - a,
{
    lemma_units_step(a);
    if a + 1 < b {
        lemma_units_mono(a + 1, b);
    }
}

pub proof fn lemma_units_zero()
    ensures
        units(0) == 0,
        units(1) == 1,
{
    reveal(units);
}

} // verus!
