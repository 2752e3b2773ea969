//! Whole numbers: floor, ceiling and conversions.

use vstd::arithmetic::power2::{
    lemma2_to64, lemma2_to64_rest, lemma_pow2_adds, lemma_pow2_pos, lemma_pow2_strictly_increases,
    pow2,
};
use vstd::prelude::*;

use super::arith::{abs_int, lemma_packed_ratio, lemma_rounded_zero, split};
use super::layout::{lemma_split, lemma_units_mono, lemma_units_zero};
use super::rounding::{lemma_rounded_exact, pack, power_of_two, rounded};
use super::{units, B64, INF_MAG, SIGN_BIT, UNIT_EXP};

verus! {

/// The value of the number 1 in units.
pub open spec fn one_units() -> int {
    pow2(UNIT_EXP as nat) as int
}

/// The magnitude of a natural number.
fn natural_mag(n: u64) -> (mag: u64)
    ensures
        mag == rounded(n * one_units(), 1),
        mag <= INF_MAG,
{
    proof {
        lemma_pow2_pos(UNIT_EXP as nat);
    }
    if n == 0 {
        proof {
            lemma_rounded_zero(1);
            assert(n * one_units() == 0) by (nonlinear_arith)
                requires
                    n == 0,
            ;
        }
        return 0;
    }
    let mag: u64 = pack(n as u128, 1074, false);
    proof {
        lemma_packed_ratio(mag as int, n as int, 1074, false, n * one_units(), 1);
    }
    mag
}

/// The whole part of a magnitude, and whether anything is left of it. Only the
/// low 64 bits matter: larger magnitudes give `None`.
fn whole_part(mag: u64) -> (r: Option<(u64, bool)>)
    requires
        mag < INF_MAG,
    ensures
        match r {
            Some(p) => {
                &&& p.0 == units(mag as int) / one_units()
                &&& p.1 == (units(mag as int) % one_units() != 0)
            },
            None => {
                &&& units(mag as int) >= 0x1_0000_0000_0000_0000 * one_units()
                &&& units(mag as int) % one_units() == 0
            },
        },
{
    let (m, e) = split(mag);
    let ghost one = one_units();
    let ghost u = units(mag as int);
    proof {
        lemma_pow2_pos(UNIT_EXP as nat);
        lemma2_to64();
        lemma2_to64_rest();
    }
    if e >= 1074 {
        let k: u32 = e - 1074;
        proof {
            lemma_pow2_adds(UNIT_EXP as nat, k as nat);
            assert(u == (m * pow2(k as nat)) * one) by (nonlinear_arith)
                requires
                    u == m * pow2(e as nat),
                    pow2(e as nat) == one * pow2(k as nat),
            ;
            vstd::arithmetic::div_mod::lemma_fundamental_div_mod_converse(u, one, m * pow2(k as nat), 0);
        }
        if k >= 12 {
            proof {
                lemma_pow2_pos(k as nat);
                if k > 12 {
                    lemma_pow2_strictly_increases(12, k as nat);
                }
                assert(m * pow2(k as nat) >= 0x1_0000_0000_0000_0000int) by (nonlinear_arith)
                    requires
                        m >= 0x10_0000_0000_0000int,
                        pow2(k as nat) >= 0x1000,
                ;
                assert((m * pow2(k as nat)) * one >= 0x1_0000_0000_0000_0000int * one) by (nonlinear_arith)
                    requires
                        m * pow2(k as nat) >= 0x1_0000_0000_0000_0000int,
                        one > 0,
                ;
            }
            return None;
        }
        proof {
            if k < 11 {
                lemma_pow2_strictly_increases(k as nat, 11);
            }
            assert(m * pow2(k as nat) < 0x1_0000_0000_0000_0000int) by (nonlinear_arith)
                requires
                    0 <= m < 0x20_0000_0000_0000int,
                    0 < pow2(k as nat) <= 0x800,
            ;
        }
        return Some((m * (power_of_two(k) as u64), false));
    }
    let k: u32 = 1074 - e;
    let ghost p = pow2(k as nat) as int;
    let ghost pe = pow2(e as nat) as int;
    proof {
        lemma_pow2_adds(e as nat, k as nat);
        lemma_pow2_pos(k as nat);
        lemma_pow2_pos(e as nat);
    }
    if k >= 64 {
        proof {
            if k > 64 {
                lemma_pow2_strictly_increases(64, k as nat);
            }
            assert(0 <= m * pe < p * pe) by (nonlinear_arith)
                requires
                    0 <= m < p,
                    pe > 0,
            ;
            assert(p * pe == pe * p) by (nonlinear_arith);
            assert(u == 0 * one + u);
            vstd::arithmetic::div_mod::lemma_fundamental_div_mod_converse(u, one, 0, u);
            assert(m == 0 <==> u == 0) by (nonlinear_arith)
                requires
                    u == m * pe,
                    pe > 0,
            ;
        }
        return Some((0, m != 0));
    }
    let d: u128 = power_of_two(k);
    let q: u64 = (m as u128 / d) as u64;
    let rem: u128 = m as u128 % d;
    proof {
        vstd::arithmetic::div_mod::lemma_fundamental_div_mod(m as int, p);
        let qq = m as int / p;
        let rr = m as int % p;
        assert(u == qq * one + rr * pe) by (nonlinear_arith)
            requires
                u == m * pe,
                m == p * qq + rr,
                one == pe * p,
        ;
        assert(0 <= rr * pe < one) by (nonlinear_arith)
            requires
                0 <= rr < p,
                pe > 0,
                one == pe * p,
        ;
        assert(rr == 0 <==> rr * pe == 0) by (nonlinear_arith)
            requires
                pe > 0,
        ;
        vstd::arithmetic::div_mod::lemma_fundamental_div_mod_converse(u, one, qq, rr * pe);
    }
    Some((q, rem != 0))
}

impl B64 {
    #[verifier::opaque]
    pub open spec fn spec_floor(self) -> B64 {
        if !self.finite() || self.zero() {
            self
        } else {
            let whole = self.value() / one_units();
            B64::signed(self.negative(), rounded(abs_int(whole * one_units()), 1))
        }
    }

    pub open spec fn spec_ceil(self) -> B64 {
        self.neg().spec_floor().neg()
    }

    #[verifier::opaque]
    pub open spec fn spec_from_u64(n: u64) -> B64 {
        B64::signed(false, rounded(n * one_units(), 1))
    }

    #[verifier::opaque]
    pub open spec fn spec_from_i64(n: i64) -> B64 {
        B64::signed(n < 0, rounded(abs_int(n as int) * one_units(), 1))
    }

    /// The whole part, cut off at the bounds of `u64`; 0 for a NaN.
    #[verifier::opaque]
    pub open spec fn spec_to_u64(self) -> u64 {
        if self.nan() || self.value() <= 0 {
            0
        } else {
            let whole = self.value() / one_units();
            if whole < u64::MAX {
                whole as u64
            } else {
                u64::MAX
            }
        }
    }

    /// The whole part towards zero, cut off at the bounds of `i64`; 0 for a NaN.
    #[verifier::opaque]
    pub open spec fn spec_to_i64(self) -> i64 {
        let whole = abs_int(self.value()) / one_units();
        if self.nan() {
            0
        } else if self.negative() {
            if whole <= 0x7FFF_FFFF_FFFF_FFFF {
                (-whole) as i64
            } else {
                i64::MIN
            }
        } else {
            if whole <= 0x7FFF_FFFF_FFFF_FFFF {
                whole as i64
            } else {
                i64::MAX
            }
        }
    }

    /// The largest whole number that is not above.
    #[verifier::when_used_as_spec(spec_floor)]
    pub fn floor(self) -> (r: B64)
        ensures
            r == self.spec_floor(),
    {
        reveal(B64::spec_floor);
        let mag: u64 = self.bits % SIGN_BIT;
        if mag >= INF_MAG || mag == 0 {
            return self;
        }
        let negative: bool = self.bits >= SIGN_BIT;
        proof {
            lemma_pow2_pos(UNIT_EXP as nat);
            lemma_units_zero();
            lemma_units_mono(0, mag as int);
        }
        let ghost one = one_units();
        let ghost u = units(mag as int);
        match whole_part(mag) {
            None => {
                proof {
                    lemma_whole(u, one);
                    lemma_rounded_exact(mag as int, 1);
                }
                self
            },
            Some(p) => {
                proof {
                    lemma_floor_parts(u, one);
                }
                if !negative {
                    B64 { bits: natural_mag(p.0) }
                } else if p.1 {
                    proof {
                        lemma_whole_bound(mag, one);
                    }
                    let n: u64 = p.0 + 1;
                    proof {
                        assert(n * one == -((-u) / one * one)) by (nonlinear_arith)
                            requires
                                (-u) / one == -(n as int),
                        ;
                    }
                    B64 { bits: natural_mag(n) + SIGN_BIT }
                } else {
                    proof {
                        assert(p.0 * one == -((-u) / one * one)) by (nonlinear_arith)
                            requires
                                (-u) / one == -(p.0 as int),
                        ;
                    }
                    B64 { bits: natural_mag(p.0) + SIGN_BIT }
                }
            },
        }
    }

    /// The smallest whole number that is not below.
    #[verifier::when_used_as_spec(spec_ceil)]
    pub fn ceil(self) -> (r: B64)
        ensures
            r == self.spec_ceil(),
    {
        self.neg().floor().neg()
    }

    /// The nearest number to an unsigned integer.
    #[verifier::when_used_as_spec(spec_from_u64)]
    pub fn from_u64(n: u64) -> (r: B64)
        ensures
            r == B64::spec_from_u64(n),
    {
        reveal(B64::spec_from_u64);
        B64 { bits: natural_mag(n) }
    }

    /// The nearest number to a signed integer.
    #[verifier::when_used_as_spec(spec_from_i64)]
    pub fn from_i64(n: i64) -> (r: B64)
        ensures
            r == B64::spec_from_i64(n),
    {
        reveal(B64::spec_from_i64);
        if n >= 0 {
            B64 { bits: natural_mag(n as u64) }
        } else {
            let mag: u64 = natural_mag((-(n as i128)) as u64);
            B64 { bits: mag + SIGN_BIT }
        }
    }

    /// The whole part as an unsigned integer, saturating.
    #[verifier::when_used_as_spec(spec_to_u64)]
    pub fn to_u64(self) -> (r: u64)
        ensures
            r == self.spec_to_u64(),
    {
        reveal(B64::spec_to_u64);
        let mag: u64 = self.bits % SIGN_BIT;
        proof {
            lemma_pow2_pos(UNIT_EXP as nat);
            lemma_units_zero();
            if mag > 0 {
                lemma_units_mono(0, mag as int);
            }
        }
        if mag > INF_MAG || self.bits >= SIGN_BIT || mag == 0 {
            return 0;
        }
        if mag == INF_MAG {
            proof {
                lemma_beyond(mag as int);
            }
            return u64::MAX;
        }
        match whole_part(mag) {
            None => {
                proof {
                    lemma_quotient_bound(units(mag as int), one_units(), 0x1_0000_0000_0000_0000);
                }
                u64::MAX
            },
            Some(p) => p.0,
        }
    }

    /// The whole part towards zero as a signed integer, saturating.
    #[verifier::when_used_as_spec(spec_to_i64)]
    pub fn to_i64(self) -> (r: i64)
        ensures
            r == self.spec_to_i64(),
    {
        reveal(B64::spec_to_i64);
        let mag: u64 = self.bits % SIGN_BIT;
        proof {
            lemma_pow2_pos(UNIT_EXP as nat);
            lemma_units_zero();
            if mag > 0 {
                lemma_units_mono(0, mag as int);
            }
        }
        if mag > INF_MAG {
            return 0;
        }
        let negative: bool = self.bits >= SIGN_BIT;
        let whole: Option<u64> = if mag == INF_MAG {
            proof {
                lemma_beyond(mag as int);
            }
            None
        } else {
            match whole_part(mag) {
                None => {
                    proof {
                        lemma_quotient_bound(units(mag as int), one_units(), 0x1_0000_0000_0000_0000);
                    }
                    None
                },
                Some(p) => Some(p.0),
            }
        };
        match whole {
            Some(n) => {
                if n <= 0x7FFF_FFFF_FFFF_FFFF {
                    if negative {
                        -(n as i64)
                    } else {
                        n as i64
                    }
                } else if negative {
                    i64::MIN
                } else {
                    i64::MAX
                }
            },
            None => if negative {
                i64::MIN
            } else {
                i64::MAX
            },
        }
    }
}

proof fn lemma_quotient_bound(u: int, one: int, n: int)
    requires
        one > 0,
        0 <= n,
        u >= n * one,
    ensures
        u / one >= n,
{
    vstd::arithmetic::div_mod::lemma_div_is_ordered(n * one, u, one);
    vstd::arithmetic::div_mod::lemma_div_by_multiple(n, one);
}

/// An infinity lies beyond the integers of 64 bits.
proof fn lemma_beyond(mag: int)
    requires
        mag == INF_MAG,
    ensures
        units(mag) / one_units() >= 0x1_0000_0000_0000_0000,
{
    lemma_split(mag);
    lemma2_to64();
    lemma2_to64_rest();
    lemma_pow2_pos(UNIT_EXP as nat);
    lemma_pow2_adds(UNIT_EXP as nat, 972);
    lemma_pow2_strictly_increases(12, 972);
    let one = one_units();
    assert(units(mag) >= 0x1_0000_0000_0000_0000int * one) by (nonlinear_arith)
        requires
            units(mag) == 0x10_0000_0000_0000int * (one * pow2(972)),
            pow2(972) >= 0x1000,
            one > 0,
    ;
    lemma_quotient_bound(units(mag), one, 0x1_0000_0000_0000_0000);
}

/// Whole numbers of units are their own floor, on both sides of zero.
proof fn lemma_whole(u: int, one: int)
    requires
        one > 0,
        u >= 0,
        u % one == 0,
    ensures
        u / one * one == u,
        (-u) / one * one == -u,
{
    vstd::arithmetic::div_mod::lemma_fundamental_div_mod(u, one);
    let q = u / one;
    assert(one * q == q * one && -u == (-q) * one + 0) by (nonlinear_arith)
        requires
            u == one * q,
    ;
    vstd::arithmetic::div_mod::lemma_fundamental_div_mod_converse(-u, one, -q, 0);
}

proof fn lemma_floor_parts(u: int, one: int)
    requires
        one > 0,
        u >= 0,
    ensures
        u % one == 0 ==> (-u) / one == -(u / one),
        u % one != 0 ==> (-u) / one == -(u / one + 1),
        u / one >= 0,
        u / one * one >= 0,
{
    vstd::arithmetic::div_mod::lemma_fundamental_div_mod(u, one);
    vstd::arithmetic::div_mod::lemma_div_pos_is_pos(u, one);
    let q = u / one;
    let r = u % one;
    if r == 0 {
        assert(-u == (-q) * one + 0) by (nonlinear_arith)
            requires
                u == one * q,
        ;
        vstd::arithmetic::div_mod::lemma_fundamental_div_mod_converse(-u, one, -q, 0);
    } else {
        assert(-u == (-(q + 1)) * one + (one - r)) by (nonlinear_arith)
            requires
                u == one * q + r,
        ;
        vstd::arithmetic::div_mod::lemma_fundamental_div_mod_converse(-u, one, -(q + 1), one - r);
    }
    assert(q * one >= 0) by (nonlinear_arith)
        requires
            q >= 0,
            one > 0,
    ;
}

/// A number with a fraction has a whole part below `2^53`.
proof fn lemma_whole_bound(mag: u64, one: int)
    requires
        mag < INF_MAG,
        one == one_units(),
        units(mag as int) % one != 0,
    ensures
        units(mag as int) / one < 0x20_0000_0000_0000,
{
    lemma_split(mag as int);
    lemma_pow2_pos(UNIT_EXP as nat);
    let m = super::layout::significand_of(mag as int);
    let e = super::layout::exponent_of(mag as int);
    let u = units(mag as int);
    if e >= UNIT_EXP {
        let k = (e - UNIT_EXP) as nat;
        lemma_pow2_adds(UNIT_EXP as nat, k);
        assert(u == (m * pow2(k)) * one) by (nonlinear_arith)
            requires
                u == m * pow2(e),
                pow2(e) == one * pow2(k),
        ;
        vstd::arithmetic::div_mod::lemma_fundamental_div_mod_converse(u, one, m * pow2(k), 0);
    } else {
        lemma_pow2_strictly_increases(e, UNIT_EXP as nat);
        lemma_pow2_pos(e);
        assert(u < 0x20_0000_0000_0000int * one) by (nonlinear_arith)
            requires
                u == m * pow2(e),
                0 <= m < 0x20_0000_0000_0000int,
                0 < pow2(e) < one,
        ;
        vstd::arithmetic::div_mod::lemma_fundamental_div_mod(u, one);
        let q = u / one;
        assert(q < 0x20_0000_0000_0000int) by (nonlinear_arith)
            requires
                u < 0x20_0000_0000_0000int * one,
                u == one * q + u % one,
                u % one >= 0,
                one > 0,
        ;
    }
}

} // verus!
