//! IEEE 754 binary64 numbers as integers.
//!
//! A number is held by its bit pattern. Every finite number is a whole
//! multiple of the smallest subnormal, so the exact value of a finite number
//! is an integer count of such units, and the exact result of an operation is
//! a ratio of integers that is rounded to the nearest number, ties to even.

use vstd::arithmetic::power2::pow2;
use vstd::prelude::*;

pub mod arith;
pub mod big;
pub mod consts;
pub mod decimal;
pub mod error;
pub mod facts;
pub mod fixed;
pub mod integral;
pub mod layout;
pub mod measure;
pub mod order;
pub mod rough;
pub mod rounding;
pub mod texts;

verus! {

/// Bit 63: set on a negative number.
pub const SIGN_BIT: u64 = 0x8000_0000_0000_0000;

/// The magnitude of an infinity; larger magnitudes are NaNs.
pub const INF_MAG: u64 = 0x7FF0_0000_0000_0000;

/// The leading bit of a normal significand.
pub const HIDDEN: u64 = 0x10_0000_0000_0000;

/// The bit pattern of the NaN that operations return.
pub const NAN_BITS: u64 = 0x7FF8_0000_0000_0000;

/// The number 1 is `2^UNIT_EXP` units.
pub const UNIT_EXP: u32 = 1074;

/// A binary64 number.
///
/// The derived equality compares bit patterns; [`B64::eq_num`] is the numeric one.
#[derive(Clone, Copy, Debug, PartialEq, Eq, Structural)]
pub struct B64 {
    pub bits: u64,
}

/// The value of the number of magnitude `mag`, counted in units of `2^-1074`.
///
/// At `INF_MAG` this is the power of two that follows the largest finite number.
#[verifier::opaque]
pub open spec fn units(mag: int) -> int {
    let field = mag / (HIDDEN as int);
    let fraction = mag % (HIDDEN as int);
    if field == 0 {
        fraction
    } else {
        (HIDDEN + fraction) * pow2((field - 1) as nat)
    }
}

impl B64 {
    pub open spec fn mag(self) -> int {
        (self.bits % SIGN_BIT) as int
    }

    pub open spec fn negative(self) -> bool {
        self.bits >= SIGN_BIT
    }

    pub open spec fn nan(self) -> bool {
        self.mag() > INF_MAG
    }

    pub open spec fn infinite(self) -> bool {
        self.mag() == INF_MAG
    }

    pub open spec fn finite(self) -> bool {
        self.mag() < INF_MAG
    }

    pub open spec fn zero(self) -> bool {
        self.mag() == 0
    }

    /// The exact value in units, with an infinity beyond every finite number.
    pub open spec fn value(self) -> int {
        if self.negative() {
            -units(self.mag())
        } else {
            units(self.mag())
        }
    }

    /// The number with the given sign and magnitude.
    pub open spec fn signed(negative: bool, mag: int) -> B64 {
        if negative {
            B64 { bits: (mag + SIGN_BIT) as u64 }
        } else {
            B64 { bits: mag as u64 }
        }
    }

    pub open spec fn spec_from_bits(bits: u64) -> B64 {
        B64 { bits }
    }

    /// The number with the given bit pattern.
    #[verifier::when_used_as_spec(spec_from_bits)]
    pub fn from_bits(bits: u64) -> (r: B64)
        ensures
            r == B64::spec_from_bits(bits),
    {
        B64 { bits }
    }

    /// The bit pattern.
    pub fn to_bits(self) -> (bits: u64)
        ensures
            bits == self.bits,
    {
        self.bits
    }
}

pub open spec fn spec_num(bits: u64) -> B64 {
    B64 { bits }
}

/// The number with the given bit pattern; see [`consts`].
#[verifier::when_used_as_spec(spec_num)]
pub fn num(bits: u64) -> (r: B64)
    ensures
        r == spec_num(bits),
{
    B64 { bits }
}

} // verus!
