//! Comparison, classification, sign and selection.

use vstd::prelude::*;

use super::layout::{lemma_units_mono, lemma_units_zero};
use super::{B64, INF_MAG, SIGN_BIT};

verus! {

impl B64 {
    pub open spec fn spec_lt(self, other: B64) -> bool {
        !self.nan() && !other.nan() && self.value() < other.value()
    }

    pub open spec fn spec_le(self, other: B64) -> bool {
        !self.nan() && !other.nan() && self.value() <= other.value()
    }

    pub open spec fn spec_gt(self, other: B64) -> bool {
        other.spec_lt(self)
    }

    pub open spec fn spec_ge(self, other: B64) -> bool {
        other.spec_le(self)
    }

    pub open spec fn spec_eq_num(self, other: B64) -> bool {
        !self.nan() && !other.nan() && self.value() == other.value()
    }

    pub open spec fn spec_is_finite(self) -> bool {
        self.finite()
    }

    pub open spec fn spec_abs(self) -> B64 {
        B64 { bits: (self.bits % SIGN_BIT) as u64 }
    }

    pub open spec fn spec_max(self, other: B64) -> B64 {
        if self.nan() || (self.spec_lt(other)) {
            other
        } else {
            self
        }
    }

    pub open spec fn spec_min(self, other: B64) -> B64 {
        if self.nan() || (other.spec_lt(self)) {
            other
        } else {
            self
        }
    }

    pub open spec fn spec_clamp(self, low: B64, high: B64) -> B64 {
        if self.spec_lt(low) {
            low
        } else if high.spec_lt(self) {
            high
        } else {
            self
        }
    }

    /// The place of a number in the total order of bit patterns: negative NaNs
    /// first, then the numbers with -0 before +0, then positive NaNs.
    pub open spec fn total_rank(self) -> int {
        if self.negative() {
            -1 - self.mag()
        } else {
            self.mag()
        }
    }

    pub open spec fn spec_total_lt(self, other: B64) -> bool {
        self.total_rank() < other.total_rank()
    }

    /// `self < other`; false on NaN.
    #[verifier::when_used_as_spec(spec_lt)]
    pub fn lt(self, other: B64) -> (r: bool)
        ensures
            r == self.spec_lt(other),
    {
        let a: u64 = self.bits % SIGN_BIT;
        let b: u64 = other.bits % SIGN_BIT;
        proof {
            lemma_value_order(self, other);
        }
        if a > INF_MAG || b > INF_MAG {
            return false;
        }
        if self.bits < SIGN_BIT {
            other.bits < SIGN_BIT && a < b
        } else if other.bits < SIGN_BIT {
            a > 0 || b > 0
        } else {
            a > b
        }
    }

    /// `self <= other`; false on NaN.
    #[verifier::when_used_as_spec(spec_le)]
    pub fn le(self, other: B64) -> (r: bool)
        ensures
            r == self.spec_le(other),
    {
        let a: u64 = self.bits % SIGN_BIT;
        let b: u64 = other.bits % SIGN_BIT;
        if a > INF_MAG || b > INF_MAG {
            return false;
        }
        !other.lt(self)
    }

    /// `self > other`; false on NaN.
    #[verifier::when_used_as_spec(spec_gt)]
    pub fn gt(self, other: B64) -> (r: bool)
        ensures
            r == self.spec_gt(other),
    {
        other.lt(self)
    }

    /// `self >= other`; false on NaN.
    #[verifier::when_used_as_spec(spec_ge)]
    pub fn ge(self, other: B64) -> (r: bool)
        ensures
            r == self.spec_ge(other),
    {
        other.le(self)
    }

    /// Numeric equality: the zeros are equal, a NaN equals nothing.
    #[verifier::when_used_as_spec(spec_eq_num)]
    pub fn eq_num(self, other: B64) -> (r: bool)
        ensures
            r == self.spec_eq_num(other),
    {
        self.le(other) && other.le(self)
    }

    pub open spec fn spec_same_option(a: Option<B64>, b: Option<B64>) -> bool {
        match (a, b) {
            (Some(x), Some(y)) => x.spec_eq_num(y),
            (None, None) => true,
            _ => false,
        }
    }

    /// Numeric equality of optional numbers.
    #[verifier::when_used_as_spec(spec_same_option)]
    pub fn same_option(a: Option<B64>, b: Option<B64>) -> (r: bool)
        ensures
            r == B64::spec_same_option(a, b),
    {
        match (a, b) {
            (Some(x), Some(y)) => x.eq_num(y),
            (None, None) => true,
            _ => false,
        }
    }

    /// Neither an infinity nor a NaN.
    #[verifier::when_used_as_spec(spec_is_finite)]
    pub fn is_finite(self) -> (r: bool)
        ensures
            r == self.finite(),
    {
        self.bits % SIGN_BIT < INF_MAG
    }

    /// The number without its sign.
    #[verifier::when_used_as_spec(spec_abs)]
    pub fn abs(self) -> (r: B64)
        ensures
            r == self.spec_abs(),
    {
        B64 { bits: self.bits % SIGN_BIT }
    }

    /// The larger of two numbers; the other one where one is a NaN.
    #[verifier::when_used_as_spec(spec_max)]
    pub fn max(self, other: B64) -> (r: B64)
        ensures
            r == self.spec_max(other),
    {
        if self.bits % SIGN_BIT > INF_MAG || self.lt(other) {
            other
        } else {
            self
        }
    }

    /// The smaller of two numbers; the other one where one is a NaN.
    #[verifier::when_used_as_spec(spec_min)]
    pub fn min(self, other: B64) -> (r: B64)
        ensures
            r == self.spec_min(other),
    {
        if self.bits % SIGN_BIT > INF_MAG || other.lt(self) {
            other
        } else {
            self
        }
    }

    /// The number moved into `low..=high`; a NaN stays.
    #[verifier::when_used_as_spec(spec_clamp)]
    pub fn clamp(self, low: B64, high: B64) -> (r: B64)
        requires
            low.spec_le(high),
        ensures
            r == self.spec_clamp(low, high),
    {
        if self.lt(low) {
            low
        } else if high.lt(self) {
            high
        } else {
            self
        }
    }

    /// Strictly before in the total order of bit patterns.
    #[verifier::when_used_as_spec(spec_total_lt)]
    pub fn total_lt(self, other: B64) -> (r: bool)
        ensures
            r == self.spec_total_lt(other),
    {
        if self.bits >= SIGN_BIT {
            other.bits < SIGN_BIT || self.bits > other.bits
        } else {
            other.bits < SIGN_BIT && self.bits < other.bits
        }
    }
}

/// Values are ordered as signs and magnitudes are.
pub proof fn lemma_value_order(a: B64, b: B64)
    ensures
        !a.negative() && !b.negative() ==> (a.value() < b.value() <==> a.mag() < b.mag()),
        a.negative() && b.negative() ==> (a.value() < b.value() <==> a.mag() > b.mag()),
        a.negative() && !b.negative() ==> (a.value() < b.value() <==> a.mag() > 0 || b.mag() > 0),
        !a.negative() && b.negative() ==> a.value() >= b.value(),
        a.value() == 0 <==> a.mag() == 0,
{
    lemma_units_zero();
    if a.mag() > 0 {
        lemma_units_mono(0, a.mag());
    }
    if b.mag() > 0 {
        lemma_units_mono(0, b.mag());
    }
    if a.mag() < b.mag() {
        lemma_units_mono(a.mag(), b.mag());
    }
    if b.mag() < a.mag() {
        lemma_units_mono(b.mag(), a.mag());
    }
}

} // verus!
