//! Addition, subtraction, multiplication, division and square root.

use vstd::arithmetic::power2::{
    lemma2_to64, lemma2_to64_rest, lemma_pow2_adds, lemma_pow2_pos, lemma_pow2_strictly_increases,
    lemma_pow2_unfold, pow2,
};
use vstd::prelude::*;

use super::layout::{exponent_of, lemma_split, lemma_units_mono, lemma_units_zero, significand_of};
use super::rounding::{
    bit_length, lemma_rounded, lemma_rounded_root, lemma_two_to_128, nearest, nearest_root, pack,
    packed, power_of_two, rounded, rounded_root, scale_down, scale_up,
};
use super::{units, B64, HIDDEN, INF_MAG, NAN_BITS, SIGN_BIT, UNIT_EXP};

verus! {

pub open spec fn abs_int(x: int) -> int {
    if x < 0 {
        -x
    } else {
        x
    }
}

impl B64 {
    #[verifier::opaque]
    pub open spec fn spec_add(self, other: B64) -> B64 {
        if self.nan() || other.nan() {
            B64 { bits: NAN_BITS }
        } else if self.infinite() {
            if other.infinite() && self.negative() != other.negative() {
                B64 { bits: NAN_BITS }
            } else {
                self
            }
        } else if other.infinite() {
            other
        } else {
            let sum = self.value() + other.value();
            if sum == 0 {
                B64::signed(self.negative() && other.negative(), 0)
            } else {
                B64::signed(sum < 0, rounded(abs_int(sum), 1))
            }
        }
    }

    pub open spec fn spec_neg(self) -> B64 {
        if self.bits >= SIGN_BIT {
            B64 { bits: (self.bits - SIGN_BIT) as u64 }
        } else {
            B64 { bits: (self.bits + SIGN_BIT) as u64 }
        }
    }

    pub open spec fn spec_sub(self, other: B64) -> B64 {
        self.spec_add(other.spec_neg())
    }

    #[verifier::opaque]
    pub open spec fn spec_mul(self, other: B64) -> B64 {
        let negative = self.negative() != other.negative();
        if self.nan() || other.nan() {
            B64 { bits: NAN_BITS }
        } else if self.infinite() || other.infinite() {
            if self.zero() || other.zero() {
                B64 { bits: NAN_BITS }
            } else {
                B64::signed(negative, INF_MAG as int)
            }
        } else {
            B64::signed(
                negative,
                rounded(units(self.mag()) * units(other.mag()), pow2(UNIT_EXP as nat) as int),
            )
        }
    }

    #[verifier::opaque]
    pub open spec fn spec_div(self, other: B64) -> B64 {
        let negative = self.negative() != other.negative();
        if self.nan() || other.nan() {
            B64 { bits: NAN_BITS }
        } else if self.infinite() {
            if other.infinite() {
                B64 { bits: NAN_BITS }
            } else {
                B64::signed(negative, INF_MAG as int)
            }
        } else if other.infinite() {
            B64::signed(negative, 0)
        } else if other.zero() {
            if self.zero() {
                B64 { bits: NAN_BITS }
            } else {
                B64::signed(negative, INF_MAG as int)
            }
        } else {
            B64::signed(
                negative,
                rounded(units(self.mag()) * pow2(UNIT_EXP as nat), units(other.mag())),
            )
        }
    }

    #[verifier::opaque]
    pub open spec fn spec_sqrt(self) -> B64 {
        if self.nan() || self.zero() {
            self
        } else if self.negative() {
            B64 { bits: NAN_BITS }
        } else if self.infinite() {
            self
        } else {
            B64::signed(false, rounded_root(units(self.mag()) * pow2(UNIT_EXP as nat)))
        }
    }

    fn with_sign(negative: bool, mag: u64) -> (r: B64)
        requires
            mag <= INF_MAG,
        ensures
            r == B64::signed(negative, mag as int),
    {
        if negative {
            B64 { bits: mag + SIGN_BIT }
        } else {
            B64 { bits: mag }
        }
    }

    /// The negated number.
    #[verifier::when_used_as_spec(spec_neg)]
    pub fn neg(self) -> (r: B64)
        ensures
            r == self.spec_neg(),
    {
        if self.bits >= SIGN_BIT {
            B64 { bits: self.bits - SIGN_BIT }
        } else {
            B64 { bits: self.bits + SIGN_BIT }
        }
    }

    /// The sum, rounded to nearest.
    #[verifier::when_used_as_spec(spec_add)]
    pub fn add(self, other: B64) -> (r: B64)
        ensures
            r == self.spec_add(other),
    {
        reveal(B64::spec_add);
        let a: u64 = self.bits % SIGN_BIT;
        let b: u64 = other.bits % SIGN_BIT;
        let na: bool = self.bits >= SIGN_BIT;
        let nb: bool = other.bits >= SIGN_BIT;
        if a > INF_MAG || b > INF_MAG {
            return B64 { bits: NAN_BITS };
        }
        if a == INF_MAG {
            return if b == INF_MAG && na != nb {
                B64 { bits: NAN_BITS }
            } else {
                self
            };
        }
        if b == INF_MAG {
            return other;
        }
        proof {
            lemma_units_zero();
            if a < b {
                lemma_units_mono(a as int, b as int);
            }
            if b < a {
                lemma_units_mono(b as int, a as int);
            }
            if a > 0 {
                lemma_units_mono(0, a as int);
            }
            if b > 0 {
                lemma_units_mono(0, b as int);
            }
        }
        if na == nb {
            if a == 0 && b == 0 {
                return B64::with_sign(na, 0);
            }
            return B64::with_sign(na, if a >= b { add_mags(a, b) } else { add_mags(b, a) });
        }
        if a == b {
            B64::with_sign(false, 0)
        } else if a > b {
            B64::with_sign(na, sub_mags(a, b))
        } else {
            B64::with_sign(nb, sub_mags(b, a))
        }
    }

    /// The difference, rounded to nearest.
    #[verifier::when_used_as_spec(spec_sub)]
    pub fn sub(self, other: B64) -> (r: B64)
        ensures
            r == self.spec_sub(other),
    {
        self.add(other.neg())
    }

    /// The product, rounded to nearest.
    #[verifier::when_used_as_spec(spec_mul)]
    pub fn mul(self, other: B64) -> (r: B64)
        ensures
            r == self.spec_mul(other),
    {
        reveal(B64::spec_mul);
        let a: u64 = self.bits % SIGN_BIT;
        let b: u64 = other.bits % SIGN_BIT;
        let negative: bool = (self.bits >= SIGN_BIT) != (other.bits >= SIGN_BIT);
        if a > INF_MAG || b > INF_MAG {
            return B64 { bits: NAN_BITS };
        }
        if a == INF_MAG || b == INF_MAG {
            return if a == 0 || b == 0 {
                B64 { bits: NAN_BITS }
            } else {
                B64::with_sign(negative, INF_MAG)
            };
        }
        B64::with_sign(negative, mul_mags(a, b))
    }

    /// The quotient, rounded to nearest.
    #[verifier::when_used_as_spec(spec_div)]
    pub fn div(self, other: B64) -> (r: B64)
        ensures
            r == self.spec_div(other),
    {
        reveal(B64::spec_div);
        let a: u64 = self.bits % SIGN_BIT;
        let b: u64 = other.bits % SIGN_BIT;
        let negative: bool = (self.bits >= SIGN_BIT) != (other.bits >= SIGN_BIT);
        if a > INF_MAG || b > INF_MAG {
            return B64 { bits: NAN_BITS };
        }
        if a == INF_MAG {
            return if b == INF_MAG {
                B64 { bits: NAN_BITS }
            } else {
                B64::with_sign(negative, INF_MAG)
            };
        }
        if b == INF_MAG {
            return B64::with_sign(negative, 0);
        }
        if b == 0 {
            return if a == 0 {
                B64 { bits: NAN_BITS }
            } else {
                B64::with_sign(negative, INF_MAG)
            };
        }
        B64::with_sign(negative, div_mags(a, b))
    }

    /// The square root, rounded to nearest; NaN below zero.
    #[verifier::when_used_as_spec(spec_sqrt)]
    pub fn sqrt(self) -> (r: B64)
        ensures
            r == self.spec_sqrt(),
    {
        reveal(B64::spec_sqrt);
        let a: u64 = self.bits % SIGN_BIT;
        if a > INF_MAG || a == 0 {
            return self;
        }
        if self.bits >= SIGN_BIT {
            return B64 { bits: NAN_BITS };
        }
        if a == INF_MAG {
            return self;
        }
        B64::with_sign(false, sqrt_mag(a))
    }
}

pub proof fn lemma_packed_ratio(mag: int, m: int, e: int, tail: bool, num: int, den: int)
    requires
        packed(mag, m, e, tail),
        den > 0,
        scale_down(e) > 0,
        !tail ==> num * scale_down(e) == (m * scale_up(e)) * den,
        tail ==> (m * scale_up(e)) * den < num * scale_down(e) < ((m + 1) * scale_up(e)) * den,
    ensures
        nearest(mag, num, den),
        rounded(num, den) == mag,
{
    let w = scale_down(e);
    let x = m * scale_up(e);
    let y = (m + 1) * scale_up(e);
    if 0 < mag {
        let s = units(mag - 1) + units(mag);
        assert(w * s < 2 * x ==> den * s < 2 * num) by (nonlinear_arith)
            requires
                den > 0,
                w > 0,
                x * den <= num * w,
        ;
        assert(w * s == 2 * x && x * den == num * w ==> den * s == 2 * num) by (nonlinear_arith)
            requires
                w > 0,
        ;
        assert(w * s == 2 * x && x * den < num * w ==> den * s < 2 * num) by (nonlinear_arith)
            requires
                w > 0,
                den > 0,
        ;
    }
    if mag < INF_MAG {
        let s = units(mag) + units(mag + 1);
        assert(2 * x < w * s && num * w == x * den ==> 2 * num < den * s) by (nonlinear_arith)
            requires
                den > 0,
                w > 0,
        ;
        assert(2 * x == w * s && num * w == x * den ==> 2 * num == den * s) by (nonlinear_arith)
            requires
                w > 0,
        ;
        assert(2 * y <= w * s && num * w < y * den ==> 2 * num < den * s) by (nonlinear_arith)
            requires
                w > 0,
                den > 0,
        ;
    }
    lemma_rounded(mag, num, den);
}

/// The significand and the exponent of a magnitude.
pub fn split(mag: u64) -> (r: (u64, u32))
    requires
        mag < INF_MAG,
    ensures
        r.0 == significand_of(mag as int),
        r.1 == exponent_of(mag as int),
        units(mag as int) == r.0 * pow2(r.1 as nat),
        r.0 < 2 * HIDDEN,
        r.1 <= 2045,
        r.1 > 0 ==> r.0 >= HIDDEN,
        r.0 == 0 <==> mag == 0,
{
    proof {
        lemma_split(mag as int);
        lemma_units_zero();
    }
    let field: u64 = mag / HIDDEN;
    if field == 0 {
        (mag, 0)
    } else {
        (mag % HIDDEN + HIDDEN, (field - 1) as u32)
    }
}

/// The magnitude of the sum of two magnitudes.
fn add_mags(a: u64, b: u64) -> (r: u64)
    requires
        b <= a < INF_MAG,
        a > 0,
    ensures
        r == rounded(units(a as int) + units(b as int), 1),
        r <= INF_MAG,
{
    let (m1, e1) = split(a);
    let (m2, e2) = split(b);
    proof {
        lemma_same_order(b as int, a as int);
        lemma2_to64();
        lemma2_to64_rest();
    }
    let d: u32 = e1 - e2;
    let ghost sum = units(a as int) + units(b as int);
    if d <= 70 {
        proof {
            lemma_align(m1 as int, e2 as nat, d as nat, 70);
            lemma_pow2_pos(d as nat);
            assert(m1 * pow2(d as nat) > 0) by (nonlinear_arith)
                requires
                    m1 > 0,
                    pow2(d as nat) > 0,
            ;
        }
        let m: u128 = m1 as u128 * power_of_two(d) + m2 as u128;
        let r: u64 = pack(m, e2 as i32, false);
        proof {
            lemma_pow2_adds(e2 as nat, d as nat);
            assert(m * pow2(e2 as nat) == sum) by (nonlinear_arith)
                requires
                    m == m1 * pow2(d as nat) + m2,
                    sum == m1 * pow2(e1 as nat) + m2 * pow2(e2 as nat),
                    pow2(e1 as nat) == pow2(e2 as nat) * pow2(d as nat),
            ;
            lemma_packed_ratio(r as int, m as int, e2 as int, false, sum, 1);
        }
        return r;
    }
    let m: u128 = m1 as u128 * 1024;
    let r: u64 = pack(m, e1 as i32 - 10, b > 0);
    proof {
        lemma_far(m1 as int, e1 as nat, m2 as int, e2 as nat);
        let s = pow2((e1 - 10) as nat) as int;
        assert((m + 1) * s == m * s + s) by (nonlinear_arith);
        assert(m * s == m1 * (1024 * s)) by (nonlinear_arith)
            requires
                m == m1 * 1024,
        ;
        assert(b == 0 ==> m2 * pow2(e2 as nat) == 0) by (nonlinear_arith)
            requires
                b == 0 ==> m2 == 0,
        ;
        lemma_packed_ratio(r as int, m as int, e1 - 10, b > 0, sum, 1);
    }
    r
}

/// The magnitude of the difference of two magnitudes.
fn sub_mags(a: u64, b: u64) -> (r: u64)
    requires
        b < a < INF_MAG,
    ensures
        r == rounded(units(a as int) - units(b as int), 1),
        r <= INF_MAG,
{
    let (m1, e1) = split(a);
    let (m2, e2) = split(b);
    proof {
        lemma_same_order(b as int, a as int);
        lemma_units_mono(b as int, a as int);
        lemma2_to64();
        lemma2_to64_rest();
    }
    let d: u32 = e1 - e2;
    let ghost diff = units(a as int) - units(b as int);
    if d <= 70 {
        proof {
            lemma_align(m1 as int, e2 as nat, d as nat, 70);
            lemma_pow2_adds(e2 as nat, d as nat);
            lemma_pow2_pos(e2 as nat);
            let p = pow2(e2 as nat) as int;
            assert((m1 * pow2(d as nat) - m2) * p == diff) by (nonlinear_arith)
                requires
                    diff == m1 * pow2(e1 as nat) - m2 * pow2(e2 as nat),
                    pow2(e1 as nat) == p * pow2(d as nat),
                    p == pow2(e2 as nat),
            ;
            assert(m1 * pow2(d as nat) - m2 > 0) by (nonlinear_arith)
                requires
                    (m1 * pow2(d as nat) - m2) * p > 0,
                    p > 0,
            ;
        }
        let m: u128 = m1 as u128 * power_of_two(d) - m2 as u128;
        let r: u64 = pack(m, e2 as i32, false);
        proof {
            lemma_packed_ratio(r as int, m as int, e2 as int, false, diff, 1);
        }
        return r;
    }
    if b == 0 {
        let r: u64 = pack(m1 as u128, e1 as i32, false);
        proof {
            lemma_pow2_pos(e1 as nat);
            lemma_units_zero();
            lemma_packed_ratio(r as int, m1 as int, e1 as int, false, diff, 1);
        }
        return r;
    }
    let m: u128 = m1 as u128 * 1024 - 1;
    let r: u64 = pack(m, e1 as i32 - 10, true);
    proof {
        lemma_far(m1 as int, e1 as nat, m2 as int, e2 as nat);
        let s = pow2((e1 - 10) as nat) as int;
        assert((m + 1) * s == m * s + s) by (nonlinear_arith);
        assert((m + 1) * s == m1 * (1024 * s)) by (nonlinear_arith)
            requires
                m + 1 == m1 * 1024,
        ;
        lemma_packed_ratio(r as int, m as int, e1 - 10, true, diff, 1);
    }
    r
}

/// Exponents follow the order of magnitudes.
proof fn lemma_same_order(b: int, a: int)
    requires
        0 <= b <= a,
    ensures
        exponent_of(b) <= exponent_of(a),
{
    vstd::arithmetic::div_mod::lemma_div_is_ordered(b, a, HIDDEN as int);
}

/// A shifted significand stays within 124 binary digits.
proof fn lemma_align(m: int, e: nat, d: nat, limit: nat)
    requires
        0 <= m < 2 * HIDDEN,
        d <= limit,
        limit == 70,
    ensures
        0 <= m * pow2(d) < 0x800_0000_0000_0000_0000_0000_0000_0000int,
{
    lemma2_to64();
    lemma2_to64_rest();
    lemma_pow2_adds(64, 6);
    if d < limit {
        lemma_pow2_strictly_increases(d, limit);
    }
    assert(0 <= m * pow2(d) < 0x800_0000_0000_0000_0000_0000_0000_0000int) by (nonlinear_arith)
        requires
            0 <= m < 0x20_0000_0000_0000int,
            0 <= pow2(d) <= 0x40_0000_0000_0000_0000int,
    ;
}

/// A number more than 70 places below another is less than one of its last
/// ten extra places.
proof fn lemma_far(m1: int, e1: nat, m2: int, e2: nat)
    requires
        e1 > e2 + 70,
        0 <= m2 < 2 * HIDDEN,
    ensures
        e1 >= 10,
        pow2(e1) == 1024 * pow2((e1 - 10) as nat),
        m2 > 0 ==> 0 < m2 * pow2(e2) < pow2((e1 - 10) as nat),
        pow2((e1 - 10) as nat) > 0,
{
    lemma2_to64();
    lemma2_to64_rest();
    lemma_pow2_adds(10, (e1 - 10) as nat);
    lemma_pow2_pos((e1 - 10) as nat);
    lemma_pow2_pos(e2);
    lemma_pow2_adds(53, e2);
    lemma_pow2_strictly_increases(53 + e2, (e1 - 10) as nat);
    assert(m2 * pow2(e2) < pow2(53) * pow2(e2)) by (nonlinear_arith)
        requires
            m2 < pow2(53),
            pow2(e2) > 0,
    ;
    assert(m2 > 0 ==> 0 < m2 * pow2(e2)) by (nonlinear_arith)
        requires
            pow2(e2) > 0,
    ;
}

fn mul_mags(a: u64, b: u64) -> (r: u64)
    requires
        a < INF_MAG,
        b < INF_MAG,
    ensures
        r == rounded(units(a as int) * units(b as int), pow2(UNIT_EXP as nat) as int),
        r <= INF_MAG,
{
    let (m1, e1) = split(a);
    let (m2, e2) = split(b);
    let ghost one = pow2(UNIT_EXP as nat) as int;
    let ghost num = units(a as int) * units(b as int);
    proof {
        lemma_pow2_pos(UNIT_EXP as nat);
        lemma_units_zero();
    }
    if a == 0 || b == 0 {
        proof {
            assert(num == 0) by (nonlinear_arith)
                requires
                    num == units(a as int) * units(b as int),
                    units(a as int) == 0 || units(b as int) == 0,
            ;
            lemma_rounded_zero(one);
        }
        return 0;
    }
    proof {
        assert(0 < m1 * m2 < 0x400_0000_0000_0000_0000_0000_0000int) by (nonlinear_arith)
            requires
                0 < m1 < 0x20_0000_0000_0000int,
                0 < m2 < 0x20_0000_0000_0000int,
        ;
    }
    let m: u128 = m1 as u128 * m2 as u128;
    let e: i32 = e1 as i32 + e2 as i32 - 1074;
    let r: u64 = pack(m, e, false);
    proof {
        let p1 = pow2(e1 as nat) as int;
        let p2 = pow2(e2 as nat) as int;
        lemma_pow2_adds(e1 as nat, e2 as nat);
        assert(num == (m1 * m2) * (p1 * p2)) by (nonlinear_arith)
            requires
                num == (m1 * p1) * (m2 * p2),
        ;
        lemma_scale_ratio(e as int, (e1 + e2) as nat, UNIT_EXP as nat);
        assert(num * scale_down(e as int) == (m * scale_up(e as int)) * one) by (nonlinear_arith)
            requires
                num == m * (p1 * p2),
                (p1 * p2) * scale_down(e as int) == scale_up(e as int) * one,
        ;
        lemma_packed_ratio(r as int, m as int, e as int, false, num, one);
    }
    r
}

/// `2^a / 2^b` is the scale of `a - b`.
pub proof fn lemma_scale_ratio(e: int, a: nat, b: nat)
    requires
        e == a - b,
    ensures
        pow2(a) * scale_down(e) == scale_up(e) * pow2(b),
        scale_down(e) > 0,
        scale_up(e) > 0,
{
    lemma_pow2_pos(a);
    lemma_pow2_pos(b);
    if e >= 0 {
        lemma_pow2_adds(e as nat, b);
        lemma_pow2_pos(e as nat);
    } else {
        lemma_pow2_adds(a, (-e) as nat);
        lemma_pow2_pos((-e) as nat);
    }
}

/// Zero rounds to zero.
pub proof fn lemma_rounded_zero(den: int)
    requires
        den > 0,
    ensures
        rounded(0, den) == 0,
{
    lemma_units_zero();
    assert(0 < den * (units(0) + units(1))) by (nonlinear_arith)
        requires
            den > 0,
            units(0) + units(1) == 1,
    ;
    lemma_rounded(0, 0, den);
}

fn div_mags(a: u64, b: u64) -> (r: u64)
    requires
        a < INF_MAG,
        0 < b < INF_MAG,
    ensures
        r == rounded(units(a as int) * pow2(UNIT_EXP as nat), units(b as int)),
        r <= INF_MAG,
{
    let (m1, e1) = split(a);
    let (m2, e2) = split(b);
    let ghost one = pow2(UNIT_EXP as nat) as int;
    let ghost num = units(a as int) * one;
    let ghost den = units(b as int);
    proof {
        lemma_pow2_pos(UNIT_EXP as nat);
        lemma_units_zero();
        lemma_units_mono(0, b as int);
        lemma2_to64();
        lemma2_to64_rest();
    }
    if a == 0 {
        proof {
            assert(num == 0) by (nonlinear_arith)
                requires
                    num == units(a as int) * one,
                    units(a as int) == 0,
            ;
            lemma_rounded_zero(den);
        }
        return 0;
    }
    let l: u32 = bit_length(m1 as u128);
    proof {
        if l > 53 {
            lemma_pow2_strictly_increases(52, (l - 1) as nat);
            lemma_pow2_unfold(53);
            if l > 54 {
                lemma_pow2_strictly_increases(53, (l - 1) as nat);
            }
        }
    }
    let s: u32 = 128 - l;
    let ghost ps = pow2(s as nat) as int;
    proof {
        lemma_pow2_adds((l - 1) as nat, s as nat);
        lemma_pow2_adds(l as nat, s as nat);
        lemma_two_to_128();
        lemma_pow2_pos(s as nat);
        assert(m1 * ps < pow2(l as nat) * ps && pow2((l - 1) as nat) * ps <= m1 * ps) by (nonlinear_arith)
            requires
                pow2((l - 1) as nat) <= m1 < pow2(l as nat),
                ps > 0,
        ;
    }
    let big: u128 = m1 as u128 * power_of_two(s);
    let m: u128 = big / m2 as u128;
    let rem: u128 = big % m2 as u128;
    let e: i32 = e1 as i32 - s as i32 - e2 as i32 + 1074;
    proof {
        vstd::arithmetic::div_mod::lemma_fundamental_div_mod(big as int, m2 as int);
        assert(m >= 2 * HIDDEN) by (nonlinear_arith)
            requires
                big == m2 * m + rem,
                0 <= rem < m2,
                0 < m2 < 0x20_0000_0000_0000int,
                big >= 0x8000_0000_0000_0000_0000_0000_0000_0000int,
                2 * HIDDEN == 0x20_0000_0000_0000int,
        ;
    }
    let r: u64 = pack(m, e, rem > 0);
    proof {
        let p1 = pow2(e1 as nat) as int;
        let p2 = pow2(e2 as nat) as int;
        let u = scale_up(e as int);
        let w = scale_down(e as int);
        lemma_pow2_adds(e1 as nat, UNIT_EXP as nat);
        lemma_pow2_adds(s as nat, e2 as nat);
        lemma_scale_ratio(e as int, (e1 + UNIT_EXP) as nat, (s + e2) as nat);
        lemma_pow2_pos(e2 as nat);
        assert(den == m2 * p2);
        // num * w = m1 * (p1 * one) * w = m1 * u * (ps * p2) = big * u * p2
        assert(num * w == big * (u * p2)) by (nonlinear_arith)
            requires
                num == (m1 * p1) * one,
                (p1 * one) * w == u * (ps * p2),
                big == m1 * ps,
        ;
        assert(big * (u * p2) == (m * u) * den + rem * (u * p2)) by (nonlinear_arith)
            requires
                big == m2 * m + rem,
                den == m2 * p2,
        ;
        assert(u * p2 > 0) by (nonlinear_arith)
            requires
                u > 0,
                p2 > 0,
        ;
        assert(rem > 0 ==> rem * (u * p2) > 0) by (nonlinear_arith)
            requires
                u * p2 > 0,
        ;
        assert(rem == 0 ==> rem * (u * p2) == 0) by (nonlinear_arith);
        assert(rem * (u * p2) < u * den) by (nonlinear_arith)
            requires
                rem < m2,
                den == m2 * p2,
                u > 0,
                p2 > 0,
        ;
        assert(((m + 1) * u) * den == (m * u) * den + u * den) by (nonlinear_arith);
        lemma_packed_ratio(r as int, m as int, e as int, rem > 0, num, den);
    }
    r
}

/// The integer square root.
fn isqrt(n: u128) -> (r: u128)
    ensures
        r * r <= n < (r + 1) * (r + 1),
        r < 0x1_0000_0000_0000_0000,
{
    let mut r: u128 = 0;
    let mut step: u128 = 0x1_0000_0000_0000_0000;
    let mut k: u32 = 64;
    proof {
        lemma2_to64();
        lemma2_to64_rest();
    }
    while step > 1
        invariant
            step == pow2(k as nat),
            k <= 64,
            r * r <= n < (r + step) * (r + step),
            r + step <= 0x1_0000_0000_0000_0000,
        decreases step,
    {
        proof {
            if k == 0 {
                lemma2_to64();
            }
            lemma_pow2_unfold(k as nat);
        }
        k = k - 1;
        let half: u128 = step / 2;
        let c: u128 = r + half;
        proof {
            assert(c * c < 0x1_0000_0000_0000_0000_0000_0000_0000_0000int) by (nonlinear_arith)
                requires
                    0 <= c < 0x1_0000_0000_0000_0000int,
            ;
        }
        if c * c <= n {
            r = c;
        }
        step = half;
    }
    proof {
        lemma_pow2_pos(k as nat);
    }
    r
}

proof fn lemma_packed_root(mag: int, m: int, e: nat, tail: bool, n: int)
    requires
        packed(mag, m, e as int, tail),
        m > 0,
        !tail ==> n == (m * pow2(e)) * (m * pow2(e)),
        tail ==> (m * pow2(e)) * (m * pow2(e)) < n < ((m + 1) * pow2(e)) * ((m + 1) * pow2(e)),
    ensures
        rounded_root(n) == mag,
{
    lemma_pow2_pos(e);
    let x = m * pow2(e);
    let y = (m + 1) * pow2(e);
    assert(0 < x && 0 < y) by (nonlinear_arith)
        requires
            x == m * pow2(e),
            y == (m + 1) * pow2(e),
            m > 0,
            pow2(e) > 0,
    ;
    if 0 < mag {
        let s = units(mag - 1) + units(mag);
        lemma_units_zero();
        lemma_units_mono(0, mag);
        if mag > 1 {
            lemma_units_mono(0, mag - 1);
        }
        assert(0 <= s);
        assert(s < 2 * x ==> s * s < 4 * n) by (nonlinear_arith)
            requires
                0 <= s,
                x * x <= n,
        ;
        assert(s == 2 * x ==> s * s == 4 * (x * x)) by (nonlinear_arith);
    }
    if mag < INF_MAG {
        let s = units(mag) + units(mag + 1);
        assert(2 * x < s && n == x * x ==> 4 * n < s * s) by (nonlinear_arith)
            requires
                0 < x,
        ;
        assert(2 * x == s ==> 4 * (x * x) == s * s) by (nonlinear_arith);
        assert(2 * y <= s && n < y * y ==> 4 * n < s * s) by (nonlinear_arith)
            requires
                0 < y,
        ;
    }
    assert(nearest_root(mag, n));
    lemma_rounded_root(mag, n);
}

fn sqrt_mag(a: u64) -> (r: u64)
    requires
        0 < a < INF_MAG,
    ensures
        r == rounded_root(units(a as int) * pow2(UNIT_EXP as nat)),
        r <= INF_MAG,
{
    let (m1, e1) = split(a);
    let l: u32 = bit_length(m1 as u128);
    proof {
        lemma2_to64();
        lemma2_to64_rest();
        if l > 53 {
            lemma_pow2_unfold(53);
            if l > 54 {
                lemma_pow2_strictly_increases(53, (l - 1) as nat);
            }
        }
    }
    let odd: u32 = (e1 + 1074 + l) % 2;
    let s: u32 = 127 - l + (1 - odd);
    let ghost ps = pow2(s as nat) as int;
    proof {
        lemma_pow2_adds((l - 1) as nat, s as nat);
        lemma_pow2_adds(l as nat, s as nat);
        lemma_two_to_128();
        lemma_pow2_unfold(127);
        lemma_pow2_pos(s as nat);
        assert(m1 * ps < pow2(l as nat) * ps && pow2((l - 1) as nat) * ps <= m1 * ps) by (nonlinear_arith)
            requires
                pow2((l - 1) as nat) <= m1 < pow2(l as nat),
                ps > 0,
        ;
    }
    let big: u128 = m1 as u128 * power_of_two(s);
    let m: u128 = isqrt(big);
    let e: u32 = (e1 + 1074 - s) / 2;
    proof {
        assert(m >= 2 * HIDDEN) by (nonlinear_arith)
            requires
                big < (m + 1) * (m + 1),
                big >= 0x4000_0000_0000_0000_0000_0000_0000_0000int,
                2 * HIDDEN == 0x20_0000_0000_0000int,
                0 <= m,
        ;
        assert(m * m < 0x1_0000_0000_0000_0000_0000_0000_0000_0000int) by (nonlinear_arith)
            requires
                0 <= m < 0x1_0000_0000_0000_0000int,
        ;
    }
    let tail: bool = m * m < big;
    let r: u64 = pack(m, e as i32, tail);
    proof {
        let n = units(a as int) * pow2(UNIT_EXP as nat);
        let p1 = pow2(e1 as nat) as int;
        let one = pow2(UNIT_EXP as nat) as int;
        let pe = pow2(e as nat) as int;
        lemma_pow2_adds(e1 as nat, UNIT_EXP as nat);
        lemma_pow2_adds(e as nat, e as nat);
        lemma_pow2_adds((e + e) as nat, s as nat);
        lemma_pow2_pos(e as nat);
        assert(n == big * (pe * pe)) by (nonlinear_arith)
            requires
                n == (m1 * p1) * one,
                p1 * one == (pe * pe) * ps,
                big == m1 * ps,
        ;
        assert((m * pe) * (m * pe) == (m * m) * (pe * pe)) by (nonlinear_arith);
        assert(((m + 1) * pe) * ((m + 1) * pe) == ((m + 1) * (m + 1)) * (pe * pe)) by (nonlinear_arith);
        assert(pe * pe > 0) by (nonlinear_arith)
            requires
                pe > 0,
        ;
        assert(tail ==> (m * m) * (pe * pe) < big * (pe * pe)) by (nonlinear_arith)
            requires
                tail ==> m * m < big,
                pe * pe > 0,
        ;
        assert(big * (pe * pe) < ((m + 1) * (m + 1)) * (pe * pe)) by (nonlinear_arith)
            requires
                big < (m + 1) * (m + 1),
                pe * pe > 0,
        ;
        lemma_packed_root(r as int, m as int, e as nat, tail, n);
    }
    r
}

} // verus!
