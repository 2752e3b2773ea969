//! Numbers as decimal text with six places.

use vstd::arithmetic::power2::{
    lemma_pow2_adds, lemma_pow2_pos, lemma_pow2_strictly_increases, lemma_pow2_unfold, pow2,
};
use vstd::prelude::*;

use super::arith::split;
use super::rounding::power_of_two;
use super::{units, B64, HIDDEN, INF_MAG, UNIT_EXP};
use crate::text::{
    append, copy_text, decimal_text, digit_of, digit_text, digits_value, last_digit,
    law_decimal_text_reads_back, string_of, to_decimal,
};

verus! {

/// The whole number nearest to a ratio, the even one of two.
pub open spec fn nearest_whole(num: int, den: int) -> int {
    let q = num / den;
    let r = num % den;
    if 2 * r < den || (2 * r == den && q % 2 == 0) {
        q
    } else {
        q + 1
    }
}

/// A magnitude in millionths, rounded to the nearest.
pub open spec fn millionths(mag: int) -> int {
    nearest_whole(units(mag) * 1_000_000, pow2(UNIT_EXP as nat) as int)
}

/// The last `k` decimal digits of a number.
pub open spec fn places(n: nat, k: nat) -> Seq<char>
    decreases k,
{
    if k == 0 {
        Seq::empty()
    } else {
        places(n / 10, (k - 1) as nat).push(digit_text(n))
    }
}

/// A number as a decimal with six places, rounded to the nearest and ties to
/// the even digit.
pub open spec fn fixed_text(x: B64) -> Seq<char> {
    let sign = if x.negative() {
        "-"@
    } else {
        ""@
    };
    let n = millionths(x.mag()) as nat;
    if x.nan() {
        "NaN"@
    } else if x.infinite() {
        sign + "inf"@
    } else {
        sign + decimal_text(n / 1_000_000) + "."@ + places(n, 6)
    }
}

fn to_places(n: u128, k: u32) -> (r: Vec<char>)
    ensures
        r@ == places(n as nat, k as nat),
    decreases k,
{
    if k == 0 {
        let r: Vec<char> = Vec::new();
        assert(r@ =~= places(n as nat, 0));
        r
    } else {
        let mut r = to_places(n / 10, k - 1);
        r.push(last_digit(n));
        r
    }
}

/// The digits of a number without the lone zero.
spec fn bare(n: nat) -> Seq<char> {
    if n == 0 {
        Seq::empty()
    } else {
        decimal_text(n)
    }
}

proof fn lemma_bare(n: nat)
    ensures
        n > 0 ==> bare(n) == bare(n / 10).push(digit_text(n)),
        digits_value(bare(n)) == n,
{
    if n > 0 {
        law_decimal_text_reads_back(n);
        if n < 10 {
            assert(bare(n) =~= bare(n / 10).push(digit_text(n)));
        }
    }
}

/// Twice the number in the first digits, plus one where there is a carry.
fn doubled(digits: &Vec<char>, end: usize, carry: bool) -> (r: Vec<char>)
    requires
        end <= digits.len(),
        digits_value(digits@.take(end as int)) >= 0,
        digits@.take(end as int) == bare(digits_value(digits@.take(end as int)) as nat),
    ensures
        r@ == bare((2 * digits_value(digits@.take(end as int)) + (if carry { 1int } else { 0 })) as nat),
    decreases end,
{
    let ghost n = digits_value(digits@.take(end as int)) as nat;
    let ghost c: nat = if carry { 1 } else { 0 };
    proof {
        lemma_bare(n);
        lemma_bare(2 * n + c);
        lemma_bare(0);
    }
    if end == 0 {
        let mut r: Vec<char> = Vec::new();
        if carry {
            r.push('1');
            assert(r@ =~= bare(1));
        } else {
            assert(r@ =~= bare(0));
        }
        return r;
    }
    let last: char = digits[end - 1];
    proof {
        assert(digits@.take(end as int).drop_last() =~= digits@.take(end - 1));
        assert(digits@.take(end as int).last() == last);
        assert(n > 0);
        assert(digits@.take(end - 1) == bare(n / 10)) by {
            assert(bare(n).drop_last() =~= bare(n / 10));
        }
        lemma_bare(n / 10);
        assert(digit_of(last) == n % 10);
    }
    let twice: u32 = 2 * (last as u32 - '0' as u32) + if carry { 1 } else { 0 };
    let mut r: Vec<char> = doubled(digits, end - 1, twice >= 10);
    r.push(last_digit(twice as u128));
    proof {
        let m = 2 * n + c;
        assert(n == 10 * (n / 10) + n % 10);
        assert(m / 10 == 2 * (n / 10) + (if twice >= 10 { 1int } else { 0 }));
        assert(m % 10 == twice % 10);
    }
    r
}

/// The digits of a power of two times a positive number.
fn shifted_decimal(q: u64, k: u32) -> (r: Vec<char>)
    requires
        q > 0,
    ensures
        r@ == decimal_text((q * pow2(k as nat)) as nat),
{
    let mut r: Vec<char> = to_decimal(q as u128);
    let mut i: u32 = 0;
    proof {
        vstd::arithmetic::power2::lemma2_to64();
        assert(q * pow2(0) == q);
    }
    while i < k
        invariant
            i <= k,
            q > 0,
            q * pow2(i as nat) > 0,
            r@ == bare((q * pow2(i as nat)) as nat),
        decreases k - i,
    {
        let ghost n = (q * pow2(i as nat)) as nat;
        proof {
            lemma_bare(n);
            lemma_pow2_unfold((i + 1) as nat);
            let p = pow2(i as nat);
            assert(q * (2 * p) == 2 * (q * p)) by (nonlinear_arith);
            assert(r@.take(r@.len() as int) =~= r@);
        }
        r = doubled(&r, r.len(), false);
        i = i + 1;
    }
    r
}

/// Scaling both parts of a ratio changes nothing.
proof fn lemma_nearest_scaled(num: int, den: int, c: int)
    requires
        0 <= num,
        0 < den,
        0 < c,
    ensures
        nearest_whole(num * c, den * c) == nearest_whole(num, den),
{
    let q = num / den;
    let r = num % den;
    vstd::arithmetic::div_mod::lemma_fundamental_div_mod(num, den);
    assert(num * c == q * (den * c) + r * c) by (nonlinear_arith)
        requires
            num == den * q + r,
    ;
    assert(0 <= r * c < den * c) by (nonlinear_arith)
        requires
            0 <= r < den,
            0 < c,
    ;
    vstd::arithmetic::div_mod::lemma_fundamental_div_mod_converse(num * c, den * c, q, r * c);
    assert(2 * (r * c) < den * c <==> 2 * r < den) by (nonlinear_arith)
        requires
            0 < c,
    ;
    assert(2 * (r * c) == den * c <==> 2 * r == den) by (nonlinear_arith)
        requires
            0 < c,
    ;
}

/// A magnitude below `2^53` in millionths.
fn small_millionths(q: u64, t: u32) -> (n: u128)
    requires
        q < 2 * HIDDEN,
        t < UNIT_EXP,
    ensures
        n == nearest_whole(q * pow2(t as nat) * 1_000_000, pow2(UNIT_EXP as nat) as int),
{
    let m: u128 = q as u128 * 1_000_000;
    let s: u32 = UNIT_EXP - t;
    proof {
        lemma_pow2_pos(t as nat);
        lemma_pow2_pos(s as nat);
        lemma_pow2_adds(t as nat, s as nat);
        let p = pow2(t as nat) as int;
        let d = pow2(s as nat) as int;
        lemma_nearest_scaled(m as int, d, p);
        assert(q * p * 1_000_000 == m * p) by (nonlinear_arith)
            requires
                m == q * 1_000_000,
        ;
        assert(d * p == p * d) by (nonlinear_arith);
    }
    if s >= 100 {
        proof {
            vstd::arithmetic::power2::lemma2_to64();
            vstd::arithmetic::power2::lemma2_to64_rest();
            lemma_pow2_adds(64, 36);
            if s > 100 {
                lemma_pow2_strictly_increases(100, s as nat);
            }
            assert(pow2(100) == pow2(64) * pow2(36));
            assert(2 * m < pow2(100)) by {
                assert(pow2(64) == 0x1_0000_0000_0000_0000);
                assert(pow2(36) == 0x10_0000_0000);
                assert(0x1_0000_0000_0000_0000 * 0x10_0000_0000int > 4 * 0x10_0000_0000_0000 * 1_000_000int);
            }
            vstd::arithmetic::div_mod::lemma_small_mod(m as nat, pow2(s as nat));
            vstd::arithmetic::div_mod::lemma_basic_div(m as int, pow2(s as nat) as int);
        }
        return 0;
    }
    let den: u128 = power_of_two(s);
    let whole: u128 = m / den;
    let rest: u128 = m % den;
    proof {
        vstd::arithmetic::div_mod::lemma_fundamental_div_mod(m as int, den as int);
        vstd::arithmetic::div_mod::lemma_div_is_ordered_by_denominator(m as int, 1, den as int);
    }
    if rest < den - rest || (rest == den - rest && whole % 2 == 0) {
        whole
    } else {
        whole + 1
    }
}

impl B64 {
    /// The number with six decimal places.
    pub fn to_fixed(self) -> (r: String)
        ensures
            r@ == fixed_text(self),
    {
        let mag: u64 = self.bits % 0x8000_0000_0000_0000;
        if mag > INF_MAG {
            return copy_text("NaN");
        }
        let mut r: String = copy_text(if self.bits >= 0x8000_0000_0000_0000 { "-" } else { "" });
        if mag == INF_MAG {
            append(&mut r, "inf");
            return r;
        }
        let (q, t): (u64, u32) = split(mag);
        if t < UNIT_EXP {
            let n: u128 = small_millionths(q, t);
            append(&mut r, string_of(&to_decimal(n / 1_000_000)).as_str());
            append(&mut r, ".");
            append(&mut r, string_of(&to_places(n, 6)).as_str());
        } else {
            let k: u32 = t - UNIT_EXP;
            proof {
                lemma_whole(q as int, t as nat, k as nat);
            }
            append(&mut r, string_of(&shifted_decimal(q, k)).as_str());
            append(&mut r, ".");
            append(&mut r, string_of(&to_places(0, 6)).as_str());
        }
        r
    }
}

/// A whole number has no millionths.
proof fn lemma_whole(q: int, t: nat, k: nat)
    requires
        q >= 0,
        t == UNIT_EXP + k,
    ensures
        ({
            let n = nearest_whole(q * pow2(t) * 1_000_000, pow2(UNIT_EXP as nat) as int);
            &&& n >= 0
            &&& n / 1_000_000 == q * pow2(k)
            &&& places(n as nat, 6) == places(0, 6)
        }),
{
    let one = pow2(UNIT_EXP as nat) as int;
    let whole = q * pow2(k);
    let n = whole * 1_000_000;
    lemma_pow2_adds(UNIT_EXP as nat, k);
    lemma_pow2_pos(UNIT_EXP as nat);
    lemma_pow2_pos(k);
    assert(q * pow2(t) * 1_000_000 == n * one) by (nonlinear_arith)
        requires
            pow2(t) == one * pow2(k),
            whole == q * pow2(k),
            n == whole * 1_000_000,
    ;
    assert(n >= 0) by (nonlinear_arith)
        requires
            q >= 0,
            pow2(k) > 0,
            n == q * pow2(k) * 1_000_000,
    ;
    lemma_nearest_scaled(n, 1, one);
    assert(1 * one == one);
    lemma_zero_places(n as nat, 6);
}

/// The digits of a multiple of a power of ten are zeros.
proof fn lemma_zero_places(n: nat, k: nat)
    requires
        k == 6 ==> n % 1_000_000 == 0,
        k == 5 ==> n % 100_000 == 0,
        k == 4 ==> n % 10_000 == 0,
        k == 3 ==> n % 1_000 == 0,
        k == 2 ==> n % 100 == 0,
        k == 1 ==> n % 10 == 0,
        k <= 6,
    ensures
        places(n, k) == places(0, k),
    decreases k,
{
    if k > 0 {
        lemma_zero_places(n / 10, (k - 1) as nat);
    }
}

} // verus!
