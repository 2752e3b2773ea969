//! Reading decimal text.

use vstd::arithmetic::power::{lemma_pow_adds, lemma_pow_positive, pow};
use vstd::arithmetic::power2::{
    lemma2_to64, lemma2_to64_rest, lemma_pow2_adds, lemma_pow2_pos, lemma_pow2_strictly_increases,
    lemma_pow2_unfold, pow2,
};
use vstd::prelude::*;

use crate::text::{
    all_digits, chars_of, digit_char, digits_end, digits_value, integer_value,
    lemma_digits_value_nonnegative, lower, piece, same_chars, to_lower,
};

use super::arith::{lemma_rounded_zero, split};
use super::big::{big_value, compare, mul_add, shift, shift_decimal};
use super::integral::one_units;
use super::layout::{lemma_split, lemma_units_mono, lemma_units_step, lemma_units_zero};
use super::rounding::{lemma_rounded, nearest, rounded};
use super::{units, B64, INF_MAG, NAN_BITS, SIGN_BIT, UNIT_EXP};

verus! {

/// The end of the run of digits that starts at `from`.
pub open spec fn run_end(s: Seq<char>, from: int) -> int
    decreases s.len() - from,
{
    if 0 <= from < s.len() && digit_char(s[from]) {
        run_end(s, from + 1)
    } else {
        from
    }
}

/// The significant digits of a decimal text and the power of ten of the last one.
pub open spec fn decimal_parts(s: Seq<char>) -> Option<(Seq<char>, int)> {
    let a = run_end(s, 0);
    let dot = a < s.len() && s[a] == '.';
    let b = if dot {
        run_end(s, a + 1)
    } else {
        a
    };
    let digits = if dot {
        s.subrange(0, a) + s.subrange(a + 1, b)
    } else {
        s.subrange(0, a)
    };
    let fraction = if dot {
        b - (a + 1)
    } else {
        0
    };
    if digits.len() == 0 {
        None
    } else if b == s.len() {
        Some((digits, -fraction))
    } else if s[b] == 'e' || s[b] == 'E' {
        match integer_value(s.subrange(b + 1, s.len() as int)) {
            Some(x) => Some((digits, x - fraction)),
            None => None,
        }
    } else {
        None
    }
}

/// The magnitude nearest to `d * 10^e`.
pub open spec fn decimal_mag(d: int, e: int) -> int {
    if e >= 0 {
        rounded(d * pow(10, e as nat) * one_units(), 1)
    } else {
        rounded(d * one_units(), pow(10, (-e) as nat))
    }
}

/// The number that an unsigned text stands for.
pub open spec fn magnitude_text(s: Seq<char>) -> Option<int> {
    match decimal_parts(s) {
        Some(p) => Some(decimal_mag(digits_value(p.0), p.1)),
        None => if lower(s) == "inf"@ || lower(s) == "infinity"@ {
            Some(INF_MAG as int)
        } else if lower(s) == "nan"@ {
            Some(NAN_BITS as int)
        } else {
            None
        },
    }
}

/// The number that a text stands for: an optional sign, then digits with an
/// optional point and exponent, or `inf`, `infinity` or `nan` in any case.
#[verifier::opaque]
pub open spec fn number_text(s: Seq<char>) -> Option<B64> {
    if s.len() == 0 {
        None
    } else {
        let signed = s[0] == '-' || s[0] == '+';
        let rest = if signed {
            s.drop_first()
        } else {
            s
        };
        match magnitude_text(rest) {
            Some(m) => Some(B64::signed(s[0] == '-', m)),
            None => None,
        }
    }
}

proof fn lemma_run_end(s: Seq<char>, from: int, end: int)
    requires
        0 <= from <= end <= s.len(),
        all_digits(s.subrange(from, end)),
        end < s.len() ==> !digit_char(s[end]),
    ensures
        run_end(s, from) == end,
    decreases end - from,
{
    if from < end {
        assert(digit_char(s.subrange(from, end)[0]));
        assert forall|i: int| 0 <= i < s.subrange(from + 1, end).len() implies digit_char(
            #[trigger] s.subrange(from + 1, end)[i],
        ) by {
            assert(digit_char(s.subrange(from, end)[i + 1]));
        }
        lemma_run_end(s, from + 1, end);
    }
}

/// Powers of ten outgrow powers of eight.
proof fn lemma_ten_to(n: nat)
    ensures
        pow(10, n) >= pow2(3 * n),
        pow(10, n) > 0,
    decreases n,
{
    reveal(pow);
    lemma_pow_positive(10, n);
    if n > 0 {
        let k = (n - 1) as nat;
        lemma_ten_to(k);
        lemma_pow2_adds(3, 3 * k);
        lemma2_to64();
        assert(pow(10, n) == 10 * pow(10, k));
    } else {
        lemma2_to64();
    }
}

/// Digits stand for less than the power of ten of their number.
proof fn lemma_digits_bound(s: Seq<char>)
    requires
        all_digits(s),
    ensures
        0 <= digits_value(s) < pow(10, s.len()),
    decreases s.len(),
{
    reveal(pow);
    lemma_digits_value_nonnegative(s);
    if s.len() > 0 {
        let t = s.drop_last();
        assert forall|i: int| 0 <= i < t.len() implies digit_char(#[trigger] t[i]) by {
            assert(digit_char(s[i]));
        }
        lemma_digits_bound(t);
        assert(digit_char(s.last()));
        assert(pow(10, s.len()) == 10 * pow(10, t.len()));
    }
}

/// What is at least the power of two after the largest number rounds to infinity.
proof fn lemma_overflow(num: int)
    requires
        num >= units(INF_MAG as int),
    ensures
        rounded(num, 1) == INF_MAG,
{
    lemma_units_mono(INF_MAG - 1, INF_MAG as int);
    lemma_rounded(INF_MAG as int, num, 1);
}

proof fn lemma_huge(d: int, e: int)
    requires
        d >= 1,
        e >= 400,
    ensures
        decimal_mag(d, e) == INF_MAG,
{
    let p = pow(10, e as nat);
    let one = one_units();
    lemma_ten_to(e as nat);
    lemma_pow2_pos(UNIT_EXP as nat);
    lemma_split(INF_MAG as int);
    lemma2_to64();
    lemma2_to64_rest();
    lemma_pow2_adds(52, 2046);
    lemma_pow2_adds((3 * e) as nat, UNIT_EXP as nat);
    lemma_pow2_strictly_increases(2098, (3 * e + UNIT_EXP) as nat);
    assert(d * p * one >= pow2((3 * e) as nat) * one) by (nonlinear_arith)
        requires
            d >= 1,
            p >= pow2((3 * e) as nat),
            pow2((3 * e) as nat) >= 0,
            one > 0,
    ;
    lemma_overflow(d * p * one);
}

proof fn lemma_tiny(d: int, n: nat, e: int)
    requires
        0 <= d < pow(10, n),
        e + n <= -400,
    ensures
        decimal_mag(d, e) == 0,
{
    let k = (-e - n) as nat;
    let p = pow(10, n);
    let q = pow(10, k);
    let one = one_units();
    lemma_pow_adds(10, n, k);
    lemma_ten_to(k);
    lemma_ten_to(n);
    lemma_units_zero();
    lemma_pow2_pos(UNIT_EXP as nat);
    lemma_pow2_unfold((UNIT_EXP + 1) as nat);
    lemma_pow2_strictly_increases((UNIT_EXP + 1) as nat, 3 * k);
    let den = pow(10, (-e) as nat);
    assert(n + k == -e);
    assert(2 * (d * one) < den * 1) by (nonlinear_arith)
        requires
            den == p * q,
            0 <= d < p,
            q > 2 * one,
            one > 0,
    ;
    assert(0 <= d * one) by (nonlinear_arith)
        requires
            d >= 0,
            one > 0,
    ;
    lemma_rounded(0, d * one, den);
}

/// The lower midpoint of `m` does not lie above `num / den` units.
spec fn reaches(m: int, num: int, den: int) -> bool {
    let twice = den * (units(m - 1) + units(m));
    twice < 2 * num || (twice == 2 * num && m % 2 == 0)
}

fn reaches_big(mag: u64, num: &Vec<u64>, den: &Vec<u64>) -> (r: bool)
    requires
        0 < mag <= INF_MAG,
    ensures
        r == reaches(mag as int, big_value(num@) * one_units(), big_value(den@)),
{
    let (m, e) = split(mag - 1);
    let ghost n = big_value(num@);
    let ghost d = big_value(den@);
    let ghost one = one_units();
    let ghost pe = pow2(e as nat) as int;
    proof {
        lemma_units_step(mag - 1);
        lemma_pow2_unfold((UNIT_EXP + 1) as nat);
        lemma_pow2_pos(e as nat);
        lemma_pow2_pos(UNIT_EXP as nat);
    }
    let ghost twice = d * (units(mag - 1) + units(mag as int));
    proof {
        assert(twice == (d * (2 * m + 1)) * pe) by (nonlinear_arith)
            requires
                twice == d * (m * pe + (m * pe + pe)),
        ;
    }
    let left: Vec<u64> = mul_add(den, 2 * m + 1, 0);
    let (below, equal) = if e >= 1075 {
        let k: u32 = e - 1075;
        proof {
            lemma_pow2_adds((UNIT_EXP + 1) as nat, k as nat);
            let l = d * (2 * m + 1);
            let x = l * pow2(k as nat);
            assert(twice == x * (2 * one)) by (nonlinear_arith)
                requires
                    twice == l * pe,
                    pe == (2 * one) * pow2(k as nat),
                    x == l * pow2(k as nat),
            ;
            assert(2 * (n * one) == n * (2 * one)) by (nonlinear_arith);
            lemma_scaled_order(x, n, 2 * one);
        }
        compare(&shift(&left, k), num)
    } else {
        let k: u32 = 1075 - e;
        proof {
            lemma_pow2_adds(e as nat, k as nat);
            let l = d * (2 * m + 1);
            let x = n * pow2(k as nat);
            assert(2 * (n * one) == x * pe) by (nonlinear_arith)
                requires
                    2 * one == pe * pow2(k as nat),
                    x == n * pow2(k as nat),
            ;
            lemma_scaled_order(l, x, pe);
        }
        compare(&left, &shift(num, k))
    };
    below || (equal && mag % 2 == 0)
}

/// A positive factor keeps the order.
proof fn lemma_scaled_order(x: int, y: int, c: int)
    requires
        c > 0,
    ensures
        x < y <==> x * c < y * c,
        x == y <==> x * c == y * c,
{
    assert(x < y ==> x * c < y * c) by (nonlinear_arith)
        requires
            c > 0,
    ;
    assert(y < x ==> y * c < x * c) by (nonlinear_arith)
        requires
            c > 0,
    ;
}

/// The magnitude nearest to `num / den`.
fn nearest_mag(num: &Vec<u64>, den: &Vec<u64>) -> (mag: u64)
    requires
        big_value(den@) > 0,
    ensures
        mag == rounded(big_value(num@) * one_units(), big_value(den@)),
        mag <= INF_MAG,
{
    let ghost n = big_value(num@) * one_units();
    let ghost d = big_value(den@);
    let mut low: u64 = 0;
    let mut high: u64 = INF_MAG + 1;
    while high - low > 1
        invariant
            low < high <= INF_MAG + 1,
            n == big_value(num@) * one_units(),
            d == big_value(den@),
            low > 0 ==> reaches(low as int, n, d),
            high <= INF_MAG ==> !reaches(high as int, n, d),
        decreases high - low,
    {
        let middle: u64 = low + (high - low) / 2;
        if reaches_big(middle, num, den) {
            low = middle;
        } else {
            high = middle;
        }
    }
    proof {
        assert(nearest(low as int, n, d));
        lemma_rounded(low as int, n, d);
    }
    low
}

/// The limbs of a run of digits.
fn big_digits(s: &[char]) -> (r: Vec<u64>)
    requires
        all_digits(s@),
    ensures
        big_value(r@) == digits_value(s@),
{
    let mut r: Vec<u64> = Vec::new();
    let mut i: usize = 0;
    while i < s.len()
        invariant
            all_digits(s@),
            i <= s.len(),
            big_value(r@) == digits_value(s@.take(i as int)),
        decreases s.len() - i,
    {
        proof {
            assert(s@.take(i + 1).drop_last() == s@.take(i as int));
            assert(digit_char(s@[i as int]));
        }
        r = mul_add(&r, 10, (s[i] as u32 - '0' as u32) as u64);
        i = i + 1;
    }
    assert(s@.take(s@.len() as int) == s@);
    r
}

/// An integer, exact up to `10^29` and beyond it on the right side.
fn bounded_integer(s: &[char]) -> (r: Option<i128>)
    ensures
        match r {
            Some(n) => {
                &&& integer_value(s@) is Some
                &&& n == integer_value(s@)->0 || (n >= 100_000_000_000_000_000_000_000_000_000
                    && integer_value(s@)->0 >= 100_000_000_000_000_000_000_000_000_000) || (n
                    <= -100_000_000_000_000_000_000_000_000_000 && integer_value(s@)->0
                    <= -100_000_000_000_000_000_000_000_000_000)
                &&& -0x1000_0000_0000_0000_0000_0000_0000 <= n <= 0x1000_0000_0000_0000_0000_0000_0000
            },
            None => integer_value(s@) is None,
        },
{
    if s.len() == 0 {
        return None;
    }
    let signed: bool = s[0] == '-' || s[0] == '+';
    let start: usize = if signed { 1 } else { 0 };
    let digits = piece(s, start, s.len());
    assert(signed ==> digits@ == s@.drop_first());
    assert(!signed ==> digits@ == s@);
    let end: usize = digits_end(&digits, 0);
    assert(digits@.subrange(0, digits@.len() as int) == digits@);
    if digits.len() == 0 || end < digits.len() {
        return None;
    }
    let mut n: i128 = 0;
    let mut i: usize = 0;
    while i < digits.len()
        invariant
            all_digits(digits@),
            i <= digits.len(),
            0 <= n <= 0x1000_0000_0000_0000_0000_0000_0000,
            n == digits_value(digits@.take(i as int)) || (n >= 100_000_000_000_000_000_000_000_000_000
                && digits_value(digits@.take(i as int)) >= 100_000_000_000_000_000_000_000_000_000),
        decreases digits.len() - i,
    {
        proof {
            assert(digits@.take(i + 1).drop_last() == digits@.take(i as int));
            assert(digit_char(digits@[i as int]));
        }
        if n < 100_000_000_000_000_000_000_000_000_000 {
            n = n * 10 + (digits[i] as u32 - '0' as u32) as i128;
        }
        i = i + 1;
    }
    assert(digits@.take(digits@.len() as int) == digits@);
    Some(if s[0] == '-' { -n } else { n })
}

/// The magnitude nearest to the digits times a power of ten.
fn decimal_number(digits: &[char], e: i128) -> (mag: u64)
    requires
        all_digits(digits@),
    ensures
        mag == decimal_mag(digits_value(digits@), e as int),
        mag <= INF_MAG,
{
    let num: Vec<u64> = big_digits(digits);
    let ghost d = digits_value(digits@);
    let none: Vec<u64> = Vec::new();
    let (_, zero) = compare(&num, &none);
    proof {
        lemma_digits_bound(digits@);
        lemma_pow2_pos(UNIT_EXP as nat);
    }
    if zero {
        proof {
            assert(d * one_units() == 0) by (nonlinear_arith)
                requires
                    d == 0,
            ;
            if e >= 0 {
                assert(d * pow(10, e as nat) * one_units() == 0) by (nonlinear_arith)
                    requires
                        d == 0,
                ;
                lemma_rounded_zero(1);
            } else {
                lemma_ten_to((-e) as nat);
                lemma_rounded_zero(pow(10, (-e) as nat));
            }
        }
        return 0;
    }
    if e >= 400 {
        proof {
            lemma_huge(d, e as int);
        }
        return INF_MAG;
    }
    if e < -400 - digits.len() as i128 || e == -400 - digits.len() as i128 {
        proof {
            lemma_tiny(d, digits@.len(), e as int);
        }
        return 0;
    }
    let unit: Vec<u64> = mul_add(&none, 0, 1);
    if e >= 0 {
        let big: Vec<u64> = shift_decimal(&num, e as u128);
        nearest_mag(&big, &unit)
    } else {
        let den: Vec<u64> = shift_decimal(&unit, (-e) as u128);
        proof {
            lemma_ten_to((-e) as nat);
            assert(1 * pow(10, (-e) as nat) == pow(10, (-e) as nat)) by (nonlinear_arith);
        }
        nearest_mag(&num, &den)
    }
}

fn is_word(s: &[char], word: &str) -> (r: bool)
    ensures
        r == (lower(s@) == word@),
{
    same_chars(&to_lower(s), &chars_of(word))
}

fn magnitude_of_text(s: &[char]) -> (r: Option<u64>)
    ensures
        match r {
            Some(m) => magnitude_text(s@) == Some(m as int),
            None => magnitude_text(s@) is None,
        },
        r is Some ==> r->0 < SIGN_BIT,
{
    let a: usize = digits_end(s, 0);
    let dot: bool = a < s.len() && s[a] == '.';
    let b: usize = if dot { digits_end(s, a + 1) } else { a };
    proof {
        lemma_run_end(s@, 0, a as int);
        if dot {
            lemma_run_end(s@, a + 1, b as int);
        }
    }
    let mut digits: Vec<char> = piece(s, 0, a);
    let ghost whole = digits@;
    if dot {
        let mut tail: Vec<char> = piece(s, a + 1, b);
        let ghost part = tail@;
        digits.append(&mut tail);
        assert forall|i: int| 0 <= i < digits@.len() implies digit_char(#[trigger] digits@[i]) by {
            if i < whole.len() {
                assert(digit_char(whole[i]));
            } else {
                assert(digit_char(part[i - whole.len()]));
            }
        }
    }
    let fraction: i128 = if dot { b as i128 - (a as i128 + 1) } else { 0 };
    let exponent: Option<i128> = if digits.len() == 0 {
        None
    } else if b == s.len() {
        Some(0)
    } else if s[b] == 'e' || s[b] == 'E' {
        bounded_integer(&piece(s, b + 1, s.len()))
    } else {
        None
    };
    match exponent {
        Some(x) => {
            let e: i128 = x - fraction;
            proof {
                let p = decimal_parts(s@)->0;
                lemma_digits_bound(digits@);
                if e != p.1 {
                    // Both exponents lie beyond the same cutoff.
                    if x > 0 {
                        if digits_value(digits@) == 0 {
                            lemma_zero_digits(e as int);
                            lemma_zero_digits(p.1);
                        } else {
                            lemma_huge(digits_value(digits@), e as int);
                            lemma_huge(digits_value(digits@), p.1);
                        }
                    } else {
                        lemma_tiny(digits_value(digits@), digits@.len(), e as int);
                        lemma_tiny(digits_value(digits@), digits@.len(), p.1);
                    }
                }
            }
            Some(decimal_number(&digits, e))
        },
        None => {
            if is_word(s, "inf") || is_word(s, "infinity") {
                Some(INF_MAG)
            } else if is_word(s, "nan") {
                Some(NAN_BITS)
            } else {
                None
            }
        },
    }
}

proof fn lemma_zero_digits(e: int)
    ensures
        decimal_mag(0, e) == 0,
{
    assert(0 * one_units() == 0) by (nonlinear_arith);
    if e >= 0 {
        assert(0 * pow(10, e as nat) * one_units() == 0) by (nonlinear_arith);
        lemma_rounded_zero(1);
    } else {
        lemma_ten_to((-e) as nat);
        lemma_rounded_zero(pow(10, (-e) as nat));
    }
}

/// The magnitude of units `u` is at least `10^d`.
pub open spec fn reaches_power(u: int, d: int) -> bool {
    if d >= 0 {
        pow(10, d as nat) * one_units() <= u
    } else {
        one_units() <= u * pow(10, (-d) as nat)
    }
}

/// The power of ten of the first digit of a positive value.
pub open spec fn decade(u: int) -> int {
    choose|d: int| reaches_power(u, d) && !#[trigger] reaches_power(u, d + 1)
}

proof fn lemma_reaches_lower(u: int, d: int)
    requires
        u >= 0,
        reaches_power(u, d + 1),
    ensures
        reaches_power(u, d),
{
    reveal(pow);
    lemma_pow2_pos(UNIT_EXP as nat);
    let one = one_units();
    if d >= 0 {
        let p = pow(10, d as nat);
        lemma_pow_positive(10, d as nat);
        assert(pow(10, (d + 1) as nat) == 10 * p);
        assert(p * one <= (10 * p) * one) by (nonlinear_arith)
            requires
                p > 0,
                one > 0,
        ;
    } else {
        let p = pow(10, (-d - 1) as nat);
        lemma_pow_positive(10, (-d - 1) as nat);
        assert(pow(10, (-d) as nat) == 10 * p);
        assert(u * p <= u * (10 * p)) by (nonlinear_arith)
            requires
                p > 0,
                u >= 0,
        ;
        if d == -1 {
            assert(pow(10, 0) == 1);
            assert(p * one == one) by (nonlinear_arith)
                requires
                    p == 1,
            ;
            assert(u * p == u) by (nonlinear_arith)
                requires
                    p == 1,
            ;
        }
    }
}

proof fn lemma_reaches_all_lower(u: int, d: int, k: int)
    requires
        u >= 0,
        reaches_power(u, d),
        k <= d,
    ensures
        reaches_power(u, k),
    decreases d - k,
{
    if k < d {
        lemma_reaches_lower(u, d - 1);
        lemma_reaches_all_lower(u, d - 1, k);
    }
}

/// The decade of a value is the one that it reaches without reaching the next.
pub proof fn lemma_decade(u: int, d: int)
    requires
        u >= 0,
        reaches_power(u, d),
        !reaches_power(u, d + 1),
    ensures
        decade(u) == d,
{
    let k = decade(u);
    assert(reaches_power(u, k) && !reaches_power(u, k + 1));
    if k < d {
        lemma_reaches_all_lower(u, d, k + 1);
    } else if d < k {
        lemma_reaches_all_lower(u, k, d + 1);
    }
}

/// Whether a magnitude is at least `10^d`.
pub fn at_least_power(mag: u64, d: i32) -> (r: bool)
    requires
        mag < INF_MAG,
        -1000 <= d <= 1000,
    ensures
        r == reaches_power(units(mag as int), d as int),
{
    let (m, e) = split(mag);
    let none: Vec<u64> = Vec::new();
    let unit: Vec<u64> = mul_add(&none, 0, 1);
    let value: Vec<u64> = shift(&mul_add(&none, 0, m), e);
    let one: Vec<u64> = shift(&unit, 1074);
    proof {
        lemma_pow2_pos(UNIT_EXP as nat);
        assert(1 * pow2(UNIT_EXP as nat) == one_units()) by (nonlinear_arith);
    }
    let (below, _) = if d >= 0 {
        let power: Vec<u64> = shift_decimal(&one, d as u128);
        proof {
            assert(one_units() * pow(10, d as nat) == pow(10, d as nat) * one_units()) by (nonlinear_arith);
        }
        compare(&value, &power)
    } else {
        compare(&shift_decimal(&value, (-d) as u128), &one)
    };
    !below
}

/// No finite number reaches `10^400`.
pub proof fn lemma_below_power(mag: int)
    requires
        0 <= mag < INF_MAG,
    ensures
        !reaches_power(units(mag), 400),
{
    lemma_ten_to(400);
    lemma_units_mono(mag, INF_MAG as int);
    lemma_split(INF_MAG as int);
    lemma2_to64();
    lemma2_to64_rest();
    lemma_pow2_adds(52, 2046);
    lemma_pow2_adds(1200, UNIT_EXP as nat);
    lemma_pow2_strictly_increases(2098, 2274);
    lemma_pow2_pos(UNIT_EXP as nat);
    let one = one_units();
    assert(pow(10, 400) * one >= pow2(1200) * one) by (nonlinear_arith)
        requires
            pow(10, 400) >= pow2(1200),
            one > 0,
    ;
}

/// Every positive number reaches `10^-400`.
pub proof fn lemma_above_power(u: int)
    requires
        u > 0,
    ensures
        reaches_power(u, -400),
{
    lemma_ten_to(400);
    lemma_pow2_strictly_increases(UNIT_EXP as nat, 1200);
    let p = pow(10, 400);
    assert(p <= u * p) by (nonlinear_arith)
        requires
            u >= 1,
            p > 0,
    ;
}

impl B64 {
    /// The number nearest to a power of ten.
    pub open spec fn spec_power_of_ten(k: int) -> B64 {
        B64::signed(false, decimal_mag(1, k))
    }

    /// The number nearest to a power of ten.
    pub fn power_of_ten(k: i32) -> (r: B64)
        ensures
            r == B64::spec_power_of_ten(k as int),
    {
        let mut digit: Vec<char> = Vec::new();
        digit.push('1');
        proof {
            assert(all_digits(digit@));
            assert(digit@.drop_last() == Seq::<char>::empty());
            assert(digits_value(digit@.drop_last()) == 0);
            assert(digits_value(digit@) == 1);
        }
        B64 { bits: decimal_number(&digit, k as i128) }
    }

    /// Reads a number.
    pub fn parse(s: &[char]) -> (r: Option<B64>)
        ensures
            r == number_text(s@),
    {
        reveal(number_text);
        if s.len() == 0 {
            return None;
        }
        let signed: bool = s[0] == '-' || s[0] == '+';
        let start: usize = if signed { 1 } else { 0 };
        let rest = piece(s, start, s.len());
        assert(signed ==> rest@ == s@.drop_first());
        assert(!signed ==> rest@ == s@);
        match magnitude_of_text(&rest) {
            Some(m) => Some(
                B64 { bits: if s[0] == '-' { m + SIGN_BIT } else { m } },
            ),
            None => None,
        }
    }
}

} // verus!
