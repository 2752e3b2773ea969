//! What the texts of numbers stand for.

use vstd::arithmetic::power::pow;
use vstd::arithmetic::power2::lemma_pow2_pos;
use vstd::prelude::*;

use crate::hft::readings::lemma_whole_part;
use crate::text::{
    all_digits, decimal_text, digit_char, digits_value, i64_value, law_decimal_text_reads_back, usize_value,
};

use super::decimal::{decimal_mag, decimal_parts, number_text, run_end};
use super::error::{
    lemma_count_exact, lemma_ratio_times, lemma_result_near, lemma_whole_product, limit, size, units_in_one,
    whole,
};
use super::facts::{lemma_rounded_range, lemma_units_order};
use super::fixed::{fixed_text, millionths, nearest_whole, places};
use super::integral::one_units;
use super::measure::lemma_exact_signs;
use super::rounding::rounded;
use super::{units, B64, HIDDEN, INF_MAG, UNIT_EXP};

verus! {

proof fn lemma_run(s: Seq<char>, from: int, end: int)
    requires
        0 <= from <= end <= s.len(),
        forall|i: int| from <= i < end ==> digit_char(#[trigger] s[i]),
        end < s.len() ==> !digit_char(s[end]),
    ensures
        run_end(s, from) == end,
    decreases end - from,
{
    if from < end {
        assert(digit_char(s[from]));
        lemma_run(s, from + 1, end);
    }
}

/// The digits of a whole number up to `2^53` read as that number exactly, and
/// with a minus in front as its negative.
pub proof fn law_digits_read_as_their_number(n: u64)
    requires
        0 < n <= 2 * HIDDEN,
    ensures
        number_text(decimal_text(n as nat)) is Some,
        number_text(decimal_text(n as nat))->0.exact() == whole(n as int),
        number_text(seq!['-'] + decimal_text(n as nat)) == Some(number_text(decimal_text(n as nat))->0.neg()),
        number_text(seq!['-'] + decimal_text(n as nat))->0.exact() == -whole(n as int),
{
    reveal(number_text);
    let s = decimal_text(n as nat);
    law_decimal_text_reads_back(n as nat);
    assert(s.len() > 0);
    assert(digit_char(s[0]));
    lemma_run(s, 0, s.len() as int);
    assert(s.subrange(0, s.len() as int) =~= s);
    assert(decimal_parts(s) == Some((s, 0int)));
    let one = one_units();
    assert(pow(10, 0) == 1) by {
        vstd::arithmetic::power::lemma_pow0(10);
    }
    assert(n as int * pow(10, 0) * one == n as int * one) by (nonlinear_arith)
        requires
            pow(10, 0) == 1,
    ;
    assert(B64::from_u64(n) == B64::signed(false, rounded(n * one, 1))) by {
        reveal(B64::spec_from_u64);
    }
    lemma_count_exact(n);
    assert(number_text(s) == Some(B64::from_u64(n)));
    let t = seq!['-'] + s;
    assert(t[0] == '-');
    assert(t.drop_first() =~= s);
    lemma_pow2_pos(UNIT_EXP as nat);
    assert(n * one >= 0) by (nonlinear_arith)
        requires
            one > 0,
    ;
    lemma_rounded_range(n * one, 1);
    let x = B64::from_u64(n);
    assert(number_text(t) == Some(x.neg()));
    lemma_exact_signs(x);
}

/// Digits with a point read as their decimal fraction, up to rounding.
pub proof fn law_decimals_read_as_their_fraction(front: Seq<char>, back: Seq<char>)
    requires
        all_digits(front),
        all_digits(back),
        front.len() > 0,
        whole(digits_value(front + back)) <= limit(),
    ensures
        number_text(front.push('.') + back) is Some,
        number_text(front.push('.') + back)->0.near(
            whole(digits_value(front + back)) / whole(pow(10, back.len() as nat)),
        ),
{
    reveal(number_text);
    let s = front.push('.') + back;
    let a = front.len() as int;
    assert forall|i: int| 0 <= i < a implies digit_char(#[trigger] s[i]) by {
        assert(s[i] == front[i]);
    }
    assert(s[a] == '.');
    lemma_run(s, 0, a);
    assert forall|i: int| a + 1 <= i < s.len() implies digit_char(#[trigger] s[i]) by {
        assert(s[i] == back[i - a - 1]);
    }
    lemma_run(s, a + 1, s.len() as int);
    assert(s.subrange(0, a) =~= front);
    assert(s.subrange(a + 1, s.len() as int) =~= back);
    let k = back.len() as int;
    let digits = front + back;
    assert(decimal_parts(s) == Some((digits, -k)));
    assert(digit_char(s[0]));
    let d = digits_value(digits);
    lemma_digits_not_negative(digits);
    let den = pow(10, k as nat);
    vstd::arithmetic::power::lemma_pow_positive(10, k as nat);
    let one = one_units();
    lemma_pow2_pos(UNIT_EXP as nat);
    assert(d * one >= 0) by (nonlinear_arith)
        requires
            d >= 0,
            one > 0,
    ;
    if k == 0 {
        vstd::arithmetic::power::lemma_pow0(10);
        assert(d * pow(10, 0) * one == d * one) by (nonlinear_arith)
            requires
                pow(10, 0) == 1,
        ;
    }
    let m = rounded(d * one, den);
    assert(decimal_mag(d, -k) == m);
    lemma_rounded_range(d * one, den);
    let r = B64::signed(false, m);
    assert(number_text(s) == Some(r));
    lemma_fraction_near(r, d, den);
}

proof fn lemma_digits_not_negative(s: Seq<char>)
    requires
        all_digits(s),
    ensures
        digits_value(s) >= 0,
    decreases s.len(),
{
    if s.len() > 0 {
        let front = s.drop_last();
        assert forall|i: int| 0 <= i < front.len() implies digit_char(#[trigger] front[i]) by {
            assert(front[i] == s[i]);
        }
        lemma_digits_not_negative(front);
        assert(digit_char(s[s.len() - 1]));
    }
}

proof fn lemma_fraction_near(r: B64, d: int, den: int)
    requires
        d >= 0,
        den > 0,
        0 <= rounded(d * one_units(), den) <= INF_MAG,
        r == B64::signed(false, rounded(d * one_units(), den)),
        whole(d) <= limit(),
    ensures
        r.near(whole(d) / whole(den)),
{
    let one = one_units();
    let u = units_in_one();
    lemma_pow2_pos(UNIT_EXP as nat);
    let v = d * one;
    assert(v >= 0) by (nonlinear_arith)
        requires
            v == d * one,
            d >= 0,
            one > 0,
    ;
    lemma_whole_product(d, one);
    let (a, b) = (whole(d), whole(den));
    let q = a / b;
    lemma_ratio_times(a, b);
    let x = q * u;
    assert(x * b == a * u) by (nonlinear_arith)
        requires
            x == q * u,
            q * b == a,
    ;
    assert(x / u == q) by (nonlinear_arith)
        requires
            x == q * u,
            u > 0real,
    ;
    assert(0real <= q <= a) by (nonlinear_arith)
        requires
            q * b == a,
            b >= 1real,
            a >= 0real,
    ;
    lemma_result_near(r, v, den, x);
}

/// A number is shown with six places, to the nearest: the millionths that the
/// text shows are off by half a millionth at most.
pub proof fn law_six_places_are_shown(x: B64)
    requires
        x.finite(),
    ensures
        ({
            let n = millionths(x.mag());
            &&& n >= 0
            &&& fixed_text(x) == (if x.negative() { "-"@ } else { ""@ }) + decimal_text((n / 1_000_000) as nat) + "."@
                + places(n as nat, 6)
            &&& 2real * size(whole(n) - 1000000real * size(x.exact())) <= 1real
        }),
{
    let one = one_units();
    lemma_pow2_pos(UNIT_EXP as nat);
    let v = units(x.mag());
    lemma_units_order(0, x.mag());
    super::layout::lemma_units_zero();
    let p = v * 1_000_000;
    let n = nearest_whole(p, one);
    let (q, r) = (p / one, p % one);
    vstd::arithmetic::div_mod::lemma_fundamental_div_mod(p, one);
    vstd::arithmetic::div_mod::lemma_mod_bound(p, one);
    assert(q >= 0) by (nonlinear_arith)
        requires
            p == one * q + r,
            p >= 0,
            r < one,
            one > 0,
    ;
    assert(one * (q + 1) == one * q + one) by (nonlinear_arith);
    assert(-one <= 2 * (one * n - p) <= one);
    lemma_exact_signs(x);
    reveal(B64::exact);
    let u = units_in_one();
    let e = x.abs().exact();
    assert(x.abs().value() == v);
    lemma_ratio_times(whole(v), u);
    lemma_whole_product(one, n);
    let w = whole(n);
    let d = w - 1000000real * e;
    assert(d * u == u * w - 1000000real * whole(v)) by (nonlinear_arith)
        requires
            d == w - 1000000real * e,
            e * u == whole(v),
    ;
    assert(whole(p) == 1000000real * whole(v));
    let z = d * u;
    assert(z == whole(one * n) - whole(p));
    assert(-u <= 2real * z <= u);
    assert(-1real <= 2real * d <= 1real) by (nonlinear_arith)
        requires
            z == d * u,
            -u <= 2real * z <= u,
            u > 0real,
    ;
}

/// The digits of a whole number read as that integer, with a minus in front as
/// its negative; a count has no minus.
pub proof fn law_digits_read_as_their_integer(n: u64)
    ensures
        n <= i64::MAX ==> i64_value(decimal_text(n as nat)) == Some(n as i64),
        n <= i64::MAX ==> i64_value(seq!['-'] + decimal_text(n as nat)) == Some((-n) as i64),
        n <= usize::MAX ==> usize_value(decimal_text(n as nat)) == Some(n as usize),
        usize_value(seq!['-'] + decimal_text(n as nat)) is None,
{
    let s = decimal_text(n as nat);
    law_decimal_text_reads_back(n as nat);
    assert(s.len() > 0);
    assert(digit_char(s[0]));
    let t = seq!['-'] + s;
    assert(t[0] == '-');
    assert(t.drop_first() =~= s);
}

/// Counts up to `2^53` survive as numbers.
pub proof fn law_counts_survive_as_numbers(n: u64)
    requires
        0 < n <= 2 * HIDDEN,
    ensures
        B64::from_u64(n).to_u64() == n,
{
    let x = B64::from_u64(n);
    lemma_count_exact(n);
    lemma_whole_part(x);
    let k = x.to_u64() as int;
    assert(whole(k) <= whole(n as int) < whole(k) + 1real);
}

} // verus!
