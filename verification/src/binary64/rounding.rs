//! Rounding to nearest, ties to even.

use vstd::arithmetic::div_mod::lemma_fundamental_div_mod;
use vstd::arithmetic::power2::{
    lemma2_to64, lemma2_to64_rest, lemma_pow2_adds, lemma_pow2_pos, lemma_pow2_strictly_increases, lemma_pow2_unfold,
    pow2,
};
use vstd::prelude::*;

use super::layout::{lemma_units_mono, lemma_units_of, lemma_units_step, lemma_units_zero, significand};
use super::{units, HIDDEN, INF_MAG};

verus! {

/// `m` is the magnitude nearest to `num / den` units; a tie goes to the even one.
pub open spec fn nearest(m: int, num: int, den: int) -> bool {
    &&& 0 <= m <= INF_MAG
    &&& 0 < m ==> {
        let twice = den * (units(m - 1) + units(m));
        twice < 2 * num || (twice == 2 * num && m % 2 == 0)
    }
    &&& m < INF_MAG ==> {
        let twice = den * (units(m) + units(m + 1));
        2 * num < twice || (2 * num == twice && m % 2 == 0)
    }
}

/// The magnitude that `num / den` units round to.
#[verifier::opaque]
pub open spec fn rounded(num: int, den: int) -> int {
    choose|m: int| nearest(m, num, den)
}

/// `m` is the magnitude nearest to the square root of `n` square units.
pub open spec fn nearest_root(m: int, n: int) -> bool {
    &&& 0 <= m <= INF_MAG
    &&& 0 < m ==> {
        let twice = units(m - 1) + units(m);
        twice * twice < 4 * n || (twice * twice == 4 * n && m % 2 == 0)
    }
    &&& m < INF_MAG ==> {
        let twice = units(m) + units(m + 1);
        4 * n < twice * twice || (4 * n == twice * twice && m % 2 == 0)
    }
}

/// The magnitude that the square root of `n` square units rounds to.
#[verifier::opaque]
pub open spec fn rounded_root(n: int) -> int {
    choose|m: int| nearest_root(m, n)
}

/// Midpoints grow with the magnitude.
proof fn lemma_midpoints(a: int, b: int)
    requires
        0 <= a < b,
    ensures
        units(a) + units(a + 1) <= units(b - 1) + units(b),
        a + 1 < b ==> units(a) + units(a + 1) < units(b - 1) + units(b),
        0 <= units(a) < units(b),
{
    lemma_units_zero();
    if 0 < a {
        lemma_units_mono(0, a);
    }
    lemma_units_mono(a, b);
    if a + 1 < b {
        lemma_units_mono(a, b - 1);
        lemma_units_mono(a + 1, b);
    }
}

proof fn lemma_nearest_below(m: int, k: int, num: int, den: int)
    requires
        nearest(m, num, den),
        nearest(k, num, den),
        den > 0,
    ensures
        k <= m,
{
    if m < k {
        lemma_midpoints(m, k);
        let low = units(m) + units(m + 1);
        let high = units(k - 1) + units(k);
        assert(den * low <= den * high) by (nonlinear_arith)
            requires
                low <= high,
                den > 0,
        ;
        if m + 1 < k {
            assert(den * low < den * high) by (nonlinear_arith)
                requires
                    low < high,
                    den > 0,
            ;
        }
    }
}

/// Nearness determines the rounded magnitude.
pub proof fn lemma_rounded(m: int, num: int, den: int)
    requires
        nearest(m, num, den),
        den > 0,
    ensures
        rounded(num, den) == m,
{
    reveal(rounded);
    let k = rounded(num, den);
    assert(nearest(k, num, den));
    lemma_nearest_below(m, k, num, den);
    lemma_nearest_below(k, m, num, den);
}

proof fn lemma_nearest_search(m: int, num: int, den: int)
    requires
        0 <= num,
        den > 0,
        0 <= m <= INF_MAG,
        m < INF_MAG ==> {
            let twice = den * (units(m) + units(m + 1));
            2 * num < twice || (2 * num == twice && m % 2 == 0)
        },
    ensures
        exists|k: int| nearest(k, num, den),
    decreases m,
{
    if m > 0 && !nearest(m, num, den) {
        lemma_nearest_search(m - 1, num, den);
    } else {
        assert(nearest(m, num, den));
    }
}

/// Every ratio has a nearest magnitude.
pub proof fn lemma_rounded_is_nearest(num: int, den: int)
    requires
        0 <= num,
        den > 0,
    ensures
        nearest(rounded(num, den), num, den),
{
    reveal(rounded);
    lemma_nearest_search(INF_MAG as int, num, den);
}

/// Rounding keeps the order of ratios.
pub proof fn lemma_rounded_mono(num1: int, den1: int, num2: int, den2: int)
    requires
        0 <= num1,
        0 <= num2,
        den1 > 0,
        den2 > 0,
        num1 * den2 <= num2 * den1,
    ensures
        rounded(num1, den1) <= rounded(num2, den2),
{
    lemma_rounded_is_nearest(num1, den1);
    lemma_rounded_is_nearest(num2, den2);
    let m = rounded(num1, den1);
    let k = rounded(num2, den2);
    if k < m {
        lemma_midpoints(k, m);
        let low = units(k) + units(k + 1);
        let high = units(m - 1) + units(m);
        // 2 num2 <= den2 low, den1 high <= 2 num1
        assert(den1 * (den2 * low) <= den2 * (den1 * high)) by (nonlinear_arith)
            requires
                low <= high,
                den1 > 0,
                den2 > 0,
        ;
        assert(den2 * (den1 * high) <= den2 * (2 * num1)) by (nonlinear_arith)
            requires
                den1 * high <= 2 * num1,
                den2 > 0,
        ;
        assert(den1 * (2 * num2) <= den1 * (den2 * low)) by (nonlinear_arith)
            requires
                2 * num2 <= den2 * low,
                den1 > 0,
        ;
        assert(den2 * (2 * num1) == 2 * (num1 * den2)) by (nonlinear_arith);
        assert(den1 * (2 * num2) == 2 * (num2 * den1)) by (nonlinear_arith);
        assert(low == high) by (nonlinear_arith)
            requires
                low <= high,
                den1 * (den2 * low) == den2 * (den1 * high),
                den1 > 0,
                den2 > 0,
        ;
        assert(2 * num2 == den2 * low) by (nonlinear_arith)
            requires
                den1 * (2 * num2) == den1 * (den2 * low),
                den1 > 0,
        ;
        assert(2 * num1 == den1 * high) by (nonlinear_arith)
            requires
                den2 * (2 * num1) == den2 * (den1 * high),
                den2 > 0,
        ;
    }
}

/// A magnitude rounds to itself.
pub proof fn lemma_rounded_exact(m: int, den: int)
    requires
        0 <= m <= INF_MAG,
        den > 0,
    ensures
        rounded(units(m) * den, den) == m,
{
    let num = units(m) * den;
    if 0 < m {
        lemma_units_mono(m - 1, m);
        assert(den * (units(m - 1) + units(m)) < 2 * num) by (nonlinear_arith)
            requires
                num == units(m) * den,
                units(m - 1) < units(m),
                den > 0,
        ;
    }
    if m < INF_MAG {
        lemma_units_mono(m, m + 1);
        assert(2 * num < den * (units(m) + units(m + 1))) by (nonlinear_arith)
            requires
                num == units(m) * den,
                units(m) < units(m + 1),
                den > 0,
        ;
    }
    lemma_rounded(m, num, den);
}

proof fn lemma_nearest_root_below(m: int, k: int, n: int)
    requires
        nearest_root(m, n),
        nearest_root(k, n),
    ensures
        k <= m,
{
    if m < k {
        lemma_midpoints(m, k);
        let low = units(m) + units(m + 1);
        let high = units(k - 1) + units(k);
        lemma_units_step(m);
        assert(low * low <= high * high) by (nonlinear_arith)
            requires
                0 <= low <= high,
        ;
        if m + 1 < k {
            assert(low * low < high * high) by (nonlinear_arith)
                requires
                    0 <= low < high,
            ;
        }
    }
}

/// Nearness determines the rounded root.
pub proof fn lemma_rounded_root(m: int, n: int)
    requires
        nearest_root(m, n),
    ensures
        rounded_root(n) == m,
{
    reveal(rounded_root);
    let k = rounded_root(n);
    assert(nearest_root(k, n));
    lemma_nearest_root_below(m, k, n);
    lemma_nearest_root_below(k, m, n);
}

/// `2^e` for a non-negative exponent, 1 otherwise.
pub open spec fn scale_up(e: int) -> int {
    if e >= 0 {
        pow2(e as nat) as int
    } else {
        1
    }
}

/// `2^-e` for a negative exponent, 1 otherwise.
pub open spec fn scale_down(e: int) -> int {
    if e >= 0 {
        1
    } else {
        pow2((-e) as nat) as int
    }
}

/// `mag` is nearest to every value from `m * 2^e` on and before `(m + 1) * 2^e`:
/// to `m * 2^e` itself when `tail` is false, to all that lie above it otherwise.
pub open spec fn packed(mag: int, m: int, e: int, tail: bool) -> bool {
    &&& 0 <= mag <= INF_MAG
    &&& 0 < mag ==> {
        let twice = scale_down(e) * (units(mag - 1) + units(mag));
        let x = 2 * (m * scale_up(e));
        twice < x || (twice == x && (tail || mag % 2 == 0))
    }
    &&& mag < INF_MAG ==> {
        let twice = scale_down(e) * (units(mag) + units(mag + 1));
        if tail {
            2 * ((m + 1) * scale_up(e)) <= twice
        } else {
            let x = 2 * (m * scale_up(e));
            x < twice || (x == twice && mag % 2 == 0)
        }
    }
}

pub proof fn lemma_shift(k: u32)
    requires
        k < 128,
    ensures
        (1u128 << k) == pow2(k as nat),
    decreases k,
{
    lemma2_to64();
    if k == 0 {
        assert((1u128 << 0u32) == 1) by (bit_vector);
    } else {
        lemma_shift((k - 1) as u32);
        lemma_pow2_unfold(k as nat);
        let j = (k - 1) as u32;
        assert(k < 128 && j == k - 1 ==> (1u128 << k) == 2 * (1u128 << j)) by (bit_vector);
    }
}

/// `2^k`.
pub fn power_of_two(k: u32) -> (r: u128)
    requires
        k < 128,
    ensures
        r == pow2(k as nat),
        r > 0,
{
    proof {
        lemma_shift(k);
        lemma_pow2_pos(k as nat);
    }
    1u128 << k
}

/// The number of binary digits of a positive integer.
pub fn bit_length(m: u128) -> (l: u32)
    requires
        m > 0,
    ensures
        1 <= l <= 128,
        pow2((l - 1) as nat) <= m < pow2(l as nat),
{
    let mut n: u128 = m;
    let mut l: u32 = 0;
    proof {
        lemma2_to64();
    }
    while n > 1
        invariant
            n >= 1,
            l <= 127,
            pow2(l as nat) * n <= m < pow2(l as nat) * (n + 1),
            pow2(l as nat) > 0,
        decreases n,
    {
        proof {
            lemma_pow2_unfold((l + 1) as nat);
            let p = pow2(l as nat) as int;
            let h = n as int / 2;
            assert(p * n >= p * (2 * h) && p * (n + 1) <= p * (2 * (h + 1))) by (nonlinear_arith)
                requires
                    p > 0,
                    2 * h <= n <= 2 * h + 1,
            ;
            assert(p * (2 * h) == (2 * p) * h && p * (2 * (h + 1)) == (2 * p) * (h + 1)) by (nonlinear_arith);
            if l >= 127 {
                assert(p * n >= p * 2) by (nonlinear_arith)
                    requires
                        p > 0,
                        n >= 2,
                ;
                lemma_two_to_128();
                assert(false);
            }
        }
        n = n / 2;
        l = l + 1;
    }
    proof {
        lemma_pow2_unfold((l + 1) as nat);
        assert(pow2(l as nat) * 1 == pow2(l as nat)) by (nonlinear_arith);
        assert(pow2(l as nat) * (1 + 1) == 2 * pow2(l as nat)) by (nonlinear_arith);
    }
    l + 1
}

pub proof fn lemma_two_to_128()
    ensures
        pow2(128) == 0x1_0000_0000_0000_0000_0000_0000_0000_0000int,
        pow2(127) == 0x8000_0000_0000_0000_0000_0000_0000_0000int,
{
    lemma2_to64();
    lemma2_to64_rest();
    lemma_pow2_adds(64, 64);
    lemma_pow2_unfold(128);
}

/// The scale of a shifted exponent.
proof fn lemma_scales(e: int, t: nat, d: nat)
    requires
        t == e + d,
    ensures
        pow2(t) * scale_down(e) == pow2(d) * scale_up(e),
        scale_up(e) > 0,
        scale_down(e) > 0,
        pow2(t) > 0,
        pow2(d) > 0,
{
    lemma_pow2_pos(t);
    lemma_pow2_pos(d);
    if e >= 0 {
        lemma_pow2_pos(e as nat);
        lemma_pow2_adds(d, e as nat);
    } else {
        lemma_pow2_pos((-e) as nat);
        lemma_pow2_adds(t, (-e) as nat);
    }
}

/// The magnitude with significand `q` at exponent `t`, or infinity.
pub open spec fn capped(t: nat, q: int) -> int {
    if t * HIDDEN + q < INF_MAG {
        t * HIDDEN + q
    } else {
        INF_MAG as int
    }
}

/// Whether a significand with the given remainder of `2^d` is rounded up.
pub open spec fn rounds_up(q: int, rem: int, d: nat, tail: bool) -> bool {
    2 * rem > pow2(d) || (2 * rem == pow2(d) && (tail || q % 2 == 1))
}

proof fn lemma_packed(m: int, e: int, tail: bool, t: nat, d: nat, q: int, rem: int)
    requires
        t == e + d,
        d >= 1,
        significand(t, q),
        q < 2 * HIDDEN,
        m == q * pow2(d) + rem,
        0 <= rem < pow2(d),
        0 <= m,
    ensures
        packed(capped(t, if rounds_up(q, rem, d, tail) { q + 1 } else { q }), m, e, tail),
{
    lemma_scales(e, t, d);
    lemma_units_of(t, q);
    lemma_units_of(t, q + 1);
    lemma_pow2_unfold(d);
    let a = pow2(t) as int;
    let p = pow2(d) as int;
    let u = scale_up(e);
    let w = scale_down(e);
    let base = t * HIDDEN + q;
    assert(0 <= t * HIDDEN) by (nonlinear_arith);
    assert(t * HIDDEN == 2 * (t * 0x8_0000_0000_0000int)) by (nonlinear_arith)
        requires
            HIDDEN == 2 * 0x8_0000_0000_0000int,
    ;
    assert(base % 2 == q % 2);
    // Twice the values of the two candidates and of their midpoint, scaled.
    let below = w * (2 * units(base));
    let middle = w * (units(base) + units(base + 1));
    let above = w * (2 * units(base + 1));
    assert(below == 2 * (q * p) * u) by (nonlinear_arith)
        requires
            below == w * (2 * (q * a)),
            a * w == p * u,
    ;
    assert(middle == (2 * (q * p) + p) * u) by (nonlinear_arith)
        requires
            middle == w * (q * a + (q + 1) * a),
            a * w == p * u,
    ;
    assert(above == 2 * (q * p + p) * u) by (nonlinear_arith)
        requires
            above == w * (2 * ((q + 1) * a)),
            a * w == p * u,
    ;
    let x = 2 * (m * u);
    assert(x == 2 * (q * p) * u + 2 * rem * u) by (nonlinear_arith)
        requires
            x == 2 * (m * u),
            m == q * p + rem,
    ;
    assert(2 * ((m + 1) * u) == 2 * (q * p) * u + 2 * (rem + 1) * u) by (nonlinear_arith)
        requires
            m == q * p + rem,
    ;
    assert((2 * (q * p) + p) * u == 2 * (q * p) * u + p * u) by (nonlinear_arith);
    assert(2 * (q * p + p) * u == 2 * (q * p) * u + 2 * p * u) by (nonlinear_arith);
    assert(0 <= 2 * rem * u) by (nonlinear_arith)
        requires
            0 <= rem,
            u > 0,
    ;
    assert(2 * (rem + 1) * u <= 2 * p * u) by (nonlinear_arith)
        requires
            rem + 1 <= p,
            u > 0,
    ;
    assert(2 * rem > p ==> 2 * rem * u > p * u) by (nonlinear_arith)
        requires
            u > 0,
    ;
    assert(2 * rem < p ==> 2 * rem * u < p * u) by (nonlinear_arith)
        requires
            u > 0,
    ;
    assert(2 * rem < p ==> 2 * (rem + 1) <= p);
    assert(2 * (rem + 1) <= p ==> 2 * (rem + 1) * u <= p * u) by (nonlinear_arith)
        requires
            u > 0,
    ;
    let up = rounds_up(q, rem, d, tail);
    let mag = base + if up { 1int } else { 0int };
    if mag > INF_MAG {
        // The value is at least that of `base`, which is at least `INF_MAG`.
        lemma_units_mono(INF_MAG - 1, INF_MAG as int);
        if base > INF_MAG {
            lemma_units_mono(INF_MAG as int, base);
        }
        let inf = w * (units(INF_MAG - 1) + units(INF_MAG as int));
        assert(inf < below) by (nonlinear_arith)
            requires
                inf == w * (units(INF_MAG - 1) + units(INF_MAG as int)),
                below == w * (2 * units(base)),
                units(INF_MAG - 1) < units(INF_MAG as int),
                units(INF_MAG as int) <= units(base),
                w > 0,
        ;
    } else if up {
        let next = w * (units(mag) + units(mag + 1));
        lemma_units_mono(mag, mag + 1);
        assert(above <= next) by (nonlinear_arith)
            requires
                above == w * (2 * units(mag)),
                next == w * (units(mag) + units(mag + 1)),
                units(mag) < units(mag + 1),
                w > 0,
        ;
        assert(above < next) by (nonlinear_arith)
            requires
                above == w * (2 * units(mag)),
                next == w * (units(mag) + units(mag + 1)),
                units(mag) < units(mag + 1),
                w > 0,
        ;
        assert(2 * ((m + 1) * u) == x + 2 * u) by (nonlinear_arith)
            requires
                x == 2 * (m * u),
        ;
    } else {
        if mag > 0 {
            let last = w * (units(mag - 1) + units(mag));
            lemma_units_mono(mag - 1, mag);
            assert(last < below) by (nonlinear_arith)
                requires
                    below == w * (2 * units(mag)),
                    last == w * (units(mag - 1) + units(mag)),
                    units(mag - 1) < units(mag),
                    w > 0,
            ;
        }
    }
}

/// The magnitude nearest to `m * 2^e`, or to what lies above it and below
/// `(m + 1) * 2^e` when `tail` is set.
pub fn pack(m: u128, e: i32, tail: bool) -> (mag: u64)
    requires
        m > 0,
        -5000 <= e <= 5000,
        tail ==> m >= 2 * HIDDEN,
    ensures
        packed(mag as int, m as int, e as int, tail),
{
    let l: u32 = bit_length(m);
    let top: i32 = e + l as i32 - 53;
    let t: i32 = if top > 0 { top } else { 0 };
    let d: i32 = t - e;
    proof {
        lemma2_to64();
        lemma2_to64_rest();
    }
    if d <= 0 {
        proof {
            if l > 53 {
                lemma_pow2_strictly_increases(53, l as nat);
            }
            lemma_pow2_adds((l - 1) as nat, (-d) as nat);
            lemma_pow2_adds(l as nat, (-d) as nat);
            if l - d < 53 {
                lemma_pow2_strictly_increases((l - d) as nat, 53);
            }
            lemma_pow2_pos((-d) as nat);
            let s = pow2((-d) as nat) as int;
            assert(m * s < pow2(l as nat) * s) by (nonlinear_arith)
                requires
                    m < pow2(l as nat),
                    s > 0,
            ;
            assert(pow2((l - 1) as nat) * s <= m * s) by (nonlinear_arith)
                requires
                    pow2((l - 1) as nat) <= m,
                    s > 0,
            ;
        }
        let q: u128 = m * power_of_two((-d) as u32);
        proof {
            lemma_exact(m as int, e as int, t as nat, (-d) as nat, q as int);
        }
        return cap(t as u32, q as u64);
    }
    if d > 128 {
        proof {
            lemma_two_to_128();
            if d > 129 {
                lemma_pow2_strictly_increases(128, (d - 1) as nat);
            }
            lemma_pow2_unfold(d as nat);
            lemma_packed(m as int, e as int, tail, t as nat, d as nat, 0, m as int);
        }
        return 0;
    }
    if d == 128 {
        proof {
            lemma_two_to_128();
            lemma_packed(m as int, e as int, tail, t as nat, d as nat, 0, m as int);
        }
        let half: u128 = 0x8000_0000_0000_0000_0000_0000_0000_0000;
        return if m > half || (m == half && tail) { 1 } else { 0 };
    }
    let p: u128 = power_of_two(d as u32);
    let q: u128 = m / p;
    let rem: u128 = m % p;
    proof {
        lemma_fundamental_div_mod(m as int, p as int);
        lemma_pow2_unfold(d as nat);
        // The quotient has at most 53 digits, and exactly 53 unless `t` is 0.
        lemma_quotient(m as int, l as nat, t as nat, d as nat, q as int, rem as int);
        assert(p * q == q * p) by (nonlinear_arith);
        lemma_packed(m as int, e as int, tail, t as nat, d as nat, q as int, rem as int);
    }
    let half: u128 = power_of_two((d - 1) as u32);
    let up: bool = rem > half || (rem == half && (tail || q % 2 == 1));
    cap(t as u32, if up { q as u64 + 1 } else { q as u64 })
}

proof fn lemma_quotient(m: int, l: nat, t: nat, d: nat, q: int, rem: int)
    requires
        1 <= l,
        pow2((l - 1) as nat) <= m < pow2(l),
        m == pow2(d) * q + rem,
        0 <= rem < pow2(d),
        d >= 1,
        0 <= q,
        l - d <= 53,
        t > 0 ==> l - d == 53,
    ensures
        significand(t, q),
        q < 2 * HIDDEN,
{
    lemma2_to64();
    lemma2_to64_rest();
    let p = pow2(d) as int;
    if q >= 2 * HIDDEN {
        lemma_pow2_adds(d, 53);
        if l < d + 53 {
            lemma_pow2_strictly_increases(l, d + 53);
        }
        assert(p * q >= p * (2 * HIDDEN)) by (nonlinear_arith)
            requires
                p > 0,
                q >= 2 * HIDDEN,
        ;
    }
    if t > 0 && q < HIDDEN {
        lemma_pow2_adds(d, 52);
        assert(p * q + p <= p * HIDDEN) by (nonlinear_arith)
            requires
                p > 0,
                q + 1 <= HIDDEN,
        ;
    }
}

proof fn lemma_exact(m: int, e: int, t: nat, s: nat, q: int)
    requires
        e == t + s,
        q == m * pow2(s),
        significand(t, q),
        m > 0,
    ensures
        packed(capped(t, q), m, e, false),
{
    lemma_units_of(t, q);
    lemma_pow2_adds(t, s);
    lemma_pow2_pos(t);
    lemma_pow2_pos(s);
    let mag = t * HIDDEN + q;
    assert(0 <= t * HIDDEN) by (nonlinear_arith);
    assert(0 < q) by (nonlinear_arith)
        requires
            q == m * pow2(s),
            m > 0,
            pow2(s) > 0,
    ;
    assert(m * scale_up(e) == units(mag)) by (nonlinear_arith)
        requires
            scale_up(e) == pow2(t) * pow2(s),
            units(mag) == q * pow2(t),
            q == m * pow2(s),
    ;
    lemma_units_mono(mag - 1, mag);
    lemma_units_mono(mag, mag + 1);
    lemma_units_mono(INF_MAG - 1, INF_MAG as int);
    if mag > INF_MAG {
        lemma_units_mono(INF_MAG as int, mag);
    }
}

fn cap(t: u32, q: u64) -> (mag: u64)
    requires
        t <= 6000,
        q <= 2 * HIDDEN,
    ensures
        mag == capped(t as nat, q as int),
{
    if t > 2046 {
        proof {
            assert(t * HIDDEN >= 2047 * HIDDEN) by (nonlinear_arith)
                requires
                    t >= 2047,
            ;
        }
        return INF_MAG;
    }
    proof {
        assert(0 <= t * HIDDEN <= 2046 * HIDDEN) by (nonlinear_arith)
            requires
                0 <= t <= 2046,
        ;
    }
    let mag: u64 = t as u64 * HIDDEN + q;
    if mag < INF_MAG {
        mag
    } else {
        INF_MAG
    }
}

} // verus!
