//! Natural numbers of any size, as limbs of 64 bits with the lowest first.

use vstd::arithmetic::power2::{
    lemma2_to64, lemma2_to64_rest, lemma_pow2_adds, lemma_pow2_pos, lemma_pow2_unfold, pow2,
};
use vstd::arithmetic::power::{lemma_pow0, pow};
use vstd::prelude::*;

verus! {

/// The limb at a place, 0 beyond the last one.
pub open spec fn limb(s: Seq<u64>, i: int) -> int {
    if 0 <= i < s.len() {
        s[i] as int
    } else {
        0
    }
}

/// The weight of a place.
pub open spec fn weight(i: nat) -> int {
    pow2(64 * i) as int
}

/// The number that the lowest `n` limbs stand for.
pub open spec fn low_value(s: Seq<u64>, n: nat) -> int
    decreases n,
{
    if n == 0 {
        0
    } else {
        low_value(s, (n - 1) as nat) + limb(s, n - 1) * weight((n - 1) as nat)
    }
}

/// The number that a list of limbs stands for.
pub open spec fn big_value(s: Seq<u64>) -> int {
    low_value(s, s.len())
}

proof fn lemma_weight(i: nat)
    ensures
        weight(i + 1) == 0x1_0000_0000_0000_0000 * weight(i),
        weight(i) > 0,
        weight(0) == 1,
{
    lemma2_to64();
    lemma2_to64_rest();
    lemma_pow2_adds(64, 64 * i);
    lemma_pow2_pos(64 * i);
}

proof fn lemma_low_value_same(s: Seq<u64>, t: Seq<u64>, n: nat)
    requires
        forall|i: int| 0 <= i < n ==> limb(s, i) == limb(t, i),
    ensures
        low_value(s, n) == low_value(t, n),
    decreases n,
{
    if n > 0 {
        lemma_low_value_same(s, t, (n - 1) as nat);
        assert(limb(s, n - 1) == limb(t, n - 1));
    }
}

proof fn lemma_low_value_bound(s: Seq<u64>, n: nat)
    ensures
        0 <= low_value(s, n) < weight(n),
    decreases n,
{
    lemma_weight(n);
    if n > 0 {
        lemma_low_value_bound(s, (n - 1) as nat);
        lemma_weight((n - 1) as nat);
        let w = weight((n - 1) as nat);
        let l = limb(s, n - 1);
        assert(0 <= l * w <= (0x1_0000_0000_0000_0000int - 1) * w) by (nonlinear_arith)
            requires
                0 <= l <= 0x1_0000_0000_0000_0000int - 1,
                w > 0,
        ;
        assert((0x1_0000_0000_0000_0000int - 1) * w == 0x1_0000_0000_0000_0000int * w - w) by (nonlinear_arith);
    }
}

proof fn lemma_low_value_beyond(s: Seq<u64>, n: nat)
    requires
        s.len() <= n,
    ensures
        low_value(s, n) == big_value(s),
    decreases n,
{
    if n > s.len() {
        lemma_low_value_beyond(s, (n - 1) as nat);
        assert(limb(s, n - 1) * weight((n - 1) as nat) == 0) by (nonlinear_arith)
            requires
                limb(s, n - 1) == 0,
        ;
    }
}

/// `a * k + c`.
pub fn mul_add(a: &Vec<u64>, k: u64, c: u64) -> (r: Vec<u64>)
    ensures
        big_value(r@) == big_value(a@) * k + c,
{
    let mut r: Vec<u64> = Vec::new();
    let mut carry: u64 = c;
    let mut i: usize = 0;
    proof {
        lemma_weight(0);
    }
    while i < a.len()
        invariant
            i <= a.len(),
            r.len() == i,
            low_value(r@, i as nat) + carry * weight(i as nat) == low_value(a@, i as nat) * k + c,
        decreases a.len() - i,
    {
        proof {
            assert(a[i as int] * k <= 0xFFFF_FFFF_FFFF_FFFFint * 0xFFFF_FFFF_FFFF_FFFFint) by (nonlinear_arith)
                requires
                    0 <= a[i as int] <= 0xFFFF_FFFF_FFFF_FFFFint,
                    0 <= k <= 0xFFFF_FFFF_FFFF_FFFFint,
            ;
        }
        let x: u128 = a[i] as u128 * k as u128 + carry as u128;
        let low: u64 = (x % 0x1_0000_0000_0000_0000) as u64;
        let high: u64 = (x / 0x1_0000_0000_0000_0000) as u64;
        let ghost before = r@;
        r.push(low);
        proof {
            lemma_weight(i as nat);
            lemma_low_value_same(before, r@, i as nat);
            let w = weight(i as nat);
            let l = a[i as int] as int;
            let va = low_value(a@, i as nat);
            let vr = low_value(before, i as nat);
            assert(limb(a@, i as int) == l);
            assert(limb(r@, i as int) == low);
            assert((vr + low * w) + high * (0x1_0000_0000_0000_0000int * w) == (va + l * w) * k + c) by (nonlinear_arith)
                requires
                    vr + carry * w == va * k + c,
                    l * k + carry == low + 0x1_0000_0000_0000_0000int * high,
            ;
        }
        carry = high;
        i = i + 1;
    }
    if carry > 0 {
        let ghost before = r@;
        r.push(carry);
        proof {
            lemma_low_value_same(before, r@, i as nat);
            assert(limb(r@, i as int) == carry);
        }
    }
    r
}

/// Compares two numbers: whether the first is smaller, and whether they are equal.
pub fn compare(a: &Vec<u64>, b: &Vec<u64>) -> (r: (bool, bool))
    ensures
        r.0 == (big_value(a@) < big_value(b@)),
        r.1 == (big_value(a@) == big_value(b@)),
{
    let n: usize = if a.len() < b.len() { b.len() } else { a.len() };
    proof {
        lemma_low_value_beyond(a@, n as nat);
        lemma_low_value_beyond(b@, n as nat);
    }
    let ghost va = big_value(a@);
    let ghost vb = big_value(b@);
    let mut i: usize = n;
    while i > 0
        invariant
            i <= n,
            va - low_value(a@, i as nat) == vb - low_value(b@, i as nat),
            va == big_value(a@),
            vb == big_value(b@),
        decreases i,
    {
        i = i - 1;
        let x: u64 = if i < a.len() { a[i] } else { 0 };
        let y: u64 = if i < b.len() { b[i] } else { 0 };
        if x != y {
            proof {
                lemma_low_value_bound(a@, i as nat);
                lemma_low_value_bound(b@, i as nat);
                let w = weight(i as nat);
                assert(limb(a@, i as int) == x && limb(b@, i as int) == y);
                assert(x < y ==> x * w + w <= y * w) by (nonlinear_arith)
                    requires
                        w > 0,
                ;
                assert(y < x ==> y * w + w <= x * w) by (nonlinear_arith)
                    requires
                        w > 0,
                ;
            }
            return (x < y, false);
        }
        assert(limb(a@, i as int) == x && limb(b@, i as int) == y);
    }
    (false, true)
}

/// `a * 2^s`.
pub fn shift(a: &Vec<u64>, s: u32) -> (r: Vec<u64>)
    ensures
        big_value(r@) == big_value(a@) * pow2(s as nat),
{
    proof {
        lemma2_to64();
        lemma2_to64_rest();
    }
    let mut r: Vec<u64> = mul_add(a, 1, 0);
    let mut left: u32 = s;
    assert(big_value(a@) * pow2(0) == big_value(a@)) by (nonlinear_arith)
        requires
            pow2(0) == 1,
    ;
    while left >= 32
        invariant
            left <= s,
            big_value(r@) == big_value(a@) * pow2((s - left) as nat),
        decreases left,
    {
        proof {
            lemma2_to64();
            lemma_pow2_adds((s - left) as nat, 32);
            let p = pow2((s - left) as nat) as int;
            assert((big_value(a@) * p) * 0x1_0000_0000int + 0 == big_value(a@) * (p * 0x1_0000_0000int)) by (nonlinear_arith);
        }
        r = mul_add(&r, 0x1_0000_0000, 0);
        left = left - 32;
    }
    while left > 0
        invariant
            left <= s,
            big_value(r@) == big_value(a@) * pow2((s - left) as nat),
        decreases left,
    {
        proof {
            lemma_pow2_unfold((s - left + 1) as nat);
            let p = pow2((s - left) as nat) as int;
            assert((big_value(a@) * p) * 2 + 0 == big_value(a@) * (2 * p)) by (nonlinear_arith);
        }
        r = mul_add(&r, 2, 0);
        left = left - 1;
    }
    r
}

/// `a * 10^n`.
pub fn shift_decimal(a: &Vec<u64>, n: u128) -> (r: Vec<u64>)
    ensures
        big_value(r@) == big_value(a@) * pow(10, n as nat),
{
    let mut r: Vec<u64> = mul_add(a, 1, 0);
    let mut done: u128 = 0;
    proof {
        lemma_pow0(10);
        assert(big_value(a@) * 1 == big_value(a@)) by (nonlinear_arith);
    }
    while done < n
        invariant
            done <= n,
            big_value(r@) == big_value(a@) * pow(10, done as nat),
        decreases n - done,
    {
        proof {
            reveal(pow);
            let p = pow(10, done as nat);
            assert(pow(10, (done + 1) as nat) == 10 * p);
            assert((big_value(a@) * p) * 10 + 0 == big_value(a@) * (10 * p)) by (nonlinear_arith);
        }
        r = mul_add(&r, 10, 0);
        done = done + 1;
    }
    r
}

} // verus!
