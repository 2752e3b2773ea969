//! Results of several operations on ordinary numbers, to a few millionths.

use vstd::arithmetic::power2::{
    lemma2_to64, lemma_pow2_adds, lemma_pow2_pos, lemma_pow2_strictly_increases, pow2,
};
use vstd::prelude::*;

use crate::strategy::exact::{
    lemma_gap, lemma_near_within, lemma_product_minus, lemma_product_order, lemma_product_size,
    lemma_product_sum, lemma_product_swap, lemma_product_units, product, ratio,
};

use super::error::{
    gap, lemma_add_near, lemma_div_near, lemma_mul_near, lemma_ratio_times, lemma_whole_product, limit, size,
    smallest, units_in_one, whole,
};
use super::measure::lemma_exact_order;
use super::order::lemma_value_order;
use super::B64;

verus! {

/// A power of two.
#[verifier::opaque]
pub open spec fn power(k: nat) -> real {
    whole(pow2(k) as int)
}

/// Whether a positive number lies between a power of two and its inverse.
pub open spec fn ordinary(x: real, k: nat) -> bool {
    &&& x > 0real
    &&& x <= power(k)
    &&& product(x, power(k)) >= 1real
}

/// Whether a number is a positive real one up to so many millionths of it.
pub open spec fn about(x: B64, target: real, n: real) -> bool {
    &&& x.finite()
    &&& target > 0real
    &&& 1000000real * size(x.exact() - target) <= product(n, target)
}

pub proof fn lemma_powers(j: nat, k: nat)
    ensures
        power(j) >= 1real,
        product(power(j), power(k)) == power(j + k),
        j <= k ==> power(j) <= power(k),
{
    reveal(power);
    reveal(product);
    lemma_pow2_pos(j);
    lemma_pow2_adds(j, k);
    lemma_whole_product(pow2(j) as int, pow2(k) as int);
    if j < k {
        lemma_pow2_strictly_increases(j, k);
    }
}

/// A wider range holds what a narrower one does.
pub proof fn lemma_ordinary_widens(x: real, j: nat, k: nat)
    requires
        ordinary(x, j),
        j <= k,
    ensures
        ordinary(x, k),
{
    lemma_powers(j, k);
    lemma_product_order(power(j), power(k), x);
}

/// Products of ordinary numbers.
pub proof fn lemma_ordinary_product(x: real, y: real, j: nat, k: nat)
    requires
        ordinary(x, j),
        ordinary(y, k),
    ensures
        ordinary(product(x, y), j + k),
        product(x, y) > 0real,
{
    lemma_powers(j, k);
    let (p, q) = (power(j), power(k));
    lemma_product_size(x, y, p, q);
    let (a, b, c) = (x * p, y * q, x * y);
    reveal(product);
    assert(c > 0real) by (nonlinear_arith)
        requires
            c == x * y,
            x > 0real,
            y > 0real,
    ;
    let r = p * q;
    assert(c * r == a * b) by (nonlinear_arith)
        requires
            c == x * y,
            r == p * q,
            a == x * p,
            b == y * q,
    ;
    assert(a * b >= 1real) by (nonlinear_arith)
        requires
            a >= 1real,
            b >= 1real,
    ;
}

/// Ratios of ordinary numbers.
pub proof fn lemma_ordinary_ratio(x: real, y: real, j: nat, k: nat)
    requires
        ordinary(x, j),
        ordinary(y, k),
    ensures
        ordinary(ratio(x, y), j + k),
        product(ratio(x, y), y) == x,
{
    lemma_powers(j, k);
    reveal(ratio);
    reveal(product);
    lemma_ratio_times(x, y);
    let r = x / y;
    let (p, q) = (power(j), power(k));
    let s = p * q;
    assert(r > 0real) by (nonlinear_arith)
        requires
            r * y == x,
            x > 0real,
            y > 0real,
    ;
    let (a, b) = (x * p, y * q);
    // r <= p * q, as r * y = x <= p and 1 <= y * q
    assert(r <= s) by {
        if r > s {
            let t = s * y;
            assert(t < x) by (nonlinear_arith)
                requires
                    r * y == x,
                    r > s,
                    t == s * y,
                    y > 0real,
            ;
            assert(t == p * b) by (nonlinear_arith)
                requires
                    t == s * y,
                    s == p * q,
                    b == y * q,
            ;
            assert(p * b >= p) by (nonlinear_arith)
                requires
                    b >= 1real,
                    p >= 1real,
            ;
        }
    }
    // r * p * q >= 1, as x * p >= 1 and y <= q
    let u = r * s;
    assert(u >= 1real) by {
        let v = r * q;
        assert(v >= x) by (nonlinear_arith)
            requires
                v == r * q,
                r * y == x,
                y <= q,
                r > 0real,
        ;
        assert(u == v * p) by (nonlinear_arith)
            requires
                u == r * s,
                s == p * q,
                v == r * q,
        ;
        assert(v * p >= x * p) by (nonlinear_arith)
            requires
                v >= x,
                p >= 1real,
        ;
    }
}

/// What rounds an ordinary number is within a thousandth of a millionth of it.
pub proof fn lemma_rounds(r: B64, x: real, k: nat)
    requires
        r.near(x),
        ordinary(x, k),
        k <= 900,
    ensures
        1000000000real * size(r.exact() - x) <= x,
        r.finite(),
{
    lemma_ordinary_widens(x, k, 900);
    lemma_near_within(r, x, x);
    lemma_small_parts(x);
}

pub proof fn lemma_small_parts(x: real)
    requires
        ordinary(x, 900),
    ensures
        2000000000real * product(gap(), x) <= x,
        2000000000real * smallest() <= x,
{
    lemma_gap();
    let g = gap();
    assert(2000000000real * g <= 1real);
    lemma_product_order(2000000000real * g, 1real, x);
    lemma_product_units(x);
    assert(product(2000000000real * g, x) == 2000000000real * product(g, x)) by {
        reveal(product);
        assert((2000000000real * g) * x == 2000000000real * (g * x)) by (nonlinear_arith);
    }
    let (s, one, p, q) = (smallest(), units_in_one(), power(900), power(174));
    lemma_powers(900, 174);
    assert(one == power(1074)) by {
        reveal(power);
    }
    lemma_big_power();
    reveal(product);
    assert(s * one == 1real);
    let xp = x * p;
    assert(xp >= 1real);
    assert(one == p * q);
    // x >= 1 / p = s * q
    let sq = s * q;
    assert(sq * p == 1real) by (nonlinear_arith)
        requires
            s * one == 1real,
            one == p * q,
            sq == s * q,
    ;
    assert(sq <= x) by (nonlinear_arith)
        requires
            sq * p == 1real,
            x * p >= 1real,
            p >= 1real,
    ;
    assert(2000000000real * s <= sq) by (nonlinear_arith)
        requires
            sq == s * q,
            q >= 2000000000real,
            s > 0real,
    ;
}

pub proof fn lemma_big_power()
    ensures
        power(174) >= 2000000000real,
        power(900) <= limit(),
{
    reveal(power);
    lemma2_to64();
    lemma_pow2_strictly_increases(32, 174);
    lemma_pow2_strictly_increases(900, 1023);
}

/// A number that is exact.
pub proof fn lemma_about_itself(x: B64)
    requires
        x.finite(),
        x.exact() > 0real,
    ensures
        about(x, x.exact(), 0real),
{
    lemma_product_units(x.exact());
}

/// A looser statement.
pub proof fn lemma_about_looser(x: B64, target: real, m: real, n: real)
    requires
        about(x, target, m),
        m <= n,
    ensures
        about(x, target, n),
{
    lemma_product_order(m, n, target);
}

/// In plain numbers.
pub proof fn lemma_about_plain(x: B64, target: real, n: real)
    requires
        about(x, target, n),
        0real <= n <= 1000real,
    ensures
        x.exact() > 0real,
        1000real * size(x.exact() - target) <= target,
{
    lemma_product_order(n, 1000real, target);
    lemma_thousand(target);
}

proof fn lemma_thousand(x: real)
    ensures
        product(1000real, x) == 1000real * x,
{
    reveal(product);
}

/// The distance of two products.
proof fn lemma_product_off(a: real, b: real, x: real, y: real, m: real, n: real)
    requires
        x > 0real,
        y > 0real,
        0real <= m <= 400real,
        0real <= n <= 400real,
        1000000real * size(a - x) <= product(m, x),
        1000000real * size(b - y) <= product(n, y),
    ensures
        1000000real * size(product(a, b) - product(x, y)) <= product(m + n + 1real / 2real, product(x, y)),
{
    let (d, e) = (a - x, b - y);
    let xy = product(x, y);
    // a * b - x * y = x * e + y * d + d * e
    lemma_product_sum(a, y, e);
    lemma_product_sum(y, x, d);
    lemma_product_sum(e, x, d);
    lemma_product_swap(a, y);
    lemma_product_swap(a, e);
    lemma_product_swap(x, y);
    lemma_product_swap(x, e);
    assert(product(a, b) - xy == product(x, e) + product(y, d) + product(d, e)) by {
        lemma_product_sum(b, x, d);
        lemma_product_sum(x, y, e);
        lemma_product_sum(d, y, e);
        lemma_product_swap(y, d);
        assert(a == x + d && b == y + e);
    }
    let (mx, ny) = (product(m, x), product(n, y));
    let (du, eu) = (mx / 1000000real, ny / 1000000real);
    lemma_product_size(x, e, x, eu);
    lemma_product_size(y, d, y, du);
    lemma_product_size(d, e, du, eu);
    lemma_scaled_products(x, y, m, n);
}

proof fn lemma_scaled_products(x: real, y: real, m: real, n: real)
    requires
        x > 0real,
        y > 0real,
        0real <= m <= 400real,
        0real <= n <= 400real,
    ensures
        1000000real * product(x, product(n, y) / 1000000real) == product(n, product(x, y)),
        1000000real * product(y, product(m, x) / 1000000real) == product(m, product(x, y)),
        1000000real * product(product(m, x) / 1000000real, product(n, y) / 1000000real) <= product(
            1real / 2real,
            product(x, y),
        ),
        product(m + n + 1real / 2real, product(x, y)) == product(m, product(x, y)) + product(n, product(x, y))
            + product(1real / 2real, product(x, y)),
{
    reveal(product);
    let (xy, mx, ny) = (x * y, m * x, n * y);
    let (du, eu) = (mx / 1000000real, ny / 1000000real);
    assert(1000000real * (x * eu) == n * xy) by (nonlinear_arith)
        requires
            1000000real * eu == ny,
            ny == n * y,
            xy == x * y,
    ;
    assert(1000000real * (y * du) == m * xy) by (nonlinear_arith)
        requires
            1000000real * du == mx,
            mx == m * x,
            xy == x * y,
    ;
    let mn = m * n;
    assert(mn <= 160000real) by (nonlinear_arith)
        requires
            mn == m * n,
            0real <= m <= 400real,
            0real <= n <= 400real,
    ;
    let de = du * eu;
    assert(1000000real * (1000000real * de) == mn * xy) by (nonlinear_arith)
        requires
            de == du * eu,
            1000000real * du == mx,
            1000000real * eu == ny,
            mx == m * x,
            ny == n * y,
            mn == m * n,
            xy == x * y,
    ;
    assert(xy > 0real) by (nonlinear_arith)
        requires
            xy == x * y,
            x > 0real,
            y > 0real,
    ;
    assert(mn * xy <= 160000real * xy) by (nonlinear_arith)
        requires
            mn <= 160000real,
            xy > 0real,
    ;
    let h = 1real / 2real;
    assert((m + n + h) * xy == m * xy + n * xy + h * xy) by (nonlinear_arith);
}

/// A product of numbers that are about right.
pub proof fn lemma_about_product(a: B64, b: B64, x: real, y: real, m: real, n: real, k: nat)
    requires
        about(a, x, m),
        about(b, y, n),
        0real <= m <= 400real,
        0real <= n <= 400real,
        ordinary(product(x, y), k),
        k <= 890,
    ensures
        about(a.mul(b), product(x, y), m + n + 1real),
{
    let xy = product(x, y);
    let r = product(a.exact(), b.exact());
    lemma_product_off(a.exact(), b.exact(), x, y, m, n);
    assert(r == a.exact() * b.exact()) by {
        reveal(product);
    }
    lemma_rounded_about(a.mul(b), r, xy, m + n + 1real / 2real, k, a, b);
}

/// The rounding of a number that is about right.
proof fn lemma_close_is_ordinary(r: real, x: real, n: real, k: nat)
    requires
        ordinary(x, k),
        k <= 890,
        0real <= n <= 900real,
        1000000real * size(r - x) <= product(n, x),
    ensures
        ordinary(r, (k + 1) as nat),
        r <= 2real * x,
        2real * r >= x,
        power((k + 1) as nat) <= limit(),
{
    lemma_product_order(n, 1000real, x);
    lemma_thousand(x);
    lemma_powers(k, 1);
    lemma_powers((k + 1) as nat, 900);
    lemma_big_power();
    let (p, q) = (power(k), power((k + 1) as nat));
    assert(power(1) == 2real) by {
        reveal(power);
        lemma2_to64();
    }
    reveal(product);
    assert(q == 2real * p);
    let xp = x * p;
    assert(r * q >= xp) by (nonlinear_arith)
        requires
            xp == x * p,
            q == 2real * p,
            2real * r >= x,
            p >= 1real,
    ;
}

proof fn lemma_rounded_about(s: B64, r: real, x: real, n: real, k: nat, a: B64, b: B64)
    requires
        ordinary(x, k),
        k <= 890,
        0real <= n <= 900real,
        1000000real * size(r - x) <= product(n, x),
        a.finite(),
        b.finite(),
        s == a.mul(b),
        r == a.exact() * b.exact(),
    ensures
        about(s, x, n + 1real / 2real),
{
    lemma_close_is_ordinary(r, x, n, k);
    lemma_mul_near(a, b);
    lemma_rounds(s, r, (k + 1) as nat);
    lemma_product_sum(x, n, 1real / 2real);
    lemma_half_of(x);
}

proof fn lemma_half_of(x: real)
    ensures
        product(1real / 2real, x) == x / 2real,
{
    reveal(product);
}

/// A ratio of numbers that are about right.
pub proof fn lemma_about_ratio(a: B64, b: B64, x: real, y: real, m: real, n: real, k: nat)
    requires
        about(a, x, m),
        about(b, y, n),
        0real <= m <= 400real,
        0real <= n <= 400real,
        ordinary(ratio(x, y), k),
        k <= 890,
    ensures
        about(a.div(b), ratio(x, y), m + n + 2real),
{
    let q = ratio(x, y);
    let (av, bv) = (a.exact(), b.exact());
    lemma_about_plain(b, y, n);
    assert(product(q, y) == x) by {
        reveal(product);
        reveal(ratio);
        lemma_ratio_times(x, y);
    }
    let r = ratio(av, bv);
    assert(product(r, bv) == av && r == av / bv) by {
        reveal(product);
        reveal(ratio);
        lemma_ratio_times(av, bv);
    }
    lemma_ratio_off(av, bv, x, y, q, r, m, n);
    lemma_close_is_ordinary(r, q, m + n + 1real, k);
    lemma_div_near(a, b);
    lemma_rounds(a.div(b), r, (k + 1) as nat);
    lemma_product_sum(q, m + n + 1real, 1real);
    lemma_product_units(q);
}

proof fn lemma_ratio_off(a: real, b: real, x: real, y: real, q: real, r: real, m: real, n: real)
    requires
        x > 0real,
        y > 0real,
        q > 0real,
        b > 0real,
        0real <= m <= 400real,
        0real <= n <= 400real,
        1000000real * size(a - x) <= product(m, x),
        1000000real * size(b - y) <= product(n, y),
        1000real * size(b - y) <= y,
        product(q, y) == x,
        product(r, b) == a,
    ensures
        1000000real * size(r - q) <= product(m + n + 1real, q),
{
    reveal(product);
    let d = r - q;
    let (da, db) = (a - x, b - y);
    // d * b = a - q * b = da - q * db
    assert(d * b == da - q * db) by (nonlinear_arith)
        requires
            d == r - q,
            r * b == a,
            q * y == x,
            da == a - x,
            db == b - y,
    ;
    let ny = n * y;
    let qdb = q * db;
    lemma_product_size(q, db, q, ny / 1000000real);
    assert(size(qdb) <= q * (ny / 1000000real));
    assert(1000000real * (q * (ny / 1000000real)) == n * x) by (nonlinear_arith)
        requires
            ny == n * y,
            q * y == x,
    ;
    let t = size(d);
    let mx = m * x;
    let nx = n * x;
    let tb = t * b;
    assert(tb == size(d * b)) by {
        if d < 0real {
            assert(tb == -(d * b)) by (nonlinear_arith)
                requires
                    tb == t * b,
                    t == -d,
            ;
            assert(d * b <= 0real) by (nonlinear_arith)
                requires
                    d < 0real,
                    b > 0real,
            ;
        } else {
            assert(d * b >= 0real) by (nonlinear_arith)
                requires
                    d >= 0real,
                    b > 0real,
            ;
        }
    }
    assert(1000000real * tb <= mx + nx);
    // b >= 0.999 y, so t * y <= tb / 0.999
    let ty = t * y;
    assert(999real * ty <= 1000real * tb) by (nonlinear_arith)
        requires
            ty == t * y,
            tb == t * b,
            1000real * b >= 999real * y,
            t >= 0real,
    ;
    let w = (m + n + 1real) * q;
    let wy = w * y;
    assert(wy == mx + nx + x) by (nonlinear_arith)
        requires
            wy == w * y,
            w == (m + n + 1real) * q,
            q * y == x,
            mx == m * x,
            nx == n * x,
    ;
    assert(mx + nx <= 800real * x) by (nonlinear_arith)
        requires
            mx == m * x,
            nx == n * x,
            m <= 400real,
            n <= 400real,
            x > 0real,
    ;
    assert(1000000real * ty <= wy);
    assert(1000000real * t <= w) by (nonlinear_arith)
        requires
            1000000real * (t * y) <= w * y,
            y > 0real,
    ;
}

/// A sum of numbers that are about right.
pub proof fn lemma_about_sum(a: B64, b: B64, x: real, y: real, n: real, k: nat)
    requires
        about(a, x, n),
        about(b, y, n),
        0real <= n <= 400real,
        ordinary(x + y, k),
        k <= 890,
    ensures
        about(a.add(b), x + y, n + 1real),
{
    let r = a.exact() + b.exact();
    lemma_product_sum(n, x, y);
    lemma_close_is_ordinary(r, x + y, n, k);
    lemma_add_near(a, b);
    lemma_rounds(a.add(b), r, (k + 1) as nat);
    lemma_product_sum(x + y, n, 1real);
    lemma_product_units(x + y);
}

/// The smaller of two numbers that are about right.
pub proof fn lemma_about_smaller(a: B64, b: B64, x: real, y: real, n: real)
    requires
        about(a, x, n),
        about(b, y, n),
        0real <= n <= 1000real,
    ensures
        about(a.min(b), if x <= y { x } else { y }, n),
        about(a.max(b), if x <= y { y } else { x }, n),
{
    lemma_exact_order(a, b);
    lemma_exact_order(b, a);
    lemma_value_order(a, b);
    lemma_product_minus(n, x, y);
    lemma_product_minus(n, y, x);
    if x <= y {
        lemma_product_order(0real, y - x, n);
        lemma_product_order(n, 1000real, y - x);
        lemma_thousand(y - x);
    } else {
        lemma_product_order(0real, x - y, n);
        lemma_product_order(n, 1000real, x - y);
        lemma_thousand(x - y);
    }
    lemma_product_units(n);
}

} // verus!
