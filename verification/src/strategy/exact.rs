//! Exact sums, means and squares of binary64 numbers.

use vstd::arithmetic::power2::lemma_pow2_pos;
use vstd::prelude::*;

use crate::binary64::error::{
    gap, lemma_near, lemma_ratio_times, size, smallest, units_in_one, whole,
};
use crate::binary64::{B64, UNIT_EXP};

verus! {

/// `a` times `b`.
#[verifier::opaque]
pub open spec fn product(a: real, b: real) -> real {
    a * b
}

/// `a` over `b`.
#[verifier::opaque]
pub open spec fn ratio(a: real, b: real) -> real {
    a / b
}

/// The exact sum of several numbers.
pub open spec fn total(w: Seq<B64>) -> real
    decreases w.len(),
{
    if w.len() == 0 {
        0real
    } else {
        total(w.drop_last()) + w.last().exact()
    }
}

/// The exact arithmetic mean of several numbers, 0 for none.
pub open spec fn mean_of(w: Seq<B64>) -> real {
    if w.len() == 0 {
        0real
    } else {
        ratio(total(w), whole(w.len() as int))
    }
}

proof fn lemma_times(a: real, b: real, c: real)
    by (nonlinear_arith)
    requires
        a <= b,
        0real <= c,
    ensures
        a * c <= b * c,
        c * a <= c * b,
{
}

/// Factors that are not negative keep the order.
pub proof fn lemma_product_order(a: real, b: real, c: real)
    requires
        a <= b,
        0real <= c,
    ensures
        product(a, c) <= product(b, c),
        product(c, a) <= product(c, b),
{
    reveal(product);
    lemma_times(a, b, c);
}

proof fn lemma_spread(a: real, b: real, c: real)
    by (nonlinear_arith)
    ensures
        a * (b + c) == a * b + a * c,
        (b + c) * a == b * a + c * a,
{
}

/// Products of sums.
pub proof fn lemma_product_sum(a: real, b: real, c: real)
    ensures
        product(a, b + c) == product(a, b) + product(a, c),
        product(b + c, a) == product(b, a) + product(c, a),
{
    reveal(product);
    lemma_spread(a, b, c);
}

pub proof fn lemma_units(a: real)
    by (nonlinear_arith)
    ensures
        a * 0real == 0real,
        0real * a == 0real,
        a * 1real == a,
        1real * a == a,
{
}

/// Products with 0 and 1.
pub proof fn lemma_product_units(a: real)
    ensures
        product(a, 0real) == 0real,
        product(0real, a) == 0real,
        product(a, 1real) == a,
        product(1real, a) == a,
{
    reveal(product);
    lemma_units(a);
}

pub proof fn lemma_gap()
    ensures
        gap() * 4503599627370496real == 1real,
        gap() > 0real,
        smallest() > 0real,
        smallest() * units_in_one() == 1real,
{
    reveal(smallest);
    lemma_ratio_times(1real, 4503599627370496real);
    let g = gap();
    let h = 4503599627370496real;
    assert(g > 0real) by (nonlinear_arith)
        requires
            g * h == 1real,
            h > 0real,
    ;
    lemma_pow2_pos(UNIT_EXP as nat);
    lemma_ratio_times(1real, units_in_one());
    let s = smallest();
    let one = units_in_one();
    assert(s > 0real) by (nonlinear_arith)
        requires
            s * one == 1real,
            one > 0real,
    ;
}

pub proof fn lemma_total_front(w: Seq<B64>)
    requires
        w.len() > 0,
    ensures
        total(w) == w.first().exact() + total(w.drop_first()),
    decreases w.len(),
{
    if w.len() > 1 {
        lemma_total_front(w.drop_last());
        assert(w.drop_first().drop_last() =~= w.drop_last().drop_first());
        assert(w.drop_first().last() == w.last());
    } else {
        assert(w.drop_first() =~= Seq::<B64>::empty());
        assert(w.drop_last() =~= Seq::<B64>::empty());
    }
}

/// Whether a number is finite and no larger than said.
pub open spec fn holds(bound: real, x: B64) -> bool {
    x.finite() && size(x.exact()) <= bound
}

/// The values of a window are no larger than said.
pub open spec fn within(bound: real, w: Seq<B64>) -> bool {
    forall|i: int| 0 <= i < w.len() ==> holds(bound, #[trigger] w[i])
}

pub proof fn lemma_total_bound(bound: real, w: Seq<B64>)
    requires
        within(bound, w),
    ensures
        size(total(w)) <= product(whole(w.len() as int), bound),
    decreases w.len(),
{
    let b = bound;
    if w.len() > 0 {
        let front = w.drop_last();
        assert forall|i: int| 0 <= i < front.len() implies holds(bound, #[trigger] front[i]) by {
            assert(front[i] == w[i]);
        }
        lemma_total_bound(bound, front);
        assert(holds(bound, w[w.len() - 1]));
        let n = whole(front.len() as int);
        assert(whole(w.len() as int) == n + 1real);
        lemma_product_sum(b, n, 1real);
        lemma_product_units(b);
    } else {
        lemma_product_units(b);
    }
}

pub proof fn lemma_ratio_facts(a: real, b: real, k: real)
    requires
        k >= 1real,
    ensures
        product(ratio(a, k), k) == a,
        size(ratio(a, k) - ratio(b, k)) <= size(a - b),
{
    reveal(product);
    reveal(ratio);
    lemma_ratio_times(a, k);
    lemma_ratio_times(b, k);
    lemma_ratio_close(a / k, b / k, k);
}

proof fn lemma_ratio_close(x: real, y: real, k: real)
    requires
        k >= 1real,
    ensures
        size(x - y) <= size(x * k - y * k),
{
    let d = x - y;
    assert(x * k - y * k == d * k) by (nonlinear_arith)
        requires
            d == x - y,
    ;
    lemma_units(d);
    if d >= 0real {
        lemma_times(1real, k, d);
    } else {
        lemma_times(1real, k, -d);
        lemma_units(-d);
        assert(k * (-d) == -(d * k)) by (nonlinear_arith);
    }
}

/// The mean of a window is no larger than its values.
pub proof fn lemma_mean_bound(bound: real, w: Seq<B64>)
    requires
        within(bound, w),
        bound >= 0real,
    ensures
        size(mean_of(w)) <= bound,
{
    let k = whole(w.len() as int);
    let b = bound;
    if w.len() > 0 {
        lemma_total_bound(bound, w);
        let t = total(w);
        let m = mean_of(w);
        lemma_ratio_facts(t, 0real, k);
        reveal(product);
        assert(k * b == b * k && (-b) * k == -(b * k)) by (nonlinear_arith);
        if b < m {
            assert(b * k < m * k) by (nonlinear_arith)
                requires
                    b < m,
                    k > 0real,
            ;
        }
        if m < -b {
            assert(m * k < (-b) * k) by (nonlinear_arith)
                requires
                    m < -b,
                    k > 0real,
            ;
        }
    }
}

/// What is near a number of bounded size is off by little.
pub proof fn lemma_near_within(r: B64, x: real, z: real)
    requires
        r.near(x),
        size(x) <= z,
    ensures
        r.finite(),
        size(r.exact() - x) <= product(gap(), z) + smallest(),
{
    lemma_near(r, x);
    lemma_gap();
    lemma_times(size(x), z, gap());
    reveal(product);
}

/// The exact sum of the squared distances from a point.
pub open spec fn squares_around(w: Seq<B64>, center: real) -> real
    decreases w.len(),
{
    if w.len() == 0 {
        0real
    } else {
        let d = w.last().exact() - center;
        squares_around(w.drop_last(), center) + product(d, d)
    }
}

/// The exact sum of the squared distances from the mean.
pub open spec fn squares_of(w: Seq<B64>) -> real {
    squares_around(w, mean_of(w))
}

/// The exact population variance of several numbers, 0 for none.
pub open spec fn variance_of(w: Seq<B64>) -> real {
    if w.len() == 0 {
        0real
    } else {
        ratio(squares_of(w), whole(w.len() as int))
    }
}

proof fn lemma_minus(a: real, b: real, c: real)
    by (nonlinear_arith)
    ensures
        a * (b - c) == a * b - a * c,
        (b - c) * a == b * a - c * a,
{
}

/// Products of differences.
pub proof fn lemma_product_minus(a: real, b: real, c: real)
    ensures
        product(a, b - c) == product(a, b) - product(a, c),
        product(b - c, a) == product(b, a) - product(c, a),
{
    reveal(product);
    lemma_minus(a, b, c);
}

pub proof fn lemma_swap(a: real, b: real)
    by (nonlinear_arith)
    ensures
        a * b == b * a,
{
}

/// The order of the factors does not matter.
pub proof fn lemma_product_swap(a: real, b: real)
    ensures
        product(a, b) == product(b, a),
{
    reveal(product);
    lemma_swap(a, b);
}

pub proof fn lemma_regroup(a: real, b: real, k: real)
    by (nonlinear_arith)
    ensures
        (a * k) * b == k * (a * b),
        a * (b * k) == k * (a * b),
{
}

/// A common factor comes to the front.
pub proof fn lemma_product_regroup(a: real, b: real, k: real)
    ensures
        product(product(a, k), b) == product(k, product(a, b)),
        product(a, product(b, k)) == product(k, product(a, b)),
{
    reveal(product);
    lemma_regroup(a, b, k);
}

/// A square of a difference.
pub proof fn lemma_one_distance(q: real, c: real, t: real, n: real, x: real)
    ensures
        (q - 2real * product(c, t) + product(n, product(c, c))) + product(x - c, x - c) == (q + product(x, x))
            - 2real * product(c, t + x) + product(n + 1real, product(c, c)),
{
    lemma_product_minus(x - c, x, c);
    lemma_product_minus(x, x, c);
    lemma_product_minus(c, x, c);
    lemma_product_swap(x, c);
    lemma_product_sum(c, t, x);
    let cc = product(c, c);
    lemma_product_sum(cc, n, 1real);
    lemma_product_units(cc);
}

/// The squared distances from a point, by those from 0 and the sum.
pub proof fn lemma_squares(w: Seq<B64>, center: real)
    ensures
        squares_around(w, center) == squares_around(w, 0real) - 2real * product(center, total(w)) + product(
            whole(w.len() as int),
            product(center, center),
        ),
    decreases w.len(),
{
    if w.len() > 0 {
        let front = w.drop_last();
        lemma_squares(front, center);
        let x = w.last().exact();
        let n = whole(front.len() as int);
        assert(whole(w.len() as int) == n + 1real);
        assert(x - 0real == x);
        lemma_one_distance(squares_around(front, 0real), center, total(front), n, x);
    } else {
        lemma_product_units(center);
        lemma_product_units(product(center, center));
    }
}

pub proof fn lemma_squares_front(w: Seq<B64>, center: real)
    requires
        w.len() > 0,
    ensures
        squares_around(w, center) == product(w.first().exact() - center, w.first().exact() - center)
            + squares_around(w.drop_first(), center),
    decreases w.len(),
{
    if w.len() > 1 {
        lemma_squares_front(w.drop_last(), center);
        assert(w.drop_first().drop_last() =~= w.drop_last().drop_first());
        assert(w.drop_first().last() == w.last());
    } else {
        assert(w.drop_first() =~= Seq::<B64>::empty());
        assert(w.drop_last() =~= Seq::<B64>::empty());
    }
}

pub proof fn lemma_mean_times(w: Seq<B64>)
    ensures
        product(mean_of(w), whole(w.len() as int)) == total(w),
        squares_of(w) == squares_around(w, 0real) - product(
            whole(w.len() as int),
            product(mean_of(w), mean_of(w)),
        ),
{
    let k = whole(w.len() as int);
    let m = mean_of(w);
    lemma_squares(w, m);
    if w.len() > 0 {
        lemma_ratio_facts(total(w), 0real, k);
    } else {
        lemma_product_units(m);
    }
    lemma_product_regroup(m, m, k);
}

/// How one more value changes the squares.
pub proof fn lemma_one_more(k: real, m: real, n: real, x: real)
    requires
        x == product(n, k + 1real) - product(m, k),
    ensures
        product(x, x) - product(k + 1real, product(n, n)) + product(k, product(m, m)) == product(x - m, x - n),
{
    let nk = product(n, k);
    let mk = product(m, k);
    lemma_product_sum(n, k, 1real);
    lemma_product_units(n);
    assert(x == (nk + n) - mk);
    lemma_product_minus(x - m, x, n);
    lemma_product_minus(x, x, m);
    lemma_product_minus(n, x, m);
    lemma_product_swap(x, m);
    lemma_product_minus(n, nk + n, mk);
    lemma_product_sum(n, nk, n);
    lemma_product_minus(m, nk + n, mk);
    lemma_product_sum(m, nk, n);
    lemma_product_regroup(n, n, k);
    lemma_product_regroup(m, n, k);
    lemma_product_regroup(m, m, k);
    let nn = product(n, n);
    lemma_product_sum(nn, k, 1real);
    lemma_product_units(nn);
}

pub proof fn lemma_squares_pushed(w: Seq<B64>, x: B64)
    ensures
        squares_of(w.push(x)) == squares_of(w) + product(
            x.exact() - mean_of(w),
            x.exact() - mean_of(w.push(x)),
        ),
{
    let v = w.push(x);
    assert(v.drop_last() =~= w);
    lemma_mean_times(w);
    lemma_mean_times(v);
    let k = whole(w.len() as int);
    assert(whole(v.len() as int) == k + 1real);
    let a = x.exact();
    assert(a - 0real == a);
    lemma_one_more(k, mean_of(w), mean_of(v), a);
}

pub proof fn lemma_squares_evicted(w: Seq<B64>)
    requires
        w.len() > 0,
    ensures
        squares_of(w.drop_first()) == squares_of(w) - product(
            w.first().exact() - mean_of(w),
            w.first().exact() - mean_of(w.drop_first()),
        ),
{
    let rest = w.drop_first();
    let a = w.first().exact();
    lemma_total_front(w);
    lemma_squares_front(w, 0real);
    lemma_mean_times(w);
    lemma_mean_times(rest);
    let k = whole(rest.len() as int);
    assert(whole(w.len() as int) == k + 1real);
    assert(a - 0real == a);
    lemma_one_more(k, mean_of(rest), mean_of(w), a);
    lemma_product_swap(a - mean_of(w), a - mean_of(rest));
}

proof fn lemma_negated(a: real, b: real)
    by (nonlinear_arith)
    ensures
        (-a) * b == -(a * b),
        a * (-b) == -(a * b),
{
}

pub proof fn lemma_product_negated(a: real, b: real)
    ensures
        product(-a, b) == -product(a, b),
        product(a, -b) == -product(a, b),
{
    reveal(product);
    lemma_negated(a, b);
}

/// The size of a product.
pub proof fn lemma_product_size(a: real, b: real, x: real, y: real)
    requires
        size(a) <= x,
        size(b) <= y,
    ensures
        size(product(a, b)) <= product(x, y),
        product(x, y) >= 0real,
{
    let u = size(a);
    let v = size(b);
    lemma_product_order(0real, v, u);
    lemma_product_units(u);
    lemma_product_order(u, x, v);
    lemma_product_order(v, y, x);
    lemma_product_negated(a, b);
    lemma_product_negated(a, -b);
    assert(product(u, v) == product(a, b) || product(u, v) == -product(a, b));
}

pub proof fn lemma_squares_bound(bound: real, reach: real, w: Seq<B64>, center: real)
    requires
        within(bound, w),
        size(center) <= bound,
        2real * bound <= reach,
    ensures
        0real <= squares_around(w, center) <= product(
            whole(w.len() as int),
            product(reach, reach),
        ),
    decreases w.len(),
{
    let r = reach;
    let rr = product(r, r);
    if w.len() > 0 {
        let front = w.drop_last();
        assert forall|i: int| 0 <= i < front.len() implies holds(bound, #[trigger] front[i]) by {
            assert(front[i] == w[i]);
        }
        lemma_squares_bound(bound, reach, front, center);
        assert(holds(bound, w[w.len() - 1]));
        let n = whole(front.len() as int);
        assert(whole(w.len() as int) == n + 1real);
        let d = w.last().exact() - center;
        lemma_product_size(d, d, r, r);
        lemma_square_positive(d);
        lemma_product_sum(rr, n, 1real);
        lemma_product_units(rr);
    } else {
        lemma_product_units(rr);
    }
}

pub proof fn lemma_square_positive(d: real)
    ensures
        product(d, d) >= 0real,
{
    let a = size(d);
    lemma_product_order(0real, a, a);
    lemma_product_units(a);
    lemma_product_negated(d, d);
    lemma_product_negated(d, -d);
}

pub proof fn lemma_cancel(a: real, b: real, k: real)
    requires
        k >= 1real,
        product(a, k) == product(b, k),
    ensures
        a == b,
{
    reveal(product);
    lemma_ratio_close(a, b, k);
}

/// The mean without a value, by the mean with it.
pub proof fn lemma_mean_without(w: Seq<B64>)
    requires
        w.len() > 1,
    ensures
        mean_of(w.drop_first()) == mean_of(w) + ratio(
            mean_of(w) - w.first().exact(),
            whole(w.len() as int - 1),
        ),
{
    let rest = w.drop_first();
    let k = whole(w.len() as int - 1);
    let m = mean_of(w);
    let a = w.first().exact();
    assert(whole(rest.len() as int) == k);
    assert(whole(w.len() as int) == k + 1real);
    lemma_total_front(w);
    lemma_mean_times(w);
    lemma_mean_times(rest);
    lemma_product_sum(m, k, 1real);
    lemma_product_units(m);
    let y = ratio(m - a, k);
    lemma_ratio_facts(m - a, 0real, k);
    lemma_product_sum(k, m, y);
    lemma_cancel(mean_of(rest), m + y, k);
}

pub proof fn lemma_ratio_zero(k: real)
    requires
        k >= 1real,
    ensures
        ratio(0real, k) == 0real,
{
    lemma_ratio_facts(0real, 0real, k);
    lemma_product_units(k);
    lemma_cancel(ratio(0real, k), 0real, k);
}

/// A gap of something is much less than it.
pub proof fn lemma_gap_small(x: real)
    requires
        x >= 0real,
    ensures
        1024real * product(gap(), x) <= x,
        product(gap(), x) >= 0real,
{
    lemma_gap();
    let g = gap();
    assert(g <= 1real / 1024real);
    lemma_product_order(0real, g, x);
    lemma_product_units(x);
    lemma_product_order(g, 1real / 1024real, x);
    assert(1024real * product(1real / 1024real, x) == x) by {
        reveal(product);
    }
}

/// A single value does not vary.
pub proof fn lemma_single(w: Seq<B64>)
    requires
        w.len() == 1,
    ensures
        variance_of(w) == 0real,
{
    let none = Seq::<B64>::empty();
    let x = w[0];
    assert(none.push(x) =~= w);
    lemma_squares_pushed(none, x);
    lemma_mean_times(w);
    lemma_product_units(mean_of(w));
    assert(w.drop_last() =~= none);
    assert(whole(w.len() as int) == 1real);
    assert(w.last() == x);
    assert(total(none) == 0real);
    assert(total(w) == total(w.drop_last()) + w.last().exact());
    assert(x.exact() - mean_of(w) == 0real);
    lemma_product_units(x.exact() - mean_of(none));
    lemma_ratio_zero(1real);
}

pub proof fn lemma_four(g: real, y: real)
    by (nonlinear_arith)
    ensures
        4real * g * y == 4real * (g * y),
{
}

} // verus!
