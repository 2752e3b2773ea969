//! How far rolling statistics drift under an ordinary load, in numbers.

use vstd::arithmetic::power2::{lemma2_to64_rest, lemma_pow2_adds, lemma_pow2_pos, lemma_pow2_unfold, pow2};
use vstd::prelude::*;

use crate::binary64::consts::{ONE, ZERO};
use crate::binary64::error::{
    gap, lemma_add_near, lemma_count_exact, lemma_div_near, lemma_exact_sign, lemma_mul_near, lemma_near,
    lemma_sqrt_near, lemma_sub_near, lemma_whole_product, limit, size, smallest, units_in_one, whole,
};
use crate::binary64::facts::{lemma_div_sign, lemma_mul_swap};
use crate::binary64::{num, B64};

use super::drift::{evicts_finitely, pushes_finitely, runs_finitely};
use super::exact::{
    holds, lemma_four, lemma_gap, lemma_gap_small, lemma_mean_bound, lemma_mean_without,
    lemma_near_within, lemma_product_order, lemma_product_size, lemma_product_sum, lemma_product_swap,
    lemma_product_units, lemma_ratio_facts, lemma_ratio_zero, lemma_regroup, lemma_single,
    lemma_square_positive, lemma_squares_bound, lemma_squares_evicted, lemma_squares_pushed, lemma_swap,
    lemma_total_bound, lemma_total_front, lemma_units, mean_of, product, ratio, squares_of, total,
    variance_of, within,
};
use super::rolling::{clipped, deviation, evicted, extended, Moments, StatsView};

verus! {

/// How many values come at most, through how long a window, and how large they
/// are at most.
pub struct Load {
    pub count: nat,
    pub capacity: nat,
    pub bound: real,
}

impl Load {
    /// What one value adds to the error of the sum.
    pub open spec fn sum_error(self) -> real {
        8real * product(gap(), product(whole(self.capacity as int + 1), self.bound))
    }

    /// How far the mean drifts.
    pub open spec fn mean_drift(self) -> real {
        product(whole(self.count as int + 1), self.sum_error())
    }

    /// How far a value lies from a mean at most.
    pub open spec fn reach(self) -> real {
        2real * self.bound + 8real * self.mean_drift()
    }

    /// What one value adds to the error of the sum of squares.
    pub open spec fn square_error(self) -> real {
        20real * product(self.reach(), self.mean_drift()) + 16real * product(
            gap(),
            product(whole(self.capacity as int + 1), product(self.reach(), self.reach())),
        )
    }

    /// How far the variance drifts.
    pub open spec fn variance_drift(self) -> real {
        product(whole(self.count as int + 1), self.square_error())
    }

    /// The squares of a window fit into a number with room to spare, and fewer
    /// than `2^49` values come. Smaller values than the least bound are within
    /// that bound too.
    pub open spec fn fits(self) -> bool {
        &&& 0 < self.capacity
        &&& self.count < 0x2_0000_0000_0000
        &&& product(whole(pow2(400) as int), self.bound) >= 1real
        &&& product(
            whole(self.capacity as int + 1),
            product(self.reach(), self.reach()) + 1real,
        ) <= whole(pow2(960) as int)
    }
}

/// The smallest number is negligible.
proof fn lemma_smallest_negligible(bound: real)
    requires
        whole(pow2(400) as int) * bound >= 1real,
    ensures
        bound > 0real,
        1024real * smallest() <= gap() * bound,
        1024real * smallest() <= gap() * (bound * bound),
{
    lemma_gap();
    let p = whole(pow2(400) as int);
    lemma_pow2_pos(400);
    lemma_pow2_adds(400, 400);
    lemma_pow2_adds(800, 274);
    lemma_whole_product(pow2(400) as int, pow2(400) as int);
    lemma_whole_product(pow2(800) as int, pow2(274) as int);
    vstd::arithmetic::power2::lemma_pow2_strictly_increases(62, 274);
    lemma2_to64_rest();
    let k = whole(pow2(274) as int);
    let s = smallest();
    let g = gap();
    let h = 4503599627370496real;
    let one = units_in_one();
    assert(one == (p * p) * k);
    assert(k >= 4611686018427387904real);
    assert(1024real * s * (p * p) <= g) by (nonlinear_arith)
        requires
            s * one == 1real,
            one == (p * p) * k,
            k >= 4611686018427387904real,
            g * h == 1real,
            h == 4503599627370496real,
            p >= 1real,
            s > 0real,
            g > 0real,
    ;
    assert(bound > 0real) by (nonlinear_arith)
        requires
            p * bound >= 1real,
            p >= 1real,
    ;
    assert(1024real * s <= g * (bound * bound)) by (nonlinear_arith)
        requires
            1024real * s * (p * p) <= g,
            p * bound >= 1real,
            p >= 1real,
            g > 0real,
            bound > 0real,
    ;
    assert(1024real * s <= g * bound) by (nonlinear_arith)
        requires
            1024real * s * (p * p) <= g,
            p * bound >= 1real,
            p >= 1real,
            g > 0real,
            bound > 0real,
            s > 0real,
    ;
}

/// What a load that fits means for its errors.
spec fn small_errors(load: Load) -> bool {
    let g = gap();
    let s = smallest();
    let m = load.bound;
    let e1 = load.sum_error();
    let d = load.mean_drift();
    let r = load.reach();
    let e2 = load.square_error();
    let c1 = whole(load.capacity as int + 1);
    let k = product(g, product(c1, product(r, r)));
    &&& g > 0real
    &&& s > 0real
    &&& m > 0real
    &&& c1 >= 2real
    &&& 8real * product(g, product(c1, m)) == e1
    &&& 16real * product(g, m) <= e1
    &&& 8real * product(g, d) <= e1
    &&& 1024real * s <= e1
    &&& e1 > 0real
    &&& e1 <= d
    &&& r == 2real * m + 8real * d
    &&& k > 0real
    &&& 2real * product(g, product(r, r)) <= k
    &&& 64real * s <= k
    &&& e2 == 20real * product(r, d) + 16real * k
    &&& 8real * product(g, load.variance_drift()) <= e2
    &&& 64real * product(c1, r) <= limit()
    &&& 64real * product(c1, product(r, r)) <= limit()
    &&& 64real * load.variance_drift() <= limit()
}

proof fn lemma_sum_errors(load: Load)
    requires
        load.fits(),
    ensures
        ({
            let g = gap();
            let s = smallest();
            let m = load.bound;
            let e1 = load.sum_error();
            let d = load.mean_drift();
            &&& g > 0real
            &&& s > 0real
            &&& m > 0real
            &&& 16real * product(g, m) <= e1
            &&& 8real * product(g, d) <= e1
            &&& 1024real * s <= e1
            &&& e1 > 0real
            &&& e1 <= d
        }),
{
    reveal(product);
    lemma_gap();
    lemma_smallest_negligible(load.bound);
    let g = gap();
    let h = 4503599627370496real;
    let s = smallest();
    let m = load.bound;
    let e1 = load.sum_error();
    let d = load.mean_drift();
    let c = whole(load.capacity as int);
    let n = whole(load.count as int + 1);
    assert(whole(load.capacity as int + 1) == c + 1real);
    assert(e1 == 8real * (g * ((c + 1real) * m)));
    assert(16real * (g * m) <= e1) by (nonlinear_arith)
        requires
            e1 == 8real * (g * ((c + 1real) * m)),
            c >= 1real,
            g > 0real,
            m > 0real,
    ;
    assert(g * m > 0real) by (nonlinear_arith)
        requires
            g > 0real,
            m > 0real,
    ;
    assert(8real * (g * d) <= e1) by (nonlinear_arith)
        requires
            d == n * e1,
            n <= 562949953421312real,
            g * h == 1real,
            h == 4503599627370496real,
            g > 0real,
            e1 > 0real,
    ;
    assert(e1 <= d) by (nonlinear_arith)
        requires
            d == n * e1,
            n >= 1real,
            e1 > 0real,
    ;
}

proof fn lemma_square_errors(load: Load)
    requires
        load.fits(),
    ensures
        small_errors(load),
{
    reveal(product);
    lemma_gap();
    lemma_smallest_negligible(load.bound);
    lemma_sum_errors(load);
    let g = gap();
    let h = 4503599627370496real;
    let s = smallest();
    let m = load.bound;
    let d = load.mean_drift();
    let r = load.reach();
    let e2 = load.square_error();
    let c = whole(load.capacity as int);
    let n = whole(load.count as int + 1);
    let c1 = c + 1real;
    assert(whole(load.capacity as int + 1) == c1);
    let rr = r * r;
    let k = g * (c1 * rr);
    assert(rr >= 4real * (m * m)) by (nonlinear_arith)
        requires
            rr == r * r,
            r == 2real * m + 8real * d,
            m > 0real,
            d > 0real,
    ;
    assert(m * m > 0real) by (nonlinear_arith)
        requires
            m > 0real,
    ;
    assert(2real * (g * rr) <= k) by (nonlinear_arith)
        requires
            k == g * (c1 * rr),
            c1 >= 2real,
            g > 0real,
            rr > 0real,
    ;
    assert(g * rr >= 4real * (g * (m * m))) by (nonlinear_arith)
        requires
            rr >= 4real * (m * m),
            g > 0real,
    ;
    assert(64real * s <= k);
    let dr = load.variance_drift();
    assert(e2 == 20real * (r * d) + 16real * k);
    assert(r * d > 0real) by (nonlinear_arith)
        requires
            r > 0real,
            d > 0real,
    ;
    assert(8real * (g * dr) <= e2) by (nonlinear_arith)
        requires
            dr == n * e2,
            n <= 562949953421312real,
            g * h == 1real,
            h == 4503599627370496real,
            g > 0real,
            e2 > 0real,
    ;
    let t = whole(pow2(960) as int);
    lemma_pow2_adds(960, 63);
    lemma_whole_product(pow2(960) as int, pow2(63) as int);
    lemma2_to64_rest();
    assert(limit() == t * 9223372036854775808real);
    lemma_pow2_pos(960);
    assert(c1 * r <= c1 * (rr + 1real)) by (nonlinear_arith)
        requires
            rr == r * r,
            c1 >= 2real,
            r > 0real,
    ;
    assert(c1 * rr <= c1 * (rr + 1real)) by (nonlinear_arith)
        requires
            c1 >= 2real,
    ;
    assert(c1 * rr >= rr + rr) by (nonlinear_arith)
        requires
            c1 >= 2real,
            rr > 0real,
    ;
    assert(64real * t <= limit()) by (nonlinear_arith)
        requires
            limit() == t * 9223372036854775808real,
            t > 0real,
    ;
    assert(8real * (r * d) <= rr) by (nonlinear_arith)
        requires
            rr == r * r,
            r == 2real * m + 8real * d,
            m > 0real,
            d > 0real,
    ;
    let crr = c1 * rr;
    assert(n * k <= crr) by (nonlinear_arith)
        requires
            k == g * crr,
            n <= 562949953421312real,
            g * h == 1real,
            h == 4503599627370496real,
            g > 0real,
            crr > 0real,
            n > 0real,
    ;
    assert(n * (r * d) <= 562949953421312real * crr) by (nonlinear_arith)
        requires
            0real < r * d <= crr,
            0real < n <= 562949953421312real,
    ;
    assert(dr == 20real * (n * (r * d)) + 16real * (n * k)) by (nonlinear_arith)
        requires
            dr == n * e2,
            e2 == 20real * (r * d) + 16real * k,
    ;
    assert(64real * dr <= limit()) by (nonlinear_arith)
        requires
            dr <= 20real * (562949953421312real * crr) + 16real * crr,
            crr <= t,
            t > 0real,
            limit() == t * 9223372036854775808real,
    ;
}

/// A number of bounded size and a drift on top are within the limit, and the
/// error of a result of that size is small.
proof fn lemma_room(load: Load)
    requires
        small_errors(load),
    ensures
        ({
            let c1 = whole(load.capacity as int + 1);
            let m = load.bound;
            let d = load.mean_drift();
            let z = product(c1, m) + 8real * d;
            &&& 8real * m + 8real * d <= limit()
            &&& z <= limit()
            &&& product(c1, m) >= m
        }),
{
    let c1 = whole(load.capacity as int + 1);
    let m = load.bound;
    let d = load.mean_drift();
    let r = load.reach();
    lemma_product_order(m, r, c1);
    lemma_product_order(1real, c1, r);
    lemma_product_order(1real, c1, m);
    lemma_product_units(r);
    lemma_product_units(m);
}

/// A value leaves the sum.
proof fn lemma_sum_sub(load: Load, sum: B64, x: B64, exact: real, off: real)
    requires
        small_errors(load),
        sum.finite(),
        size(sum.exact() - exact) <= off,
        off <= load.mean_drift(),
        size(exact) <= product(whole(load.capacity as int), load.bound),
        holds(load.bound, x),
    ensures
        sum.sub(x).finite(),
        8real * size(sum.sub(x).exact() - (exact - x.exact())) <= 8real * off + 3real * load.sum_error(),
{
    let g = gap();
    let m = load.bound;
    let c = whole(load.capacity as int);
    let c1 = whole(load.capacity as int + 1);
    let d = load.mean_drift();
    lemma_room(load);
    assert(c1 == c + 1real);
    lemma_product_sum(m, c, 1real);
    lemma_product_units(m);
    let z = product(c1, m) + d;
    assert(size(sum.exact() - x.exact()) <= z);
    lemma_sub_near(sum, x);
    lemma_near_within(sum.sub(x), sum.exact() - x.exact(), z);
    lemma_product_sum(g, product(c1, m), d);
}

/// A value joins the sum.
proof fn lemma_sum_add(load: Load, sum: B64, x: B64, exact: real, off: real)
    requires
        small_errors(load),
        sum.finite(),
        size(sum.exact() - exact) <= off,
        off <= 2real * load.mean_drift(),
        size(exact + x.exact()) <= product(whole(load.capacity as int), load.bound),
        holds(load.bound, x),
    ensures
        sum.add(x).finite(),
        2real * size(sum.add(x).exact() - (exact + x.exact())) <= 2real * off + load.sum_error(),
{
    let g = gap();
    let m = load.bound;
    let c = whole(load.capacity as int);
    let c1 = whole(load.capacity as int + 1);
    let d = load.mean_drift();
    lemma_room(load);
    assert(c1 == c + 1real);
    lemma_product_sum(m, c, 1real);
    lemma_product_units(m);
    let z = product(c1, m) + (d + d);
    assert(size(sum.exact() + x.exact()) <= z);
    lemma_add_near(sum, x);
    lemma_near_within(sum.add(x), sum.exact() + x.exact(), z);
    lemma_product_sum(g, product(c1, m), d + d);
    lemma_product_sum(g, d, d);
}

/// A sum over a count is near the mean.
proof fn lemma_sum_over(load: Load, sum: B64, w: Seq<B64>, off: real)
    requires
        small_errors(load),
        0 < w.len() < 0x2_0000_0000_0000,
        within(load.bound, w),
        sum.finite(),
        size(sum.exact() - total(w)) <= off,
        off + load.sum_error() <= load.mean_drift(),
    ensures
        sum.div(B64::from_u64(w.len() as u64)).finite(),
        size(sum.div(B64::from_u64(w.len() as u64)).exact() - mean_of(w)) <= load.mean_drift(),
{
    let g = gap();
    let m = load.bound;
    let d = load.mean_drift();
    let k = whole(w.len() as int);
    let n = B64::from_u64(w.len() as u64);
    lemma_room(load);
    lemma_count_exact(w.len() as u64);
    lemma_mean_bound(load.bound, w);
    lemma_ratio_facts(sum.exact(), total(w), k);
    let x = ratio(sum.exact(), k);
    assert(x == sum.exact() / n.exact()) by {
        reveal(ratio);
    }
    let z = m + d;
    assert(size(x) <= z);
    lemma_div_near(sum, n);
    lemma_near_within(sum.div(n), x, z);
    lemma_product_sum(g, m, d);
}

/// The sum and the mean after a number of values.
spec fn sum_tracks(load: Load, s: StatsView, count: nat) -> bool {
    &&& s.capacity == load.capacity
    &&& s.window.len() <= load.capacity
    &&& s.window.len() <= count
    &&& within(load.bound, s.window)
    &&& s.moments.sum.finite()
    &&& size(s.moments.sum.exact() - total(s.window)) <= product(whole(count as int), load.sum_error())
    &&& s.moments.mean.finite()
    &&& size(s.moments.mean.exact() - mean_of(s.window)) <= load.mean_drift()
}

proof fn lemma_count_up(load: Load, count: nat)
    requires
        small_errors(load),
        count < load.count,
    ensures
        ({
            let e = load.sum_error();
            let off = product(whole(count as int), e);
            &&& product(whole(count as int + 1), e) == off + e
            &&& off >= 0real
            &&& off + e + e <= load.mean_drift()
        }),
{
    let e = load.sum_error();
    let t = whole(count as int);
    lemma_product_sum(e, t, 1real);
    lemma_product_units(e);
    lemma_product_order(0real, t, e);
    lemma_product_order(t + 2real, whole(load.count as int + 1), e);
    lemma_product_sum(e, t + 1real, 1real);
    assert(t + 1real == whole(count as int + 1));
    assert(t + 2real == (t + 1real) + 1real);
}

proof fn lemma_sum_pushed(load: Load, s: StatsView, count: nat, x: B64)
    requires
        small_errors(load),
        0 < load.capacity,
        load.count < 0x2_0000_0000_0000,
        count < load.count,
        sum_tracks(load, s, count),
        holds(load.bound, x),
    ensures
        sum_tracks(load, s.pushed(x), (count + 1) as nat),
        s.window.len() == s.capacity ==> s.moments.sum.sub(s.window.first()).finite(),
{
    let e = load.sum_error();
    let m = load.bound;
    let off = product(whole(count as int), e);
    lemma_count_up(load, count);
    let w = s.window;
    let full = w.len() == s.capacity;
    let kept = if full {
        w.drop_first()
    } else {
        w
    };
    let v = kept.push(x);
    let next = s.pushed(x);
    assert(next.window == v);
    assert forall|i: int| 0 <= i < v.len() implies holds(load.bound, #[trigger] v[i]) by {
        if i < kept.len() {
            if full {
                assert(v[i] == w[i + 1]);
            } else {
                assert(v[i] == w[i]);
            }
        }
    }
    assert(v.drop_last() =~= kept);
    lemma_total_bound(load.bound, w);
    lemma_total_bound(load.bound, v);
    lemma_product_order(whole(v.len() as int), whole(load.capacity as int), m);
    lemma_product_order(whole(w.len() as int), whole(load.capacity as int), m);
    if full {
        lemma_total_front(w);
        assert(holds(load.bound, w[0]));
        lemma_sum_sub(load, s.moments.sum, w.first(), total(w), off);
        let gone = s.moments.sum.sub(w.first());
        let less = size(gone.exact() - total(kept));
        lemma_sum_add(load, gone, x, total(kept), less);
    } else {
        lemma_sum_add(load, s.moments.sum, x, total(kept), off);
    }
    lemma_sum_over(load, next.moments.sum, v, off + e);
}

proof fn lemma_sum_run(load: Load, values: Seq<B64>)
    requires
        load.fits(),
        values.len() <= load.count,
        within(load.bound, values),
    ensures
        sum_tracks(load, StatsView::empty(load.capacity).pushed_all(values), values.len()),
    decreases values.len(),
{
    lemma_square_errors(load);
    let s = StatsView::empty(load.capacity);
    if values.len() > 0 {
        let front = values.drop_last();
        assert forall|i: int| 0 <= i < front.len() implies holds(load.bound, #[trigger] front[i]) by {
            assert(front[i] == values[i]);
        }
        lemma_sum_run(load, front);
        assert(holds(load.bound, values[values.len() - 1]));
        lemma_sum_pushed(load, s.pushed_all(front), front.len(), values.last());
    } else {
        lemma_exact_sign(s.moments.sum);
        lemma_product_units(load.sum_error());
    }
}

/// Under a load that fits, the rolling mean is off from that of the window by
/// no more than the drift of the load.
pub proof fn law_ordinary_mean_drift(load: Load, values: Seq<B64>)
    requires
        load.fits(),
        values.len() <= load.count,
        within(load.bound, values),
    ensures
        ({
            let s = StatsView::empty(load.capacity).pushed_all(values);
            &&& s.moments.mean.finite()
            &&& size(s.moments.mean.exact() - mean_of(s.window)) <= load.mean_drift()
        }),
{
    lemma_sum_run(load, values);
}

/// A distance from a mean that is off by some steps of the drift.
proof fn lemma_distance(load: Load, x: B64, mean: B64, exact: real, off: real)
    requires
        small_errors(load),
        holds(load.bound, x),
        mean.finite(),
        size(mean.exact() - exact) <= off,
        size(exact) <= load.bound,
        off <= 4real * load.mean_drift(),
    ensures
        x.sub(mean).finite(),
        size(x.sub(mean).exact() - (x.exact() - exact)) <= off + load.mean_drift(),
        size(x.exact() - exact) <= 2real * load.bound,
{
    let g = gap();
    let m = load.bound;
    let d = load.mean_drift();
    lemma_room(load);
    let z = (m + m) + ((d + d) + (d + d));
    lemma_sub_near(x, mean);
    lemma_near_within(x.sub(mean), x.exact() - mean.exact(), z);
    lemma_product_sum(g, m + m, (d + d) + (d + d));
    lemma_product_sum(g, m, m);
    lemma_product_sum(g, d + d, d + d);
    lemma_product_sum(g, d, d);
}

/// The mean after the oldest value has left.
proof fn lemma_mean_evicted(load: Load, mean: B64, w: Seq<B64>)
    requires
        small_errors(load),
        within(load.bound, w),
        1 < w.len() < 0x2_0000_0000_0000,
        mean.finite(),
        size(mean.exact() - mean_of(w)) <= load.mean_drift(),
    ensures
        ({
            let n = B64::from_u64(w.len() as u64).sub(num(ONE));
            let next = mean.add(mean.sub(w.first()).div(n));
            &&& mean.sub(w.first()).finite()
            &&& mean.sub(w.first()).div(n).finite()
            &&& next.finite()
            &&& size(next.exact() - mean_of(w.drop_first())) <= 4real * load.mean_drift()
        }),
{
    let g = gap();
    let m = load.bound;
    let d = load.mean_drift();
    let old = w.first();
    assert(holds(load.bound, w[0]));
    lemma_room(load);
    lemma_mean_bound(load.bound, w);
    lemma_count_exact(w.len() as u64);
    lemma_mean_without(w);
    let k = whole(w.len() as int - 1);
    let n = B64::from_u64(w.len() as u64).sub(num(ONE));
    let mu = mean_of(w);
    let far = mu - old.exact();
    let z = (m + m) + d;
    lemma_sub_near(mean, old);
    lemma_near_within(mean.sub(old), mean.exact() - old.exact(), z);
    lemma_product_sum(g, m + m, d);
    lemma_product_sum(g, m, m);
    let a = mean.sub(old);
    assert(2real * size(a.exact() - far) <= 2real * d + load.sum_error());
    lemma_ratio_facts(a.exact(), far, k);
    lemma_ratio_facts(a.exact(), 0real, k);
    lemma_ratio_facts(far, 0real, k);
    lemma_ratio_zero(k);
    let x = ratio(a.exact(), k);
    assert(x == a.exact() / n.exact()) by {
        reveal(ratio);
    }
    let y = (m + m) + (d + d);
    assert(size(x) <= y);
    lemma_div_near(a, n);
    lemma_near_within(a.div(n), x, y);
    lemma_product_sum(g, m + m, d + d);
    lemma_product_sum(g, d, d);
    let b = a.div(n);
    assert(size(b.exact() - ratio(far, k)) <= d + load.sum_error());
    let v = ((m + m) + m) + ((d + d) + d);
    assert(size(mean.exact() + b.exact()) <= v);
    lemma_add_near(mean, b);
    lemma_near_within(mean.add(b), mean.exact() + b.exact(), v);
    lemma_product_sum(g, (m + m) + m, (d + d) + d);
    lemma_product_sum(g, m + m, m);
    lemma_product_sum(g, d + d, d);
}

/// How far the product of two distances is off at most.
spec fn product_error(load: Load) -> real {
    7real * product(load.reach(), load.mean_drift()) + product(gap(), product(load.reach(), load.reach()))
        + smallest()
}

/// The room of a window in squares.
spec fn square_room(load: Load) -> real {
    product(whole(load.capacity as int + 1), product(load.reach(), load.reach()))
}

proof fn lemma_square_facts(load: Load)
    requires
        small_errors(load),
    ensures
        ({
            let r = load.reach();
            let d = load.mean_drift();
            let m = load.bound;
            let rr = product(r, r);
            &&& product(r, d) == 2real * product(m, d) + 8real * product(d, d)
            &&& 8real * product(r, d) <= rr
            &&& product(m, d) >= 0real
            &&& product(d, d) >= 0real
            &&& rr <= square_room(load)
            &&& rr >= 0real
        }),
{
    let r = load.reach();
    let d = load.mean_drift();
    let m = load.bound;
    let rr = product(r, r);
    let d2 = d + d;
    let d4 = d2 + d2;
    let d8 = d4 + d4;
    lemma_product_sum(d, m + m, d8);
    lemma_product_sum(d, m, m);
    lemma_product_sum(d, d4, d4);
    lemma_product_sum(d, d2, d2);
    lemma_product_sum(d, d, d);
    lemma_product_order(0real, m, d);
    lemma_product_units(d);
    lemma_product_order(0real, d, d);
    lemma_product_order(d8, r, r);
    lemma_product_sum(r, d4, d4);
    lemma_product_sum(r, d2, d2);
    lemma_product_sum(r, d, d);
    lemma_product_order(0real, r, r);
    lemma_product_units(r);
    lemma_product_order(1real, whole(load.capacity as int + 1), rr);
    lemma_product_units(rr);
}

/// A product of two distances, the first off by less than the second.
proof fn lemma_product_step(load: Load, a: B64, b: B64, x: real, y: real)
    requires
        small_errors(load),
        a.finite(),
        b.finite(),
        size(x) <= 2real * load.bound,
        size(y) <= 2real * load.bound,
        size(a.exact() - x) <= 2real * load.mean_drift(),
        size(b.exact() - y) <= 5real * load.mean_drift(),
    ensures
        a.mul(b).finite(),
        size(a.mul(b).exact() - product(x, y)) <= product_error(load),
{
    let g = gap();
    let r = load.reach();
    let d = load.mean_drift();
    let m = load.bound;
    let p = a.exact() - x;
    let q = b.exact() - y;
    lemma_square_facts(load);
    let ab = product(a.exact(), b.exact());
    lemma_product_size(a.exact(), b.exact(), r, r);
    assert(ab == a.exact() * b.exact()) by {
        reveal(product);
    }
    lemma_mul_near(a, b);
    lemma_near_within(a.mul(b), ab, product(r, r));
    lemma_product_sum(b.exact(), x, p);
    lemma_product_sum(x, y, q);
    lemma_product_sum(p, y, q);
    assert(a.exact() == x + p);
    assert(b.exact() == y + q);
    assert(ab == product(x, y) + product(x, q) + (product(p, y) + product(p, q)));
    let d2 = d + d;
    let d5 = (d2 + d2) + d;
    let m2 = m + m;
    lemma_product_size(x, q, m2, d5);
    lemma_product_size(p, y, d2, m2);
    lemma_product_size(p, q, d2, d5);
    lemma_product_sum(m2, d2 + d2, d);
    lemma_product_sum(m2, d2, d2);
    lemma_product_sum(m2, d, d);
    lemma_product_sum(d, m, m);
    lemma_product_swap(d2, m2);
    lemma_product_sum(d2, d2 + d2, d);
    lemma_product_sum(d2, d2, d2);
    lemma_product_sum(d2, d, d);
    lemma_product_sum(d, d, d);
    lemma_product_swap(d2, d);
    lemma_product_swap(m2, d);
}

/// One step of the sum of squares, cut at zero.
proof fn lemma_clipped_step(load: Load, r: B64, exact: real, target: real, off: real)
    requires
        small_errors(load),
        r.near(exact),
        0real <= target <= square_room(load),
        size(exact - target) <= off + product_error(load),
        0real <= off <= load.variance_drift(),
    ensures
        clipped(r).finite(),
        clipped(r).exact() >= 0real,
        8real * size(clipped(r).exact() - target) <= 8real * off + 56real * product(load.reach(), load.mean_drift())
            + 24real * product(gap(), square_room(load)) + load.square_error(),
{
    let g = gap();
    let rho = product_error(load);
    let room = square_room(load);
    let rr = product(load.reach(), load.reach());
    let rd = product(load.reach(), load.mean_drift());
    let k = product(g, room);
    let v = load.variance_drift();
    lemma_square_facts(load);
    lemma_gap_small(rr);
    let grr = product(g, rr);
    lemma_gap_small(grr);
    lemma_gap_small(smallest());
    let z = (room + v) + rho;
    assert(size(exact) <= z);
    lemma_near_within(r, exact, z);
    lemma_product_sum(g, room + v, rho);
    lemma_product_sum(g, room, v);
    let rd2 = rd + rd;
    let rd4 = rd2 + rd2;
    let rd8 = rd4 + rd4;
    lemma_product_order(rd8, rr, g);
    lemma_product_sum(g, rd4, rd4);
    lemma_product_sum(g, rd2, rd2);
    lemma_product_sum(g, rd, rd);
    lemma_product_order(0real, rd, g);
    lemma_product_units(g);
    let part = (rd8 + grr) + smallest();
    lemma_product_order(rho, part, g);
    lemma_product_sum(g, rd8 + grr, smallest());
    lemma_product_sum(g, rd8, grr);
    lemma_exact_sign(r);
    lemma_exact_sign(num(ZERO));
}

proof fn lemma_square_limit(load: Load)
    requires
        small_errors(load),
    ensures
        (square_room(load) + load.variance_drift()) + product_error(load) <= limit(),
        product(gap(), square_room(load)) > 0real,
        product_error(load) >= 0real,
{
    let rr = product(load.reach(), load.reach());
    lemma_square_facts(load);
    lemma_gap_small(rr);
    lemma_gap_small(square_room(load));
    lemma_product_order(0real, load.reach(), load.mean_drift());
    lemma_product_units(load.mean_drift());
}

/// The squares of a window fit into its room.
proof fn lemma_squares_fit(load: Load, w: Seq<B64>)
    requires
        small_errors(load),
        within(load.bound, w),
        w.len() <= load.capacity,
    ensures
        0real <= squares_of(w) <= square_room(load),
        size(mean_of(w)) <= load.bound,
{
    let rr = product(load.reach(), load.reach());
    lemma_mean_bound(load.bound, w);
    lemma_squares_bound(load.bound, load.reach(), w, mean_of(w));
    lemma_square_facts(load);
    lemma_product_order(whole(w.len() as int), whole(load.capacity as int + 1), rr);
}

proof fn lemma_square_count(load: Load, count: nat)
    requires
        small_errors(load),
        count < load.count,
    ensures
        ({
            let e = load.square_error();
            let off = product(whole(count as int), e);
            &&& product(whole(count as int + 1), e) == off + e
            &&& off >= 0real
            &&& off + e + e <= load.variance_drift()
            &&& e > 0real
        }),
{
    let e = load.square_error();
    let t = whole(count as int);
    lemma_square_facts(load);
    lemma_product_sum(e, t, 1real);
    lemma_product_units(e);
    lemma_product_order(0real, t, e);
    lemma_product_order(t + 2real, whole(load.count as int + 1), e);
    lemma_product_sum(e, t + 1real, 1real);
    assert(t + 1real == whole(count as int + 1));
    assert(t + 2real == (t + 1real) + 1real);
}

/// The moments without the oldest value.
proof fn lemma_evicted_tracks(load: Load, s: Moments, w: Seq<B64>, off: real)
    requires
        small_errors(load),
        within(load.bound, w),
        0 < w.len() < 0x2_0000_0000_0000,
        w.len() <= load.capacity,
        s.mean.finite(),
        size(s.mean.exact() - mean_of(w)) <= load.mean_drift(),
        s.m2.finite(),
        size(s.m2.exact() - squares_of(w)) <= off,
        0real <= off <= load.variance_drift(),
    ensures
        ({
            let next = evicted(s, w.first(), w.len());
            let rest = w.drop_first();
            &&& s.sum.sub(w.first()).finite() ==> evicts_finitely(s, w.first(), w.len())
            &&& next.mean.finite()
            &&& size(next.mean.exact() - mean_of(rest)) <= 4real * load.mean_drift()
            &&& next.m2.finite()
            &&& next.m2.exact() >= 0real
            &&& 8real * size(next.m2.exact() - squares_of(rest)) <= 8real * off + 56real * product(
                load.reach(),
                load.mean_drift(),
            ) + 24real * product(gap(), square_room(load)) + load.square_error()
        }),
{
    let d = load.mean_drift();
    let rest = w.drop_first();
    let old = w.first();
    let next = evicted(s, old, w.len());
    assert(holds(load.bound, w[0]));
    assert forall|i: int| 0 <= i < rest.len() implies holds(load.bound, #[trigger] rest[i]) by {
        assert(rest[i] == w[i + 1]);
    }
    lemma_squares_fit(load, w);
    lemma_squares_fit(load, rest);
    if w.len() > 1 {
        lemma_mean_evicted(load, s.mean, w);
    } else {
        lemma_exact_sign(num(ZERO));
    }
    lemma_distance(load, old, s.mean, mean_of(w), d);
    lemma_distance(load, old, next.mean, mean_of(rest), 4real * d);
    let x = old.exact() - mean_of(w);
    let y = old.exact() - mean_of(rest);
    let a = old.sub(s.mean);
    let b = old.sub(next.mean);
    lemma_product_step(load, a, b, x, y);
    let p = a.mul(b);
    lemma_squares_evicted(w);
    lemma_square_limit(load);
    let exact = s.m2.exact() - p.exact();
    lemma_sub_near(s.m2, p);
    lemma_near(s.m2.sub(p), exact);
    lemma_clipped_step(load, s.m2.sub(p), exact, squares_of(rest), off);
}

/// The moments with one more value.
proof fn lemma_extended_tracks(load: Load, s: Moments, w: Seq<B64>, x: B64, off: real)
    requires
        small_errors(load),
        within(load.bound, w.push(x)),
        w.len() < load.capacity,
        s.mean.finite(),
        size(s.mean.exact() - mean_of(w)) <= 4real * load.mean_drift(),
        s.m2.finite(),
        size(s.m2.exact() - squares_of(w)) <= off,
        0real <= off <= load.variance_drift(),
        extended(s, x, (w.len() + 1) as nat).mean.finite(),
        size(extended(s, x, (w.len() + 1) as nat).mean.exact() - mean_of(w.push(x))) <= load.mean_drift(),
    ensures
        ({
            let next = extended(s, x, (w.len() + 1) as nat);
            let square = x.sub(s.mean).mul(x.sub(next.mean));
            &&& x.sub(s.mean).finite()
            &&& x.sub(next.mean).finite()
            &&& square.finite()
            &&& s.m2.add(square).finite()
            &&& next.m2.finite()
            &&& next.m2.exact() >= 0real
            &&& 8real * size(next.m2.exact() - squares_of(w.push(x))) <= 8real * off + 56real * product(
                load.reach(),
                load.mean_drift(),
            ) + 24real * product(gap(), square_room(load)) + load.square_error()
        }),
{
    let d = load.mean_drift();
    let v = w.push(x);
    let next = extended(s, x, (w.len() + 1) as nat);
    assert(holds(load.bound, v[v.len() - 1]));
    assert forall|i: int| 0 <= i < w.len() implies holds(load.bound, #[trigger] w[i]) by {
        assert(w[i] == v[i]);
    }
    lemma_squares_fit(load, w);
    lemma_squares_fit(load, v);
    lemma_distance(load, x, s.mean, mean_of(w), 4real * d);
    lemma_distance(load, x, next.mean, mean_of(v), d);
    let y = x.exact() - mean_of(w);
    let z = x.exact() - mean_of(v);
    let a = x.sub(s.mean);
    let b = x.sub(next.mean);
    lemma_product_step(load, b, a, z, y);
    lemma_product_swap(z, y);
    lemma_mul_swap(b, a);
    let p = a.mul(b);
    lemma_squares_pushed(w, x);
    lemma_square_limit(load);
    let exact = s.m2.exact() + p.exact();
    lemma_add_near(s.m2, p);
    lemma_near(s.m2.add(p), exact);
    lemma_clipped_step(load, s.m2.add(p), exact, squares_of(v), off);
}

/// The sum of squares after a number of values.
spec fn squares_track(load: Load, s: StatsView, count: nat) -> bool {
    &&& sum_tracks(load, s, count)
    &&& s.moments.m2.finite()
    &&& s.moments.m2.exact() >= 0real
    &&& size(s.moments.m2.exact() - squares_of(s.window)) <= product(whole(count as int), load.square_error())
}

proof fn lemma_squares_step(load: Load, s: StatsView, count: nat, x: B64)
    requires
        small_errors(load),
        0 < load.capacity,
        load.count < 0x2_0000_0000_0000,
        count < load.count,
        squares_track(load, s, count),
        holds(load.bound, x),
    ensures
        squares_track(load, s.pushed(x), (count + 1) as nat),
        pushes_finitely(s, x),
{
    lemma_sum_pushed(load, s, count, x);
    lemma_square_count(load, count);
    lemma_square_limit(load);
    let e = load.square_error();
    let off = product(whole(count as int), e);
    let w = s.window;
    let full = w.len() == s.capacity;
    let kept = if full {
        w.drop_first()
    } else {
        w
    };
    let before = if full {
        evicted(s.moments, w.first(), s.capacity)
    } else {
        s.moments
    };
    let next = s.pushed(x);
    assert(next.window == kept.push(x));
    assert(next.moments == extended(before, x, (kept.len() + 1) as nat));
    if full {
        lemma_evicted_tracks(load, s.moments, w, off);
        lemma_extended_tracks(load, before, kept, x, size(before.m2.exact() - squares_of(kept)));
    } else {
        lemma_extended_tracks(load, before, kept, x, off);
    }
    if next.window.len() > 1 {
        lemma_deviation(load, next.moments.m2, next.window, product(whole(count as int + 1), e));
    }
}

proof fn lemma_squares_run(load: Load, values: Seq<B64>)
    requires
        load.fits(),
        values.len() <= load.count,
        within(load.bound, values),
    ensures
        squares_track(load, StatsView::empty(load.capacity).pushed_all(values), values.len()),
    decreases values.len(),
{
    lemma_square_errors(load);
    let s = StatsView::empty(load.capacity);
    if values.len() > 0 {
        let front = values.drop_last();
        assert forall|i: int| 0 <= i < front.len() implies holds(load.bound, #[trigger] front[i]) by {
            assert(front[i] == values[i]);
        }
        lemma_squares_run(load, front);
        assert(holds(load.bound, values[values.len() - 1]));
        lemma_squares_step(load, s.pushed_all(front), front.len(), values.last());
    } else {
        lemma_sum_run(load, values);
        lemma_exact_sign(s.moments.m2);
        lemma_product_units(load.square_error());
    }
}

/// The root of a sum of squares over a count.
proof fn lemma_deviation(load: Load, m2: B64, w: Seq<B64>, off: real)
    requires
        small_errors(load),
        within(load.bound, w),
        1 < w.len() < 0x2_0000_0000_0000,
        w.len() <= load.capacity,
        m2.finite(),
        m2.exact() >= 0real,
        size(m2.exact() - squares_of(w)) <= off,
        0real <= off <= load.variance_drift(),
    ensures
        ({
            let dev = deviation(m2, w.len());
            &&& m2.div(B64::from_u64(w.len() as u64)).finite()
            &&& dev.finite()
            &&& dev.exact() >= 0real
            &&& size(product(dev.exact(), dev.exact()) - variance_of(w)) <= off + load.square_error()
        }),
{
    let g = gap();
    let k = whole(w.len() as int);
    let n = B64::from_u64(w.len() as u64);
    let room = square_room(load);
    let v = load.variance_drift();
    let e2 = load.square_error();
    lemma_count_exact(w.len() as u64);
    lemma_squares_fit(load, w);
    lemma_square_facts(load);
    lemma_square_limit(load);
    lemma_square_count_positive(load);
    lemma_ratio_facts(m2.exact(), squares_of(w), k);
    lemma_ratio_facts(m2.exact(), 0real, k);
    lemma_ratio_zero(k);
    let x = ratio(m2.exact(), k);
    assert(x == m2.exact() / n.exact()) by {
        reveal(ratio);
    }
    let z = room + v;
    assert(size(x) <= z);
    lemma_div_near(m2, n);
    let y = m2.div(n);
    lemma_near_within(y, x, z);
    lemma_product_sum(g, room, v);
    lemma_exact_sign(m2);
    lemma_exact_sign(n);
    lemma_div_sign(m2, n);
    lemma_exact_sign(y);
    assert(y.exact() >= 0real);
    lemma_sqrt_near(y);
    let dev = y.sqrt();
    lemma_four(g, y.exact());
    assert(product(dev.exact(), dev.exact()) == dev.exact() * dev.exact() && product(g, y.exact()) == g
        * y.exact()) by {
        reveal(product);
    }
    let err = (product(g, room) + product(g, v)) + smallest();
    lemma_product_order(y.exact(), (room + v) + err, g);
    lemma_product_sum(g, room + v, err);
    lemma_product_order(0real, v, g);
    lemma_product_units(g);
    lemma_gap_small(err);
}

proof fn lemma_square_count_positive(load: Load)
    requires
        small_errors(load),
    ensures
        load.variance_drift() >= 0real,
        load.square_error() > 0real,
{
    let e = load.square_error();
    lemma_square_facts(load);
    lemma_product_order(0real, whole(load.count as int + 1), e);
    lemma_product_units(e);
}

/// Under a load that fits, the square of the rolling deviation is off from the
/// population variance of the window by no more than the drift of the load.
pub proof fn law_ordinary_deviation_drift(load: Load, values: Seq<B64>)
    requires
        load.fits(),
        values.len() <= load.count,
        within(load.bound, values),
    ensures
        ({
            let s = StatsView::empty(load.capacity).pushed_all(values);
            &&& s.deviation.finite()
            &&& s.deviation.exact() >= 0real
            &&& size(product(s.deviation.exact(), s.deviation.exact()) - variance_of(s.window))
                <= load.variance_drift()
            &&& s.window.len() < 2 ==> s.deviation == num(ZERO)
        }),
{
    lemma_square_errors(load);
    lemma_squares_run(load, values);
    lemma_square_count_positive(load);
    let s = StatsView::empty(load.capacity).pushed_all(values);
    let w = s.window;
    let e = load.square_error();
    lemma_exact_sign(num(ZERO));
    lemma_product_units(0real);
    if values.len() > 0 {
        let last = StatsView::empty(load.capacity).pushed_all(values.drop_last());
        assert(s == last.pushed(values.last()));
        assert(s.deviation == deviation(s.moments.m2, w.len()));
        if w.len() > 1 {
            let off = product(whole(values.len() as int), e);
            lemma_product_order(0real, whole(values.len() as int), e);
            lemma_product_units(e);
            lemma_product_order(whole(values.len() as int + 1), whole(load.count as int + 1), e);
            lemma_product_sum(e, whole(values.len() as int), 1real);
            assert(whole(values.len() as int + 1) == whole(values.len() as int) + 1real);
            lemma_deviation(load, s.moments.m2, w, off);
        } else {
            lemma_single(w);
        }
    }
}

/// Nothing overflows under a load that fits.
pub proof fn law_ordinary_runs_are_finite(load: Load, values: Seq<B64>)
    requires
        load.fits(),
        values.len() <= load.count,
        within(load.bound, values),
    ensures
        runs_finitely(load.capacity, values),
{
    let s = StatsView::empty(load.capacity);
    lemma_square_errors(load);
    assert forall|i: int| 0 <= i < values.len() implies pushes_finitely(
        s.pushed_all(values.take(i)),
        #[trigger] values[i],
    ) by {
        let front = values.take(i);
        assert forall|k: int| 0 <= k < front.len() implies holds(load.bound, #[trigger] front[k]) by {
            assert(front[k] == values[k]);
        }
        lemma_squares_run(load, front);
        lemma_squares_step(load, s.pushed_all(front), front.len(), values[i]);
    }
}

/// A power of two among the reals.
spec fn power(k: nat) -> real {
    whole(pow2(k) as int)
}

proof fn lemma_power_product(a: nat, b: nat)
    ensures
        product(power(a), power(b)) == power(a + b),
{
    reveal(product);
    lemma_pow2_adds(a, b);
    lemma_whole_product(pow2(a) as int, pow2(b) as int);
}

proof fn lemma_power_double(k: nat)
    ensures
        power(k + 1) == 2real * power(k),
{
    lemma_pow2_unfold(k + 1);
    assert(pow2(k + 1) == 2 * pow2(k));
}

proof fn lemma_power_order(a: nat, b: nat)
    requires
        a < b,
    ensures
        1real <= power(a) < power(b),
{
    lemma_pow2_pos(a);
    vstd::arithmetic::power2::lemma_pow2_strictly_increases(a, b);
}

/// A count below `2^49` times eight gaps is less than 1.
proof fn lemma_gaps_of_count(n: real, z: real)
    requires
        0real <= n <= 562949953421312real,
        0real <= z,
    ensures
        product(n, 8real * product(gap(), z)) <= z,
{
    lemma_gap();
    lemma_gap_small(z);
    let q = product(gap(), z);
    let h = 4503599627370496real;
    assert(q * h == z) by {
        reveal(product);
        lemma_regroup(gap(), h, z);
        lemma_swap(z, 1real);
        lemma_units(z);
    }
    lemma_product_order(n, 562949953421312real, 8real * q);
    assert(product(562949953421312real, 8real * q) == 562949953421312real * (8real * q)) by {
        reveal(product);
    }
}

/// Values between `2^-400` and `2^400` in size fit through every window below
/// `2^32`.
pub proof fn law_ordinary_loads_fit(load: Load)
    requires
        0 < load.capacity < 0x1_0000_0000,
        load.count < 0x2_0000_0000_0000,
        product(whole(pow2(400) as int), load.bound) >= 1real,
        load.bound <= whole(pow2(400) as int),
    ensures
        load.fits(),
{
    let c1 = whole(load.capacity as int + 1);
    let m = load.bound;
    let z = product(c1, m);
    let r = load.reach();
    let rr = product(r, r);
    lemma2_to64_rest();
    lemma_gap();
    assert(m > 0real) by {
        if m <= 0real {
            lemma_product_order(m, 0real, power(400));
            lemma_product_units(power(400));
            lemma_power_order(400, 401);
        }
    }
    lemma_product_order(0real, m, c1);
    lemma_product_units(c1);
    lemma_gaps_of_count(whole(load.count as int + 1), z);
    assert(load.mean_drift() <= z);
    assert(load.mean_drift() >= 0real) by {
        lemma_gap_small(z);
        lemma_product_order(0real, load.sum_error(), whole(load.count as int + 1));
        lemma_product_units(whole(load.count as int + 1));
    }
    lemma_power_order(33, 400);
    lemma_product_order(m, power(400), c1);
    lemma_product_order(c1, power(33), power(400));
    lemma_power_product(33, 400);
    lemma_power_order(400, 433);
    lemma_power_double(433);
    lemma_power_double(434);
    lemma_power_double(435);
    lemma_power_double(436);
    assert(r <= power(437));
    lemma_product_order(r, power(437), r);
    lemma_product_order(r, power(437), power(437));
    lemma_power_order(437, 874);
    lemma_power_product(437, 437);
    assert(rr <= power(874));
    lemma_power_double(874);
    assert(rr >= 0real) by {
        lemma_square_positive(r);
    }
    assert(rr + 1real <= power(875));
    lemma_product_order(rr + 1real, power(875), c1);
    lemma_product_order(c1, power(33), power(875));
    lemma_power_product(33, 875);
    lemma_power_order(908, 960);
}

} // verus!
