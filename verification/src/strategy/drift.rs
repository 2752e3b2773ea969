//! How far rolling statistics drift from those of their window.

use vstd::prelude::*;

use crate::binary64::consts::{ONE, ZERO};
use crate::binary64::error::{
    gap, lemma_add_near, lemma_count_exact, lemma_div_near, lemma_exact_sign, lemma_mul_near, lemma_sqrt_near,
    lemma_sub_near, size, smallest, whole,
};
use crate::binary64::facts::{lemma_div_sign, lemma_mul_swap};
use crate::binary64::{num, B64};

use super::exact::{
    holds, lemma_four, lemma_gap, lemma_gap_small, lemma_mean_bound, lemma_mean_without, lemma_near_within,
    lemma_product_order, lemma_product_size, lemma_product_sum, lemma_product_swap, lemma_product_units,
    lemma_ratio_facts, lemma_ratio_zero, lemma_single, lemma_squares_bound, lemma_squares_evicted,
    lemma_squares_pushed, lemma_total_bound, lemma_total_front, mean_of, product, ratio, squares_of, total,
    variance_of, within,
};
use super::rolling::{
    clipped, deviation, evicted, extended, law_window_holds_the_last_values, Moments, StatsView,
};

verus! {

/// The longest window whose length is a number: its values fill 64 pebibytes.
pub const MAX_WINDOW: u64 = 0x20_0000_0000_0000;

/// Nothing overflows while the oldest of `n` values leaves.
pub open spec fn evicts_finitely(s: Moments, old: B64, n: nat) -> bool {
    let next = evicted(s, old, n);
    let square = old.sub(s.mean).mul(old.sub(next.mean));
    &&& next.sum.finite()
    &&& n > 1 ==> {
        let count = B64::from_u64(n as u64).sub(num(ONE));
        s.mean.sub(old).finite() && s.mean.sub(old).div(count).finite()
    }
    &&& next.mean.finite()
    &&& old.sub(s.mean).finite()
    &&& old.sub(next.mean).finite()
    &&& square.finite()
    &&& s.m2.sub(square).finite()
}

/// Nothing overflows while a value comes, the `n`-th in the window.
pub open spec fn extends_finitely(s: Moments, value: B64, n: nat) -> bool {
    let next = extended(s, value, n);
    let square = value.sub(s.mean).mul(value.sub(next.mean));
    &&& next.sum.finite()
    &&& next.mean.finite()
    &&& value.sub(s.mean).finite()
    &&& value.sub(next.mean).finite()
    &&& square.finite()
    &&& s.m2.add(square).finite()
    &&& n > 1 ==> next.m2.div(B64::from_u64(n as u64)).finite()
}

/// Nothing overflows while a value is taken in.
pub open spec fn pushes_finitely(s: StatsView, value: B64) -> bool {
    if s.window.len() == s.capacity {
        &&& evicts_finitely(s.moments, s.window.first(), s.capacity)
        &&& extends_finitely(evicted(s.moments, s.window.first(), s.capacity), value, s.capacity)
    } else {
        extends_finitely(s.moments, value, s.window.len() + 1)
    }
}

/// Nothing overflows while a run of values is taken in.
pub open spec fn runs_finitely(capacity: nat, values: Seq<B64>) -> bool {
    forall|i: int|
        0 <= i < values.len() ==> pushes_finitely(
            StatsView::empty(capacity).pushed_all(values.take(i)),
            #[trigger] values[i],
        )
}

/// What an error grows to when a number of the given magnitude is rounded.
pub open spec fn grown(error: real, magnitude: real) -> real {
    error + product(gap(), magnitude + error) + smallest()
}

/// The windows of a length over numbers of a size.
pub struct Scale {
    pub capacity: nat,
    pub bound: real,
}

impl Scale {
    /// How large a sum is at most.
    pub open spec fn sum_size(self) -> real {
        product(whole(self.capacity as int + 1), self.bound)
    }

    /// How large the product of two distances from a mean is at most.
    pub open spec fn square_size(self) -> real {
        product(2real * self.bound, 2real * self.bound)
    }

    /// How large a sum of squares is at most.
    pub open spec fn squares_size(self) -> real {
        product(whole(self.capacity as int), self.square_size())
    }

    /// How far the sum is off after a number of values: each leads to two
    /// roundings at most.
    pub open spec fn sum_drift(self, count: nat) -> real
        decreases count,
    {
        if count == 0 {
            0real
        } else {
            grown(grown(self.sum_drift((count - 1) as nat), self.sum_size()), self.sum_size())
        }
    }

    /// How far the mean is off.
    pub open spec fn mean_drift(self, count: nat) -> real {
        grown(self.sum_drift(count), self.sum_size())
    }

    /// How far the mean without a value is off where the mean with it is off by
    /// the given error.
    pub open spec fn evicted_drift(self, error: real) -> real {
        grown(error + grown(grown(error, self.sum_size()), self.sum_size()), self.sum_size())
    }

    /// How far the product of two distances is off: one from a mean, one from a
    /// mean without a value.
    pub open spec fn product_drift(self, count: nat) -> real {
        let near = grown(self.mean_drift(count), self.sum_size());
        let far = grown(self.evicted_drift(self.mean_drift(count)), self.sum_size());
        grown(
            product(2real * self.bound, far) + product(near, 2real * self.bound) + product(near, far),
            self.square_size(),
        )
    }

    /// How far the sum of squares is off: each value leads to two steps at most.
    pub open spec fn squares_drift(self, count: nat) -> real
        decreases count,
    {
        if count == 0 {
            0real
        } else {
            let step = self.product_drift(count);
            let once = grown(self.squares_drift((count - 1) as nat) + step, self.squares_size());
            grown(once + step, self.squares_size())
        }
    }

    /// How far the square of the deviation is off.
    pub open spec fn variance_drift(self, count: nat) -> real {
        let error = grown(self.squares_drift(count), self.squares_size());
        error + 4real * product(gap(), self.squares_size() + error)
    }
}

/// Errors grow.
proof fn lemma_grown(e1: real, e2: real, z: real)
    requires
        0real <= e1 <= e2,
        0real <= z,
    ensures
        0real <= e1 <= grown(e1, z),
        grown(e1, z) <= grown(e2, z),
{
    lemma_gap();
    let g = gap();
    lemma_product_order(0real, z + e1, g);
    lemma_product_units(g);
    lemma_product_order(z + e1, z + e2, g);
}

/// A rounded number of bounded size.
proof fn lemma_rounded_off(r: B64, x: real, target: real, error: real, bound: real)
    requires
        r.near(x),
        size(x - target) <= error,
        size(target) <= bound,
    ensures
        size(r.exact() - target) <= grown(error, bound),
{
    lemma_near_within(r, x, bound + error);
}

impl Scale {
    proof fn lemma_sizes(self)
        requires
            0real <= self.bound,
            0 < self.capacity,
        ensures
            self.sum_size() >= 2real * self.bound,
            self.square_size() >= 0real,
            self.squares_size() >= self.square_size(),
    {
        let m = self.bound;
        let c = whole(self.capacity as int);
        assert(whole(self.capacity as int + 1) >= 2real);
        lemma_product_order(2real, whole(self.capacity as int + 1), m);
        lemma_product_sum(m, 1real, 1real);
        lemma_product_units(m);
        lemma_product_size(2real * m, 2real * m, 2real * m, 2real * m);
        lemma_product_order(1real, c, self.square_size());
        lemma_product_units(self.square_size());
    }

    proof fn lemma_mean_drifts(self, count: nat)
        requires
            0real <= self.bound,
            0 < self.capacity,
        ensures
            0real <= self.sum_drift(count) <= self.mean_drift(count),
            self.sum_drift(count) <= grown(self.sum_drift(count), self.sum_size()) <= self.sum_drift(count + 1),
            self.mean_drift(count) <= self.mean_drift(count + 1),
        decreases count,
    {
        let z = self.sum_size();
        self.lemma_sizes();
        if count > 0 {
            self.lemma_mean_drifts((count - 1) as nat);
        }
        let e = self.sum_drift(count);
        lemma_grown(e, e, z);
        lemma_grown(grown(e, z), grown(e, z), z);
        lemma_grown(e, self.sum_drift(count + 1), z);
    }

    /// What an evicted mean is off by grows with what the mean is off by.
    proof fn lemma_evicted_drifts(self, e1: real, e2: real)
        requires
            0real <= self.bound,
            0 < self.capacity,
            0real <= e1 <= e2,
        ensures
            e1 <= self.evicted_drift(e1) <= self.evicted_drift(e2),
    {
        let z = self.sum_size();
        self.lemma_sizes();
        lemma_grown(e1, e2, z);
        lemma_grown(grown(e1, z), grown(e2, z), z);
        lemma_grown(e1 + grown(grown(e1, z), z), e2 + grown(grown(e2, z), z), z);
        lemma_grown(e2, e2, z);
        lemma_grown(grown(e2, z), grown(e2, z), z);
    }
}

/// A window that the scale is made for.
spec fn fitting(scale: Scale, w: Seq<B64>) -> bool {
    &&& 0 < scale.capacity <= MAX_WINDOW
    &&& 0real <= scale.bound
    &&& w.len() <= scale.capacity
    &&& within(scale.bound, w)
}

proof fn lemma_window_sizes(scale: Scale, w: Seq<B64>)
    requires
        fitting(scale, w),
    ensures
        size(total(w)) <= scale.sum_size(),
        size(mean_of(w)) <= scale.bound,
        0real <= squares_of(w) <= scale.squares_size(),
{
    let m = scale.bound;
    scale.lemma_sizes();
    lemma_total_bound(m, w);
    lemma_mean_bound(m, w);
    lemma_squares_bound(m, 2real * m, w, mean_of(w));
    lemma_product_order(whole(w.len() as int), whole(scale.capacity as int + 1), m);
    lemma_product_order(whole(w.len() as int), whole(scale.capacity as int), scale.square_size());
}

/// A distance from a mean.
proof fn lemma_distance(scale: Scale, x: B64, mean: B64, exact: real, error: real)
    requires
        0 < scale.capacity,
        0real <= scale.bound,
        holds(scale.bound, x),
        mean.finite(),
        x.sub(mean).finite(),
        size(mean.exact() - exact) <= error,
        size(exact) <= scale.bound,
    ensures
        size(x.sub(mean).exact() - (x.exact() - exact)) <= grown(error, scale.sum_size()),
        size(x.exact() - exact) <= 2real * scale.bound,
{
    scale.lemma_sizes();
    lemma_sub_near(x, mean);
    lemma_rounded_off(x.sub(mean), x.exact() - mean.exact(), x.exact() - exact, error, scale.sum_size());
}

/// The mean after the oldest value has left.
proof fn lemma_mean_evicted(scale: Scale, s: Moments, w: Seq<B64>, error: real)
    requires
        fitting(scale, w),
        0 < w.len(),
        s.mean.finite(),
        size(s.mean.exact() - mean_of(w)) <= error,
        0real <= error,
        evicts_finitely(s, w.first(), w.len()),
    ensures
        size(evicted(s, w.first(), w.len()).mean.exact() - mean_of(w.drop_first())) <= scale.evicted_drift(error),
{
    let z = scale.sum_size();
    let mean = s.mean;
    let old = w.first();
    let rest = w.drop_first();
    assert(holds(scale.bound, w[0]));
    assert forall|i: int| 0 <= i < rest.len() implies holds(scale.bound, #[trigger] rest[i]) by {
        assert(rest[i] == w[i + 1]);
    }
    scale.lemma_sizes();
    lemma_window_sizes(scale, w);
    lemma_window_sizes(scale, rest);
    scale.lemma_evicted_drifts(error, error);
    if w.len() > 1 {
        let k = whole(w.len() as int - 1);
        let n = B64::from_u64(w.len() as u64).sub(num(ONE));
        lemma_count_exact(w.len() as u64);
        lemma_mean_without(w);
        let mu = mean_of(w);
        let far = mu - old.exact();
        let a = mean.sub(old);
        lemma_sub_near(mean, old);
        lemma_rounded_off(a, mean.exact() - old.exact(), far, error, z);
        let x = ratio(a.exact(), k);
        lemma_ratio_facts(a.exact(), far, k);
        lemma_ratio_facts(far, 0real, k);
        lemma_ratio_zero(k);
        assert(x == a.exact() / n.exact()) by {
            reveal(ratio);
        }
        let b = a.div(n);
        lemma_div_near(a, n);
        lemma_rounded_off(b, x, ratio(far, k), grown(error, z), z);
        lemma_add_near(mean, b);
        lemma_rounded_off(
            mean.add(b),
            mean.exact() + b.exact(),
            mu + ratio(far, k),
            error + grown(grown(error, z), z),
            z,
        );
    } else {
        lemma_exact_sign(num(ZERO));
    }
}

/// A product of two distances, the second of them off further.
proof fn lemma_product_step(scale: Scale, count: nat, a: B64, b: B64, x: real, y: real)
    requires
        0 < scale.capacity,
        0real <= scale.bound,
        a.finite(),
        b.finite(),
        a.mul(b).finite(),
        size(x) <= 2real * scale.bound,
        size(y) <= 2real * scale.bound,
        size(a.exact() - x) <= grown(scale.mean_drift(count), scale.sum_size()),
        size(b.exact() - y) <= grown(scale.evicted_drift(scale.mean_drift(count)), scale.sum_size()),
    ensures
        size(a.mul(b).exact() - product(x, y)) <= scale.product_drift(count),
        scale.product_drift(count) >= 0real,
{
    let m = 2real * scale.bound;
    let near = grown(scale.mean_drift(count), scale.sum_size());
    let far = grown(scale.evicted_drift(scale.mean_drift(count)), scale.sum_size());
    let p = a.exact() - x;
    let q = b.exact() - y;
    scale.lemma_sizes();
    let ab = product(a.exact(), b.exact());
    assert(ab == a.exact() * b.exact()) by {
        reveal(product);
    }
    lemma_mul_near(a, b);
    lemma_product_sum(b.exact(), x, p);
    lemma_product_sum(x, y, q);
    lemma_product_sum(p, y, q);
    assert(a.exact() == x + p);
    assert(b.exact() == y + q);
    assert(ab == product(x, y) + product(x, q) + (product(p, y) + product(p, q)));
    lemma_product_size(x, q, m, far);
    lemma_product_size(p, y, near, m);
    lemma_product_size(p, q, near, far);
    lemma_product_size(x, y, m, m);
    let error = product(m, far) + product(near, m) + product(near, far);
    lemma_rounded_off(a.mul(b), ab, product(x, y), error, scale.square_size());
    lemma_grown(error, error, scale.square_size());
}

/// A step of the sum of squares, cut at zero.
proof fn lemma_clipped_step(r: B64, x: real, target: real, error: real, bound: real)
    requires
        r.finite(),
        r.near(x),
        size(x - target) <= error,
        0real <= target <= bound,
    ensures
        clipped(r).finite(),
        clipped(r).exact() >= 0real,
        size(clipped(r).exact() - target) <= grown(error, bound),
{
    lemma_rounded_off(r, x, target, error, bound);
    lemma_exact_sign(r);
    lemma_exact_sign(num(ZERO));
}

/// How the statistics lie to their window after a number of values.
spec fn tracks(scale: Scale, s: StatsView, count: nat) -> bool {
    &&& s.capacity == scale.capacity
    &&& fitting(scale, s.window)
    &&& s.moments.sum.finite()
    &&& size(s.moments.sum.exact() - total(s.window)) <= scale.sum_drift(count)
    &&& s.moments.mean.finite()
    &&& size(s.moments.mean.exact() - mean_of(s.window)) <= scale.mean_drift(count)
    &&& s.moments.m2.finite()
    &&& s.moments.m2.exact() >= 0real
    &&& size(s.moments.m2.exact() - squares_of(s.window)) <= scale.squares_drift(count)
}

/// The moments without the oldest value.
proof fn lemma_evicted_tracks(scale: Scale, s: Moments, w: Seq<B64>, count: nat, off: real)
    requires
        fitting(scale, w),
        0 < w.len(),
        s.sum.finite(),
        size(s.sum.exact() - total(w)) <= scale.sum_drift(count),
        s.mean.finite(),
        size(s.mean.exact() - mean_of(w)) <= scale.mean_drift(count),
        s.m2.finite(),
        size(s.m2.exact() - squares_of(w)) <= off,
        evicts_finitely(s, w.first(), w.len()),
    ensures
        ({
            let next = evicted(s, w.first(), w.len());
            let rest = w.drop_first();
            &&& size(next.sum.exact() - total(rest)) <= grown(scale.sum_drift(count), scale.sum_size())
            &&& size(next.mean.exact() - mean_of(rest)) <= scale.evicted_drift(scale.mean_drift(count))
            &&& next.m2.finite()
            &&& next.m2.exact() >= 0real
            &&& size(next.m2.exact() - squares_of(rest)) <= grown(
                off + scale.product_drift(count + 1),
                scale.squares_size(),
            )
        }),
{
    let z = scale.sum_size();
    let rest = w.drop_first();
    let old = w.first();
    let next = evicted(s, old, w.len());
    let d = scale.mean_drift(count);
    let e = scale.mean_drift(count + 1);
    assert(holds(scale.bound, w[0]));
    assert forall|i: int| 0 <= i < rest.len() implies holds(scale.bound, #[trigger] rest[i]) by {
        assert(rest[i] == w[i + 1]);
    }
    scale.lemma_sizes();
    lemma_window_sizes(scale, w);
    lemma_window_sizes(scale, rest);
    lemma_total_front(w);
    lemma_sub_near(s.sum, old);
    lemma_rounded_off(next.sum, s.sum.exact() - old.exact(), total(rest), scale.sum_drift(count), z);
    scale.lemma_mean_drifts(count);
    lemma_mean_evicted(scale, s, w, d);
    lemma_distance(scale, old, s.mean, mean_of(w), d);
    lemma_distance(scale, old, next.mean, mean_of(rest), scale.evicted_drift(d));
    scale.lemma_evicted_drifts(d, e);
    lemma_grown(d, e, z);
    lemma_grown(scale.evicted_drift(d), scale.evicted_drift(e), z);
    let x = old.exact() - mean_of(w);
    let y = old.exact() - mean_of(rest);
    let a = old.sub(s.mean);
    let b = old.sub(next.mean);
    lemma_product_step(scale, count + 1, a, b, x, y);
    let p = a.mul(b);
    lemma_squares_evicted(w);
    lemma_sub_near(s.m2, p);
    lemma_clipped_step(
        s.m2.sub(p),
        s.m2.exact() - p.exact(),
        squares_of(rest),
        off + scale.product_drift(count + 1),
        scale.squares_size(),
    );
}

/// The moments with one more value.
proof fn lemma_extended_tracks(scale: Scale, s: Moments, w: Seq<B64>, x: B64, count: nat, sum_off: real, off: real)
    requires
        fitting(scale, w.push(x)),
        s.sum.finite(),
        size(s.sum.exact() - total(w)) <= sum_off,
        0real <= sum_off <= grown(scale.sum_drift(count), scale.sum_size()),
        s.mean.finite(),
        size(s.mean.exact() - mean_of(w)) <= scale.evicted_drift(scale.mean_drift(count + 1)),
        s.m2.finite(),
        size(s.m2.exact() - squares_of(w)) <= off,
        extends_finitely(s, x, w.len() + 1),
    ensures
        ({
            let next = extended(s, x, w.len() + 1);
            let v = w.push(x);
            &&& size(next.sum.exact() - total(v)) <= scale.sum_drift(count + 1)
            &&& size(next.mean.exact() - mean_of(v)) <= scale.mean_drift(count + 1)
            &&& next.m2.finite()
            &&& next.m2.exact() >= 0real
            &&& size(next.m2.exact() - squares_of(v)) <= grown(
                off + scale.product_drift(count + 1),
                scale.squares_size(),
            )
        }),
{
    let z = scale.sum_size();
    let v = w.push(x);
    let next = extended(s, x, w.len() + 1);
    let e = scale.mean_drift(count + 1);
    assert(holds(scale.bound, v[v.len() - 1]));
    assert forall|i: int| 0 <= i < w.len() implies holds(scale.bound, #[trigger] w[i]) by {
        assert(w[i] == v[i]);
    }
    assert(v.drop_last() =~= w);
    scale.lemma_sizes();
    scale.lemma_mean_drifts(count);
    lemma_window_sizes(scale, w);
    lemma_window_sizes(scale, v);
    lemma_add_near(s.sum, x);
    lemma_rounded_off(next.sum, s.sum.exact() + x.exact(), total(v), sum_off, z);
    lemma_grown(sum_off, grown(scale.sum_drift(count), z), z);
    let k = whole(v.len() as int);
    let n = B64::from_u64(v.len() as u64);
    lemma_count_exact(v.len() as u64);
    lemma_ratio_facts(next.sum.exact(), total(v), k);
    let r = ratio(next.sum.exact(), k);
    assert(r == next.sum.exact() / n.exact()) by {
        reveal(ratio);
    }
    lemma_div_near(next.sum, n);
    lemma_rounded_off(next.mean, r, mean_of(v), scale.sum_drift(count + 1), z);
    lemma_distance(scale, x, s.mean, mean_of(w), scale.evicted_drift(e));
    lemma_distance(scale, x, next.mean, mean_of(v), e);
    let y = x.exact() - mean_of(w);
    let t = x.exact() - mean_of(v);
    let a = x.sub(s.mean);
    let b = x.sub(next.mean);
    lemma_mul_swap(b, a);
    lemma_product_step(scale, count + 1, b, a, t, y);
    lemma_product_swap(t, y);
    let p = a.mul(b);
    lemma_squares_pushed(w, x);
    lemma_add_near(s.m2, p);
    lemma_clipped_step(
        s.m2.add(p),
        s.m2.exact() + p.exact(),
        squares_of(v),
        off + scale.product_drift(count + 1),
        scale.squares_size(),
    );
}

proof fn lemma_pushed_tracks(scale: Scale, s: StatsView, count: nat, x: B64)
    requires
        tracks(scale, s, count),
        holds(scale.bound, x),
        pushes_finitely(s, x),
    ensures
        tracks(scale, s.pushed(x), count + 1),
{
    let z = scale.sum_size();
    let w = s.window;
    let full = w.len() == s.capacity;
    let kept = if full {
        w.drop_first()
    } else {
        w
    };
    let v = kept.push(x);
    let next = s.pushed(x);
    let off = scale.squares_drift(count);
    let step = scale.product_drift(count + 1);
    let room = scale.squares_size();
    assert(next.window == v);
    assert forall|i: int| 0 <= i < v.len() implies holds(scale.bound, #[trigger] v[i]) by {
        if i < kept.len() {
            if full {
                assert(v[i] == w[i + 1]);
            } else {
                assert(v[i] == w[i]);
            }
        }
    }
    scale.lemma_sizes();
    scale.lemma_mean_drifts(count);
    let d = scale.mean_drift(count);
    let e = scale.mean_drift(count + 1);
    scale.lemma_evicted_drifts(d, e);
    scale.lemma_evicted_drifts(e, e);
    scale.lemma_product_positive(count + 1);
    scale.lemma_squares_positive(count);
    let once = grown(off + step, room);
    lemma_grown(off + step, off + step, room);
    lemma_grown(off + step, once + step, room);
    if full {
        lemma_evicted_tracks(scale, s.moments, w, count, off);
        let before = evicted(s.moments, w.first(), w.len());
        lemma_extended_tracks(
            scale,
            before,
            kept,
            x,
            count,
            grown(scale.sum_drift(count), z),
            once,
        );
    } else {
        lemma_extended_tracks(scale, s.moments, kept, x, count, scale.sum_drift(count), off);
    }
}

impl Scale {
    proof fn lemma_product_positive(self, count: nat)
        requires
            0real <= self.bound,
            0 < self.capacity,
        ensures
            self.product_drift(count) >= 0real,
    {
        let m = 2real * self.bound;
        let z = self.sum_size();
        let d = self.mean_drift(count);
        self.lemma_sizes();
        self.lemma_mean_drifts(count);
        self.lemma_evicted_drifts(d, d);
        lemma_grown(d, d, z);
        let f = self.evicted_drift(d);
        lemma_grown(f, f, z);
        lemma_product_size(0real, 0real, m, grown(f, z));
        lemma_product_size(0real, 0real, grown(d, z), m);
        lemma_product_size(0real, 0real, grown(d, z), grown(f, z));
        let error = product(m, grown(f, z)) + product(grown(d, z), m) + product(grown(d, z), grown(f, z));
        lemma_grown(error, error, self.square_size());
    }

    proof fn lemma_squares_positive(self, count: nat)
        requires
            0real <= self.bound,
            0 < self.capacity,
        ensures
            self.squares_drift(count) >= 0real,
        decreases count,
    {
        if count > 0 {
            self.lemma_squares_positive((count - 1) as nat);
            self.lemma_product_positive(count);
            self.lemma_sizes();
            let step = self.product_drift(count);
            let off = self.squares_drift((count - 1) as nat) + step;
            let room = self.squares_size();
            lemma_grown(off, off, room);
            lemma_grown(grown(off, room) + step, grown(off, room) + step, room);
        }
    }
}

proof fn lemma_run_tracks(scale: Scale, values: Seq<B64>)
    requires
        0 < scale.capacity <= MAX_WINDOW,
        0real <= scale.bound,
        within(scale.bound, values),
        runs_finitely(scale.capacity, values),
    ensures
        tracks(scale, StatsView::empty(scale.capacity).pushed_all(values), values.len()),
    decreases values.len(),
{
    let s = StatsView::empty(scale.capacity);
    if values.len() > 0 {
        let front = values.drop_last();
        let last = values[values.len() - 1];
        assert forall|i: int| 0 <= i < front.len() implies holds(scale.bound, #[trigger] front[i]) by {
            assert(front[i] == values[i]);
        }
        assert forall|i: int| 0 <= i < front.len() implies pushes_finitely(
            s.pushed_all(front.take(i)),
            #[trigger] front[i],
        ) by {
            assert(front[i] == values[i]);
            assert(front.take(i) =~= values.take(i));
        }
        lemma_run_tracks(scale, front);
        assert(holds(scale.bound, last));
        assert(values.take(values.len() - 1) =~= front);
        lemma_pushed_tracks(scale, s.pushed_all(front), front.len(), last);
    } else {
        scale.lemma_mean_drifts(0);
        lemma_exact_sign(num(ZERO));
    }
}

/// The root of a sum of squares over a count.
proof fn lemma_deviation(scale: Scale, m2: B64, w: Seq<B64>, off: real)
    requires
        fitting(scale, w),
        1 < w.len(),
        m2.finite(),
        m2.exact() >= 0real,
        size(m2.exact() - squares_of(w)) <= off,
        0real <= off,
        m2.div(B64::from_u64(w.len() as u64)).finite(),
    ensures
        ({
            let dev = deviation(m2, w.len());
            let error = grown(off, scale.squares_size());
            &&& dev.finite()
            &&& dev.exact() >= 0real
            &&& size(product(dev.exact(), dev.exact()) - variance_of(w)) <= error + 4real * product(
                gap(),
                scale.squares_size() + error,
            )
        }),
{
    let g = gap();
    let k = whole(w.len() as int);
    let n = B64::from_u64(w.len() as u64);
    let room = scale.squares_size();
    let error = grown(off, room);
    lemma_gap();
    lemma_count_exact(w.len() as u64);
    lemma_window_sizes(scale, w);
    lemma_ratio_facts(m2.exact(), squares_of(w), k);
    lemma_ratio_facts(squares_of(w), 0real, k);
    lemma_ratio_zero(k);
    let x = ratio(m2.exact(), k);
    assert(x == m2.exact() / n.exact()) by {
        reveal(ratio);
    }
    let y = m2.div(n);
    lemma_div_near(m2, n);
    lemma_rounded_off(y, x, variance_of(w), off, room);
    lemma_exact_sign(m2);
    lemma_exact_sign(n);
    lemma_div_sign(m2, n);
    lemma_exact_sign(y);
    lemma_sqrt_near(y);
    let dev = y.sqrt();
    lemma_four(g, y.exact());
    assert(product(dev.exact(), dev.exact()) == dev.exact() * dev.exact() && product(g, y.exact()) == g
        * y.exact()) by {
        reveal(product);
    }
    lemma_product_order(y.exact(), room + error, g);
}

/// As long as nothing overflows, the statistics are those of the last values up
/// to rounding, whatever went through the window before: the mean is off from
/// theirs, and the square of the deviation from their population variance, by
/// no more than the roundings of the run add up to. A single value has no
/// deviation.
pub proof fn law_statistics_are_those_of_the_window(scale: Scale, values: Seq<B64>)
    requires
        0 < scale.capacity <= MAX_WINDOW,
        0real <= scale.bound,
        within(scale.bound, values),
        runs_finitely(scale.capacity, values),
    ensures
        ({
            let s = StatsView::empty(scale.capacity).pushed_all(values);
            let dropped = if values.len() > scale.capacity {
                values.len() - scale.capacity
            } else {
                0
            };
            let last = values.skip(dropped);
            &&& s.window == last
            &&& s.moments.mean.finite()
            &&& size(s.moments.mean.exact() - mean_of(last)) <= scale.mean_drift(values.len())
            &&& s.deviation.finite()
            &&& s.deviation.exact() >= 0real
            &&& size(product(s.deviation.exact(), s.deviation.exact()) - variance_of(last))
                <= scale.variance_drift(values.len())
            &&& last.len() < 2 ==> s.deviation == num(ZERO)
        }),
{
    law_window_holds_the_last_values(scale.capacity, values);
    lemma_run_tracks(scale, values);
    scale.lemma_sizes();
    scale.lemma_squares_positive(values.len());
    let empty = StatsView::empty(scale.capacity);
    let s = empty.pushed_all(values);
    let w = s.window;
    let off = scale.squares_drift(values.len());
    let room = scale.squares_size();
    lemma_grown(off, off, room);
    lemma_gap_small(room + grown(off, room));
    lemma_exact_sign(num(ZERO));
    lemma_product_units(0real);
    if values.len() > 0 {
        let before = empty.pushed_all(values.drop_last());
        assert(values.take(values.len() - 1) =~= values.drop_last());
        assert(pushes_finitely(before, values[values.len() - 1]));
        assert(s == before.pushed(values.last()));
        assert(s.deviation == deviation(s.moments.m2, w.len()));
        if w.len() > 1 {
            lemma_deviation(scale, s.moments.m2, w, off);
        } else {
            lemma_single(w);
        }
    }
}

} // verus!
