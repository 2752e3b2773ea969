//! Welford rolling mean, standard deviation and z-score.

use vstd::prelude::*;

use crate::binary64::consts::{ONE, TINY_10, ZERO};
use crate::binary64::{num, B64};

verus! {

/// Statistics over the last values of a stream.
#[derive(Debug)]
pub struct RollingStats {
    pub buffer: Vec<B64>,
    pub capacity: usize,
    pub write_pos: usize,
    pub count: usize,
    pub sum: B64,
    pub m2: B64,
    pub cached_mean: B64,
    pub cached_std: B64,
}

/// The numbers that the statistics carry from value to value.
pub struct Moments {
    pub sum: B64,
    pub m2: B64,
    pub mean: B64,
}

/// A sum of squares that rounding pushed below zero counts as zero.
pub open spec fn clipped(m2: B64) -> B64 {
    if m2.lt(num(ZERO)) {
        num(ZERO)
    } else {
        m2
    }
}

/// The moments after the oldest of `n` values has left.
pub open spec fn evicted(s: Moments, old: B64, n: nat) -> Moments {
    let mean = if n > 1 {
        s.mean.add(s.mean.sub(old).div(B64::from_u64(n as u64).sub(num(ONE))))
    } else {
        num(ZERO)
    };
    Moments {
        sum: s.sum.sub(old),
        m2: clipped(s.m2.sub(old.sub(s.mean).mul(old.sub(mean)))),
        mean,
    }
}

/// The moments after a value has come, the `n`-th in the window.
pub open spec fn extended(s: Moments, value: B64, n: nat) -> Moments {
    let sum = s.sum.add(value);
    let mean = sum.div(B64::from_u64(n as u64));
    Moments { sum, m2: clipped(s.m2.add(value.sub(s.mean).mul(value.sub(mean)))), mean }
}

/// The population standard deviation of `n` values.
pub open spec fn deviation(m2: B64, n: nat) -> B64 {
    if n >= 2 {
        m2.div(B64::from_u64(n as u64)).sqrt()
    } else {
        num(ZERO)
    }
}

/// What the statistics hold: the window, oldest value first, and its moments.
#[verifier::ext_equal]
pub struct StatsView {
    pub capacity: nat,
    pub window: Seq<B64>,
    pub moments: Moments,
    pub deviation: B64,
}

impl StatsView {
    /// Statistics without a value.
    pub open spec fn empty(capacity: nat) -> StatsView {
        StatsView {
            capacity,
            window: Seq::empty(),
            moments: Moments { sum: num(ZERO), m2: num(ZERO), mean: num(ZERO) },
            deviation: num(ZERO),
        }
    }

    /// One more value; the oldest leaves where the window is full.
    pub open spec fn pushed(self, value: B64) -> StatsView {
        let full = self.window.len() == self.capacity;
        let kept = if full {
            self.window.drop_first()
        } else {
            self.window
        };
        let before = if full {
            evicted(self.moments, self.window.first(), self.capacity)
        } else {
            self.moments
        };
        let n = kept.len() + 1;
        let moments = extended(before, value, n);
        StatsView {
            capacity: self.capacity,
            window: kept.push(value),
            moments,
            deviation: deviation(moments.m2, n),
        }
    }

    /// After a run of values.
    pub open spec fn pushed_all(self, values: Seq<B64>) -> StatsView
        decreases values.len(),
    {
        if values.len() == 0 {
            self
        } else {
            self.pushed_all(values.drop_last()).pushed(values.last())
        }
    }

    pub open spec fn zscore(self, value: B64) -> B64 {
        if self.deviation.lt(num(TINY_10)) {
            num(ZERO)
        } else {
            value.sub(self.moments.mean).div(self.deviation)
        }
    }
}

impl View for RollingStats {
    type V = StatsView;

    open spec fn view(&self) -> StatsView {
        StatsView {
            capacity: self.capacity as nat,
            window: self.window(),
            moments: Moments { sum: self.sum, m2: self.m2, mean: self.cached_mean },
            deviation: self.cached_std,
        }
    }
}

impl Clone for RollingStats {
    fn clone(&self) -> (r: RollingStats)
        ensures
            r@ == self@,
            r.wf() == self.wf(),
    {
        let buffer: Vec<B64> = self.buffer.clone();
        assert(buffer@ =~= self.buffer@);
        let r = RollingStats {
            buffer,
            capacity: self.capacity,
            write_pos: self.write_pos,
            count: self.count,
            sum: self.sum,
            m2: self.m2,
            cached_mean: self.cached_mean,
            cached_std: self.cached_std,
        };
        assert(r.window() =~= self.window());
        r
    }
}

impl RollingStats {
    /// The values in the window, oldest first.
    pub open spec fn window(&self) -> Seq<B64> {
        Seq::new(
            self.count as nat,
            |i: int| self.buffer@[(self.write_pos + self.capacity - self.count + i) % self.capacity as int],
        )
    }

    /// The ring is consistent.
    pub open spec fn wf(&self) -> bool {
        &&& self.capacity > 0
        &&& self.buffer@.len() == self.capacity
        &&& self.write_pos < self.capacity
        &&& self.count <= self.capacity
    }

    pub fn new(capacity: usize) -> (r: RollingStats)
        requires
            capacity > 0,
        ensures
            r.wf(),
            r@ == StatsView::empty(capacity as nat),
    {
        let zero: B64 = num(ZERO);
        let mut buffer: Vec<B64> = Vec::new();
        let mut i: usize = 0;
        while i < capacity
            invariant
                i <= capacity,
                buffer.len() == i,
            decreases capacity - i,
        {
            buffer.push(zero);
            i = i + 1;
        }
        let r = RollingStats {
            buffer,
            capacity,
            write_pos: 0,
            count: 0,
            sum: zero,
            m2: zero,
            cached_mean: zero,
            cached_std: zero,
        };
        assert(r.window() =~= Seq::<B64>::empty());
        r
    }

    /// Takes a value in; the oldest leaves when the window is full.
    pub fn push(&mut self, value: B64)
        requires
            old(self).wf(),
        ensures
            final(self).wf(),
            final(self)@ == old(self)@.pushed(value),
    {
        let idx: usize = self.write_pos;
        let ghost before = *self;
        let ghost w = old(self).window();
        let full: bool = self.count >= self.capacity;
        if full {
            let gone: B64 = self.buffer[idx];
            proof {
                assert((idx + before.capacity - before.count + 0) % before.capacity as int == idx) by {
                    vstd::arithmetic::div_mod::lemma_small_mod(idx as nat, before.capacity as nat);
                }
                assert(w.first() == gone);
            }
            let n: usize = self.count;
            let old_mean: B64 = self.cached_mean;
            let new_mean: B64 = if n > 1 {
                old_mean.add(old_mean.sub(gone).div(B64::from_u64(n as u64).sub(num(ONE))))
            } else {
                num(ZERO)
            };
            self.m2 = self.m2.sub(gone.sub(old_mean).mul(gone.sub(new_mean)));
            if self.m2.lt(num(ZERO)) {
                self.m2 = num(ZERO);
            }
            self.sum = self.sum.sub(gone);
            self.count = self.count - 1;
            self.cached_mean = new_mean;
        }
        self.buffer.set(idx, value);
        self.sum = self.sum.add(value);
        self.count = self.count + 1;
        self.write_pos = self.write_pos + 1;
        if self.write_pos >= self.capacity {
            self.write_pos = 0;
        }
        let n: usize = self.count;
        let old_mean: B64 = self.cached_mean;
        let new_mean: B64 = self.sum.div(B64::from_u64(n as u64));
        self.m2 = self.m2.add(value.sub(old_mean).mul(value.sub(new_mean)));
        if self.m2.lt(num(ZERO)) {
            self.m2 = num(ZERO);
        }
        self.cached_mean = new_mean;
        self.cached_std = if n >= 2 {
            self.m2.div(B64::from_u64(n as u64)).sqrt()
        } else {
            num(ZERO)
        };
        proof {
            before.lemma_window_after(*self, idx, value);
        }
    }

    proof fn lemma_window_after(self, after: RollingStats, idx: usize, value: B64)
        requires
            self.wf(),
            idx == self.write_pos,
            after.capacity == self.capacity,
            after.buffer@ == self.buffer@.update(idx as int, value),
            after.count == (if self.count == self.capacity { self.count as int } else { self.count + 1 }),
            after.write_pos == (if idx + 1 >= self.capacity { 0int } else { idx + 1 }),
        ensures
            after.window() == (if self.count == self.capacity {
                self.window().drop_first()
            } else {
                self.window()
            }).push(value),
    {
        let c = self.capacity as int;
        let kept = if self.count == self.capacity {
            self.window().drop_first()
        } else {
            self.window()
        };
        assert forall|i: int| 0 <= i < after.count implies #[trigger] after.window()[i] == kept.push(value)[i] by {
            let x = after.write_pos + c - after.count + i;
            let shift = if self.count == self.capacity { 1int } else { 0int };
            let y = self.write_pos + c - self.count + i + shift;
            // The two places agree modulo the capacity.
            assert(x == y || x == y - c);
            assert(0 <= x < 2 * c);
            if x == y - c {
                vstd::arithmetic::div_mod::lemma_mod_sub_multiples_vanish(y, c);
            }
            assert(x % c == y % c);
            if i == after.count - 1 {
                assert(y == self.write_pos + c);
                vstd::arithmetic::div_mod::lemma_mod_add_multiples_vanish(self.write_pos as int, c);
                vstd::arithmetic::div_mod::lemma_small_mod(self.write_pos as nat, c as nat);
            } else {
                vstd::arithmetic::div_mod::lemma_mod_bound(y, c);
                assert(y % c != idx) by {
                    if y < c {
                        vstd::arithmetic::div_mod::lemma_small_mod(y as nat, c as nat);
                    } else {
                        vstd::arithmetic::div_mod::lemma_mod_sub_multiples_vanish(y, c);
                        vstd::arithmetic::div_mod::lemma_small_mod((y - c) as nat, c as nat);
                    }
                }
            }
        }
        assert(after.window() =~= kept.push(value));
    }

    pub fn mean(&self) -> (r: B64)
        ensures
            r == self@.moments.mean,
    {
        self.cached_mean
    }

    pub fn std_dev(&self) -> (r: B64)
        ensures
            r == self@.deviation,
    {
        self.cached_std
    }

    /// How many standard deviations a value lies from the mean; 0 where the
    /// deviation is negligible.
    pub fn zscore(&self, value: B64) -> (r: B64)
        ensures
            r == self@.zscore(value),
    {
        if self.cached_std.lt(num(TINY_10)) {
            return num(ZERO);
        }
        value.sub(self.cached_mean).div(self.cached_std)
    }

    pub fn count(&self) -> (r: usize)
        ensures
            r == self@.window.len(),
    {
        self.count
    }

    /// Empties the window.
    pub fn clear(&mut self)
        requires
            old(self).wf(),
        ensures
            final(self).wf(),
            final(self)@ == StatsView::empty(old(self)@.capacity),
    {
        self.write_pos = 0;
        self.count = 0;
        self.sum = num(ZERO);
        self.m2 = num(ZERO);
        self.cached_mean = num(ZERO);
        self.cached_std = num(ZERO);
        assert(self.window() =~= Seq::<B64>::empty());
    }
}

/// The window holds the last values that came, as many as the capacity allows,
/// oldest first.
pub proof fn law_window_holds_the_last_values(capacity: nat, values: Seq<B64>)
    requires
        capacity > 0,
    ensures
        ({
            let dropped = if values.len() > capacity {
                values.len() - capacity
            } else {
                0
            };
            &&& StatsView::empty(capacity).pushed_all(values).window == values.skip(dropped)
            &&& StatsView::empty(capacity).pushed_all(values).capacity == capacity
        }),
    decreases values.len(),
{
    if values.len() == 0 {
        assert(values.skip(0) =~= Seq::<B64>::empty());
    } else {
        law_window_holds_the_last_values(capacity, values.drop_last());
        let dropped = if values.len() > capacity {
            values.len() - capacity
        } else {
            0
        };
        assert(StatsView::empty(capacity).pushed_all(values).window =~= values.skip(dropped));
    }
}

/// After each value the mean is the running sum over the number of values in
/// the window, and fewer than two values have no deviation.
pub proof fn law_mean_is_the_sum_over_the_count(stats: StatsView, value: B64)
    requires
        stats.capacity > 0,
        stats.window.len() <= stats.capacity,
    ensures
        ({
            let after = stats.pushed(value);
            &&& 1 <= after.window.len() <= stats.capacity
            &&& after.window.last() == value
            &&& after.moments.mean == after.moments.sum.div(B64::from_u64(after.window.len() as u64))
            &&& after.window.len() < 2 ==> after.deviation == num(ZERO)
        }),
{
}

/// A value without a measurable spread around it scores zero.
pub proof fn law_flat_window_scores_zero(stats: StatsView, first: B64, value: B64)
    requires
        stats.window.len() == 0,
        stats.capacity > 0,
    ensures
        stats.pushed(first).zscore(value) == num(ZERO),
{
    crate::binary64::order::lemma_value_order(num(ZERO), num(TINY_10));
}

} // verus!
