//! Whether the deltas of a book follow on each other.

use vstd::prelude::*;

verus! {

#[derive(Debug, Clone, Copy, PartialEq, Eq, Structural)]
pub enum BookHealth {
    /// No snapshot has come yet.
    Syncing,
    Live,
    /// A delta was missed; only a snapshot helps.
    Halted,
}

/// Follows the nonces of one book.
#[derive(Debug)]
pub struct BookContinuity {
    pub health: BookHealth,
    pub last_nonce: Option<u64>,
}

impl BookContinuity {
    pub fn new() -> (r: BookContinuity)
        ensures
            r.health == BookHealth::Syncing,
            r.last_nonce is None,
    {
        BookContinuity { health: BookHealth::Syncing, last_nonce: None }
    }

    /// A snapshot makes the book live.
    pub fn apply_snapshot(&mut self, nonce: u64) -> (r: BookHealth)
        ensures
            r == BookHealth::Live,
            final(self).health == r,
            final(self).last_nonce == Some(nonce),
    {
        self.health = BookHealth::Live;
        self.last_nonce = Some(nonce);
        self.health
    }

    /// Whether a delta that begins at a nonce follows on.
    pub open spec fn follows(&self, begin_nonce: u64) -> bool {
        self.health == BookHealth::Live && self.last_nonce == Some(begin_nonce)
    }

    /// The book after a delta.
    pub open spec fn after_delta(self, begin_nonce: u64, nonce: u64) -> BookContinuity {
        if self.health != BookHealth::Live {
            self
        } else if self.last_nonce == Some(begin_nonce) {
            BookContinuity { health: BookHealth::Live, last_nonce: Some(nonce) }
        } else {
            BookContinuity { health: BookHealth::Halted, last_nonce: self.last_nonce }
        }
    }

    /// The book after a run of deltas, each with the nonce it begins at and its
    /// own.
    pub open spec fn after_deltas(self, deltas: Seq<(u64, u64)>) -> BookContinuity
        decreases deltas.len(),
    {
        if deltas.len() == 0 {
            self
        } else {
            self.after_deltas(deltas.drop_last()).after_delta(deltas.last().0, deltas.last().1)
        }
    }

    /// A delta that follows on is taken; any other halts a live book and
    /// changes nothing on one that is not live.
    pub fn apply_delta(&mut self, begin_nonce: u64, nonce: u64) -> (r: BookHealth)
        ensures
            *final(self) == old(self).after_delta(begin_nonce, nonce),
            final(self).health == r,
            r == (if old(self).health == BookHealth::Live && !old(self).follows(begin_nonce) {
                BookHealth::Halted
            } else {
                old(self).health
            }),
            final(self).last_nonce == (if old(self).follows(begin_nonce) {
                Some(nonce)
            } else {
                old(self).last_nonce
            }),
    {
        if self.health == BookHealth::Live {
            let next: bool = match self.last_nonce {
                Some(last) => last == begin_nonce,
                None => false,
            };
            if next {
                self.last_nonce = Some(nonce);
            } else {
                self.health = BookHealth::Halted;
            }
        }
        self.health
    }

    pub fn last_nonce(&self) -> (r: Option<u64>)
        ensures
            r == self.last_nonce,
    {
        self.last_nonce
    }
}

/// A live book stays live through any run of deltas that follow on each other,
/// and ends at the nonce of the last.
pub proof fn law_unbroken_runs_stay_live(start: u64, deltas: Seq<(u64, u64)>)
    requires
        deltas.len() > 0,
        deltas[0].0 == start,
        forall|i: int| 0 < i < deltas.len() ==> (#[trigger] deltas[i]).0 == deltas[i - 1].1,
    ensures
        (BookContinuity { health: BookHealth::Live, last_nonce: Some(start) }).after_deltas(deltas) == (
        BookContinuity { health: BookHealth::Live, last_nonce: Some(deltas.last().1) }),
    decreases deltas.len(),
{
    let book = BookContinuity { health: BookHealth::Live, last_nonce: Some(start) };
    let front = deltas.drop_last();
    if front.len() > 0 {
        assert forall|i: int| 0 < i < front.len() implies (#[trigger] front[i]).0 == front[i - 1].1 by {
            assert(front[i] == deltas[i] && front[i - 1] == deltas[i - 1]);
        }
        law_unbroken_runs_stay_live(start, front);
        assert(deltas[deltas.len() - 1].0 == deltas[deltas.len() - 2].1);
        assert(front.last() == deltas[deltas.len() - 2]);
        assert(book.after_deltas(front).last_nonce == Some(front.last().1));
    } else {
        assert(book.after_deltas(front) == book);
        assert(deltas.last() == deltas[0]);
    }
}

/// A delta that does not follow on halts a live book, and no delta brings it
/// back: only a snapshot does.
pub proof fn law_a_gap_halts_the_book(last: u64, begin_nonce: u64, nonce: u64, deltas: Seq<(u64, u64)>)
    requires
        begin_nonce != last,
    ensures
        ({
            let halted = (BookContinuity { health: BookHealth::Live, last_nonce: Some(last) }).after_delta(
                begin_nonce,
                nonce,
            );
            &&& halted.health == BookHealth::Halted
            &&& halted.last_nonce == Some(last)
            &&& halted.after_deltas(deltas) == halted
        }),
{
    let halted = (BookContinuity { health: BookHealth::Live, last_nonce: Some(last) }).after_delta(
        begin_nonce,
        nonce,
    );
    law_books_wait_for_a_snapshot(halted, deltas);
}

/// Deltas change nothing on a book that is not live.
pub proof fn law_books_wait_for_a_snapshot(book: BookContinuity, deltas: Seq<(u64, u64)>)
    requires
        book.health != BookHealth::Live,
    ensures
        book.after_deltas(deltas) == book,
    decreases deltas.len(),
{
    if deltas.len() > 0 {
        law_books_wait_for_a_snapshot(book, deltas.drop_last());
    }
}

} // verus!
