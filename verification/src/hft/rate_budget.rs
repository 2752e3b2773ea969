//! The request budget of a standard account: one trading action per second.

use vstd::prelude::*;

use crate::clock::Span;

verus! {

/// Grants at most one action per second, and never a burst after idle time.
#[derive(Debug)]
pub struct StandardRateBudget {
    pub last_granted: Option<Span>,
}

/// Whether an action is due at a time, the last one having been granted before.
pub open spec fn action_due(last_granted: Option<Span>, now: Span) -> bool {
    match last_granted {
        Some(last) => now.nanos >= last.nanos + 1_000_000_000,
        None => true,
    }
}

impl StandardRateBudget {
    pub fn new() -> (r: StandardRateBudget)
        ensures
            r.last_granted is None,
    {
        StandardRateBudget { last_granted: None }
    }

    /// Asks for an action at a time since the start.
    pub fn try_acquire_at(&mut self, now: Span) -> (r: bool)
        ensures
            r == action_due(old(self).last_granted, now),
            final(self).last_granted == (if r { Some(now) } else { old(self).last_granted }),
    {
        match self.last_granted {
            Some(last) => {
                if now.nanos < last.nanos || now.nanos - last.nanos < 1_000_000_000 {
                    return false;
                }
            },
            None => {},
        }
        self.last_granted = Some(now);
        true
    }
}

/// The time of the last granted action after some requests.
pub open spec fn granted_after(last_granted: Option<Span>, requests: Seq<Span>) -> Option<Span>
    decreases requests.len(),
{
    if requests.len() == 0 {
        last_granted
    } else {
        let before = granted_after(last_granted, requests.drop_last());
        if action_due(before, requests.last()) {
            Some(requests.last())
        } else {
            before
        }
    }
}

/// After a granted action, no request within the next second is granted,
/// however many others lie between.
pub proof fn law_one_action_per_second(granted: Span, requests: Seq<Span>)
    requires
        forall|i: int|
            0 <= i < requests.len() ==> (#[trigger] requests[i]).nanos < granted.nanos + 1_000_000_000,
    ensures
        granted_after(Some(granted), requests) == Some(granted),
    decreases requests.len(),
{
    if requests.len() > 0 {
        let rest = requests.drop_last();
        assert forall|i: int| 0 <= i < rest.len() implies (#[trigger] rest[i]).nanos < granted.nanos
            + 1_000_000_000 by {
            assert(rest[i] == requests[i]);
        }
        law_one_action_per_second(granted, rest);
        assert(requests.last() == requests[requests.len() - 1]);
    }
}

} // verus!
