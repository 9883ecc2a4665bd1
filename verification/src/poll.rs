//! Bounded polling.

use vstd::prelude::*;

verus! {

/// What follows a poll.
#[derive(Clone, Copy, Debug, PartialEq, Eq, Structural)]
pub enum Poll {
    /// The condition holds.
    Done,
    /// The condition is to be looked at again.
    Again,
    /// The condition was looked at as often as it is waited for.
    TimedOut,
}

/// What follows a poll that found the condition to hold or not, after `polls`
/// polls before it, where `limit` polls are made at most.
pub open spec fn poll_after(holds: bool, polls: usize, limit: usize) -> Poll {
    if holds {
        Poll::Done
    } else if polls + 1 < limit {
        Poll::Again
    } else {
        Poll::TimedOut
    }
}

pub fn poll_outcome(holds: bool, polls: usize, limit: usize) -> (r: Poll)
    ensures
        r == poll_after(holds, polls, limit),
{
    if holds {
        Poll::Done
    } else if polls < limit && limit - polls > 1 {
        Poll::Again
    } else {
        Poll::TimedOut
    }
}

/// A wait ends as soon as what it waits for holds, and is given up with its
/// last poll: of `limit` polls none ends it too early, and none follows.
pub proof fn law_wait_takes_at_most_its_polls(holds: bool, polls: usize, limit: usize)
    requires
        polls < limit,
    ensures
        poll_after(holds, polls, limit) is Done <==> holds,
        poll_after(holds, polls, limit) is TimedOut <==> !holds && polls == limit - 1,
        poll_after(holds, polls, limit) is Again <==> !holds && polls < limit - 1,
{
}

} // verus!
