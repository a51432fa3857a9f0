//! What the engine knows of time.
//!
//! The engine reads no clock: a runtime tells it the time with every tick,
//! in milliseconds of a clock that never goes back.

use vstd::prelude::*;

verus! {

/// The deadlines of an engine.
#[derive(Clone, Copy, Debug, PartialEq, Eq, Structural)]
pub struct Timer {
    /// When a node that is not the leader starts an election, unless it
    /// hears of a leader before; none while no election is due.
    pub election_deadline: Option<u64>,
    /// When a leader sends its next heartbeat; none until the first tick of
    /// a leader.
    pub next_heartbeat: Option<u64>,
}

impl Timer {
    /// A timer without deadlines.
    pub fn new() -> (r: Self)
        ensures
            r == (Timer { election_deadline: None, next_heartbeat: None }),
    {
        Timer { election_deadline: None, next_heartbeat: None }
    }

    /// The time `timeout` after `now`; the end of time if that is beyond it.
    pub fn after(now: u64, timeout: u64) -> (r: u64)
        ensures
            r == if now + timeout > u64::MAX {
                u64::MAX
            } else {
                (now + timeout) as u64
            },
    {
        if timeout > u64::MAX - now {
            u64::MAX
        } else {
            now + timeout
        }
    }

    /// Whether the deadline `deadline` has passed at `now`.
    pub fn is_due(deadline: &Option<u64>, now: u64) -> (r: bool)
        ensures
            r == (deadline matches Some(d) && d <= now),
    {
        match deadline {
            Some(d) => *d <= now,
            None => false,
        }
    }
}

} // verus!
