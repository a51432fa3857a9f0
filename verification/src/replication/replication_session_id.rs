//! What identifies a replication session.

use vstd::prelude::*;

use crate::log_id::LogId;
use crate::vote::Vote;

verus! {

/// Identifies a replication session: the vote of the leader, and the log
/// id of the membership that the session replicates for.
///
/// A message that carries another session id than the current one is from
/// an earlier session, and is dropped.
#[derive(Clone, Copy, Debug, PartialEq, Eq, Structural)]
pub struct ReplicationSessionId {
    /// The vote of the leader that runs the session.
    pub vote: Vote,
    /// The log id of the membership that the session replicates for.
    pub membership_log_id: Option<LogId>,
}

impl ReplicationSessionId {
    pub fn new(vote: Vote, membership_log_id: Option<LogId>) -> (r: Self)
        ensures
            r == (ReplicationSessionId { vote, membership_log_id }),
    {
        ReplicationSessionId { vote, membership_log_id }
    }

    /// Whether a message of the session `of` belongs to this session.
    pub fn is_current(&self, of: &ReplicationSessionId) -> (r: bool)
        ensures
            r == (*self == *of),
    {
        *self == *of
    }
}

} // verus!
