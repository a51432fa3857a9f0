//! The states a raft node can be in.

use vstd::prelude::*;

verus! {

/// All possible states of a raft node.
#[derive(Clone, Copy, Debug, PartialEq, Eq, Structural)]
pub enum ServerState {
    /// The node replicates the log and does not vote.
    Learner,
    /// The node replicates the log from the leader.
    Follower,
    /// The node campaigns to become the leader.
    Candidate,
    /// The node is the leader of the cluster.
    Leader,
}

impl ServerState {
    pub fn is_learner(&self) -> (r: bool)
        ensures
            r == (*self is Learner),
    {
        matches!(self, ServerState::Learner)
    }

    pub fn is_follower(&self) -> (r: bool)
        ensures
            r == (*self is Follower),
    {
        matches!(self, ServerState::Follower)
    }

    pub fn is_candidate(&self) -> (r: bool)
        ensures
            r == (*self is Candidate),
    {
        matches!(self, ServerState::Candidate)
    }

    pub fn is_leader(&self) -> (r: bool)
        ensures
            r == (*self is Leader),
    {
        matches!(self, ServerState::Leader)
    }
}

impl Default for ServerState {
    /// A node starts as a learner.
    fn default() -> (r: Self)
        ensures
            r is Learner,
    {
        ServerState::Learner
    }
}

} // verus!
