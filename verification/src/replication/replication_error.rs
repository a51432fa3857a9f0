//! What can go wrong in a replication stream.

use vstd::prelude::*;

use crate::node::NodeId;
use crate::storage_error::StorageError;
use crate::vote::Vote;

verus! {

/// The kinds of requests that raft nodes send one another.
#[derive(Clone, Copy, Debug, PartialEq, Eq, Structural)]
pub enum RPCTypes {
    Vote,
    AppendEntries,
    InstallSnapshot,
}

/// A target has seen a greater vote than that of the leader.
#[derive(Clone, Copy, Debug, PartialEq, Eq, Structural)]
pub struct HigherVote {
    /// The greater vote.
    pub higher: Vote,
    /// The vote of the leader that ran into it.
    pub mine: Vote,
}

/// A request got no response in time.
#[derive(Clone, Copy, Debug, PartialEq, Eq, Structural)]
pub struct Timeout {
    /// The kind of the request.
    pub action: RPCTypes,
    /// The node that sent the request.
    pub id: NodeId,
    /// The node that the request went to.
    pub target: NodeId,
    /// The time that was waited, in milliseconds.
    pub timeout: u64,
}

/// A request failed for a reason of the transport. The request may be sent
/// again.
#[derive(Clone, Debug, PartialEq, Eq)]
pub enum RPCError {
    /// No response came in time.
    Timeout(Timeout),
    /// The target cannot be reached.
    Unreachable(String),
    /// The network failed.
    Network(String),
}

/// Why a replication action did not succeed.
#[derive(Clone, Debug, PartialEq, Eq)]
pub enum ReplicationError {
    /// The target has seen a greater vote: the leader has to step down.
    HigherVote(HigherVote),
    /// The inbox is closed: the stream has to stop.
    Closed,
    /// The store failed: the node has to stop.
    StorageError(StorageError),
    /// The transport failed: the action may be tried again.
    RPCError(RPCError),
}

} // verus!
