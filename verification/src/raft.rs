//! The requests and responses that raft nodes exchange.

use vstd::prelude::*;

use crate::entry::Entry;
use crate::log_id::LogId;
use crate::storage::snapshot_meta::SnapshotMeta;
use crate::vote::Vote;

verus! {

/// A leader's request to replicate log entries; also a heartbeat.
#[derive(Debug, Clone, PartialEq, Eq)]
pub struct AppendEntriesRequest {
    /// The vote of the sending leader.
    pub vote: Vote,
    /// The id of the log entry just before `entries`.
    pub prev_log_id: Option<LogId>,
    /// The entries to append; empty for a heartbeat.
    pub entries: Vec<Entry>,
    /// The last log id the leader knows to be committed.
    pub leader_commit: Option<LogId>,
}

/// The response to an `AppendEntriesRequest`.
#[derive(Debug, Clone, Copy, PartialEq, Eq, Structural)]
pub enum AppendEntriesResponse {
    /// The entries are in the log of the receiver.
    Success,
    /// The receiver has seen a greater vote than the sender's.
    HigherVote(Vote),
    /// The receiver's log does not hold `prev_log_id`.
    Conflict,
}

impl AppendEntriesResponse {
    pub fn is_success(&self) -> (r: bool)
        ensures
            r == (*self is Success),
    {
        matches!(self, AppendEntriesResponse::Success)
    }

    pub fn is_conflict(&self) -> (r: bool)
        ensures
            r == (*self is Conflict),
    {
        matches!(self, AppendEntriesResponse::Conflict)
    }
}

/// A candidate's request for a vote.
#[derive(Debug, Clone, Copy, PartialEq, Eq, Structural)]
pub struct VoteRequest {
    pub vote: Vote,
    /// The last log id of the candidate.
    pub last_log_id: Option<LogId>,
}

impl VoteRequest {
    pub fn new(vote: Vote, last_log_id: Option<LogId>) -> (r: Self)
        ensures
            r == (VoteRequest { vote, last_log_id }),
    {
        VoteRequest { vote, last_log_id }
    }
}

/// The response to a `VoteRequest`.
#[derive(Debug, Clone, Copy, PartialEq, Eq, Structural)]
pub struct VoteResponse {
    /// The vote of the responding node after it handled the request.
    pub vote: Vote,
    /// Whether the candidate's vote was granted.
    pub vote_granted: bool,
    /// The last log id of the responding node.
    pub last_log_id: Option<LogId>,
}

/// A leader's request to install one chunk of a snapshot.
#[derive(Debug, Clone, PartialEq, Eq)]
pub struct InstallSnapshotRequest {
    /// The vote of the sending leader.
    pub vote: Vote,
    /// The metadata of the snapshot.
    pub meta: SnapshotMeta,
    /// The offset of this chunk in the snapshot.
    pub offset: u64,
    /// The bytes of this chunk.
    pub data: Vec<u8>,
    /// Whether this is the last chunk.
    pub done: bool,
}

/// The response to an `InstallSnapshotRequest`.
#[derive(Debug, Clone, Copy, PartialEq, Eq, Structural)]
pub struct InstallSnapshotResponse {
    /// The vote of the responding node.
    pub vote: Vote,
}

} // verus!
