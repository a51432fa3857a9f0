//! The commands that the engine emits for the runtime to run.

use vstd::prelude::*;

use crate::log_id::LogId;
use crate::log_id::LogIdRange;
use crate::node::NodeId;
use crate::raft::VoteRequest;
use crate::raft::VoteResponse;
use crate::storage::snapshot_meta::SnapshotMeta;
use crate::vote::Vote;

verus! {

/// A command for the runtime. The runtime runs the commands of one engine
/// step in the order in which the engine emitted them.
#[derive(Debug, Clone, PartialEq, Eq)]
pub enum Command {
    /// This node has become the leader.
    BecomeLeader,
    /// This node is no longer the leader.
    QuitLeader,
    /// Append the input entries with positions `start..end` to the log.
    AppendInputEntries { start: u64, end: u64 },
    /// Append a blank entry with the given log id to the log.
    AppendBlankLog { log_id: LogId },
    /// The engine has assigned log ids to `count` more input entries.
    MoveInputLogId { count: u64 },
    /// Save the vote durably.
    SaveVote { vote: Vote },
    /// Purge the log up to `upto`, inclusive.
    PurgeLog { upto: LogId },
    /// Delete the log entries from `since` on, inclusive: they conflict with
    /// the leader's.
    DeleteConflictLog { since: LogId },
    /// Replicate a range of log entries to `target`.
    ReplicateEntries { target: NodeId, range: LogIdRange },
    /// Replicate the last snapshot to `target`.
    ReplicateSnapshot { target: NodeId },
    /// Build a snapshot.
    BuildSnapshot,
    /// Install the snapshot that was received.
    InstallSnapshot { snapshot_meta: SnapshotMeta },
    /// Apply the committed entries up to `upto`, inclusive, to the state
    /// machine.
    Apply { already_applied: Option<LogId>, upto: LogId },
    /// Send a vote request to every other voter.
    SendVoteRequest { vote_req: VoteRequest },
    /// Answer a vote request.
    SendVoteResult { target: NodeId, res: VoteResponse },
    /// The set of replication targets has changed: the progress of the
    /// engine holds the targets, each with the last log id known to match.
    UpdateReplicationStreams,
    /// Tell the followers and learners the committed log id.
    ReplicateCommitted { committed: Option<LogId> },
    /// The leader has committed the log up to `upto`.
    LeaderCommit { already_committed: Option<LogId>, upto: LogId },
}

/// How a command changes what a node reports of itself.
pub enum MetricsChange {
    /// Nothing changes.
    Nothing,
    /// The state of replication changes.
    Replication,
    /// The local data changes: the log, the vote or a snapshot.
    LocalData,
    /// The cluster changes: the leader or the membership.
    Cluster,
}

impl Command {
    /// What running the command changes.
    pub open spec fn spec_metrics_change(&self) -> MetricsChange {
        match self {
            Command::BecomeLeader => MetricsChange::Cluster,
            Command::QuitLeader => MetricsChange::Cluster,
            Command::AppendInputEntries { .. } => MetricsChange::LocalData,
            Command::AppendBlankLog { .. } => MetricsChange::LocalData,
            Command::MoveInputLogId { .. } => MetricsChange::Nothing,
            Command::SaveVote { .. } => MetricsChange::LocalData,
            Command::PurgeLog { .. } => MetricsChange::LocalData,
            Command::DeleteConflictLog { .. } => MetricsChange::LocalData,
            Command::ReplicateEntries { .. } => MetricsChange::Nothing,
            Command::ReplicateSnapshot { .. } => MetricsChange::Nothing,
            Command::BuildSnapshot => MetricsChange::LocalData,
            Command::InstallSnapshot { .. } => MetricsChange::LocalData,
            Command::Apply { .. } => MetricsChange::LocalData,
            Command::SendVoteRequest { .. } => MetricsChange::Nothing,
            Command::SendVoteResult { .. } => MetricsChange::Nothing,
            Command::UpdateReplicationStreams => MetricsChange::Replication,
            Command::ReplicateCommitted { .. } => MetricsChange::Nothing,
            Command::LeaderCommit { .. } => MetricsChange::LocalData,
        }
    }

    /// What running the command changes.
    pub fn metrics_change(&self) -> (r: MetricsChange)
        ensures
            r == self.spec_metrics_change(),
    {
        match self {
            Command::BecomeLeader => MetricsChange::Cluster,
            Command::QuitLeader => MetricsChange::Cluster,
            Command::AppendInputEntries { .. } => MetricsChange::LocalData,
            Command::AppendBlankLog { .. } => MetricsChange::LocalData,
            Command::MoveInputLogId { .. } => MetricsChange::Nothing,
            Command::SaveVote { .. } => MetricsChange::LocalData,
            Command::PurgeLog { .. } => MetricsChange::LocalData,
            Command::DeleteConflictLog { .. } => MetricsChange::LocalData,
            Command::ReplicateEntries { .. } => MetricsChange::Nothing,
            Command::ReplicateSnapshot { .. } => MetricsChange::Nothing,
            Command::BuildSnapshot => MetricsChange::LocalData,
            Command::InstallSnapshot { .. } => MetricsChange::LocalData,
            Command::Apply { .. } => MetricsChange::LocalData,
            Command::SendVoteRequest { .. } => MetricsChange::Nothing,
            Command::SendVoteResult { .. } => MetricsChange::Nothing,
            Command::UpdateReplicationStreams => MetricsChange::Replication,
            Command::ReplicateCommitted { .. } => MetricsChange::Nothing,
            Command::LeaderCommit { .. } => MetricsChange::LocalData,
        }
    }
}

} // verus!
