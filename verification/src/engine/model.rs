//! The engine as a pure state machine: what a step of the engine makes of
//! the state, and which commands it emits.

use vstd::prelude::*;

use crate::engine::command::Command;
use crate::engine::engine_config::EngineConfig;
use crate::engine::engine_output::OutputView;
use crate::engine::progress::ProgressEntry;
use crate::engine::timer::Timer;
use crate::engine::command::MetricsChange;
use crate::log_id_list::appended_keys;
use crate::log_id_list::purged_keys;
use crate::storage::snapshot_meta::SnapshotMeta;
use crate::membership::membership::is_quorum;
use crate::node::Node;
use crate::raft::VoteRequest;
use crate::replication::replication_core::ReplicationResult;
use crate::raft::VoteResponse;
use crate::entry::EntryPayloadView;
use crate::entry::EntryView;
use crate::log_id::opt_le;
use crate::log_id::opt_lt;
use crate::log_id::spec_next_index;
use crate::log_id::LogId;
use crate::log_id::LogIdRange;
use crate::membership::into_nodes::ids_increasing;
use crate::log_id_list::extended_keys;
use crate::log_id_list::log_id_at;
use crate::log_id_list::truncated_keys;
use crate::membership::into_nodes::extended_nodes;
use crate::membership::membership::next_coherent_configs;
use crate::membership::membership::voters;
use crate::membership::membership::MembershipView;
use crate::membership::membership_state::index_at_least;
use crate::membership::stored_membership::StoredMembershipView;
use crate::node::NodeId;
use crate::raft::AppendEntriesResponse;
use crate::raft_core::server_state::ServerState;
use crate::storage::snapshot_meta::SnapshotMetaView;
use crate::vote::LeaderId;
use crate::vote::Vote;

verus! {

/// What an engine is: the state of its node, and its output.
pub struct EngineModel {
    pub config: EngineConfig,
    pub vote: Vote,
    pub committed: Option<LogId>,
    pub last_applied: Option<LogId>,
    pub purged_next: u64,
    /// The key log ids.
    pub keys: Seq<LogId>,
    pub committed_membership: StoredMembershipView,
    pub effective_membership: StoredMembershipView,
    pub snapshot_meta: SnapshotMetaView,
    pub server_state: ServerState,
    pub purge_upto: Option<LogId>,
    pub output: OutputView,
    /// The nodes that have granted the vote of the node.
    pub granted_by: Set<NodeId>,
    /// What the node knows, as a leader, of the log of each target.
    pub progress: Map<NodeId, ProgressEntry>,
    pub timer: Timer,
}

/// Why a cluster is not set up by a node.
#[derive(Clone, Copy, Debug, PartialEq, Eq, Structural)]
pub enum InitializeError {
    /// The node is initialized already: it has a log, or it has voted.
    NotAllowed { last_log_id: Option<LogId>, vote: Vote },
    /// The node is no voter of the membership that it is to set up.
    NotInMembers { node_id: NodeId },
}

/// A write of a client came to a node that is not the leader: the client
/// is to send it to the leader, if one is known.
#[derive(Clone, Copy, Debug, PartialEq, Eq, Structural)]
pub struct ForwardToLeader {
    /// The id of the leader, if the node knows one.
    pub leader_id: Option<NodeId>,
    /// The metadata of the leader, if the membership holds it.
    pub leader_node: Option<Node>,
}

/// Why the membership is not changed.
#[derive(Clone, Copy, Debug, PartialEq, Eq, Structural)]
pub enum ChangeMembershipError {
    /// The node is not the leader.
    ForwardToLeader(ForwardToLeader),
    /// A change of the membership is under way: the effective membership
    /// is not committed yet.
    InProgress { committed: Option<LogId>, membership_log_id: Option<LogId> },
}

/// The nodes that have the log up to `c`: the leader `id` itself if its log
/// ends at or behind `c`, and every target whose log matches up to `c`.
pub open spec fn granted(
    progress: Map<NodeId, ProgressEntry>,
    id: NodeId,
    last: Option<LogId>,
    c: LogId,
) -> Set<NodeId> {
    Set::new(
        |n: NodeId|
            (n == id && opt_le(Some(c), last)) || (progress.contains_key(n) && opt_le(
                Some(c),
                progress[n].matching,
            )),
    )
}

/// `c` is the last log id of the leader, or the last log id that matches
/// on a target.
pub open spec fn is_candidate(progress: Map<NodeId, ProgressEntry>, last: Option<LogId>, c: LogId) -> bool {
    last == Some(c) || exists|n: NodeId| progress.contains_key(n) && #[trigger] progress[n].matching == Some(c)
}

/// What a new leader knows of its targets: every node of the membership but
/// itself is a target, and of none anything matches. The log of the leader
/// ends before index `end`.
pub open spec fn fresh_progress(nodes: Map<NodeId, Node>, id: NodeId, end: u64) -> Map<
    NodeId,
    ProgressEntry,
> {
    Map::new(
        |n: NodeId| nodes.contains_key(n) && n != id,
        |n: NodeId| ProgressEntry { matching: None, searching_end: end },
    )
}

/// The vote with which a node stands for election after the vote `vote`:
/// for itself, in the next term.
pub open spec fn candidate_vote(vote: Vote, id: NodeId) -> Vote {
    Vote { leader_id: LeaderId { term: (vote.leader_id.term + 1) as u64, node_id: id }, committed: false }
}

/// The log ids of entries.
pub open spec fn log_ids_of(entries: Seq<EntryView>) -> Seq<LogId> {
    Seq::new(entries.len(), |i: int| entries[i].log_id)
}

/// The entries follow `prev`, one index after the other; their leaders
/// never decrease, are not below that of `prev`, and are not beyond
/// `leader`.
pub open spec fn entries_follow(prev: Option<LogId>, entries: Seq<EntryView>, leader: LeaderId) -> bool {
    &&& forall|k: int|
        0 <= k < entries.len() ==> (#[trigger] entries[k]).log_id.index == spec_next_index(prev) + k
    &&& forall|k: int|
        0 <= k < entries.len() ==> (#[trigger] entries[k]).log_id.leader_id.le_spec(leader)
    &&& forall|k: int|
        0 < k < entries.len() ==> entries[k - 1].log_id.leader_id.le_spec(
            (#[trigger] entries[k]).log_id.leader_id,
        )
    &&& prev is Some && entries.len() > 0 ==> prev.unwrap().leader_id.le_spec(
        entries[0].log_id.leader_id,
    )
}

/// The committed and the effective membership after the membership entries
/// among `entries` are appended: each becomes effective at once, and the one
/// that was effective before it counts as committed.
pub open spec fn memberships_appended(
    committed: StoredMembershipView,
    effective: StoredMembershipView,
    entries: Seq<EntryView>,
) -> (StoredMembershipView, StoredMembershipView)
    decreases entries.len(),
{
    if entries.len() == 0 {
        (committed, effective)
    } else {
        let before = memberships_appended(committed, effective, entries.drop_last());
        match entries.last().payload {
            EntryPayloadView::Membership(m) => (
                before.1,
                StoredMembershipView { log_id: Some(entries.last().log_id), membership: m },
            ),
            _ => before,
        }
    }
}

impl EngineModel {
    /// The last log id.
    pub open spec fn last_log_id(self) -> Option<LogId> {
        if self.keys.len() == 0 {
            None
        } else {
            Some(self.keys.last())
        }
    }

    /// The log id at `index`.
    pub open spec fn get(self, index: u64) -> Option<LogId> {
        log_id_at(self.keys, index)
    }

    /// Whether the log holds `id`. A log id at or below the committed index
    /// is taken to be in the log.
    pub open spec fn has_log_id(self, id: LogId) -> bool {
        id.index < spec_next_index(self.committed) || self.get(id.index) == Some(id)
    }

    /// Whether the log matches at `prev`: it holds `prev`. The start of the
    /// log always matches.
    pub open spec fn matches(self, prev: Option<LogId>) -> bool {
        match prev {
            None => true,
            Some(p) => self.has_log_id(p),
        }
    }

    /// The server state that the vote and the effective membership give the
    /// node.
    pub open spec fn calc_server_state(self) -> ServerState {
        if voters(self.effective_membership.membership.configs).contains(self.config.id) {
            if self.vote.leader_id.node_id == self.config.id {
                if self.vote.committed {
                    ServerState::Leader
                } else {
                    ServerState::Candidate
                }
            } else {
                ServerState::Follower
            }
        } else {
            ServerState::Learner
        }
    }

    /// The engine after it has emitted `cmd`.
    pub open spec fn push(self, cmd: Command) -> EngineModel {
        EngineModel { output: self.output.push(cmd), ..self }
    }

    /// The engine after the server state is calculated anew: a change of
    /// leadership is told with a command.
    pub open spec fn update_server_state(self) -> EngineModel {
        EngineModel {
            server_state: self.calc_server_state(),
            output: self.output.server_state_changed(self.server_state, self.calc_server_state()),
            ..self
        }
    }

    /// The engine after the vote `vote` is taken: it is saved, and the
    /// server state follows it.
    pub open spec fn take_vote(self, vote: Vote) -> EngineModel {
        (EngineModel { vote, ..self }).push(Command::SaveVote { vote }).update_server_state()
    }

    /// Whether a vote request is granted: the vote of the candidate is above
    /// that of the node, and the log of the candidate is as far as that of
    /// the node.
    pub open spec fn grants(self, req: VoteRequest) -> bool {
        self.vote.lt_spec(req.vote) && opt_le(self.last_log_id(), req.last_log_id)
    }

    /// What an engine makes of a vote request, and what it answers: a vote
    /// that is granted is taken, and saved before the answer goes to the
    /// candidate.
    pub open spec fn handle_vote_req(self, req: VoteRequest) -> (EngineModel, VoteResponse) {
        let next = if self.grants(req) {
            self.take_vote(req.vote)
        } else {
            self
        };
        let res = VoteResponse {
            vote: next.vote,
            vote_granted: self.grants(req),
            last_log_id: self.last_log_id(),
        };
        (next.push(Command::SendVoteResult { target: req.vote.leader_id.node_id, res }), res)
    }

    /// What an engine makes of a vote that a peer has shown: a greater vote
    /// is taken.
    pub open spec fn handle_higher_vote(self, vote: Vote) -> EngineModel {
        if self.vote.lt_spec(vote) {
            self.take_vote(vote)
        } else {
            self
        }
    }

    /// Whether the leader can commit the log id `c`: it is of the leader
    /// that the node is, and a quorum of the effective membership has the log
    /// up to it.
    pub open spec fn committable(self, c: LogId) -> bool {
        &&& is_candidate(self.progress, self.last_log_id(), c)
        &&& c.leader_id == self.vote.leader_id
        &&& is_quorum(
            self.effective_membership.membership.configs,
            granted(self.progress, self.config.id, self.last_log_id(), c),
        )
    }

    /// The leader can commit `c`, and nothing beyond it.
    pub open spec fn is_greatest_committable(self, c: LogId) -> bool {
        self.committable(c) && forall|d: LogId| self.committable(d) ==> #[trigger] d.le_spec(c)
    }

    /// The greatest log id that the leader can commit; none if it can
    /// commit none.
    pub open spec fn calc_committed(self) -> Option<LogId> {
        if exists|c: LogId| self.is_greatest_committable(c) {
            Some(choose|c: LogId| self.is_greatest_committable(c))
        } else {
            None
        }
    }

    /// The engine of a leader after it has committed what a quorum has: the
    /// log is committed up to the greatest log id that the leader can commit,
    /// if that moves the committed log id. Then a command applies the entries
    /// up to there, and a command tells the targets.
    pub open spec fn leader_commit(self) -> EngineModel {
        let upto = self.calc_committed();
        if self.can_commit(upto) {
            self.committed_to(upto).push(
                Command::LeaderCommit { already_committed: self.committed, upto: upto.unwrap() },
            ).push(Command::ReplicateCommitted { committed: upto })
        } else {
            self
        }
    }

    /// The engine after the node has become the leader, once a quorum has
    /// granted its vote: the vote is committed and saved, the server state
    /// follows it, a blank entry of the new leader is appended, every other
    /// node of the membership becomes a target of replication, the log is
    /// replicated to each of them, and what a quorum has is committed.
    pub open spec fn establish_leader(self) -> EngineModel {
        let vote = Vote { leader_id: self.vote.leader_id, committed: true };
        let blank = LogId {
            leader_id: vote.leader_id,
            index: spec_next_index(self.last_log_id()) as u64,
        };
        let voted = self.take_vote(vote);
        let set_up = (EngineModel {
            keys: appended_keys(voted.keys, blank),
            progress: fresh_progress(
                voted.effective_membership.membership.nodes,
                self.config.id,
                (blank.index + 1) as u64,
            ),
            ..voted
        }).push(Command::AppendBlankLog { log_id: blank }).push(
            Command::UpdateReplicationStreams,
        );
        set_up.replicate_to(set_up.targets()).leader_commit()
    }

    /// The engine after the node has started an election: it stands for
    /// election in the next term, votes for itself, and asks every other voter
    /// for its vote. Where its own vote is a quorum already, it is the leader
    /// at once.
    pub open spec fn elect(self) -> EngineModel {
        let vote = candidate_vote(self.vote, self.config.id);
        let own = Set::<NodeId>::empty().insert(self.config.id);
        let voted = EngineModel { granted_by: own, ..self.take_vote(vote) };
        if is_quorum(self.effective_membership.membership.configs, own) {
            voted.establish_leader()
        } else {
            voted.push(
                Command::SendVoteRequest {
                    vote_req: VoteRequest { vote, last_log_id: self.last_log_id() },
                },
            )
        }
    }

    /// What an engine makes of the response of `target` to its vote
    /// request.
    ///
    /// A grant of the vote that the node stands for election with is
    /// counted; once a quorum has granted, the node is the leader. Any other
    /// response changes nothing, unless it shows a greater vote: that one is
    /// taken.
    pub open spec fn handle_vote_resp(self, target: NodeId, resp: VoteResponse) -> EngineModel {
        if self.vote.leader_id.node_id == self.config.id && !self.vote.committed
            && resp.vote_granted && resp.vote == self.vote {
            let counted = EngineModel { granted_by: self.granted_by.insert(target), ..self };
            if is_quorum(self.effective_membership.membership.configs, counted.granted_by) {
                counted.establish_leader()
            } else {
                counted
            }
        } else {
            self.handle_higher_vote(resp.vote)
        }
    }

    /// Whether a snapshot with the metadata `meta` that a leader has sent is
    /// installed: it reaches beyond what is committed and beyond the snapshot
    /// that the node has, and it is not of a later leader than the vote is
    /// for.
    pub open spec fn installs(self, meta: SnapshotMeta) -> bool {
        &&& meta.last_log_id is Some
        &&& spec_next_index(self.committed) < spec_next_index(meta.last_log_id)
        &&& !opt_le(meta.last_log_id, self.snapshot_meta.last_log_id)
        &&& meta.last_log_id.unwrap().leader_id.le_spec(self.vote.leader_id)
    }

    /// The engine after a snapshot has replaced the state machine: the log
    /// is committed and applied up to the last log id of the snapshot, the
    /// membership of the snapshot is committed, and the log is purged up to
    /// the snapshot.
    pub open spec fn complete_install(self, meta: SnapshotMeta) -> EngineModel {
        let last = meta.last_log_id.unwrap();
        (EngineModel {
            committed: Some(last),
            last_applied: Some(last),
            purge_upto: Some(last),
            purged_next: (last.index + 1) as u64,
            keys: purged_keys(self.keys, last),
            effective_membership: if spec_next_index(self.effective_membership.log_id)
                <= spec_next_index(meta@.last_membership.log_id) {
                meta@.last_membership
            } else {
                self.effective_membership
            },
            committed_membership: if opt_lt(
                self.committed_membership.log_id,
                meta@.last_membership.log_id,
            ) {
                meta@.last_membership
            } else {
                self.committed_membership
            },
            ..self
        }).push(Command::InstallSnapshot { snapshot_meta: meta }).push(
            Command::PurgeLog { upto: last },
        ).update_server_state()
    }

    /// What an engine makes of a snapshot that a leader has sent, once all
    /// of it is received.
    ///
    /// A snapshot that is installed replaces the state machine: it is the
    /// snapshot of the node, and the log is committed and applied up to its
    /// last log id. Where the log differs from the snapshot there, the
    /// entries that are not committed are deleted. The membership of the
    /// snapshot is committed. The log is purged up to the snapshot: it covers
    /// those entries now.
    pub open spec fn install_snapshot(self, meta: SnapshotMeta) -> EngineModel {
        if !self.installs(meta) {
            self
        } else {
            let last = meta.last_log_id.unwrap();
            let taken = EngineModel {
                snapshot_meta: meta@,
                output: OutputView {
                    metrics_flags: self.output.metrics_flags.with(MetricsChange::LocalData),
                    ..self.output
                },
                ..self
            };
            let cut = if taken.get(last.index) is Some && taken.get(last.index) != Some(last) {
                taken.truncate_logs(spec_next_index(self.committed) as u64)
            } else {
                taken
            };
            cut.complete_install(meta)
        }
    }

    /// Why the node cannot set up a cluster with the membership
    /// `membership`, if it cannot: it is initialized already, or it is no
    /// voter of that membership.
    pub open spec fn initialize_error(self, membership: MembershipView) -> Option<InitializeError> {
        if self.last_log_id() is Some || self.vote != (Vote {
            leader_id: LeaderId { term: 0, node_id: 0 },
            committed: false,
        }) {
            Some(InitializeError::NotAllowed { last_log_id: self.last_log_id(), vote: self.vote })
        } else if !voters(membership.configs).contains(self.config.id) {
            Some(InitializeError::NotInMembers { node_id: self.config.id })
        } else {
            None
        }
    }

    /// The first entry of a cluster: it holds the membership that the
    /// cluster starts with.
    pub open spec fn first_entry(membership: MembershipView) -> EntryView {
        EntryView {
            log_id: LogId { leader_id: LeaderId { term: 0, node_id: 0 }, index: 0 },
            payload: EntryPayloadView::Membership(membership),
        }
    }

    /// The engine after the node has set up a cluster with the membership
    /// `membership`: the membership is the first entry of the log, and the
    /// node stands for election.
    pub open spec fn initialize(self, membership: MembershipView) -> EngineModel {
        if self.initialize_error(membership) is Some {
            self
        } else {
            self.append_entries(seq![Self::first_entry(membership)], 0).elect()
        }
    }

    /// What an engine makes of what a replication action to `target` has
    /// found out.
    ///
    /// Where the log of the target matches further than was known, the
    /// leader commits what a quorum has now. Where the log of the target does
    /// not hold a log id, the search for the first such log id ends there,
    /// and the runtime is told to try again from the middle of what is left
    /// of the search. What is found out about a node that is no target
    /// changes nothing, and neither does a conflict outside the search.
    pub open spec fn update_progress(self, target: NodeId, result: ReplicationResult) -> EngineModel {
        if !self.progress.contains_key(target) {
            self
        } else {
            match result {
                ReplicationResult::Matching(m) => (EngineModel {
                    progress: self.progress.insert(target, self.progress[target].matched(m)),
                    ..self
                }).leader_commit(),
                ReplicationResult::Conflict(c) => if self.progress[target].conflicted(c.index)
                    == self.progress[target] {
                    self
                } else {
                    (EngineModel {
                        progress: self.progress.insert(
                            target,
                            self.progress[target].conflicted(c.index),
                        ),
                        ..self
                    }).retry(target)
                },
            }
        }
    }

    /// The engine after it has told the runtime what to send to `target`
    /// next.
    pub open spec fn retry(self, target: NodeId) -> EngineModel {
        self.push(self.replication_of(target))
    }

    /// The targets of replication, by increasing id.
    pub open spec fn targets(self) -> Seq<NodeId> {
        choose|ids: Seq<NodeId>| ids_increasing(ids) && ids.to_set() == self.progress.dom()
    }

    /// The log id before the entries that are sent to `target` next: the
    /// one that matches where the search is over; else the one before the
    /// middle of the search, or the one that matches if the log holds none
    /// there.
    pub open spec fn replication_prev(self, target: NodeId) -> Option<LogId> {
        let entry = self.progress[target];
        if entry.spec_mid() == spec_next_index(entry.matching) {
            entry.matching
        } else {
            match self.get((entry.spec_mid() - 1) as u64) {
                Some(id) => Some(id),
                None => entry.matching,
            }
        }
    }

    /// What the runtime is told to send to `target`: the log entries from
    /// the middle of the search for the first log id that does not match, up
    /// to the end of the log; the snapshot where those entries are purged
    /// already. Where the search is over, the entries are those behind the log
    /// id that matches.
    pub open spec fn replication_of(self, target: NodeId) -> Command {
        if self.progress[target].spec_mid() < self.purged_next {
            Command::ReplicateSnapshot { target }
        } else {
            Command::ReplicateEntries {
                target,
                range: LogIdRange {
                    prev_log_id: self.replication_prev(target),
                    last_log_id: self.last_log_id(),
                },
            }
        }
    }

    /// The engine after it has told the runtime to replicate the log up to
    /// its end to each of `targets`, one after the other.
    pub open spec fn replicate_to(self, targets: Seq<NodeId>) -> EngineModel
        decreases targets.len(),
    {
        if targets.len() == 0 {
            self
        } else {
            self.replicate_to(targets.drop_last()).push(self.replication_of(targets.last()))
        }
    }

    /// The entries that a leader makes of the payloads of a write: each gets
    /// the next log id of the leader.
    pub open spec fn written(self, payloads: Seq<EntryPayloadView>) -> Seq<EntryView> {
        Seq::new(
            payloads.len(),
            |i: int|
                EntryView {
                    log_id: LogId {
                        leader_id: self.vote.leader_id,
                        index: (spec_next_index(self.last_log_id()) + i) as u64,
                    },
                    payload: payloads[i],
                },
        )
    }

    /// Where a node that is not the leader sends a client: to the leader
    /// that its vote names, if that vote is committed.
    pub open spec fn forward_to_leader(self) -> ForwardToLeader {
        if self.vote.committed {
            ForwardToLeader {
                leader_id: Some(self.vote.leader_id.node_id),
                leader_node: if self.effective_membership.membership.nodes.contains_key(
                    self.vote.leader_id.node_id,
                ) {
                    Some(self.effective_membership.membership.nodes[self.vote.leader_id.node_id])
                } else {
                    None
                },
            }
        } else {
            ForwardToLeader { leader_id: None, leader_node: None }
        }
    }

    /// What an engine makes of a write of a client.
    ///
    /// A node that is not the leader sends the client to the leader. A
    /// leader gives each payload the next log id, appends the entries to its
    /// log, tells the runtime to replicate them to every target, and commits
    /// what a quorum has.
    pub open spec fn client_write(self, payloads: Seq<EntryPayloadView>) -> (
        EngineModel,
        Result<Seq<EntryView>, ForwardToLeader>,
    ) {
        if !(self.server_state is Leader) {
            (self, Err(self.forward_to_leader()))
        } else if payloads.len() == 0 {
            (self, Ok(Seq::empty()))
        } else {
            let appended = self.append_entries(self.written(payloads), 0).push(
                Command::MoveInputLogId { count: payloads.len() as u64 },
            );
            (appended.replicate_to(appended.targets()).leader_commit(), Ok(self.written(payloads)))
        }
    }

    /// The membership to go through on the way from the effective
    /// membership to the config `goal`.
    pub open spec fn next_membership(self, goal: Set<NodeId>) -> MembershipView {
        let configs = next_coherent_configs(self.effective_membership.membership.configs, goal);
        MembershipView {
            configs,
            nodes: extended_nodes(self.effective_membership.membership.nodes, voters(configs)),
        }
    }

    /// Why the membership cannot be changed now, if it cannot: the node is
    /// not the leader, or a change of the membership is not committed yet.
    pub open spec fn change_membership_error(self) -> Option<ChangeMembershipError> {
        if !(self.server_state is Leader) {
            Some(ChangeMembershipError::ForwardToLeader(self.forward_to_leader()))
        } else if self.committed_membership.log_id != self.effective_membership.log_id {
            Some(
                ChangeMembershipError::InProgress {
                    committed: self.committed_membership.log_id,
                    membership_log_id: self.effective_membership.log_id,
                },
            )
        } else {
            None
        }
    }

    /// What an engine makes of a request to change the membership to the
    /// config `goal`.
    ///
    /// A leader whose effective membership is committed writes the
    /// membership to go through on the way to `goal`: the joint config of the
    /// effective config and `goal`, or `goal` alone where the effective
    /// membership holds it already. The new membership is effective at once.
    pub open spec fn change_membership(self, goal: Set<NodeId>) -> (
        EngineModel,
        Result<Seq<EntryView>, ChangeMembershipError>,
    ) {
        if self.change_membership_error() is Some {
            (self, Err(self.change_membership_error().unwrap()))
        } else {
            let written = self.client_write(
                seq![EntryPayloadView::Membership(self.next_membership(goal))],
            );
            (written.0, Ok(self.written(seq![EntryPayloadView::Membership(self.next_membership(goal))])))
        }
    }

    /// What an engine makes of a tick of the clock at the time `now`.
    ///
    /// A leader sends a heartbeat when one is due, and plans the next one. A
    /// voter that is not the leader starts an election when its election
    /// deadline has passed; the deadline is taken off then, until the runtime
    /// sets a new one.
    pub open spec fn tick(self, now: u64) -> EngineModel {
        if self.server_state is Leader {
            if self.config.enable_heartbeat && !(self.timer.next_heartbeat matches Some(d) && d
                > now) {
                (EngineModel {
                    timer: Timer {
                        next_heartbeat: Some(
                            if now + self.config.heartbeat_interval > u64::MAX {
                                u64::MAX
                            } else {
                                (now + self.config.heartbeat_interval) as u64
                            },
                        ),
                        ..self.timer
                    },
                    ..self
                }).push(Command::ReplicateCommitted { committed: self.committed })
            } else {
                self
            }
        } else if self.config.enable_elect && (self.timer.election_deadline matches Some(d) && d
            <= now) && voters(self.effective_membership.membership.configs).contains(
            self.config.id,
        ) {
            (EngineModel { timer: Timer { election_deadline: None, ..self.timer }, ..self }).elect()
        } else {
            self
        }
    }

    /// The position of the first of `entries` that the log does not hold;
    /// their number if it holds them all.
    pub open spec fn first_conflicting(self, entries: Seq<EntryView>) -> nat
        decreases entries.len(),
    {
        if entries.len() == 0 {
            0
        } else if !self.has_log_id(entries[0].log_id) {
            0
        } else {
            1 + self.first_conflicting(entries.drop_first())
        }
    }

    /// Whether an entry with the log id `id` can be put behind the log id
    /// below it: the log reaches up to there, and the leader of the log id
    /// there is not beyond that of `id`.
    pub open spec fn joins(self, id: LogId) -> bool {
        if id.index == 0 {
            true
        } else {
            self.get((id.index - 1) as u64) matches Some(below) && below.leader_id.le_spec(
                id.leader_id,
            )
        }
    }

    /// The engine after the log is truncated from index `at` on, which is
    /// above the committed index.
    ///
    /// Nothing happens where the log has no log id at `at`. Else the log ids
    /// from there on go, and a command deletes the entries. Where that
    /// removes the entry of the effective membership, the committed
    /// membership is effective again, and the server state follows it.
    pub open spec fn truncate_logs(self, at: u64) -> EngineModel {
        match self.get(at) {
            None => self,
            Some(existing) => {
                let reverts = index_at_least(self.effective_membership.log_id, at);
                let cut = (EngineModel {
                    keys: if self.keys[0].index >= at {
                        Seq::empty()
                    } else {
                        truncated_keys(self.keys, at)
                    },
                    effective_membership: if reverts {
                        self.committed_membership
                    } else {
                        self.effective_membership
                    },
                    ..self
                }).push(Command::DeleteConflictLog { since: existing });
                if reverts {
                    cut.update_server_state()
                } else {
                    cut
                }
            },
        }
    }

    /// The engine after the entries from position `since` on are appended:
    /// their log ids are in the log, a command appends them, the memberships
    /// among them take effect, and the server state follows.
    pub open spec fn append_entries(self, entries: Seq<EntryView>, since: int) -> EngineModel {
        let new = entries.skip(since);
        let mems = memberships_appended(self.committed_membership, self.effective_membership, new);
        (EngineModel {
            keys: extended_keys(self.keys, log_ids_of(new)),
            committed_membership: mems.0,
            effective_membership: mems.1,
            ..self
        }).push(
            Command::AppendInputEntries { start: since as u64, end: entries.len() as u64 },
        ).update_server_state()
    }

    /// Whether the committed log id can move up to `upto`: that is a
    /// greater log id of the log.
    pub open spec fn can_commit(self, upto: Option<LogId>) -> bool {
        opt_lt(self.committed, upto) && spec_next_index(self.committed) <= spec_next_index(upto)
            && self.get(upto.unwrap().index) == upto
    }

    /// The engine with the log committed up to `upto`: the effective
    /// membership is committed if its entry is among the committed ones.
    pub open spec fn committed_to(self, upto: Option<LogId>) -> EngineModel {
        EngineModel {
            committed: upto,
            committed_membership: if opt_le(self.effective_membership.log_id, upto) {
                self.effective_membership
            } else {
                self.committed_membership
            },
            ..self
        }
    }

    /// The engine of a follower after it is told that the log is committed
    /// up to `upto`.
    ///
    /// The committed log id moves up to `upto` if that is a greater log id
    /// of the log. Then a command applies the entries up to there.
    pub open spec fn commit(self, upto: Option<LogId>) -> EngineModel {
        if self.can_commit(upto) {
            self.committed_to(upto).push(
                Command::Apply { already_applied: self.committed, upto: upto.unwrap() },
            )
        } else {
            self
        }
    }

    /// The engine after the runtime has applied the log up to `upto` to the
    /// state machine: the last applied log id moves up to `upto`, if that is
    /// a log id of the log beyond it and not beyond what is committed.
    pub open spec fn applied(self, upto: LogId) -> EngineModel {
        if spec_next_index(self.last_applied) <= upto.index && upto.index < spec_next_index(
            self.committed,
        ) && self.get(upto.index) == Some(upto) {
            EngineModel { last_applied: Some(upto), ..self }
        } else {
            self
        }
    }

    /// Whether a snapshot is worth building: the state machine has applied
    /// more than the snapshot of the node includes.
    pub open spec fn snapshot_is_behind(self) -> bool {
        spec_next_index(self.snapshot_meta.last_log_id) < spec_next_index(self.last_applied)
    }

    /// The engine after it is asked for a snapshot: a command builds one,
    /// if the state machine has applied more than the snapshot of the node
    /// includes.
    pub open spec fn trigger_snapshot(self) -> EngineModel {
        if self.snapshot_is_behind() {
            self.push(Command::BuildSnapshot)
        } else {
            self
        }
    }

    /// The lesser of what the leader has committed and the last log id that
    /// a request makes sure of: the last of its entries, or else `prev`.
    pub open spec fn commit_upto(
        prev: Option<LogId>,
        entries: Seq<EntryView>,
        leader_commit: Option<LogId>,
    ) -> Option<LogId> {
        let last_new = if entries.len() > 0 {
            Some(entries.last().log_id)
        } else {
            prev
        };
        if opt_le(leader_commit, last_new) {
            leader_commit
        } else {
            last_new
        }
    }

    /// What an engine makes of an append-entries request, and what it
    /// answers.
    ///
    /// A request with a vote below that of the node is rejected with the
    /// vote of the node. Else the vote of the leader is taken, as committed.
    /// A request whose entries do not follow `prev`, or whose `prev` the log
    /// does not hold, or whose entries cannot be put behind the log, is
    /// answered with a conflict. Else the entries that the log lacks are
    /// appended, after the log is truncated where it differs, and the log is
    /// committed up to the lesser of what the leader has committed and the
    /// last of the entries.
    pub open spec fn handle_append_entries(
        self,
        vote: Vote,
        prev: Option<LogId>,
        entries: Seq<EntryView>,
        leader_commit: Option<LogId>,
    ) -> (EngineModel, AppendEntriesResponse) {
        if vote.lt_spec(self.vote) {
            (self, AppendEntriesResponse::HigherVote(self.vote))
        } else {
            let leader_vote = Vote { leader_id: vote.leader_id, committed: true };
            let voted = if leader_vote != self.vote {
                self.take_vote(leader_vote)
            } else {
                self
            };
            let since = voted.first_conflicting(entries);
            if !entries_follow(prev, entries, vote.leader_id) || !voted.matches(prev) || (since
                < entries.len() && !voted.joins(entries[since as int].log_id)) {
                (voted, AppendEntriesResponse::Conflict)
            } else {
                let appended = if since < entries.len() {
                    voted.truncate_logs(entries[since as int].log_id.index).append_entries(
                        entries,
                        since as int,
                    )
                } else {
                    voted
                };
                (
                    appended.commit(Self::commit_upto(prev, entries, leader_commit)),
                    AppendEntriesResponse::Success,
                )
            }
        }
    }
}

/// The start of the log always matches: a request without a log id before
/// its entries is never answered with a conflict for that.
pub proof fn lemma_log_start_matches(m: EngineModel)
    ensures
        m.matches(None),
{
}

/// A heartbeat at the start of the log is a success: a request without
/// entries and without a log id before them, of a leader whose vote is not
/// below that of the node.
pub proof fn lemma_heartbeat_at_log_start(m: EngineModel, vote: Vote, leader_commit: Option<LogId>)
    requires
        !vote.lt_spec(m.vote),
    ensures
        m.handle_append_entries(vote, None, Seq::empty(), leader_commit).1 is Success,
{
}

/// What a leader does to commit, and to replicate, leaves its vote.
pub proof fn lemma_leader_steps_keep_vote(m: EngineModel, targets: Seq<NodeId>)
    ensures
        m.leader_commit().vote == m.vote,
        m.replicate_to(targets).vote == m.vote,
    decreases targets.len(),
{
    if targets.len() > 0 {
        lemma_leader_steps_keep_vote(m, targets.drop_last());
    }
}

/// A node that becomes the leader commits its vote.
pub proof fn lemma_establish_leader_vote(m: EngineModel)
    ensures
        m.establish_leader().vote == (Vote { leader_id: m.vote.leader_id, committed: true }),
        m.vote.le_spec(m.establish_leader().vote),
{
    let vote = Vote { leader_id: m.vote.leader_id, committed: true };
    let blank = LogId { leader_id: vote.leader_id, index: spec_next_index(m.last_log_id()) as u64 };
    let voted = m.take_vote(vote);
    let set_up = (EngineModel {
        keys: appended_keys(voted.keys, blank),
        progress: fresh_progress(
            voted.effective_membership.membership.nodes,
            m.config.id,
            (blank.index + 1) as u64,
        ),
        ..voted
    }).push(Command::AppendBlankLog { log_id: blank }).push(Command::UpdateReplicationStreams);
    lemma_leader_steps_keep_vote(set_up, set_up.targets());
    lemma_leader_steps_keep_vote(set_up.replicate_to(set_up.targets()), Seq::empty());
}

/// A node that stands for election has a greater vote than before.
pub proof fn lemma_elect_vote(m: EngineModel)
    requires
        m.vote.leader_id.term < u64::MAX,
    ensures
        m.vote.lt_spec(m.elect().vote),
{
    let vote = candidate_vote(m.vote, m.config.id);
    let own = Set::<NodeId>::empty().insert(m.config.id);
    let voted = EngineModel { granted_by: own, ..m.take_vote(vote) };
    lemma_establish_leader_vote(voted);
}

/// The vote of a node never decreases when it handles a vote request, a
/// vote of a peer, or a response to its own vote request.
pub proof fn lemma_vote_never_decreases_by_votes(
    m: EngineModel,
    vote: Vote,
    req: VoteRequest,
    resp: VoteResponse,
    target: NodeId,
)
    ensures
        m.vote.le_spec(m.handle_vote_req(req).0.vote),
        m.vote.le_spec(m.handle_higher_vote(vote).vote),
        m.vote.le_spec(m.handle_vote_resp(target, resp).vote),
{
    let counted = EngineModel { granted_by: m.granted_by.insert(target), ..m };
    lemma_establish_leader_vote(counted);
}

/// The vote of a node never decreases when it handles a request of a
/// leader or a snapshot.
pub proof fn lemma_vote_never_decreases_by_leader(
    m: EngineModel,
    vote: Vote,
    prev: Option<LogId>,
    entries: Seq<EntryView>,
    leader_commit: Option<LogId>,
    meta: SnapshotMeta,
)
    ensures
        m.vote.le_spec(m.handle_append_entries(vote, prev, entries, leader_commit).0.vote),
        m.install_snapshot(meta).vote == m.vote,
{
    crate::vote::lemma_vote_order(m.vote, vote, Vote { leader_id: vote.leader_id, committed: true });
}

/// The vote of a node never decreases when it handles a write of a client,
/// the progress of a replication, or a tick of the clock.
pub proof fn lemma_vote_never_decreases_by_leading(
    m: EngineModel,
    target: NodeId,
    payloads: Seq<EntryPayloadView>,
    result: ReplicationResult,
    now: u64,
)
    requires
        m.vote.leader_id.term < u64::MAX,
    ensures
        m.client_write(payloads).0.vote == m.vote,
        m.update_progress(target, result).vote == m.vote,
        m.vote.le_spec(m.elect().vote),
        m.vote.le_spec(m.tick(now).vote),
{
    lemma_elect_vote(m);
    lemma_elect_vote(EngineModel { timer: Timer { election_deadline: None, ..m.timer }, ..m });
    let appended = m.append_entries(m.written(payloads), 0).push(
        Command::MoveInputLogId { count: payloads.len() as u64 },
    );
    lemma_leader_steps_keep_vote(appended, appended.targets());
    lemma_leader_steps_keep_vote(appended.replicate_to(appended.targets()), Seq::empty());
    if m.progress.contains_key(target) {
        match result {
            ReplicationResult::Matching(matching) => {
                lemma_leader_steps_keep_vote(
                    EngineModel {
                        progress: m.progress.insert(target, m.progress[target].matched(matching)),
                        ..m
                    },
                    Seq::empty(),
                );
            },
            ReplicationResult::Conflict(_) => {},
        }
    }
}

} // verus!
