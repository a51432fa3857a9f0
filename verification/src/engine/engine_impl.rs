//! The engine: configuration, state and output together.

use std::collections::BTreeMap;
use std::collections::BTreeSet;

use vstd::prelude::*;

use crate::engine::command::Command;
use crate::engine::engine_config::EngineConfig;
use crate::engine::engine_output::EngineOutput;
use crate::engine::handler::log_handler::LogHandler;
use crate::engine::handler::server_state_handler::ServerStateHandler;
use crate::engine::handler::snapshot_handler::SnapshotHandler;
use crate::engine::engine_output::OutputView;
use crate::engine::model::fresh_progress;
use crate::engine::model::EngineModel;
use crate::engine::progress::ProgressEntry;
use crate::engine::timer::Timer;
use crate::log_id::opt_is_le;
use crate::log_id::opt_le;
use crate::log_id::spec_next_index;
use crate::log_id::LogId;
use crate::log_id_list::appended_keys;
use crate::log_id_list::lemma_appended_keys;
use crate::log_id_list::lemma_log_id_at_range;
use crate::engine::handler::leader_handler::is_seen;
use crate::membership::into_nodes::map_keys;
use crate::membership::membership::is_quorum;
use crate::node::NodeId;
use crate::raft::VoteRequest;
use crate::raft::VoteResponse;
use crate::engine::handler::log_handler::spec_calc_purge_upto;
use crate::raft_state::RaftState;
use crate::storage::snapshot_meta::SnapshotMeta;
use crate::vote::LeaderId;
use crate::vote::Vote;

verus! {

broadcast use vstd::std_specs::btree::group_btree_axioms;

/// The engine of a raft node: it changes the state and emits commands, and
/// does no I/O.
#[derive(Debug)]
pub struct Engine {
    pub config: EngineConfig,
    /// The state of this raft node.
    pub state: RaftState,
    /// The commands for the runtime, and what has changed.
    pub output: EngineOutput,
    /// The nodes that have granted the vote of this node, while it is a
    /// candidate.
    pub vote_granted_by: BTreeSet<NodeId>,
    /// How far the log of each replication target is known to match, while
    /// this node is the leader.
    pub progress: BTreeMap<NodeId, ProgressEntry>,
    /// What the engine knows of time.
    pub timer: Timer,
}

impl Engine {
    /// What the engine is: the state of its node, and its output.
    pub open spec fn model(&self) -> EngineModel {
        EngineModel {
            config: self.config,
            vote: self.state.vote,
            committed: self.state.committed,
            last_applied: self.state.last_applied,
            purged_next: self.state.purged_next,
            keys: self.state.log_ids@,
            committed_membership: self.state.membership_state.spec_committed(),
            effective_membership: self.state.membership_state.spec_effective(),
            snapshot_meta: self.state.snapshot_meta@,
            server_state: self.state.server_state,
            purge_upto: self.state.purge_upto,
            output: self.output@,
            granted_by: self.vote_granted_by@,
            progress: self.progress@,
            timer: self.timer,
        }
    }

    /// An engine with the given configuration on the given state, without
    /// output.
    pub fn new(init_state: RaftState, config: EngineConfig) -> (r: Self)
        ensures
            r.config == config,
            r.state == init_state,
            r.output@ == (OutputView {
                commands: Seq::empty(),
                metrics_flags: crate::engine::engine_output::MetricsChangeFlags {
                    replication: false,
                    local_data: false,
                    cluster: false,
                },
            }),
            r.vote_granted_by@ == Set::<NodeId>::empty(),
            r.progress@ == Map::<NodeId, ProgressEntry>::empty(),
            r.timer == (Timer { election_deadline: None, next_heartbeat: None }),
    {
        Engine {
            config,
            state: init_state,
            output: EngineOutput::new(),
            vote_granted_by: BTreeSet::new(),
            progress: BTreeMap::new(),
            timer: Timer::new(),
        }
    }

    /// The handler that purges the log, on this engine.
    pub fn log_handler(&mut self) -> (r: LogHandler<'_>)
        ensures
            *r.config == old(self).config,
            *r.state == old(self).state,
            *r.output == old(self).output,
            final(self).config == *final(r.config),
            final(self).state == *final(r.state),
            final(self).output == *final(r.output),
            final(self).vote_granted_by == old(self).vote_granted_by,
            final(self).progress == old(self).progress,
            final(self).timer == old(self).timer,
    {
        LogHandler { config: &mut self.config, state: &mut self.state, output: &mut self.output }
    }

    /// The handler of the server state, on this engine.
    pub fn server_state_handler(&mut self) -> (r: ServerStateHandler<'_>)
        ensures
            *r.config == old(self).config,
            *r.state == old(self).state,
            *r.output == old(self).output,
            final(self).config == old(self).config,
            final(self).state == *final(r.state),
            final(self).output == *final(r.output),
            final(self).vote_granted_by == old(self).vote_granted_by,
            final(self).progress == old(self).progress,
            final(self).timer == old(self).timer,
    {
        ServerStateHandler { config: &self.config, state: &mut self.state, output: &mut self.output }
    }

    /// The handler of the snapshot, on this engine.
    pub fn snapshot_handler(&mut self) -> (r: SnapshotHandler<'_, '_>)
        ensures
            *r.state == old(self).state,
            *r.output == old(self).output,
            final(self).config == old(self).config,
            final(self).state == *final(r.state),
            final(self).output == *final(r.output),
            final(self).vote_granted_by == old(self).vote_granted_by,
            final(self).progress == old(self).progress,
            final(self).timer == old(self).timer,
    {
        SnapshotHandler { state: &mut self.state, output: &mut self.output }
    }
}

/// The state after a vote is taken: the vote is the new one, and the server
/// state follows it.
pub open spec fn vote_taken(state: RaftState, id: NodeId, vote: Vote) -> RaftState {
    let voted = RaftState { vote, ..state };
    RaftState { server_state: voted.spec_calc_server_state(id), ..voted }
}

/// The output after a vote is taken: the vote is saved, and a change of
/// leadership is told.
pub open spec fn vote_output(out: OutputView, state: RaftState, id: NodeId, vote: Vote) -> OutputView {
    out.push(Command::SaveVote { vote }).server_state_changed(
        state.server_state,
        vote_taken(state, id, vote).server_state,
    )
}

/// Whether a snapshot with the metadata `meta` that was built is taken: it
/// reaches beyond the snapshot that the node has, and its last log id is a
/// log id of the log, not beyond the last applied one.
pub open spec fn snapshot_taken(state: RaftState, meta: SnapshotMeta) -> bool {
    &&& state.in_log(meta.last_log_id)
    &&& spec_next_index(meta.last_log_id) <= spec_next_index(state.last_applied)
    &&& !opt_le(meta.last_log_id, state.snapshot_meta.last_log_id)
}

impl Engine {
    /// Takes the vote `vote`, which is not below that of this node: the
    /// vote is saved, and the server state follows it.
    pub fn take_vote(&mut self, vote: Vote)
        requires
            old(self).state.wf(),
            old(self).state.vote.leader_id.le_spec(vote.leader_id),
        ensures
            final(self).state.wf(),
            final(self).config == old(self).config,
            final(self).vote_granted_by == old(self).vote_granted_by,
            final(self).progress == old(self).progress,
            final(self).timer == old(self).timer,
            final(self).state == vote_taken(old(self).state, old(self).config.id, vote),
            final(self).output@ == vote_output(
                old(self).output@,
                old(self).state,
                old(self).config.id,
                vote,
            ),
            final(self).model() == old(self).model().take_vote(vote),
    {
        self.state.vote = vote;
        self.output.push_command(Command::SaveVote { vote });
        self.server_state_handler().update_server_state_if_changed();
    }

    /// Handles a vote request.
    ///
    /// The vote is granted if and only if the vote of the candidate is above
    /// that of this node, and the last log id of the candidate is not below
    /// that of this node. A vote that is granted is taken: it is saved, and
    /// the node follows it. The vote of this node never decreases.
    pub fn handle_vote_req(&mut self, req: VoteRequest) -> (resp: VoteResponse)
        requires
            old(self).state.wf(),
        ensures
            final(self).state.wf(),
            final(self).config == old(self).config,
            final(self).vote_granted_by == old(self).vote_granted_by,
            final(self).progress == old(self).progress,
            final(self).timer == old(self).timer,
            old(self).state.vote.le_spec(final(self).state.vote),
            (final(self).model(), resp) == old(self).model().handle_vote_req(req),
            resp == (VoteResponse {
                vote: final(self).state.vote,
                vote_granted: old(self).model().grants(req),
                last_log_id: old(self).state.spec_last_log_id(),
            }),
            final(self).state == if old(self).model().grants(req) {
                vote_taken(old(self).state, old(self).config.id, req.vote)
            } else {
                old(self).state
            },
    {
        let last_log_id = match self.state.last_log_id() {
            Some(l) => Some(*l),
            None => None,
        };
        let granted = self.state.vote.is_lt(&req.vote) && opt_is_le(&last_log_id, &req.last_log_id);
        if granted {
            self.take_vote(req.vote);
        }
        let res = VoteResponse { vote: self.state.vote, vote_granted: granted, last_log_id };
        self.output.push_command(
            Command::SendVoteResult { target: req.vote.leader_id.node_id, res },
        );
        res
    }

    /// Handles a greater vote that a peer has shown: it is taken, so a
    /// leader steps down. A vote that is not greater changes nothing. The
    /// vote of this node never decreases.
    pub fn handle_higher_vote(&mut self, vote: &Vote)
        requires
            old(self).state.wf(),
        ensures
            final(self).state.wf(),
            final(self).config == old(self).config,
            final(self).vote_granted_by == old(self).vote_granted_by,
            final(self).progress == old(self).progress,
            final(self).timer == old(self).timer,
            old(self).state.vote.le_spec(final(self).state.vote),
            final(self).model() == old(self).model().handle_higher_vote(*vote),
            if old(self).state.vote.lt_spec(*vote) {
                &&& final(self).state == vote_taken(old(self).state, old(self).config.id, *vote)
                &&& final(self).output@ == vote_output(
                    old(self).output@,
                    old(self).state,
                    old(self).config.id,
                    *vote,
                )
            } else {
                &&& final(self).state == old(self).state
                &&& final(self).output == old(self).output
            },
    {
        if self.state.vote.is_lt(vote) {
            self.take_vote(*vote);
        }
    }

    /// Makes every node of the effective membership but this one a target
    /// of replication, of which nothing matches yet. The log of this node ends
    /// before index `end`.
    fn rebuild_progress(&mut self, end: u64)
        ensures
            final(self).progress@ == fresh_progress(
                old(self).state.membership_state.spec_effective().membership.nodes,
                old(self).config.id,
                end,
            ),
            final(self).config == old(self).config,
            final(self).state == old(self).state,
            final(self).output == old(self).output,
            final(self).vote_granted_by == old(self).vote_granted_by,
            final(self).timer == old(self).timer,
    {
        let ids = map_keys(self.state.membership_state.effective().membership().nodes());
        let ghost nodes = self.state.membership_state.spec_effective().membership.nodes;
        let mut progress: BTreeMap<NodeId, ProgressEntry> = BTreeMap::new();
        let mut k: usize = 0;
        while k < ids.len()
            invariant
                0 <= k <= ids@.len(),
                ids@.to_set() == nodes.dom(),
                self.config == old(self).config,
                forall|n: NodeId|
                    #![trigger progress@.contains_key(n)]
                    progress@.contains_key(n) <==> n != self.config.id && is_seen(ids@, k as int, n),
                forall|n: NodeId|
                    progress@.contains_key(n) ==> #[trigger] progress@[n] == (ProgressEntry {
                        matching: None,
                        searching_end: end,
                    }),
            decreases ids.len() - k,
        {
            let n = ids[k];
            proof {
                assert forall|x: NodeId| is_seen(ids@, k + 1, x) <==> (is_seen(ids@, k as int, x) || x
                    == n) by {
                    if is_seen(ids@, k + 1, x) {
                        let j = choose|j: int| 0 <= j < k + 1 && ids@[j] == x;
                        if j < k {
                            assert(is_seen(ids@, k as int, x));
                        }
                    }
                    if is_seen(ids@, k as int, x) {
                        let j = choose|j: int| 0 <= j < k && ids@[j] == x;
                        assert(0 <= j < k + 1 && ids@[j] == x);
                    }
                    if x == n {
                        assert(0 <= k < k + 1 && ids@[k as int] == x);
                    }
                }
            }
            let ghost before = progress@;
            if n != self.config.id {
                progress.insert(n, ProgressEntry::empty(end));
            }
            proof {
                assert forall|x: NodeId|
                    #![trigger progress@.contains_key(x)]
                    progress@.contains_key(x) <==> x != self.config.id && is_seen(ids@, k + 1, x) by {
                    assert(before.contains_key(x) <==> x != self.config.id && is_seen(
                        ids@,
                        k as int,
                        x,
                    ));
                }
            }
            k += 1;
        }
        proof {
            let want = fresh_progress(nodes, self.config.id, end);
            assert forall|x: NodeId| progress@.contains_key(x) <==> want.contains_key(x) by {
                if nodes.contains_key(x) {
                    assert(ids@.to_set().contains(x));
                    let j = choose|j: int| 0 <= j < ids@.len() && ids@[j] == x;
                    assert(is_seen(ids@, ids@.len() as int, x));
                }
                if is_seen(ids@, ids@.len() as int, x) {
                    let j = choose|j: int| 0 <= j < ids@.len() && ids@[j] == x;
                    assert(ids@.to_set().contains(ids@[j]));
                }
            }
            assert(progress@ =~= want);
        }
        self.progress = progress;
    }

    /// Makes this node the leader, once a quorum has granted its vote: the
    /// vote is committed and saved, the server state follows it, a blank entry
    /// of the new leader is appended, to commit the entries of earlier
    /// leaders, every other node of the membership becomes a target of
    /// replication, the log is replicated to each of them, and what a quorum
    /// has is committed.
    pub fn establish_leader(&mut self)
        requires
            old(self).state.wf(),
            old(self).state.vote.leader_id.node_id == old(self).config.id,
            spec_next_index(old(self).state.spec_last_log_id()) < u64::MAX,
        ensures
            final(self).state.wf(),
            old(self).state.vote.le_spec(final(self).state.vote),
            final(self).model() == old(self).model().establish_leader(),
    {
        let mut vote = self.state.vote;
        vote.commit();
        self.take_vote(vote);
        let index: u64 = match self.state.last_log_id() {
            Some(l) => l.index + 1,
            None => 0,
        };
        let blank = LogId::new(vote.leader_id, index);
        proof {
            let keys = self.state.log_ids@;
            lemma_appended_keys(keys, blank, 0);
            if self.state.purge_upto is Some {
                let p = self.state.purge_upto.unwrap();
                lemma_appended_keys(keys, blank, p.index);
                lemma_log_id_at_range(keys, p.index);
            }
            if self.state.committed is Some {
                let c = self.state.committed.unwrap();
                lemma_appended_keys(keys, blank, c.index);
                lemma_log_id_at_range(keys, c.index);
            }
            if self.state.last_applied is Some {
                let c = self.state.last_applied.unwrap();
                lemma_appended_keys(keys, blank, c.index);
                lemma_log_id_at_range(keys, c.index);
            }
            if self.state.snapshot_meta.last_log_id is Some {
                let c = self.state.snapshot_meta.last_log_id.unwrap();
                lemma_appended_keys(keys, blank, c.index);
                lemma_log_id_at_range(keys, c.index);
            }
            let res = appended_keys(keys, blank);
            if keys.len() >= 2 && keys[keys.len() - 2].leader_id == keys.last().leader_id {
                assert(res == keys.drop_last().push(blank));
                assert(res[0] == keys[0]);
            } else {
                assert(res == keys.push(blank));
                if keys.len() > 0 {
                    assert(res[0] == keys[0]);
                }
            }
        }
        self.state.log_ids.append(blank);
        self.rebuild_progress(index + 1);
        self.output.push_command(Command::AppendBlankLog { log_id: blank });
        self.output.push_command(Command::UpdateReplicationStreams);
        self.replicate_to_all();
        self.leader_commit();
    }

    /// Asks for a snapshot: a command builds one, if the state machine has
    /// applied more than the snapshot of the node includes. Returns whether a
    /// snapshot is built.
    pub fn trigger_snapshot(&mut self) -> (r: bool)
        ensures
            r == old(self).model().snapshot_is_behind(),
            final(self).model() == old(self).model().trigger_snapshot(),
            final(self).state == old(self).state,
    {
        let behind = match (self.state.snapshot_meta.last_log_id, self.state.last_applied) {
            (_, None) => false,
            (None, Some(_)) => true,
            (Some(s), Some(a)) => s.index < a.index,
        };
        if behind {
            self.output.push_command(Command::BuildSnapshot);
        }
        behind
    }

    /// Takes note of a snapshot that was built, and purges the log as far
    /// as the snapshot and the configured policy allow.
    ///
    /// The snapshot is taken if it reaches beyond the snapshot that the node
    /// has, and is one of the applied part of the log: its last log id is a
    /// log id of the log, not beyond the last applied one. Returns whether it
    /// was taken.
    pub fn finish_building_snapshot(&mut self, meta: SnapshotMeta) -> (r: bool)
        requires
            old(self).state.wf(),
            spec_next_index(old(self).state.spec_last_log_id()) <= u64::MAX,
        ensures
            final(self).state.wf(),
            final(self).config == old(self).config,
            final(self).vote_granted_by == old(self).vote_granted_by,
            final(self).progress == old(self).progress,
            final(self).timer == old(self).timer,
            r == snapshot_taken(old(self).state, meta),
            if r {
                let taken = RaftState { snapshot_meta: meta, ..old(self).state };
                let upto = match spec_calc_purge_upto(taken, old(self).config) {
                    Some(u) => Some(u),
                    None => old(self).state.purge_upto,
                };
                let planned = RaftState { purge_upto: upto, ..taken };
                &&& final(self).state.snapshot_meta == meta
                &&& final(self).state.purge_upto == upto
                &&& final(self).state.spec_last_purged_log_id() == upto
                &&& final(self).state.spec_last_log_id() == old(self).state.spec_last_log_id()
                &&& final(self).state.vote == old(self).state.vote
                &&& final(self).state.committed == old(self).state.committed
                &&& final(self).state.last_applied == old(self).state.last_applied
                &&& final(self).state.server_state == old(self).state.server_state
                &&& final(self).state.membership_state == old(self).state.membership_state
                &&& final(self).output@ == if upto is Some && !opt_le(
                    upto,
                    old(self).state.spec_last_purged_log_id(),
                ) {
                    (OutputView {
                        metrics_flags: old(self).output@.metrics_flags.with(
                            crate::engine::command::MetricsChange::LocalData,
                        ),
                        ..old(self).output@
                    }).push(Command::PurgeLog { upto: upto.unwrap() })
                } else {
                    OutputView {
                        metrics_flags: old(self).output@.metrics_flags.with(
                            crate::engine::command::MetricsChange::LocalData,
                        ),
                        ..old(self).output@
                    }
                }
            } else {
                &&& final(self).state == old(self).state
                &&& final(self).output == old(self).output
            },
    {
        let within = self.state.is_in_log(&meta.last_log_id) && crate::raft_state::index_le(
            &meta.last_log_id,
            &self.state.last_applied,
        );
        if !within {
            return false;
        }
        let ghost before = self.state;
        let updated = self.snapshot_handler().update_snapshot(meta);
        if !updated {
            return false;
        }
        proof {
            let keys = self.state.log_ids@;
            crate::raft_state::lemma_wf_ordered(before);
            if spec_next_index(self.state.snapshot_meta.last_log_id) <= spec_next_index(
                before.snapshot_meta.last_log_id,
            ) {
                crate::raft_state::lemma_in_log_ordered(
                    before,
                    self.state.snapshot_meta.last_log_id,
                    before.snapshot_meta.last_log_id,
                );
            }
            assert(self.state.wf());
            let end = crate::engine::handler::log_handler::spec_purge_end(self.state, self.config);
            if end > 0 {
                lemma_log_id_at_range(keys, (end - 1) as u64);
            }
            lemma_log_id_at_range(keys, 0);
            if self.state.snapshot_meta.last_log_id is Some {
                lemma_log_id_at_range(keys, self.state.snapshot_meta.last_log_id.unwrap().index);
            }
        }
        self.log_handler().update_purge_upto();
        proof {
            crate::raft_state::lemma_wf_ordered(self.state);
        }
        self.log_handler().purge_log();
        true
    }

    /// Starts an election: this node stands for election in the next term,
    /// votes for itself, and asks every other voter for its vote. Where its
    /// own vote is a quorum already, it is the leader at once. The vote of
    /// the node grows.
    pub fn elect(&mut self)
        requires
            old(self).state.wf(),
            old(self).state.vote.leader_id.term < u64::MAX,
            spec_next_index(old(self).state.spec_last_log_id()) < u64::MAX,
        ensures
            final(self).state.wf(),
            old(self).state.vote.lt_spec(final(self).state.vote),
            final(self).model() == old(self).model().elect(),
    {
        let id = self.config.id;
        let vote = Vote::new(self.state.vote.leader_id.term + 1, id);
        self.take_vote(vote);
        let mut granted: BTreeSet<NodeId> = BTreeSet::new();
        granted.insert(id);
        let is_quorum = self.state.membership_state.effective().membership().is_quorum(&granted);
        self.vote_granted_by = granted;
        if is_quorum {
            self.establish_leader();
            return;
        }
        let last_log_id = match self.state.last_log_id() {
            Some(l) => Some(*l),
            None => None,
        };
        self.output.push_command(
            Command::SendVoteRequest { vote_req: VoteRequest { vote, last_log_id } },
        );
    }

    /// Handles the response of `target` to the vote request of this node.
    ///
    /// A grant of the vote that the node stands for election with is
    /// counted; once a quorum has granted, this node is the leader. Any other
    /// response changes nothing, unless it shows a greater vote: that one is
    /// taken. The vote of the node never decreases.
    pub fn handle_vote_resp(&mut self, target: NodeId, resp: VoteResponse)
        requires
            old(self).state.wf(),
            spec_next_index(old(self).state.spec_last_log_id()) < u64::MAX,
        ensures
            final(self).state.wf(),
            old(self).state.vote.le_spec(final(self).state.vote),
            final(self).model() == old(self).model().handle_vote_resp(target, resp),
    {
        let mine = self.state.vote;
        if mine.leader_id.node_id == self.config.id && !mine.committed && resp.vote_granted
            && resp.vote == mine {
            self.vote_granted_by.insert(target);
            if self.state.membership_state.effective().membership().is_quorum(&self.vote_granted_by) {
                self.establish_leader();
            }
            return;
        }
        // A greater vote is seen: follow it.
        self.handle_higher_vote(&resp.vote);
    }

    /// Sets the deadline for the next election: `timeout` milliseconds
    /// after `now`. A runtime sets it when the node has heard of a leader or
    /// has granted a vote, with a timeout that it picks at random between the
    /// least and the greatest election timeout.
    pub fn reset_election_timer(&mut self, now: u64, timeout: u64)
        ensures
            final(self).model() == (EngineModel {
                timer: Timer {
                    election_deadline: Some(
                        if now + timeout > u64::MAX {
                            u64::MAX
                        } else {
                            (now + timeout) as u64
                        },
                    ),
                    ..old(self).timer
                },
                ..old(self).model()
            }),
            final(self).state == old(self).state,
    {
        self.timer.election_deadline = Some(Timer::after(now, timeout));
    }

    /// Handles a tick of the clock at the time `now`.
    ///
    /// A leader sends a heartbeat when one is due, and plans the next one. A
    /// voter that is not the leader starts an election when its election
    /// deadline has passed. The vote of the node never decreases.
    pub fn tick(&mut self, now: u64)
        requires
            old(self).state.wf(),
            old(self).state.vote.leader_id.term < u64::MAX,
            spec_next_index(old(self).state.spec_last_log_id()) < u64::MAX,
        ensures
            final(self).state.wf(),
            old(self).state.vote.le_spec(final(self).state.vote),
            final(self).model() == old(self).model().tick(now),
    {
        if self.state.server_state.is_leader() {
            let due = match self.timer.next_heartbeat {
                Some(d) => d <= now,
                None => true,
            };
            if self.config.enable_heartbeat && due {
                self.timer.next_heartbeat = Some(Timer::after(now, self.config.heartbeat_interval));
                self.output.push_command(
                    Command::ReplicateCommitted { committed: self.state.committed },
                );
            }
            return;
        }
        if self.config.enable_elect && Timer::is_due(&self.timer.election_deadline, now)
            && self.state.is_voter(&self.config.id) {
            self.timer.election_deadline = None;
            self.elect();
        }
    }
}

impl Default for Engine {
    /// An engine with the default configuration on the state of a node that
    /// has stored nothing yet.
    fn default() -> (r: Self)
        ensures
            r.config == (EngineConfig {
                id: 0,
                max_in_snapshot_log_to_keep: 1000,
                purge_batch_size: 256,
                heartbeat_interval: 50,
                enable_heartbeat: true,
                enable_elect: true,
            }),
            r.state.wf(),
            r.state.log_ids@ == Seq::<crate::log_id::LogId>::empty(),
            r.state.purged_next == 0,
            r.state.vote == (Vote { leader_id: LeaderId { term: 0, node_id: 0 }, committed: false }),
            r.output.commands@ == Seq::<crate::engine::command::Command>::empty(),
            r.vote_granted_by@ == Set::<NodeId>::empty(),
            r.progress@ == Map::<NodeId, ProgressEntry>::empty(),
            r.timer == (Timer { election_deadline: None, next_heartbeat: None }),
    {
        Engine {
            config: EngineConfig::default(),
            state: RaftState::default(),
            output: EngineOutput::new(),
            vote_granted_by: BTreeSet::new(),
            progress: BTreeMap::new(),
            timer: Timer::new(),
        }
    }
}

} // verus!
