//! The state of a raft node, as pure data.

use vstd::prelude::*;

use crate::log_id::opt_le;
use crate::log_id::spec_next_index;
use crate::log_id::LogId;
use crate::log_id_list::lemma_keys_upto_bounds;
use crate::log_id_list::lemma_log_id_at_range;
use crate::log_id_list::lemma_purged_keys_log_id_at;
use crate::log_id_list::lemma_purged_keys_valid;
use crate::log_id_list::keys_upto;
use crate::log_id_list::purged_keys;
use crate::log_id_list::LogIdList;
use crate::membership::membership::voters;
use crate::membership::membership_state::MembershipState;
use crate::node::NodeId;
use crate::raft_core::server_state::ServerState;
use crate::storage::snapshot_meta::SnapshotMeta;
use crate::vote::Vote;

verus! {

/// The state of a raft node.
#[derive(Debug)]
pub struct RaftState {
    /// The vote of this node. It never decreases.
    pub vote: Vote,
    /// The last log id that is known to be committed.
    pub committed: Option<LogId>,
    /// The last log id that is applied to the state machine.
    pub last_applied: Option<LogId>,
    /// The index after the last purged log id; 0 if nothing was purged.
    pub purged_next: u64,
    /// The ids of the log entries in the log, and of the last purged one.
    pub log_ids: LogIdList,
    /// The committed and the effective membership.
    pub membership_state: MembershipState,
    /// The metadata of the last snapshot.
    pub snapshot_meta: SnapshotMeta,
    /// The state this node is in.
    pub server_state: ServerState,
    /// The log id up to which the log is to be purged, inclusive. Entries
    /// are purged some time after this is set.
    pub purge_upto: Option<LogId>,
}

impl RaftState {
    /// The last purged log id.
    pub open spec fn spec_last_purged_log_id(&self) -> Option<LogId> {
        if self.purged_next == 0 {
            None
        } else {
            self.log_ids.spec_first()
        }
    }

    /// The last log id in the log.
    pub open spec fn spec_last_log_id(&self) -> Option<LogId> {
        self.log_ids.spec_last()
    }

    /// The log ids that the state keeps are in order:
    /// `last_purged <= purge_upto <= snapshot.last_log_id <= last_applied <=
    /// committed <= last_log_id`.
    pub open spec fn ordered(&self) -> bool {
        &&& opt_le(self.spec_last_purged_log_id(), self.purge_upto)
        &&& opt_le(self.purge_upto, self.snapshot_meta.last_log_id)
        &&& opt_le(self.snapshot_meta.last_log_id, self.last_applied)
        &&& opt_le(self.last_applied, self.committed)
        &&& opt_le(self.committed, self.spec_last_log_id())
    }

    /// The log ids that the state keeps are in order by their indices too.
    pub open spec fn index_ordered(&self) -> bool {
        &&& spec_next_index(self.spec_last_purged_log_id()) <= spec_next_index(self.purge_upto)
        &&& spec_next_index(self.purge_upto) <= spec_next_index(self.snapshot_meta.last_log_id)
        &&& spec_next_index(self.snapshot_meta.last_log_id) <= spec_next_index(self.last_applied)
        &&& spec_next_index(self.last_applied) <= spec_next_index(self.committed)
        &&& spec_next_index(self.committed) <= spec_next_index(self.spec_last_log_id())
    }

    /// An optional log id is the log id that the log has at its index.
    pub open spec fn in_log(&self, id: Option<LogId>) -> bool {
        match id {
            None => true,
            Some(l) => self.log_ids.spec_get(l.index) == id,
        }
    }

    /// Whether the log holds `id`. A log id at or below the committed index
    /// is taken to be in the log: committed entries are the same on every
    /// node.
    pub open spec fn spec_has_log_id(&self, id: LogId) -> bool {
        id.index < spec_next_index(self.committed) || self.log_ids.spec_get(id.index) == Some(id)
    }

    /// The invariants of the state of a raft node: the key log ids are
    /// valid and fit the purged position; the log ids that the state keeps
    /// are log ids of the log, and their indices are in order; no log id is of
    /// a later leader than the vote is for.
    ///
    /// With these, the log ids that the state keeps are in order:
    /// `lemma_wf_ordered` shows it.
    pub open spec fn wf(&self) -> bool {
        &&& self.log_ids.wf()
        &&& if self.purged_next == 0 {
            self.log_ids@.len() > 0 ==> self.log_ids@[0].index == 0
        } else {
            self.log_ids@.len() > 0 && self.purged_next == self.log_ids@[0].index + 1
        }
        &&& self.index_ordered()
        &&& self.in_log(self.purge_upto)
        &&& self.in_log(self.snapshot_meta.last_log_id)
        &&& self.in_log(self.last_applied)
        &&& self.in_log(self.committed)
        &&& (self.spec_last_log_id() matches Some(last) ==> last.leader_id.le_spec(
            self.vote.leader_id,
        ))
    }

    /// Whether `id` is a voter of the effective membership.
    pub open spec fn spec_is_voter(&self, id: NodeId) -> bool {
        voters(self.membership_state.spec_effective().membership.configs).contains(id)
    }

    /// The server state that the vote and the membership give the node `id`:
    /// a non-voter is a learner; a voter is the leader if the vote for it
    /// is committed, a candidate if the vote for it is not committed, and
    /// else a follower.
    pub open spec fn spec_calc_server_state(&self, id: NodeId) -> ServerState {
        if self.spec_is_voter(id) {
            if self.vote.leader_id.node_id == id {
                if self.vote.committed {
                    ServerState::Leader
                } else {
                    ServerState::Candidate
                }
            } else {
                ServerState::Follower
            }
        } else {
            ServerState::Learner
        }
    }

    /// The state after the log is purged up to `upto`, inclusive: only the
    /// purged position and the log ids change.
    pub open spec fn purged(&self, next: &RaftState, upto: LogId) -> bool {
        &&& next.purged_next == upto.index + 1
        &&& next.log_ids@ == purged_keys(self.log_ids@, upto)
        &&& next.vote == self.vote
        &&& next.committed == self.committed
        &&& next.last_applied == self.last_applied
        &&& next.membership_state == self.membership_state
        &&& next.snapshot_meta == self.snapshot_meta
        &&& next.server_state == self.server_state
        &&& next.purge_upto == self.purge_upto
    }

    /// The log id at `index`, if the log or the purged position has one.
    pub fn get_log_id(&self, index: u64) -> (r: Option<LogId>)
        requires
            self.log_ids.wf(),
        ensures
            r == self.log_ids.spec_get(index),
    {
        self.log_ids.get(index)
    }

    /// The last log id in the log.
    pub fn last_log_id(&self) -> (r: Option<&LogId>)
        ensures
            match r {
                Some(l) => self.spec_last_log_id() == Some(*l),
                None => self.spec_last_log_id() is None,
            },
    {
        self.log_ids.last()
    }

    /// The last log id that is known to be committed.
    pub fn committed(&self) -> (r: Option<&LogId>)
        ensures
            match r {
                Some(l) => self.committed == Some(*l),
                None => self.committed is None,
            },
    {
        self.committed.as_ref()
    }

    /// The last log id that the last snapshot includes.
    pub fn snapshot_last_log_id(&self) -> (r: Option<&LogId>)
        ensures
            match r {
                Some(l) => self.snapshot_meta.last_log_id == Some(*l),
                None => self.snapshot_meta.last_log_id is None,
            },
    {
        self.snapshot_meta.last_log_id.as_ref()
    }

    /// The log id up to which the log is to be purged.
    pub fn purge_upto(&self) -> (r: Option<&LogId>)
        ensures
            match r {
                Some(l) => self.purge_upto == Some(*l),
                None => self.purge_upto is None,
            },
    {
        self.purge_upto.as_ref()
    }

    /// The last purged log id.
    pub fn last_purged_log_id(&self) -> (r: Option<&LogId>)
        ensures
            match r {
                Some(l) => self.spec_last_purged_log_id() == Some(*l),
                None => self.spec_last_purged_log_id() is None,
            },
    {
        if self.purged_next == 0 {
            return None;
        }
        self.log_ids.first()
    }

    /// The vote of this node.
    pub fn vote_ref(&self) -> (r: &Vote)
        ensures
            *r == self.vote,
    {
        &self.vote
    }

    /// Whether the log holds `log_id`.
    ///
    /// A log id at or below the committed index is taken to be in the log:
    /// committed entries are the same on every node.
    pub fn has_log_id(&self, log_id: &LogId) -> (r: bool)
        requires
            self.log_ids.wf(),
        ensures
            r == self.spec_has_log_id(*log_id),
    {
        let below = match self.committed {
            None => false,
            Some(c) => log_id.index <= c.index,
        };
        if below {
            return true;
        }
        match self.get_log_id(log_id.index) {
            Some(local) => *log_id == local,
            None => false,
        }
    }

    /// Decides whether `id` is a log id of the log.
    pub fn is_in_log(&self, id: &Option<LogId>) -> (r: bool)
        requires
            self.log_ids.wf(),
        ensures
            r == self.in_log(*id),
    {
        match id {
            None => true,
            Some(l) => match self.log_ids.get(l.index) {
                Some(local) => local == *l,
                None => false,
            },
        }
    }

    /// Decides whether the state meets its invariants. A runtime checks a
    /// state that it has read from a store before it runs an engine on it.
    pub fn validate(&self) -> (r: bool)
        ensures
            r == self.wf(),
    {
        if !self.log_ids.is_valid() {
            return false;
        }
        let first = match self.log_ids.first() {
            Some(f) => Some(*f),
            None => None,
        };
        let fits = match first {
            Some(f) => if self.purged_next == 0 {
                f.index == 0
            } else {
                f.index < u64::MAX && self.purged_next == f.index + 1
            },
            None => self.purged_next == 0,
        };
        if !fits {
            return false;
        }
        let last_purged = match self.last_purged_log_id() {
            Some(l) => Some(*l),
            None => None,
        };
        let last = match self.last_log_id() {
            Some(l) => Some(*l),
            None => None,
        };
        if !(index_le(&last_purged, &self.purge_upto) && index_le(
            &self.purge_upto,
            &self.snapshot_meta.last_log_id,
        ) && index_le(&self.snapshot_meta.last_log_id, &self.last_applied) && index_le(
            &self.last_applied,
            &self.committed,
        ) && index_le(&self.committed, &last)) {
            return false;
        }
        if !(self.is_in_log(&self.purge_upto) && self.is_in_log(&self.snapshot_meta.last_log_id)
            && self.is_in_log(&self.last_applied) && self.is_in_log(&self.committed)) {
            return false;
        }
        match last {
            Some(l) => l.leader_id.is_le(&self.vote.leader_id),
            None => true,
        }
    }

    /// Purges the log ids up to `upto`, inclusive, and moves the purged
    /// position behind it.
    pub fn purge_log(&mut self, upto: &LogId)
        requires
            old(self).log_ids.wf(),
            upto.index < u64::MAX,
        ensures
            old(self).purged(final(self), *upto),
            final(self).log_ids.wf(),
    {
        self.purged_next = upto.index + 1;
        self.log_ids.purge(upto);
    }

    /// Whether `id` is a voter of the effective membership.
    pub fn is_voter(&self, id: &NodeId) -> (r: bool)
        ensures
            r == self.spec_is_voter(*id),
    {
        self.membership_state.is_voter(id)
    }

    /// Whether this node's vote is for `id`: then `id` is a candidate or
    /// the leader.
    pub fn is_leading(&self, id: &NodeId) -> (r: bool)
        ensures
            r == (self.vote.leader_id.node_id == *id),
    {
        self.vote.leader_id.node_id == *id
    }

    /// Whether this node's vote establishes `id` as the leader.
    pub fn is_leader(&self, id: &NodeId) -> (r: bool)
        ensures
            r == (self.vote.leader_id.node_id == *id && self.vote.committed),
    {
        self.vote.leader_id.node_id == *id && self.vote.is_committed()
    }

    /// Calculates the server state of the node `id` from the vote and the
    /// effective membership.
    pub fn calc_server_state(&self, id: &NodeId) -> (r: ServerState)
        ensures
            r == self.spec_calc_server_state(*id),
    {
        if self.is_voter(id) {
            if self.is_leader(id) {
                ServerState::Leader
            } else if self.is_leading(id) {
                ServerState::Candidate
            } else {
                ServerState::Follower
            }
        } else {
            ServerState::Learner
        }
    }
}

impl Default for RaftState {
    /// The state of a node that has stored nothing yet.
    fn default() -> (r: Self)
        ensures
            r.vote == (Vote { leader_id: crate::vote::LeaderId { term: 0, node_id: 0 }, committed: false }),
            r.committed is None,
            r.last_applied is None,
            r.purged_next == 0,
            r.log_ids@ == Seq::<LogId>::empty(),
            r.membership_state.spec_committed() == r.membership_state.spec_effective(),
            r.membership_state.spec_committed().log_id is None,
            r.membership_state.spec_committed().membership.configs == Seq::<Set<NodeId>>::empty(),
            r.membership_state.spec_committed().membership.nodes == Map::<
                NodeId,
                crate::node::Node,
            >::empty(),
            r.snapshot_meta@.last_log_id is None,
            r.snapshot_meta@.last_membership.log_id is None,
            r.snapshot_meta@.last_membership.membership.configs == Seq::<Set<NodeId>>::empty(),
            r.snapshot_meta@.last_membership.membership.nodes == Map::<
                NodeId,
                crate::node::Node,
            >::empty(),
            r.snapshot_meta@.snapshot_id == Seq::<char>::empty(),
            r.server_state is Learner,
            r.purge_upto is None,
            r.wf(),
    {
        RaftState {
            vote: Vote::default(),
            committed: None,
            last_applied: None,
            purged_next: 0,
            log_ids: LogIdList::new(Vec::new()),
            membership_state: MembershipState::default(),
            snapshot_meta: SnapshotMeta::default(),
            server_state: ServerState::default(),
            purge_upto: None,
        }
    }
}

/// Decides whether the index of `a` is at most that of `b`, where no log id
/// is below every index.
pub fn index_le(a: &Option<LogId>, b: &Option<LogId>) -> (r: bool)
    ensures
        r == (spec_next_index(*a) <= spec_next_index(*b)),
{
    match (a, b) {
        (None, _) => true,
        (Some(_), None) => false,
        (Some(x), Some(y)) => x.index <= y.index,
    }
}

/// Two log ids of the log are in the order of their indices.
pub proof fn lemma_in_log_ordered(state: RaftState, a: Option<LogId>, b: Option<LogId>)
    requires
        state.log_ids.wf(),
        state.in_log(a),
        state.in_log(b),
        spec_next_index(a) <= spec_next_index(b),
    ensures
        opt_le(a, b),
{
    if a is Some && b is Some {
        let x = a.unwrap();
        let y = b.unwrap();
        if x.index < y.index {
            crate::log_id_list::lemma_log_ids_ordered(state.log_ids@, x.index, y.index);
        }
    }
}

/// In a state that meets its invariants, the log ids that the state keeps
/// are in order: `last_purged <= purge_upto <= snapshot.last_log_id <=
/// last_applied <= committed <= last_log_id`.
pub proof fn lemma_wf_ordered(state: RaftState)
    requires
        state.wf(),
    ensures
        state.ordered(),
{
    let keys = state.log_ids@;
    lemma_log_id_at_range(keys, 0);
    lemma_in_log_ordered(state, state.spec_last_purged_log_id(), state.purge_upto);
    lemma_in_log_ordered(state, state.purge_upto, state.snapshot_meta.last_log_id);
    lemma_in_log_ordered(state, state.snapshot_meta.last_log_id, state.last_applied);
    lemma_in_log_ordered(state, state.last_applied, state.committed);
    if state.committed is Some {
        lemma_log_id_at_range(keys, state.committed.unwrap().index);
    }
    lemma_in_log_ordered(state, state.committed, state.spec_last_log_id());
}

/// A purge up to the log id that is set to purge up to keeps the invariants
/// of the state, and leaves that log id as the last purged one.
pub proof fn lemma_purge_keeps_wf(before: RaftState, after: RaftState, upto: LogId)
    requires
        before.wf(),
        before.purge_upto == Some(upto),
        !opt_le(Some(upto), before.spec_last_purged_log_id()),
        before.purged(&after, upto),
    ensures
        after.wf(),
        after.spec_last_purged_log_id() == Some(upto),
        after.spec_last_log_id() == before.spec_last_log_id(),
{
    let keys = before.log_ids@;
    lemma_purged_keys_valid(keys, upto);
    lemma_keys_upto_bounds(keys, upto.index);
    lemma_log_id_at_range(keys, upto.index);
    lemma_purged_keys_log_id_at(keys, upto, upto.index);
    if before.snapshot_meta.last_log_id is Some {
        lemma_purged_keys_log_id_at(keys, upto, before.snapshot_meta.last_log_id.unwrap().index);
    }
    if before.last_applied is Some {
        lemma_purged_keys_log_id_at(keys, upto, before.last_applied.unwrap().index);
    }
    if before.committed is Some {
        lemma_purged_keys_log_id_at(keys, upto, before.committed.unwrap().index);
    }
    let n = keys_upto(keys, upto.index) as int;
    assert(before.log_ids.spec_get(upto.index) == Some(upto));
    assert(n > 0);
    assert(after.log_ids@[0] == upto);
    if n < keys.len() {
        assert(after.log_ids@.last() == keys.last());
    } else {
        assert(keys[n - 1].index <= upto.index);
        assert(after.log_ids@ =~= seq![upto]);
        assert(keys.last().index == upto.index);
        assert(keys.last() == upto);
    }
}

} // verus!
