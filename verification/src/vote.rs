//! Leader ids and votes.

use vstd::prelude::*;

use crate::node::NodeId;

verus! {

/// Identifies a leader: the term it was elected in and the node that was
/// voted for. Ordered by `(term, node_id)`.
#[derive(Clone, Copy, Debug, PartialEq, Eq, Structural, PartialOrd, Ord, Hash)]
pub struct LeaderId {
    pub term: u64,
    pub node_id: NodeId,
}

/// The id of a leader whose vote was granted by a quorum.
pub type CommittedLeaderId = LeaderId;

impl LeaderId {
    /// `self < other` in the order by `(term, node_id)`.
    pub open spec fn lt_spec(self, other: LeaderId) -> bool {
        self.term < other.term || (self.term == other.term && self.node_id < other.node_id)
    }

    /// `self <= other` in the order by `(term, node_id)`.
    pub open spec fn le_spec(self, other: LeaderId) -> bool {
        self.lt_spec(other) || self == other
    }

    pub fn new(term: u64, node_id: NodeId) -> (r: Self)
        ensures
            r == (LeaderId { term, node_id }),
    {
        LeaderId { term, node_id }
    }

    pub fn get_term(&self) -> (r: u64)
        ensures
            r == self.term,
    {
        self.term
    }

    /// The node this leader id votes for.
    pub fn voted_for(&self) -> (r: Option<NodeId>)
        ensures
            r == Some(self.node_id),
    {
        Some(self.node_id)
    }

    /// Decides `self < other`.
    pub fn is_lt(&self, other: &LeaderId) -> (r: bool)
        ensures
            r == self.lt_spec(*other),
    {
        self.term < other.term || (self.term == other.term && self.node_id < other.node_id)
    }

    /// Decides `self <= other`.
    pub fn is_le(&self, other: &LeaderId) -> (r: bool)
        ensures
            r == self.le_spec(*other),
    {
        self.is_lt(other) || (self.term == other.term && self.node_id == other.node_id)
    }
}

impl Default for LeaderId {
    fn default() -> (r: Self)
        ensures
            r == (LeaderId { term: 0, node_id: 0 }),
    {
        LeaderId { term: 0, node_id: 0 }
    }
}

/// A vote: the leader voted for, and whether a quorum has granted it.
///
/// Ordered by `(term, node_id, committed)`: the leader id decides, and of two
/// votes for the same leader the committed one is the greater.
#[derive(Clone, Copy, Debug, PartialEq, Eq, Structural, PartialOrd, Ord, Hash)]
pub struct Vote {
    pub leader_id: LeaderId,
    pub committed: bool,
}

impl Vote {
    /// `self < other` in the order by `(term, node_id, committed)`.
    pub open spec fn lt_spec(self, other: Vote) -> bool {
        self.leader_id.lt_spec(other.leader_id) || (self.leader_id == other.leader_id
            && !self.committed && other.committed)
    }

    /// `self <= other` in the order by `(term, node_id, committed)`.
    pub open spec fn le_spec(self, other: Vote) -> bool {
        self.lt_spec(other) || self == other
    }

    /// A vote that is not yet granted by a quorum.
    pub fn new(term: u64, node_id: NodeId) -> (r: Self)
        ensures
            r == (Vote { leader_id: LeaderId { term, node_id }, committed: false }),
    {
        Vote { leader_id: LeaderId { term, node_id }, committed: false }
    }

    /// A vote that is granted by a quorum: it identifies an established leader.
    pub fn new_committed(term: u64, node_id: NodeId) -> (r: Self)
        ensures
            r == (Vote { leader_id: LeaderId { term, node_id }, committed: true }),
    {
        Vote { leader_id: LeaderId { term, node_id }, committed: true }
    }

    /// Marks the vote as granted by a quorum.
    pub fn commit(&mut self)
        ensures
            *final(self) == (Vote { leader_id: old(self).leader_id, committed: true }),
    {
        self.committed = true;
    }

    pub fn is_committed(&self) -> (r: bool)
        ensures
            r == self.committed,
    {
        self.committed
    }

    pub fn leader_id(&self) -> (r: &LeaderId)
        ensures
            *r == self.leader_id,
    {
        &self.leader_id
    }

    /// The committed leader id of this vote, whether or not it is committed.
    pub fn committed_leader_id(&self) -> (r: Option<CommittedLeaderId>)
        ensures
            r == Some(self.leader_id),
    {
        Some(self.leader_id)
    }

    /// Whether this vote establishes `node_id` as the leader.
    pub fn is_committed_by(&self, node_id: NodeId) -> (r: bool)
        ensures
            r == (self.committed && self.leader_id.node_id == node_id),
    {
        self.committed && self.leader_id.node_id == node_id
    }

    /// Decides `self < other`.
    pub fn is_lt(&self, other: &Vote) -> (r: bool)
        ensures
            r == self.lt_spec(*other),
    {
        self.leader_id.is_lt(&other.leader_id) || (self.leader_id == other.leader_id
            && !self.committed && other.committed)
    }

    /// Decides `self <= other`.
    pub fn is_le(&self, other: &Vote) -> (r: bool)
        ensures
            r == self.le_spec(*other),
    {
        self.is_lt(other) || *self == *other
    }
}

impl Default for Vote {
    fn default() -> (r: Self)
        ensures
            r == (Vote { leader_id: LeaderId { term: 0, node_id: 0 }, committed: false }),
    {
        Vote { leader_id: LeaderId { term: 0, node_id: 0 }, committed: false }
    }
}

/// The order on leader ids is a strict total order.
pub proof fn lemma_leader_id_order(a: LeaderId, b: LeaderId, c: LeaderId)
    ensures
        !a.lt_spec(a),
        a.lt_spec(b) && b.lt_spec(c) ==> a.lt_spec(c),
        a.lt_spec(b) || b.lt_spec(a) || a == b,
        a.lt_spec(b) ==> !b.lt_spec(a),
{
}

/// The order on votes is a strict total order.
pub proof fn lemma_vote_order(a: Vote, b: Vote, c: Vote)
    ensures
        !a.lt_spec(a),
        a.lt_spec(b) && b.lt_spec(c) ==> a.lt_spec(c),
        a.lt_spec(b) || b.lt_spec(a) || a == b,
        a.lt_spec(b) ==> !b.lt_spec(a),
        a.le_spec(b) && b.le_spec(c) ==> a.le_spec(c),
{
}

} // verus!
