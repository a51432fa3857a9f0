//! The membership state of a raft node: the committed membership and the
//! effective one.

use vstd::prelude::*;
use vstd::std_specs::cmp::PartialEqSpecImpl;

use crate::log_id::index;
use crate::log_id::opt_is_le;
use crate::log_id::opt_is_lt;
use crate::log_id::opt_le;
use crate::log_id::opt_lt;
use crate::log_id::spec_next_index;
use crate::log_id::LogId;
use crate::membership::effective_membership::EffectiveMembership;
use crate::membership::stored_membership::StoredMembershipView;
use crate::node::NodeId;

verus! {

/// The index of an optional log id is at least `since`.
pub open spec fn index_at_least(id: Option<LogId>, since: u64) -> bool {
    match id {
        None => false,
        Some(l) => since <= l.index,
    }
}

/// The state of membership configs a raft node needs to know.
///
/// A membership takes effect as soon as its entry is in the log, before it
/// is committed. A node keeps the last committed membership and the
/// effective one; there is at most one membership that is effective and not
/// yet committed.
#[derive(Debug)]
pub struct MembershipState {
    committed: EffectiveMembership,
    effective: EffectiveMembership,
}

impl MembershipState {
    /// The committed membership.
    pub closed spec fn spec_committed(&self) -> StoredMembershipView {
        self.committed@
    }

    /// The effective membership.
    pub closed spec fn spec_effective(&self) -> StoredMembershipView {
        self.effective@
    }

    /// The committed membership is not held by a later log entry than the
    /// effective one.
    pub open spec fn wf(&self) -> bool {
        opt_le(self.spec_committed().log_id, self.spec_effective().log_id)
    }

    pub fn new(committed: EffectiveMembership, effective: EffectiveMembership) -> (r: Self)
        ensures
            r.spec_committed() == committed@,
            r.spec_effective() == effective@,
    {
        MembershipState { committed, effective }
    }

    pub fn committed(&self) -> (r: &EffectiveMembership)
        ensures
            r@ == self.spec_committed(),
    {
        &self.committed
    }

    pub fn effective(&self) -> (r: &EffectiveMembership)
        ensures
            r@ == self.spec_effective(),
    {
        &self.effective
    }

    /// Whether `id` is a voter of the effective membership.
    pub fn is_voter(&self, id: &NodeId) -> (r: bool)
        ensures
            r == crate::membership::membership::voters(
                self.spec_effective().membership.configs,
            ).contains(*id),
    {
        self.effective.is_voter(id)
    }

    /// Takes note that the log is committed up to `committed_log_id`: the
    /// effective membership becomes the committed one if its entry is
    /// covered.
    pub fn commit(&mut self, committed_log_id: &Option<LogId>)
        ensures
            final(self).spec_effective() == old(self).spec_effective(),
            final(self).spec_committed() == if opt_le(
                old(self).spec_effective().log_id,
                *committed_log_id,
            ) {
                old(self).spec_effective()
            } else {
                old(self).spec_committed()
            },
            old(self).wf() ==> final(self).wf(),
    {
        if opt_is_le(self.effective.log_id(), committed_log_id) {
            self.committed = self.effective.clone();
        }
    }

    /// Takes note of a committed membership `c` that a leader reported.
    ///
    /// The local effective membership may conflict with the leader's, so it
    /// is compared by index, not by log id: `c` becomes effective unless the
    /// effective membership is held at a greater index. `c` becomes the
    /// committed membership if its log id is greater. Returns the effective
    /// membership if it changed.
    pub fn update_committed(&mut self, c: EffectiveMembership) -> (r: Option<EffectiveMembership>)
        ensures
            final(self).spec_effective() == if spec_next_index(old(self).spec_effective().log_id)
                <= spec_next_index(c@.log_id) {
                c@
            } else {
                old(self).spec_effective()
            },
            final(self).spec_committed() == if opt_lt(old(self).spec_committed().log_id, c@.log_id) {
                c@
            } else {
                old(self).spec_committed()
            },
            match r {
                Some(e) => e@ == c@ && final(self).spec_effective() == c@,
                None => final(self).spec_effective() == old(self).spec_effective()
                    && spec_next_index(old(self).spec_effective().log_id) > spec_next_index(
                    c@.log_id,
                ),
            },
    {
        let mut changed = false;
        let c_index = index(c.log_id());
        let e_index = index(self.effective.log_id());
        let at_least = match (c_index, e_index) {
            (_, None) => true,
            (None, Some(_)) => false,
            (Some(ci), Some(ei)) => ci >= ei,
        };
        if at_least {
            changed = true;
            self.effective = c.clone();
        }
        if opt_is_lt(self.committed.log_id(), c.log_id()) {
            self.committed = c;
        }
        if changed {
            Some(self.effective.clone())
        } else {
            None
        }
    }

    /// Takes note of a membership `m` whose entry was just appended to the
    /// log: it becomes effective at once. There is at most one membership
    /// that is not committed, so the one that was effective is committed.
    pub fn append(&mut self, m: EffectiveMembership)
        ensures
            final(self).spec_committed() == old(self).spec_effective(),
            final(self).spec_effective() == m@,
            opt_le(old(self).spec_effective().log_id, m@.log_id) ==> final(self).wf(),
    {
        self.committed = self.effective.clone();
        self.effective = m;
    }

    /// Takes note that the log is truncated from index `since` on: if that
    /// removes the entry of the effective membership, the committed
    /// membership is effective again, and is returned.
    pub fn truncate(&mut self, since: u64) -> (r: Option<EffectiveMembership>)
        ensures
            final(self).spec_committed() == old(self).spec_committed(),
            final(self).spec_effective() == if index_at_least(
                old(self).spec_effective().log_id,
                since,
            ) {
                old(self).spec_committed()
            } else {
                old(self).spec_effective()
            },
            match r {
                Some(e) => index_at_least(old(self).spec_effective().log_id, since) && e@
                    == old(self).spec_committed(),
                None => !index_at_least(old(self).spec_effective().log_id, since),
            },
            old(self).wf() ==> final(self).wf(),
    {
        let reverts = match self.effective.log_id() {
            None => false,
            Some(l) => since <= l.index,
        };
        if reverts {
            self.effective = self.committed.clone();
            return Some(self.committed.clone());
        }
        None
    }
}

impl Clone for MembershipState {
    fn clone(&self) -> (r: Self)
        ensures
            r.spec_committed() == self.spec_committed(),
            r.spec_effective() == self.spec_effective(),
    {
        MembershipState { committed: self.committed.clone(), effective: self.effective.clone() }
    }
}

impl Default for MembershipState {
    /// The membership state of an uninitialized cluster.
    fn default() -> (r: Self)
        ensures
            r.spec_committed() == r.spec_effective(),
            r.spec_committed().log_id is None,
            r.spec_committed().membership.configs == Seq::<Set<NodeId>>::empty(),
            r.spec_committed().membership.nodes == Map::<NodeId, crate::node::Node>::empty(),
            r.wf(),
    {
        MembershipState {
            committed: EffectiveMembership::default(),
            effective: EffectiveMembership::default(),
        }
    }
}

impl PartialEq for MembershipState {
    fn eq(&self, other: &MembershipState) -> (r: bool) {
        self.committed == other.committed && self.effective == other.effective
    }
}

impl Eq for MembershipState {

}

impl PartialEqSpecImpl for MembershipState {
    open spec fn obeys_eq_spec() -> bool {
        true
    }

    open spec fn eq_spec(&self, other: &MembershipState) -> bool {
        self.spec_committed() == other.spec_committed() && self.spec_effective()
            == other.spec_effective()
    }
}

} // verus!
