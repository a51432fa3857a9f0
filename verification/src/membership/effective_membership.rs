//! The membership that is in effect, with the voter set derived from it.

use std::collections::BTreeSet;

use vstd::prelude::*;
use vstd::std_specs::cmp::PartialEqSpecImpl;

use crate::log_id::LogId;
use crate::membership::membership::voters;
use crate::membership::membership::Membership;
use crate::membership::stored_membership::StoredMembership;
use crate::membership::stored_membership::StoredMembershipView;
use crate::node::NodeId;

verus! {

broadcast use vstd::std_specs::btree::group_btree_axioms;

/// A stored membership together with what is derived from it for quick
/// lookup: the set of all voters.
#[derive(Debug)]
pub struct EffectiveMembership {
    stored_membership: StoredMembership,
    voter_ids: BTreeSet<NodeId>,
}

impl View for EffectiveMembership {
    type V = StoredMembershipView;

    closed spec fn view(&self) -> StoredMembershipView {
        self.stored_membership@
    }
}

impl EffectiveMembership {
    /// The derived voter set is the union of the configs.
    #[verifier::type_invariant]
    closed spec fn inv(&self) -> bool {
        self.voter_ids@ == voters(self.stored_membership@.membership.configs)
    }

    /// Whether `id` is in at least one config.
    pub open spec fn spec_is_voter(&self, id: NodeId) -> bool {
        voters(self@.membership.configs).contains(id)
    }

    pub fn new(log_id: Option<LogId>, membership: Membership) -> (r: Self)
        ensures
            r@.log_id == log_id,
            r@.membership == membership@,
    {
        let voter_ids = membership.voter_ids();
        EffectiveMembership { stored_membership: StoredMembership::new(log_id, membership), voter_ids }
    }

    /// The membership in effect that a stored membership gives.
    pub fn new_from_stored_membership(stored: StoredMembership) -> (r: Self)
        ensures
            r@ == stored@,
    {
        let voter_ids = stored.membership().voter_ids();
        EffectiveMembership { stored_membership: stored, voter_ids }
    }

    pub fn stored_membership(&self) -> (r: &StoredMembership)
        ensures
            r@ == self@,
    {
        &self.stored_membership
    }

    /// The id of the log entry that holds the membership.
    pub fn log_id(&self) -> (r: &Option<LogId>)
        ensures
            *r == self@.log_id,
    {
        self.stored_membership.log_id()
    }

    pub fn membership(&self) -> (r: &Membership)
        ensures
            r@ == self@.membership,
    {
        self.stored_membership.membership()
    }

    /// Whether `id` is a voter: a member of at least one config.
    pub fn is_voter(&self, id: &NodeId) -> (r: bool)
        ensures
            r == self.spec_is_voter(*id),
    {
        proof {
            use_type_invariant(self);
        }
        self.voter_ids.contains(id)
    }

    /// The ids of all voters.
    pub fn voter_ids(&self) -> (r: &BTreeSet<NodeId>)
        ensures
            r@ == voters(self@.membership.configs),
    {
        proof {
            use_type_invariant(self);
        }
        &self.voter_ids
    }
}

impl Clone for EffectiveMembership {
    fn clone(&self) -> (r: Self)
        ensures
            r@ == self@,
    {
        proof {
            use_type_invariant(self);
        }
        EffectiveMembership {
            stored_membership: self.stored_membership.clone(),
            voter_ids: self.voter_ids.clone(),
        }
    }
}

impl Default for EffectiveMembership {
    /// The membership of an uninitialized cluster.
    fn default() -> (r: Self)
        ensures
            r@.log_id is None,
            r@.membership.configs == Seq::<Set<NodeId>>::empty(),
            r@.membership.nodes == Map::<NodeId, crate::node::Node>::empty(),
    {
        EffectiveMembership::new_from_stored_membership(StoredMembership::default())
    }
}

impl PartialEq for EffectiveMembership {
    fn eq(&self, other: &EffectiveMembership) -> (r: bool) {
        self.stored_membership == other.stored_membership
    }
}

impl Eq for EffectiveMembership {

}

impl PartialEqSpecImpl for EffectiveMembership {
    open spec fn obeys_eq_spec() -> bool {
        true
    }

    open spec fn eq_spec(&self, other: &EffectiveMembership) -> bool {
        self@ == other@
    }
}

} // verus!
