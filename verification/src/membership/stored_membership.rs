//! A membership together with the log id of the entry that holds it.

use vstd::prelude::*;
use vstd::std_specs::cmp::PartialEqSpecImpl;

use crate::log_id::LogId;
use crate::membership::membership::Membership;
use crate::membership::membership::MembershipView;

verus! {

/// What a stored membership is.
pub struct StoredMembershipView {
    /// The id of the log entry that holds the membership; none for the
    /// membership of an uninitialized cluster.
    pub log_id: Option<LogId>,
    pub membership: MembershipView,
}

/// A membership as it is stored in the log or in the state machine: with the
/// id of the log entry that holds it.
#[derive(Debug)]
pub struct StoredMembership {
    log_id: Option<LogId>,
    membership: Membership,
}

impl View for StoredMembership {
    type V = StoredMembershipView;

    closed spec fn view(&self) -> StoredMembershipView {
        StoredMembershipView { log_id: self.log_id, membership: self.membership@ }
    }
}

impl StoredMembership {
    pub fn new(log_id: Option<LogId>, membership: Membership) -> (r: Self)
        ensures
            r@.log_id == log_id,
            r@.membership == membership@,
    {
        StoredMembership { log_id, membership }
    }

    /// The id of the log entry that holds the membership.
    pub fn log_id(&self) -> (r: &Option<LogId>)
        ensures
            *r == self@.log_id,
    {
        &self.log_id
    }

    pub fn membership(&self) -> (r: &Membership)
        ensures
            r@ == self@.membership,
    {
        &self.membership
    }
}

impl Clone for StoredMembership {
    fn clone(&self) -> (r: Self)
        ensures
            r@ == self@,
    {
        StoredMembership { log_id: self.log_id, membership: self.membership.clone() }
    }
}

impl Default for StoredMembership {
    /// The membership of an uninitialized cluster, held by no log entry.
    fn default() -> (r: Self)
        ensures
            r@.log_id is None,
            r@.membership.configs == Seq::<Set<crate::node::NodeId>>::empty(),
            r@.membership.nodes == Map::<crate::node::NodeId, crate::node::Node>::empty(),
    {
        StoredMembership { log_id: None, membership: Membership::default() }
    }
}

impl PartialEq for StoredMembership {
    fn eq(&self, other: &StoredMembership) -> (r: bool) {
        self.log_id == other.log_id && self.membership == other.membership
    }
}

impl Eq for StoredMembership {

}

impl PartialEqSpecImpl for StoredMembership {
    open spec fn obeys_eq_spec() -> bool {
        true
    }

    open spec fn eq_spec(&self, other: &StoredMembership) -> bool {
        self@ == other@
    }
}

} // verus!
