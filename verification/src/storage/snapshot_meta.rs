//! The metadata of a snapshot.

use vstd::prelude::*;
use vstd::std_specs::cmp::PartialEqSpecImpl;

use crate::log_id::LogId;
use crate::membership::stored_membership::StoredMembership;
use crate::membership::stored_membership::StoredMembershipView;

verus! {

/// The id of a snapshot.
pub type SnapshotId = String;

/// What the metadata of a snapshot is.
pub struct SnapshotMetaView {
    pub last_log_id: Option<LogId>,
    pub last_membership: StoredMembershipView,
    pub snapshot_id: Seq<char>,
}

/// What identifies a snapshot.
pub struct SnapshotSignatureView {
    pub last_log_id: Option<LogId>,
    pub last_membership_log_id: Option<LogId>,
    pub snapshot_id: Seq<char>,
}

/// The data that identifies a snapshot, without its membership.
#[derive(Debug, Clone, PartialEq, Eq)]
pub struct SnapshotSignature {
    /// The last log id that the snapshot includes.
    pub last_log_id: Option<LogId>,
    /// The log id of the last membership that the snapshot includes.
    pub last_membership_log_id: Option<LogId>,
    pub snapshot_id: SnapshotId,
}

impl View for SnapshotSignature {
    type V = SnapshotSignatureView;

    open spec fn view(&self) -> SnapshotSignatureView {
        SnapshotSignatureView {
            last_log_id: self.last_log_id,
            last_membership_log_id: self.last_membership_log_id,
            snapshot_id: self.snapshot_id@,
        }
    }
}

/// The metadata of a snapshot: enough to reason about the snapshot without
/// reading its bytes.
#[derive(Debug)]
pub struct SnapshotMeta {
    /// The last log id that the snapshot includes.
    pub last_log_id: Option<LogId>,
    /// The last membership that the snapshot includes.
    pub last_membership: StoredMembership,
    /// To identify a snapshot when transferring it.
    pub snapshot_id: SnapshotId,
}

impl View for SnapshotMeta {
    type V = SnapshotMetaView;

    open spec fn view(&self) -> SnapshotMetaView {
        SnapshotMetaView {
            last_log_id: self.last_log_id,
            last_membership: self.last_membership@,
            snapshot_id: self.snapshot_id@,
        }
    }
}

impl SnapshotMetaView {
    /// What identifies the snapshot.
    pub open spec fn signature(self) -> SnapshotSignatureView {
        SnapshotSignatureView {
            last_log_id: self.last_log_id,
            last_membership_log_id: self.last_membership.log_id,
            snapshot_id: self.snapshot_id,
        }
    }
}

impl SnapshotMeta {
    /// What identifies the snapshot.
    pub fn signature(&self) -> (r: SnapshotSignature)
        ensures
            r@ == self@.signature(),
    {
        SnapshotSignature {
            last_log_id: self.last_log_id,
            last_membership_log_id: *self.last_membership.log_id(),
            snapshot_id: self.snapshot_id.clone(),
        }
    }

    /// The last log id that the snapshot includes.
    pub fn last_log_id(&self) -> (r: Option<&LogId>)
        ensures
            match r {
                Some(l) => self.last_log_id == Some(*l),
                None => self.last_log_id is None,
            },
    {
        self.last_log_id.as_ref()
    }
}

impl Clone for SnapshotMeta {
    fn clone(&self) -> (r: Self)
        ensures
            r@ == self@,
    {
        SnapshotMeta {
            last_log_id: self.last_log_id,
            last_membership: self.last_membership.clone(),
            snapshot_id: self.snapshot_id.clone(),
        }
    }
}

impl Default for SnapshotMeta {
    /// The metadata of no snapshot.
    fn default() -> (r: Self)
        ensures
            r@.last_log_id is None,
            r@.last_membership.log_id is None,
            r@.last_membership.membership.configs == Seq::<Set<crate::node::NodeId>>::empty(),
            r@.last_membership.membership.nodes == Map::<
                crate::node::NodeId,
                crate::node::Node,
            >::empty(),
            r@.snapshot_id == Seq::<char>::empty(),
    {
        SnapshotMeta {
            last_log_id: None,
            last_membership: StoredMembership::default(),
            snapshot_id: String::new(),
        }
    }
}

impl PartialEq for SnapshotMeta {
    fn eq(&self, other: &SnapshotMeta) -> (r: bool) {
        self.last_log_id == other.last_log_id && self.last_membership == other.last_membership
            && self.snapshot_id == other.snapshot_id
    }
}

impl Eq for SnapshotMeta {

}

impl PartialEqSpecImpl for SnapshotMeta {
    open spec fn obeys_eq_spec() -> bool {
        true
    }

    open spec fn eq_spec(&self, other: &SnapshotMeta) -> bool {
        self@ == other@
    }
}

} // verus!
