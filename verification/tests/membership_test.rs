use std::collections::BTreeMap;
use std::collections::BTreeSet;

use openraft::membership::effective_membership::EffectiveMembership;
use openraft::membership::into_nodes::IntoNodes;
use openraft::membership::membership::Membership;
use openraft::membership::membership_state::MembershipState;
use openraft::node::EmptyNode;
use openraft::testing::id_set;
use openraft::testing::log_id;
use openraft::testing::membership_of;

#[test]
fn test_into_nodes_unit() {
    assert!(!().has_nodes());
    assert_eq!(Vec::<u64>::new(), ().node_ids());
    assert_eq!(BTreeMap::<u64, EmptyNode>::new(), ().into_nodes());
}

#[test]
fn test_into_nodes_set() {
    let ids: BTreeSet<u64> = id_set(&[3, 1, 2]);
    assert!(!ids.has_nodes());
    assert_eq!(vec![1, 2, 3], ids.node_ids());
    let nodes = ids.into_nodes();
    assert_eq!(vec![1, 2, 3], nodes.keys().copied().collect::<Vec<_>>());
}

#[test]
fn test_into_nodes_optional_set() {
    let none: Option<BTreeSet<u64>> = None;
    assert!(none.has_nodes());
    assert_eq!(Vec::<u64>::new(), none.node_ids());
    assert!(none.into_nodes().is_empty());

    let some = Some(id_set(&[5, 4]));
    assert!(some.has_nodes());
    assert_eq!(vec![4, 5], some.node_ids());
    assert_eq!(2, some.into_nodes().len());
}

#[test]
fn test_into_nodes_map() {
    let mut nodes: BTreeMap<u64, EmptyNode> = BTreeMap::new();
    nodes.insert(9, EmptyNode {});
    nodes.insert(7, EmptyNode {});
    assert!(nodes.has_nodes());
    assert_eq!(vec![7, 9], nodes.node_ids());
    assert_eq!(nodes.clone(), nodes.into_nodes());
}

#[test]
fn test_membership_new_adds_voters_to_nodes() {
    let mut learners: BTreeMap<u64, EmptyNode> = BTreeMap::new();
    learners.insert(7, EmptyNode {});
    let m = Membership::new(vec![id_set(&[1, 2]), id_set(&[2, 3])], learners);
    assert_eq!(vec![1, 2, 3, 7], m.nodes().keys().copied().collect::<Vec<_>>());
    assert!(m.is_voter(&1));
    assert!(m.is_voter(&3));
    assert!(!m.is_voter(&7));
    assert!(m.contains(&7));
    assert!(!m.contains(&8));
    assert_eq!(id_set(&[1, 2, 3]), m.voter_ids());
}

#[test]
fn test_membership_equality() {
    assert_eq!(membership_of(&[1, 2]), Membership::new(vec![id_set(&[2, 1])], ()));
    assert_ne!(membership_of(&[1, 2]), membership_of(&[1, 2, 3]));
    assert_ne!(
        membership_of(&[1, 2]),
        Membership::new(vec![id_set(&[1]), id_set(&[2])], ())
    );
    assert_eq!(Membership::default(), Membership::new(vec![], ()));
}

#[test]
fn test_membership_quorum_single_config() {
    let m = membership_of(&[0, 1, 2]);
    assert!(!m.is_quorum(&id_set(&[])));
    assert!(!m.is_quorum(&id_set(&[0])));
    assert!(m.is_quorum(&id_set(&[0, 1])));
    assert!(m.is_quorum(&id_set(&[0, 1, 2])));
    // ids outside the config do not count
    assert!(!m.is_quorum(&id_set(&[0, 7, 8, 9])));

    let even = membership_of(&[0, 1, 2, 3]);
    assert!(!even.is_quorum(&id_set(&[0, 1])));
    assert!(even.is_quorum(&id_set(&[0, 1, 2])));
}

/// Cluster {0,1,2}; the leader proposes a change to {0,1,2,3}. Before the
/// change is committed the joint config is in effect, and a commit takes a
/// quorum of both configs. After it the cluster has the new config alone.
#[test]
fn test_membership_change_goes_through_joint_config() {
    let old = membership_of(&[0, 1, 2]);

    let joint = old.next_coherent(id_set(&[0, 1, 2, 3]));
    assert_eq!(&vec![id_set(&[0, 1, 2]), id_set(&[0, 1, 2, 3])], joint.get_joint_config());
    assert!(joint.contains(&3));

    // a majority of the old config alone is no quorum
    assert!(!joint.is_quorum(&id_set(&[0, 1])));
    // a majority of the new config alone is no quorum
    assert!(!joint.is_quorum(&id_set(&[0, 3])));
    assert!(joint.is_quorum(&id_set(&[0, 1, 3])));
    // three of the four new voters are a majority of the new config too
    assert!(joint.is_quorum(&id_set(&[0, 1, 2])));
    assert!(!joint.is_quorum(&id_set(&[1, 3])));

    let new = joint.next_coherent(id_set(&[0, 1, 2, 3]));
    assert_eq!(&vec![id_set(&[0, 1, 2, 3])], new.get_joint_config());
    assert_eq!(membership_of(&[0, 1, 2, 3]), new);
}

#[test]
fn test_membership_state_append_commit_truncate() {
    let m0 = EffectiveMembership::new(Some(log_id(1, 1)), membership_of(&[0, 1, 2]));
    let joint = membership_of(&[0, 1, 2]).next_coherent(id_set(&[0, 1, 2, 3]));
    let m1 = EffectiveMembership::new(Some(log_id(1, 5)), joint);

    let mut state = MembershipState::new(m0.clone(), m0.clone());
    state.append(m1.clone());
    assert_eq!(&m0, state.committed());
    assert_eq!(&m1, state.effective());
    assert!(state.is_voter(&3));

    // a commit below the entry of the effective membership commits nothing
    state.commit(&Some(log_id(1, 4)));
    assert_eq!(&m0, state.committed());

    // a truncation of the entry makes the committed membership effective again
    let mut reverted = state.clone();
    assert_eq!(Some(m0.clone()), reverted.truncate(5));
    assert_eq!(&m0, reverted.effective());
    assert!(!reverted.is_voter(&3));

    // a truncation behind the entry changes nothing
    let mut kept = state.clone();
    assert_eq!(None, kept.truncate(6));
    assert_eq!(&m1, kept.effective());

    state.commit(&Some(log_id(1, 5)));
    assert_eq!(&m1, state.committed());
    assert_eq!(&m1, state.effective());
}

#[test]
fn test_membership_state_update_committed() {
    let m0 = EffectiveMembership::new(Some(log_id(1, 1)), membership_of(&[0, 1, 2]));
    let m1 = EffectiveMembership::new(Some(log_id(1, 5)), membership_of(&[0, 1]));
    let m2 = EffectiveMembership::new(Some(log_id(2, 3)), membership_of(&[0, 2]));

    // a committed membership at a greater index becomes effective and committed
    let mut state = MembershipState::new(m0.clone(), m0.clone());
    assert_eq!(Some(m1.clone()), state.update_committed(m1.clone()));
    assert_eq!(&m1, state.committed());
    assert_eq!(&m1, state.effective());

    // one at a smaller index with a greater log id is committed, and not effective
    assert_eq!(None, state.update_committed(m2.clone()));
    assert_eq!(&m2, state.committed());
    assert_eq!(&m1, state.effective());
}
