//! Helpers to build values with few words, and the suite of scenarios for
//! stores.

pub mod suite;

pub use suite::Suite;

use std::collections::BTreeSet;

use vstd::prelude::*;

use crate::entry::Entry;
use crate::entry::EntryPayloadView;
use crate::entry::EntryView;
use crate::log_id::LogId;
use crate::membership::into_nodes::extended_nodes;
use crate::membership::membership::voters;
use crate::membership::membership::Membership;
use crate::node::Node;
use crate::node::NodeId;
use crate::vote::LeaderId;

verus! {

/// The log id with the given term and index, proposed by node 0.
pub fn log_id(term: u64, index: u64) -> (r: LogId)
    ensures
        r == (LogId { leader_id: LeaderId { term, node_id: 0 }, index }),
{
    LogId { leader_id: LeaderId { term, node_id: 0 }, index }
}

/// The set of the given node ids.
pub fn id_set(ids: &[NodeId]) -> (r: BTreeSet<NodeId>)
    ensures
        r@ == ids@.to_set(),
{
    broadcast use vstd::std_specs::btree::group_btree_axioms;

    let mut r: BTreeSet<NodeId> = BTreeSet::new();
    let mut i: usize = 0;
    assert(ids@.take(0).to_set() =~= Set::<NodeId>::empty());
    while i < ids.len()
        invariant
            0 <= i <= ids@.len(),
            r@ == ids@.take(i as int).to_set(),
        decreases ids.len() - i,
    {
        r.insert(ids[i]);
        proof {
            let before = ids@.take(i as int);
            let after = ids@.take(i + 1);
            assert(after == before.push(ids@[i as int]));
            assert(after.to_set() =~= before.to_set().insert(ids@[i as int])) by {
                assert forall|x: NodeId| after.to_set().contains(x) <==> before.to_set().insert(
                    ids@[i as int],
                ).contains(x) by {
                    if before.to_set().contains(x) {
                        let k = choose|k: int| 0 <= k < before.len() && before[k] == x;
                        assert(after[k] == x);
                    }
                    if x == ids@[i as int] {
                        assert(after[i as int] == x);
                    }
                    if after.to_set().contains(x) {
                        let k = choose|k: int| 0 <= k < after.len() && after[k] == x;
                        if k < i {
                            assert(before[k] == x);
                        }
                    }
                }
            }
        }
        i += 1;
    }
    assert(ids@.take(ids@.len() as int) == ids@);
    r
}

/// The membership of a single config of the given voters, each with the
/// default node.
pub open spec fn spec_membership(ids: Set<NodeId>) -> crate::membership::membership::MembershipView {
    crate::membership::membership::MembershipView {
        configs: seq![ids],
        nodes: extended_nodes(Map::<NodeId, Node>::empty(), ids),
    }
}

/// The membership of a single config of the given voters, each with the
/// default node.
pub fn membership_of(ids: &[NodeId]) -> (r: Membership)
    ensures
        r@ == spec_membership(ids@.to_set()),
{
    let bs = id_set(ids);
    let mut configs: Vec<BTreeSet<NodeId>> = Vec::new();
    configs.push(bs);
    let m = Membership::new(configs, None::<BTreeSet<NodeId>>);
    proof {
        let sets = crate::membership::membership::config_sets(configs@);
        let ids = ids@.to_set();
        assert(sets =~= seq![ids]);
        assert(voters(sets) =~= ids) by {
            assert forall|id: NodeId| ids.contains(id) implies voters(sets).contains(id) by {
                assert(sets[0].contains(id));
            }
        }
    }
    m
}

/// A blank log entry with the given term and index, proposed by node 0.
pub fn blank_ent(term: u64, index: u64) -> (r: Entry)
    ensures
        r@ == (EntryView {
            log_id: LogId { leader_id: LeaderId { term, node_id: 0 }, index },
            payload: EntryPayloadView::Blank,
        }),
{
    Entry::new_blank(log_id(term, index))
}

/// A membership entry with the given term and index, proposed by node 0: a
/// single config of the voters `bs`, each with the default node.
pub fn membership_ent(term: u64, index: u64, bs: BTreeSet<NodeId>) -> (r: Entry)
    ensures
        r@ == (EntryView {
            log_id: LogId { leader_id: LeaderId { term, node_id: 0 }, index },
            payload: EntryPayloadView::Membership(spec_membership(bs@)),
        }),
{
    let ghost ids = bs@;
    let mut configs: Vec<BTreeSet<NodeId>> = Vec::new();
    configs.push(bs);
    let m = Membership::new(configs, ());
    proof {
        let sets = crate::membership::membership::config_sets(configs@);
        assert(sets =~= seq![ids]);
        assert(voters(sets) =~= ids) by {
            assert forall|id: NodeId| ids.contains(id) implies voters(sets).contains(id) by {
                assert(sets[0].contains(id));
            }
        }
    }
    Entry::new_membership(log_id(term, index), m)
}

} // verus!
