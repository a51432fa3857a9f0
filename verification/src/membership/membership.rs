//! The membership config of a cluster.

use std::collections::BTreeMap;
use std::collections::BTreeSet;

use vstd::prelude::*;
use vstd::std_specs::cmp::PartialEqSpecImpl;

use crate::membership::into_nodes::extend_nodes;
use crate::membership::into_nodes::extended_nodes;
use crate::membership::into_nodes::set_eq;
use crate::membership::into_nodes::set_to_vec;
use crate::membership::into_nodes::IntoNodes;
use crate::node::Node;
use crate::node::NodeId;

verus! {

broadcast use vstd::std_specs::btree::group_btree_axioms;

/// What a membership is: its configs in order, and the nodes it knows.
pub struct MembershipView {
    /// One config while stable, two during joint consensus.
    pub configs: Seq<Set<NodeId>>,
    /// The metadata of every voter and learner.
    pub nodes: Map<NodeId, Node>,
}

/// The sets that a sequence of configs holds.
pub open spec fn config_sets(configs: Seq<BTreeSet<NodeId>>) -> Seq<Set<NodeId>> {
    Seq::new(configs.len(), |i: int| configs[i]@)
}

/// The ids that are in at least one of the configs.
pub open spec fn voters(configs: Seq<Set<NodeId>>) -> Set<NodeId> {
    Set::new(|id: NodeId| exists|i: int| 0 <= i < configs.len() && #[trigger] configs[i].contains(id))
}

/// More than half of the ids of `config` are in `granted`.
pub open spec fn is_majority(config: Set<NodeId>, granted: Set<NodeId>) -> bool {
    2 * config.intersect(granted).len() > config.len()
}

/// `granted` holds a majority of every config.
pub open spec fn is_quorum(configs: Seq<Set<NodeId>>, granted: Set<NodeId>) -> bool {
    forall|i: int| 0 <= i < configs.len() ==> is_majority(#[trigger] configs[i], granted)
}

/// The configs to go through on the way from `configs` to `goal`: `goal`
/// alone where `configs` already holds it, else the last of `configs`
/// jointly with `goal`.
pub open spec fn next_coherent_configs(configs: Seq<Set<NodeId>>, goal: Set<NodeId>) -> Seq<
    Set<NodeId>,
> {
    if configs.contains(goal) || configs.len() == 0 {
        seq![goal]
    } else {
        seq![configs.last(), goal]
    }
}

/// The membership config of a cluster: the configs of voters, and the nodes.
///
/// With one config the cluster is stable; with two it is in joint consensus,
/// and a quorum is a majority of each.
#[derive(Debug)]
pub struct Membership {
    configs: Vec<BTreeSet<NodeId>>,
    nodes: BTreeMap<NodeId, Node>,
}

impl View for Membership {
    type V = MembershipView;

    closed spec fn view(&self) -> MembershipView {
        MembershipView { configs: config_sets(self.configs@), nodes: self.nodes@ }
    }
}

/// Decides whether two sequences of configs hold the same sets in order.
fn configs_eq(a: &Vec<BTreeSet<NodeId>>, b: &Vec<BTreeSet<NodeId>>) -> (r: bool)
    ensures
        r == (config_sets(a@) == config_sets(b@)),
{
    if a.len() != b.len() {
        assert(config_sets(a@).len() != config_sets(b@).len());
        return false;
    }
    let mut i: usize = 0;
    while i < a.len()
        invariant
            0 <= i <= a.len(),
            a.len() == b.len(),
            forall|k: int| 0 <= k < i ==> a@[k]@ == b@[k]@,
        decreases a.len() - i,
    {
        if !set_eq(&a[i], &b[i]) {
            assert(config_sets(a@)[i as int] != config_sets(b@)[i as int]);
            return false;
        }
        i += 1;
    }
    assert(config_sets(a@) =~= config_sets(b@));
    true
}

/// Decides whether two maps hold the same nodes.
fn nodes_eq(a: &BTreeMap<NodeId, Node>, b: &BTreeMap<NodeId, Node>) -> (r: bool)
    ensures
        r == (a@ == b@),
{
    if a.len() != b.len() {
        return false;
    }
    let ids = a.node_ids();
    let mut i: usize = 0;
    while i < ids.len()
        invariant
            0 <= i <= ids.len(),
            ids@.to_set() == a@.dom(),
            forall|k: int| 0 <= k < i ==> b@.contains_key(#[trigger] ids@[k]),
        decreases ids.len() - i,
    {
        if !b.contains_key(&ids[i]) {
            assert(a@.dom().contains(ids@[i as int]));
            return false;
        }
        i += 1;
    }
    proof {
        assert(a@.dom().subset_of(b@.dom())) by {
            assert forall|id: NodeId| a@.dom().contains(id) implies b@.dom().contains(id) by {
                let k = choose|k: int| 0 <= k < ids@.len() && ids@[k] == id;
                assert(b@.contains_key(ids@[k]));
            }
        }
        vstd::set_lib::lemma_subset_equality(a@.dom(), b@.dom());
        assert(a@ =~= b@);
    }
    true
}

impl Membership {
    /// The nodes.
    pub open spec fn spec_nodes(&self) -> Map<NodeId, Node> {
        self@.nodes
    }

    /// Whether `id` is in at least one config.
    pub open spec fn spec_is_voter(&self, id: NodeId) -> bool {
        voters(self@.configs).contains(id)
    }

    /// Makes a membership of the given configs and nodes. Every voter that
    /// `nodes` does not mention gets the default node.
    pub fn new<T: IntoNodes>(configs: Vec<BTreeSet<NodeId>>, nodes: T) -> (r: Self)
        ensures
            r@.configs == config_sets(configs@),
            r@.nodes == extended_nodes(nodes.spec_nodes(), voters(config_sets(configs@))),
    {
        let given = nodes.into_nodes();
        let mut all = extend_nodes(given, &BTreeSet::new());
        assert(all@ =~= extended_nodes(given@, voters(config_sets(configs@.take(0)))));
        let mut i: usize = 0;
        while i < configs.len()
            invariant
                0 <= i <= configs.len(),
                all@ == extended_nodes(given@, voters(config_sets(configs@.take(i as int)))),
            decreases configs.len() - i,
        {
            let ghost before = all@;
            all = extend_nodes(all, &configs[i]);
            proof {
                let done = config_sets(configs@.take(i as int));
                let next = config_sets(configs@.take(i + 1));
                assert(next[i as int] == configs@[i as int]@);
                assert forall|id: NodeId| voters(next).contains(id) <==> (voters(done).contains(id)
                    || configs@[i as int]@.contains(id)) by {
                    if voters(done).contains(id) {
                        let k = choose|k: int| 0 <= k < done.len() && #[trigger] done[k].contains(id);
                        assert(next[k].contains(id));
                    }
                    if voters(next).contains(id) {
                        let k = choose|k: int| 0 <= k < next.len() && #[trigger] next[k].contains(id);
                        if k < i {
                            assert(done[k].contains(id));
                        }
                    }
                }
                assert(all@ =~= extended_nodes(given@, voters(next)));
            }
            i += 1;
        }
        assert(configs@.take(configs@.len() as int) == configs@);
        Membership { configs, nodes: all }
    }

    /// The configs: one while stable, two during joint consensus.
    pub fn get_joint_config(&self) -> (r: &Vec<BTreeSet<NodeId>>)
        ensures
            config_sets(r@) == self@.configs,
    {
        &self.configs
    }

    /// The metadata of every node in the cluster.
    pub fn nodes(&self) -> (r: &BTreeMap<NodeId, Node>)
        ensures
            r@ == self@.nodes,
    {
        &self.nodes
    }

    /// Whether `id` is a voter: a member of at least one config.
    pub fn is_voter(&self, id: &NodeId) -> (r: bool)
        ensures
            r == self.spec_is_voter(*id),
    {
        let mut i: usize = 0;
        while i < self.configs.len()
            invariant
                0 <= i <= self.configs.len(),
                forall|k: int| 0 <= k < i ==> !self.configs@[k]@.contains(*id),
            decreases self.configs.len() - i,
        {
            if self.configs[i].contains(id) {
                assert(config_sets(self.configs@)[i as int].contains(*id));
                return true;
            }
            i += 1;
        }
        assert forall|k: int| 0 <= k < config_sets(self.configs@).len() implies !(
        #[trigger] config_sets(self.configs@)[k]).contains(*id) by {
            assert(!self.configs@[k]@.contains(*id));
        }
        false
    }

    /// Whether the cluster knows the node `id`, as a voter or as a learner.
    pub fn contains(&self, id: &NodeId) -> (r: bool)
        ensures
            r == self@.nodes.contains_key(*id),
    {
        self.nodes.contains_key(id)
    }

    /// The membership to go through on the way to the config `goal`: `goal`
    /// alone where this membership already holds that config, else the last
    /// config jointly with `goal`. The nodes stay, and every voter of `goal`
    /// that has none gets the default node.
    pub fn next_coherent(&self, goal: BTreeSet<NodeId>) -> (r: Self)
        ensures
            r@.configs == next_coherent_configs(self@.configs, goal@),
            r@.nodes == extended_nodes(self@.nodes, voters(r@.configs)),
    {
        let mut found = false;
        let mut i: usize = 0;
        while i < self.configs.len()
            invariant
                0 <= i <= self.configs.len(),
                found == exists|k: int| 0 <= k < i && self.configs@[k]@ == goal@,
            decreases self.configs.len() - i,
        {
            if set_eq(&self.configs[i], &goal) {
                found = true;
            }
            i += 1;
        }
        proof {
            let sets = config_sets(self.configs@);
            if found {
                let k = choose|k: int| 0 <= k < self.configs@.len() && self.configs@[k]@ == goal@;
                assert(sets[k] == goal@);
            }
            if sets.contains(goal@) {
                let k = choose|k: int| 0 <= k < sets.len() && sets[k] == goal@;
                assert(self.configs@[k]@ == goal@);
            }
        }
        let mut next: Vec<BTreeSet<NodeId>> = Vec::new();
        let n = self.configs.len();
        if !found && n > 0 {
            next.push(self.configs[n - 1].clone());
        }
        next.push(goal);
        assert(config_sets(next@) =~= next_coherent_configs(self@.configs, goal@));
        Membership::new(next, self.nodes.clone())
    }

    /// The ids of all voters: the union of the configs.
    pub fn voter_ids(&self) -> (r: BTreeSet<NodeId>)
        ensures
            r@ == voters(self@.configs),
    {
        let mut all: BTreeSet<NodeId> = BTreeSet::new();
        assert(all@ =~= voters(config_sets(self.configs@.take(0))));
        let mut i: usize = 0;
        while i < self.configs.len()
            invariant
                0 <= i <= self.configs.len(),
                all@ == voters(config_sets(self.configs@.take(i as int))),
            decreases self.configs.len() - i,
        {
            insert_all(&mut all, &self.configs[i]);
            proof {
                let done = config_sets(self.configs@.take(i as int));
                let next = config_sets(self.configs@.take(i + 1));
                assert(next[i as int] == self.configs@[i as int]@);
                assert forall|id: NodeId| voters(next).contains(id) <==> (voters(done).contains(id)
                    || self.configs@[i as int]@.contains(id)) by {
                    if voters(done).contains(id) {
                        let k = choose|k: int| 0 <= k < done.len() && #[trigger] done[k].contains(id);
                        assert(next[k].contains(id));
                    }
                    if voters(next).contains(id) {
                        let k = choose|k: int| 0 <= k < next.len() && #[trigger] next[k].contains(id);
                        if k < i {
                            assert(done[k].contains(id));
                        }
                    }
                }
                assert(all@ =~= voters(next));
            }
            i += 1;
        }
        assert(self.configs@.take(self.configs@.len() as int) == self.configs@);
        all
    }

    /// Decides whether `granted` holds a majority of every config.
    pub fn is_quorum(&self, granted: &BTreeSet<NodeId>) -> (r: bool)
        ensures
            r == is_quorum(self@.configs, granted@),
    {
        let mut i: usize = 0;
        while i < self.configs.len()
            invariant
                0 <= i <= self.configs.len(),
                forall|k: int| 0 <= k < i ==> is_majority(self.configs@[k]@, granted@),
            decreases self.configs.len() - i,
        {
            if !majority_of(&self.configs[i], granted) {
                assert(!is_majority(config_sets(self.configs@)[i as int], granted@));
                return false;
            }
            i += 1;
        }
        assert forall|k: int| 0 <= k < config_sets(self.configs@).len() implies is_majority(
            #[trigger] config_sets(self.configs@)[k],
            granted@,
        ) by {
            assert(is_majority(self.configs@[k]@, granted@));
        }
        true
    }
}

/// Adds every id of `src` to `dst`.
pub fn insert_all(dst: &mut BTreeSet<NodeId>, src: &BTreeSet<NodeId>)
    ensures
        final(dst)@ == old(dst)@.union(src@),
{
    let ids = set_to_vec(src);
    let mut i: usize = 0;
    assert(dst@ =~= old(dst)@.union(ids@.take(0).to_set()));
    while i < ids.len()
        invariant
            0 <= i <= ids.len(),
            dst@ == old(dst)@.union(ids@.take(i as int).to_set()),
        decreases ids.len() - i,
    {
        let id = ids[i];
        proof {
            let before = ids@.take(i as int);
            let after = ids@.take(i + 1);
            assert(after == before.push(id));
            assert forall|x: NodeId| after.to_set().contains(x) <==> (before.to_set().contains(x) || x
                == id) by {
                if before.to_set().contains(x) {
                    let k = choose|k: int| 0 <= k < before.len() && before[k] == x;
                    assert(after[k] == x);
                }
                if x == id {
                    assert(after[i as int] == x);
                }
                if after.to_set().contains(x) {
                    let k = choose|k: int| 0 <= k < after.len() && after[k] == x;
                    if k < i {
                        assert(before[k] == x);
                    }
                }
            }
        }
        dst.insert(id);
        assert(dst@ =~= old(dst)@.union(ids@.take(i + 1).to_set()));
        i += 1;
    }
    assert(ids@.take(ids@.len() as int) == ids@);
}

/// Decides whether more than half of the ids of `config` are in `granted`.
pub fn majority_of(config: &BTreeSet<NodeId>, granted: &BTreeSet<NodeId>) -> (r: bool)
    ensures
        r == is_majority(config@, granted@),
{
    broadcast use vstd::seq_lib::seq_to_set_is_finite;

    let ids = set_to_vec(config);
    let mut count: usize = 0;
    let mut i: usize = 0;
    assert(ids@.take(0).to_set().intersect(granted@) =~= Set::<NodeId>::empty());
    while i < ids.len()
        invariant
            0 <= i <= ids.len(),
            ids_distinct(ids@),
            ids@.to_set() == config@,
            ids@.len() == config@.len(),
            count == ids@.take(i as int).to_set().intersect(granted@).len(),
            count <= i,
        decreases ids.len() - i,
    {
        proof {
            let before = ids@.take(i as int);
            let after = ids@.take(i + 1);
            let id = ids@[i as int];
            assert(after == before.push(id));
            assert(!before.to_set().contains(id)) by {
                if before.to_set().contains(id) {
                    let k = choose|k: int| 0 <= k < before.len() && before[k] == id;
                    assert(ids@[k] == ids@[i as int]);
                }
            }
            assert(after.to_set() =~= before.to_set().insert(id)) by {
                assert forall|x: NodeId| after.to_set().contains(x) <==> before.to_set().insert(
                    id,
                ).contains(x) by {
                    if before.to_set().contains(x) {
                        let k = choose|k: int| 0 <= k < before.len() && before[k] == x;
                        assert(after[k] == x);
                    }
                    if x == id {
                        assert(after[i as int] == x);
                    }
                    if after.to_set().contains(x) {
                        let k = choose|k: int| 0 <= k < after.len() && after[k] == x;
                        if k < i {
                            assert(before[k] == x);
                        }
                    }
                }
            }
            if granted@.contains(id) {
                assert(after.to_set().intersect(granted@) =~= before.to_set().intersect(
                    granted@,
                ).insert(id));
            } else {
                assert(after.to_set().intersect(granted@) =~= before.to_set().intersect(granted@));
            }
            vstd::set_lib::lemma_len_intersect(before.to_set(), granted@);
        }
        if granted.contains(&ids[i]) {
            count += 1;
        }
        i += 1;
    }
    proof {
        assert(ids@.take(ids@.len() as int) == ids@);
    }
    count > ids.len() - count
}

/// Two majorities of one config share a voter.
pub proof fn lemma_majorities_intersect(config: Set<NodeId>, a: Set<NodeId>, b: Set<NodeId>)
    requires
        config.finite(),
        is_majority(config, a),
        is_majority(config, b),
    ensures
        exists|id: NodeId| config.contains(id) && a.contains(id) && b.contains(id),
{
    let in_a = config.intersect(a);
    let in_b = config.intersect(b);
    vstd::set_lib::lemma_len_subset(in_a, config);
    vstd::set_lib::lemma_len_subset(in_b, config);
    if in_a.disjoint(in_b) {
        vstd::set_lib::lemma_set_disjoint_lens(in_a, in_b);
        vstd::set_lib::lemma_len_subset(in_a + in_b, config);
        assert(false);
    }
    let id = choose|id: NodeId| in_a.contains(id) && in_b.contains(id);
    assert(config.contains(id) && a.contains(id) && b.contains(id));
}

/// Two quorums of one membership share a voter: of two votes that a quorum
/// each has granted, one node has granted both.
pub proof fn lemma_quorums_intersect(configs: Seq<Set<NodeId>>, a: Set<NodeId>, b: Set<NodeId>)
    requires
        configs.len() > 0,
        forall|i: int| 0 <= i < configs.len() ==> (#[trigger] configs[i]).finite(),
        is_quorum(configs, a),
        is_quorum(configs, b),
    ensures
        exists|id: NodeId| voters(configs).contains(id) && a.contains(id) && b.contains(id),
{
    assert(is_majority(configs[0], a));
    assert(is_majority(configs[0], b));
    lemma_majorities_intersect(configs[0], a, b);
    let id = choose|id: NodeId| configs[0].contains(id) && a.contains(id) && b.contains(id);
    assert(voters(configs).contains(id));
}

/// No id occurs twice.
pub open spec fn ids_distinct(ids: Seq<NodeId>) -> bool {
    forall|i: int, j: int| 0 <= i < j < ids.len() ==> ids[i] != ids[j]
}

impl Clone for Membership {
    fn clone(&self) -> (r: Self)
        ensures
            r@ == self@,
    {
        let mut configs: Vec<BTreeSet<NodeId>> = Vec::new();
        let mut i: usize = 0;
        while i < self.configs.len()
            invariant
                0 <= i <= self.configs.len(),
                configs@.len() == i,
                forall|k: int| 0 <= k < i ==> configs@[k]@ == self.configs@[k]@,
            decreases self.configs.len() - i,
        {
            configs.push(self.configs[i].clone());
            i += 1;
        }
        assert(config_sets(configs@) =~= config_sets(self.configs@));
        Membership { configs, nodes: self.nodes.clone() }
    }
}

impl Default for Membership {
    /// The membership of an uninitialized cluster: no config, no node.
    fn default() -> (r: Self)
        ensures
            r@.configs == Seq::<Set<NodeId>>::empty(),
            r@.nodes == Map::<NodeId, Node>::empty(),
    {
        let r = Membership { configs: Vec::new(), nodes: BTreeMap::new() };
        assert(r@.configs =~= Seq::<Set<NodeId>>::empty());
        r
    }
}

impl PartialEq for Membership {
    fn eq(&self, other: &Membership) -> (r: bool) {
        configs_eq(&self.configs, &other.configs) && nodes_eq(&self.nodes, &other.nodes)
    }
}

impl Eq for Membership {

}

impl PartialEqSpecImpl for Membership {
    open spec fn obeys_eq_spec() -> bool {
        true
    }

    open spec fn eq_spec(&self, other: &Membership) -> bool {
        self@ == other@
    }
}

} // verus!
