//! Conversion of several input types into a map of nodes.

use std::collections::BTreeMap;
use std::collections::BTreeSet;

use vstd::prelude::*;
use vstd::std_specs::cmp::OrdSpec;
use vstd::std_specs::iter::IteratorSpec;

use crate::node::EmptyNode;
use crate::node::Node;
use crate::node::NodeId;

verus! {

broadcast use vstd::std_specs::btree::group_btree_axioms;

/// The ids are in strictly increasing order.
pub open spec fn ids_increasing(ids: Seq<NodeId>) -> bool {
    forall|i: int, j: int| 0 <= i < j < ids.len() ==> ids[i] < ids[j]
}

/// The map that gives every id of `ids` the default node.
pub open spec fn default_nodes(ids: Set<NodeId>) -> Map<NodeId, Node> {
    Map::new(|id: NodeId| ids.contains(id), |id: NodeId| EmptyNode {})
}

/// Converts into a map of nodes.
///
/// This accepts the input of a user who builds a membership: nothing, a set
/// of node ids, or a map of nodes.
pub trait IntoNodes: Sized {
    /// The nodes that the value converts into.
    spec fn spec_nodes(&self) -> Map<NodeId, Node>;

    /// Whether the value is meant to carry node metadata, and not only ids.
    spec fn spec_has_nodes(&self) -> bool;

    /// Whether the value is meant to carry node metadata, and not only ids.
    fn has_nodes(&self) -> (r: bool)
        ensures
            r == self.spec_has_nodes(),
    ;

    /// The ids of the nodes, each once, in increasing order.
    fn node_ids(&self) -> (r: Vec<NodeId>)
        ensures
            r@.to_set() == self.spec_nodes().dom(),
            ids_increasing(r@),
    ;

    /// The map of nodes.
    fn into_nodes(self) -> (r: BTreeMap<NodeId, Node>)
        ensures
            r@ == self.spec_nodes(),
    ;
}

/// What the iteration order of a set means for node ids.
proof fn lemma_increasing_keys(keys: Seq<&NodeId>)
    requires
        vstd::std_specs::btree::increasing_seq(keys),
    ensures
        ids_increasing(keys.unref()),
{
    broadcast use vstd::laws_cmp::group_laws_cmp;
    reveal(vstd::laws_cmp::obeys_cmp_partial_ord);
    reveal(vstd::laws_cmp::obeys_cmp_ord);
    assert(vstd::laws_cmp::obeys_cmp::<NodeId>());
    assert(vstd::laws_cmp::obeys_cmp::<&NodeId>());
    vstd::std_specs::btree::axiom_increasing_seq_meaning::<&NodeId>(keys);
    assert forall|i: int, j: int| 0 <= i < j < keys.len() implies keys.unref()[i] < keys.unref()[j] by {
        assert(OrdSpec::cmp_spec(&keys[i], &keys[j]) is Less);
    }
}

/// The ids of a set, each once, in increasing order.
pub fn set_to_vec(ids: &BTreeSet<NodeId>) -> (r: Vec<NodeId>)
    ensures
        r@.to_set() == ids@,
        ids_increasing(r@),
        r@.len() == ids@.len(),
{
    let mut res: Vec<NodeId> = Vec::new();
    for id in iter: ids.iter()
        invariant
            iter.seq() == ids.iter().remaining(),
            res@.len() == iter.index(),
            forall|i: int| 0 <= i < res@.len() ==> res@[i] == *iter.seq()[i],
    {
        res.push(*id);
    }
    proof {
        let keys = ids.iter().remaining();
        assert(res@ =~= keys.unref());
        lemma_increasing_keys(keys);
    }
    res
}

/// The keys of a map, each once, in increasing order.
pub fn map_keys<V>(map: &BTreeMap<u64, V>) -> (r: Vec<u64>)
    ensures
        r@.to_set() == map@.dom(),
        ids_increasing(r@),
        r@.len() == map@.dom().len(),
{
    let mut res: Vec<u64> = Vec::new();
    for id in iter: map.keys()
        invariant
            iter.seq() == map.keys().remaining(),
            res@.len() == iter.index(),
            forall|i: int| 0 <= i < res@.len() ==> res@[i] == *iter.seq()[i],
    {
        res.push(*id);
    }
    proof {
        let keys = map.keys().remaining();
        assert(res@ =~= keys.unref());
        lemma_increasing_keys(keys);
    }
    res
}

/// There is one way to put a set of ids in increasing order.
pub proof fn lemma_increasing_unique(a: Seq<NodeId>, b: Seq<NodeId>)
    requires
        ids_increasing(a),
        ids_increasing(b),
        a.to_set() == b.to_set(),
    ensures
        a == b,
    decreases a.len(),
{
    if a.len() == 0 {
        if b.len() > 0 {
            assert(b.to_set().contains(b[0]));
        }
        assert(a =~= b);
    } else {
        let top = a.last();
        assert(a.to_set().contains(a[a.len() - 1]));
        assert(b.len() > 0) by {
            if b.len() == 0 {
                assert(!b.to_set().contains(top));
            }
        }
        assert(b.to_set().contains(b[b.len() - 1]));
        // The last of each is the greatest of the set.
        let i = choose|i: int| 0 <= i < b.len() && b[i] == top;
        let j = choose|j: int| 0 <= j < a.len() && a[j] == b.last();
        assert(b.last() == top) by {
            if i < b.len() - 1 {
                assert(b[i] < b[b.len() - 1]);
            }
            if j < a.len() - 1 {
                assert(a[j] < a[a.len() - 1]);
            }
        }
        let fa = a.drop_last();
        let fb = b.drop_last();
        assert forall|x: NodeId| fa.to_set().contains(x) <==> fb.to_set().contains(x) by {
            if fa.to_set().contains(x) {
                let k = choose|k: int| 0 <= k < fa.len() && fa[k] == x;
                assert(a[k] == x && a[k] < a[a.len() - 1]);
                assert(a.to_set().contains(a[k]));
                let m = choose|m: int| 0 <= m < b.len() && b[m] == x;
                assert(fb[m] == x);
            }
            if fb.to_set().contains(x) {
                let k = choose|k: int| 0 <= k < fb.len() && fb[k] == x;
                assert(b[k] == x && b[k] < b[b.len() - 1]);
                assert(b.to_set().contains(b[k]));
                let m = choose|m: int| 0 <= m < a.len() && a[m] == x;
                assert(fa[m] == x);
            }
        }
        assert(fa.to_set() =~= fb.to_set());
        lemma_increasing_unique(fa, fb);
        assert(a =~= fa.push(top));
        assert(b =~= fb.push(top));
    }
}

/// Decides whether two sets hold the same ids.
pub fn set_eq(a: &BTreeSet<NodeId>, b: &BTreeSet<NodeId>) -> (r: bool)
    ensures
        r == (a@ == b@),
{
    broadcast use vstd::seq_lib::seq_to_set_is_finite;

    if a.len() != b.len() {
        return false;
    }
    let ids = set_to_vec(a);
    let mut i: usize = 0;
    while i < ids.len()
        invariant
            0 <= i <= ids.len(),
            ids@.to_set() == a@,
            forall|k: int| 0 <= k < i ==> b@.contains(#[trigger] ids@[k]),
        decreases ids.len() - i,
    {
        if !b.contains(&ids[i]) {
            assert(a@.contains(ids@[i as int]));
            return false;
        }
        i += 1;
    }
    proof {
        assert(a@.subset_of(b@)) by {
            assert forall|id: NodeId| a@.contains(id) implies b@.contains(id) by {
                let k = choose|k: int| 0 <= k < ids@.len() && ids@[k] == id;
                assert(b@.contains(ids@[k]));
            }
        }
        lemma_set_finite(b);
        vstd::set_lib::lemma_subset_equality(a@, b@);
    }
    true
}

/// The ids of a set are finitely many.
pub proof fn lemma_set_finite(ids: &BTreeSet<NodeId>)
    ensures
        ids@.finite(),
{
    broadcast use vstd::seq_lib::seq_to_set_is_finite;

    assert(ids.iter().remaining().unref().to_set() == ids@);
}

/// The nodes that `extra` adds to `nodes`: every id of `extra` that `nodes`
/// lacks gets the default node.
pub open spec fn extended_nodes(nodes: Map<NodeId, Node>, extra: Set<NodeId>) -> Map<NodeId, Node> {
    Map::new(
        |id: NodeId| nodes.contains_key(id) || extra.contains(id),
        |id: NodeId|
            if nodes.contains_key(id) {
                nodes[id]
            } else {
                EmptyNode {}
            },
    )
}

/// Gives every id of `extra` that `nodes` lacks the default node.
pub fn extend_nodes(nodes: BTreeMap<NodeId, Node>, extra: &BTreeSet<NodeId>) -> (r: BTreeMap<
    NodeId,
    Node,
>)
    ensures
        r@ == extended_nodes(nodes@, extra@),
{
    let mut res = nodes;
    let ids = set_to_vec(extra);
    let mut i: usize = 0;
    while i < ids.len()
        invariant
            0 <= i <= ids.len(),
            ids@.to_set() == extra@,
            res@ =~= extended_nodes(nodes@, ids@.take(i as int).to_set()),
        decreases ids.len() - i,
    {
        let id = ids[i];
        proof {
            let before = ids@.take(i as int);
            let after = ids@.take(i + 1);
            assert(after == before.push(id));
            assert forall|x: NodeId| after.to_set().contains(x) <==> (before.to_set().contains(x) || x
                == id) by {
                if before.to_set().contains(x) {
                    let k = choose|k: int| 0 <= k < before.len() && before[k] == x;
                    assert(after[k] == x);
                }
                if x == id {
                    assert(after[i as int] == x);
                }
                if after.to_set().contains(x) {
                    let k = choose|k: int| 0 <= k < after.len() && after[k] == x;
                    if k < i {
                        assert(before[k] == x);
                    }
                }
            }
        }
        if !res.contains_key(&id) {
            res.insert(id, EmptyNode::new());
        }
        i += 1;
    }
    proof {
        assert(ids@.take(ids@.len() as int) == ids@);
    }
    res
}

impl IntoNodes for () {
    open spec fn spec_nodes(&self) -> Map<NodeId, Node> {
        Map::empty()
    }

    open spec fn spec_has_nodes(&self) -> bool {
        false
    }

    fn has_nodes(&self) -> (r: bool) {
        false
    }

    fn node_ids(&self) -> (r: Vec<NodeId>) {
        let r: Vec<NodeId> = Vec::new();
        assert(r@.to_set() =~= Map::<NodeId, Node>::empty().dom());
        r
    }

    fn into_nodes(self) -> (r: BTreeMap<NodeId, Node>) {
        BTreeMap::new()
    }
}

impl IntoNodes for BTreeSet<NodeId> {
    open spec fn spec_nodes(&self) -> Map<NodeId, Node> {
        default_nodes(self@)
    }

    open spec fn spec_has_nodes(&self) -> bool {
        false
    }

    fn has_nodes(&self) -> (r: bool) {
        false
    }

    fn node_ids(&self) -> (r: Vec<NodeId>) {
        let r = set_to_vec(self);
        assert(r@.to_set() =~= default_nodes(self@).dom());
        r
    }

    fn into_nodes(self) -> (r: BTreeMap<NodeId, Node>) {
        let r = extend_nodes(BTreeMap::new(), &self);
        assert(r@ =~= default_nodes(self@));
        r
    }
}

impl IntoNodes for Option<BTreeSet<NodeId>> {
    open spec fn spec_nodes(&self) -> Map<NodeId, Node> {
        match self {
            None => Map::empty(),
            Some(ids) => default_nodes(ids@),
        }
    }

    open spec fn spec_has_nodes(&self) -> bool {
        true
    }

    fn has_nodes(&self) -> (r: bool) {
        true
    }

    fn node_ids(&self) -> (r: Vec<NodeId>) {
        match self {
            None => {
                let r: Vec<NodeId> = Vec::new();
                assert(r@.to_set() =~= Map::<NodeId, Node>::empty().dom());
                r
            },
            Some(ids) => {
                let r = set_to_vec(ids);
                assert(r@.to_set() =~= default_nodes(ids@).dom());
                r
            },
        }
    }

    fn into_nodes(self) -> (r: BTreeMap<NodeId, Node>) {
        match self {
            None => BTreeMap::new(),
            Some(ids) => {
                let r = extend_nodes(BTreeMap::new(), &ids);
                assert(r@ =~= default_nodes(ids@));
                r
            },
        }
    }
}

impl IntoNodes for BTreeMap<NodeId, Node> {
    open spec fn spec_nodes(&self) -> Map<NodeId, Node> {
        self@
    }

    open spec fn spec_has_nodes(&self) -> bool {
        true
    }

    fn has_nodes(&self) -> (r: bool) {
        true
    }

    fn node_ids(&self) -> (r: Vec<NodeId>) {
        map_keys(self)
    }

    fn into_nodes(self) -> (r: BTreeMap<NodeId, Node>) {
        self
    }
}

} // verus!
