//! Epochs: the layers in which the leaves of a causality tree may run.
//!
//! The leaves of the tree are numbered in order. Every leaf inherits what
//! its ancestors require and what they are required by. A name stands for
//! the leaf that declares it, or for all leaves below the branch that
//! declares it. A leaf waits for every leaf that one of its requirements
//! names, and everything that it is required by waits for it.

use crate::causality::graph::{
    closed_graph, edges_of, has_edge, in_wave, is_wave, layer_nodes, lemma_empty_wave_is_last,
    lemma_cycle_never_settled, lemma_edge_rises, lemma_in_wave_same, lemma_is_wave_same,
    lemma_settled_count_full, lemma_settled_count_same, lemma_settled_in_wave,
    lemma_settled_same, lemma_wave_unique, rows, settled, settled_count,
};
use crate::causality::meta::{CausalityMeta, NodeKey};
use crate::tree::{Tree, TreeShape};
use vstd::prelude::*;

verus! {

/// Why a causality tree has no epochs.
#[derive(Debug)]
pub enum EpochError<NodeId> {
    DuplicateId(NodeId),
    UnknownRequiresRef(NodeId),
    UnknownRequiredByRef(NodeId),
    CycleDetected { remaining: usize },
}

/// A leaf with what it and its ancestors declare.
pub ghost struct LeafSpec<Node, Key> {
    pub node: Option<Node>,
    pub requires: Seq<Key>,
    pub required_by: Seq<Key>,
}

/// A name and the leaves `start..end` that it stands for.
pub ghost struct Declared<Key> {
    pub id: Key,
    pub start: int,
    pub end: int,
}

/// The views of a sequence of ids.
pub open spec fn keys<NodeId: View>(ids: Seq<NodeId>) -> Seq<NodeId::V> {
    Seq::new(ids.len(), |i: int| ids[i]@)
}

/// The number of leaves of a tree.
pub open spec fn leaf_total<Node, NodeId>(
    tree: TreeShape<Option<Node>, CausalityMeta<NodeId>>,
) -> nat
    decreases tree, 0nat,
{
    match tree {
        TreeShape::Leaf { .. } => 1,
        TreeShape::Branch { children, .. } => leaf_total_from(children, 0),
    }
}

/// The number of leaves of the trees from position `k` on.
pub open spec fn leaf_total_from<Node, NodeId>(
    trees: Seq<TreeShape<Option<Node>, CausalityMeta<NodeId>>>,
    k: int,
) -> nat
    decreases trees, trees.len() - k,
{
    if 0 <= k < trees.len() {
        leaf_total(trees[k]) + leaf_total_from(trees, k + 1)
    } else {
        0
    }
}

/// The leaves of a tree in order, each with the requirements of its
/// ancestors before its own.
pub open spec fn collected<Node, NodeId: View>(
    tree: TreeShape<Option<Node>, CausalityMeta<NodeId>>,
    needs: Seq<NodeId::V>,
    needed_by: Seq<NodeId::V>,
) -> Seq<LeafSpec<Node, NodeId::V>>
    decreases tree, 0nat,
{
    match tree {
        TreeShape::Leaf { meta, node } => seq![
            LeafSpec {
                node,
                requires: needs + keys(meta.requires@),
                required_by: needed_by + keys(meta.required_by@),
            },
        ],
        TreeShape::Branch { meta, children } => collected_from(
            children,
            0,
            needs + keys(meta.requires@),
            needed_by + keys(meta.required_by@),
        ),
    }
}

/// The leaves of the trees from position `k` on.
pub open spec fn collected_from<Node, NodeId: View>(
    trees: Seq<TreeShape<Option<Node>, CausalityMeta<NodeId>>>,
    k: int,
    needs: Seq<NodeId::V>,
    needed_by: Seq<NodeId::V>,
) -> Seq<LeafSpec<Node, NodeId::V>>
    decreases trees, trees.len() - k,
{
    if 0 <= k < trees.len() {
        collected(trees[k], needs, needed_by) + collected_from(
            trees,
            k + 1,
            needs,
            needed_by,
        )
    } else {
        Seq::empty()
    }
}

/// The names that a tree declares, a branch before what is below it, each
/// with the leaves it stands for; `base` is the number of the first leaf.
pub open spec fn declared<Node, NodeId: View>(
    tree: TreeShape<Option<Node>, CausalityMeta<NodeId>>,
    base: int,
) -> Seq<Declared<NodeId::V>>
    decreases tree, 0nat,
{
    match tree {
        TreeShape::Leaf { meta, .. } => match meta.id {
            Some(id) => seq![Declared { id: id@, start: base, end: base + 1 }],
            None => Seq::empty(),
        },
        TreeShape::Branch { meta, children } => (match meta.id {
            Some(id) => seq![Declared { id: id@, start: base, end: base + leaf_total(tree) }],
            None => Seq::empty(),
        }) + declared_from(children, 0, base),
    }
}

/// The names that the trees from position `k` on declare.
pub open spec fn declared_from<Node, NodeId: View>(
    trees: Seq<TreeShape<Option<Node>, CausalityMeta<NodeId>>>,
    k: int,
    base: int,
) -> Seq<Declared<NodeId::V>>
    decreases trees, trees.len() - k,
{
    if 0 <= k < trees.len() {
        declared(trees[k], base) + declared_from(trees, k + 1, base + leaf_total(trees[k]))
    } else {
        Seq::empty()
    }
}

/// A tree has as many collected leaves as it has leaves.
pub proof fn lemma_collected_len<Node, NodeId: View>(
    tree: TreeShape<Option<Node>, CausalityMeta<NodeId>>,
    needs: Seq<NodeId::V>,
    needed_by: Seq<NodeId::V>,
)
    ensures
        collected(tree, needs, needed_by).len() == leaf_total(tree),
    decreases tree, 0nat,
{
    match tree {
        TreeShape::Leaf { .. } => {},
        TreeShape::Branch { meta, children } => {
            lemma_collected_from_len(
                children,
                0,
                needs + keys(meta.requires@),
                needed_by + keys(meta.required_by@),
            );
        },
    }
}

/// The trees from position `k` on yield as many collected leaves as they have leaves.
pub proof fn lemma_collected_from_len<Node, NodeId: View>(
    trees: Seq<TreeShape<Option<Node>, CausalityMeta<NodeId>>>,
    k: int,
    needs: Seq<NodeId::V>,
    needed_by: Seq<NodeId::V>,
)
    ensures
        collected_from(trees, k, needs, needed_by).len() == leaf_total_from(trees, k),
    decreases trees, trees.len() - k,
{
    if 0 <= k < trees.len() {
        lemma_collected_len(trees[k], needs, needed_by);
        lemma_collected_from_len(trees, k + 1, needs, needed_by);
    }
}

/// Every name stands for leaves of the tree that declares it.
pub proof fn lemma_declared_range<Node, NodeId: View>(
    tree: TreeShape<Option<Node>, CausalityMeta<NodeId>>,
    base: int,
    d: int,
)
    requires
        0 <= d < declared(tree, base).len(),
    ensures
        base <= declared(tree, base)[d].start <= declared(tree, base)[d].end <= base + leaf_total(
            tree,
        ),
    decreases tree, 0nat,
{
    match tree {
        TreeShape::Leaf { .. } => {},
        TreeShape::Branch { meta, children } => {
            let own = declared(tree, base).len() - declared_from(children, 0, base).len();
            if d >= own {
                lemma_declared_from_range(children, 0, base, d - own);
            }
        },
    }
}

/// Every name declared in the trees from position `k` on stands for a range of their leaves.
pub proof fn lemma_declared_from_range<Node, NodeId: View>(
    trees: Seq<TreeShape<Option<Node>, CausalityMeta<NodeId>>>,
    k: int,
    base: int,
    d: int,
)
    requires
        0 <= d < declared_from(trees, k, base).len(),
    ensures
        base <= declared_from(trees, k, base)[d].start <= declared_from(trees, k, base)[d].end
            <= base + leaf_total_from(trees, k),
    decreases trees, trees.len() - k,
{
    if 0 <= k < trees.len() {
        let first = declared(trees[k], base);
        if d < first.len() {
            lemma_declared_range(trees[k], base, d);
        } else {
            lemma_declared_from_range(trees, k + 1, base + leaf_total(trees[k]), d - first.len());
        }
    }
}

} // verus!

verus! {

/// What a leaf requires and is required by, its ancestors' part included.
pub struct Constraints<NodeId> {
    pub requires: Vec<NodeId>,
    pub required_by: Vec<NodeId>,
}

/// The leaves that were collected, as the contracts speak of them.
pub open spec fn leaf_specs<Node, NodeId: View>(
    nodes: Seq<Option<Node>>,
    constraints: Seq<Constraints<NodeId>>,
) -> Seq<LeafSpec<Node, NodeId::V>> {
    Seq::new(
        nodes.len(),
        |i: int|
            LeafSpec {
                node: nodes[i],
                requires: keys(constraints[i].requires@),
                required_by: keys(constraints[i].required_by@),
            },
    )
}

/// The names that were collected, as the contracts speak of them.
pub open spec fn declared_specs<NodeId: View>(
    names: Seq<NodeId>,
    spans: Seq<(usize, usize)>,
) -> Seq<Declared<NodeId::V>> {
    Seq::new(
        names.len(),
        |i: int| Declared { id: names[i]@, start: spans[i].0 as int, end: spans[i].1 as int },
    )
}

/// What has been collected from the part of a tree walked so far.
pub struct Collection<Node, NodeId> {
    pub nodes: Vec<Option<Node>>,
    pub constraints: Vec<Constraints<NodeId>>,
    pub names: Vec<NodeId>,
    pub spans: Vec<(usize, usize)>,
}

impl<Node, NodeId: NodeKey> Collection<Node, NodeId> {
    /// Every leaf has its constraints and every name its leaves.
    pub open spec fn consistent(&self) -> bool {
        &&& self.nodes.len() == self.constraints.len()
        &&& self.names.len() == self.spans.len()
    }

    /// The leaves collected so far.
    pub open spec fn leaves(&self) -> Seq<LeafSpec<Node, NodeId::V>> {
        leaf_specs(self.nodes@, self.constraints@)
    }

    /// The names collected so far.
    pub open spec fn declarations(&self) -> Seq<Declared<NodeId::V>> {
        declared_specs(self.names@, self.spans@)
    }
}

/// Copies of `ids` followed by `own`.
fn inherit<NodeId: NodeKey>(ids: &Vec<NodeId>, own: Vec<NodeId>) -> (all: Vec<NodeId>)
    ensures
        keys(all@) == keys(ids@) + keys(own@),
{
    let mut all: Vec<NodeId> = Vec::new();
    let mut i: usize = 0;
    while i < ids.len()
        invariant
            i <= ids.len(),
            keys(all@) == keys(ids@).subrange(0, i as int),
        decreases ids.len() - i,
    {
        let ghost before = keys(all@);
        all.push(ids[i].duplicate());
        assert(keys(all@) =~= before.push(ids[i as int]@));
        assert(keys(all@) =~= keys(ids@).subrange(0, i + 1));
        i += 1;
    }
    assert(keys(all@) =~= keys(ids@));
    let ghost own_keys = keys(own@);
    let ghost firsts = keys(ids@);
    let ghost rest = own@;
    for id in it: own
        invariant
            it.seq() == rest,
            own_keys == keys(rest),
            keys(all@) == firsts + own_keys.subrange(0, it.index() as int),
    {
        let ghost before = keys(all@);
        assert(id == rest[it.index() as int]);
        all.push(id);
        assert(keys(all@) =~= before.push(id@));
        assert(keys(all@) =~= firsts + own_keys.subrange(0, it.index() + 1));
    }
    assert(keys(all@) =~= firsts + own_keys);
    all
}

/// Puts `own` on top of `stack`.
fn stack_up<NodeId: NodeKey>(stack: &mut Vec<NodeId>, own: Vec<NodeId>)
    ensures
        keys(final(stack)@) == keys(old(stack)@) + keys(own@),
        final(stack).len() == old(stack).len() + own.len(),
{
    let ghost own_keys = keys(own@);
    let ghost firsts = keys(stack@);
    let ghost rest = own@;
    let ghost depth = stack.len();
    assert(keys(stack@) =~= firsts + own_keys.subrange(0, 0));
    for id in it: own
        invariant
            it.seq() == rest,
            own_keys == keys(rest),
            stack.len() == depth + it.index(),
            keys(stack@) == firsts + own_keys.subrange(0, it.index() as int),
    {
        let ghost before = keys(stack@);
        assert(id == rest[it.index() as int]);
        stack.push(id);
        assert(keys(stack@) =~= before.push(id@));
        assert(keys(stack@) =~= firsts + own_keys.subrange(0, it.index() + 1));
    }
    assert(keys(stack@) =~= firsts + own_keys);
}

/// Walks `tree` and adds its leaves and names to what has been collected.
/// `needs` and `needed_by` hold what the ancestors declare; both are as
/// before when the walk returns.
pub fn collect<Node, NodeId: NodeKey>(
    tree: Tree<Option<Node>, CausalityMeta<NodeId>>,
    needs: &mut Vec<NodeId>,
    needed_by: &mut Vec<NodeId>,
    found: &mut Collection<Node, NodeId>,
)
    requires
        old(found).consistent(),
    ensures
        final(found).consistent(),
        keys(final(needs)@) == keys(old(needs)@),
        keys(final(needed_by)@) == keys(old(needed_by)@),
        final(found).leaves() == old(found).leaves() + collected(
            tree@,
            keys(old(needs)@),
            keys(old(needed_by)@),
        ),
        final(found).declarations() == old(found).declarations() + declared(
            tree@,
            old(found).nodes.len() as int,
        ),
    decreases tree,
{
    let ghost leaves_before = found.leaves();
    let ghost names_before = found.declarations();
    let ghost base = found.nodes.len() as int;
    let ghost up = keys(needs@);
    let ghost down = keys(needed_by@);
    match tree {
        Tree::Leaf { node, meta } => {
            let CausalityMeta { id, requires: own_needs, required_by: own_needed_by } = meta;
            let all_needs = inherit(needs, own_needs);
            let all_needed_by = inherit(needed_by, own_needed_by);
            let index = found.nodes.len();
            found.nodes.push(node);
            found.constraints.push(
                Constraints { requires: all_needs, required_by: all_needed_by },
            );
            assert(found.leaves() =~= leaves_before + collected(tree@, up, down));
            match id {
                Some(id) => {
                    found.names.push(id);
                    found.spans.push((index, found.nodes.len()));
                    assert(found.declarations() =~= names_before + declared(tree@, base));
                },
                None => {
                    assert(found.declarations() =~= names_before + declared(tree@, base));
                },
            }
        },
        Tree::Branch { children, meta } => {
            let CausalityMeta { id, requires: own_needs, required_by: own_needed_by } = meta;
            let needs_depth = needs.len();
            let needed_by_depth = needed_by.len();
            stack_up(needs, own_needs);
            stack_up(needed_by, own_needed_by);
            let start = found.nodes.len();
            let slot = found.names.len();
            let named = id.is_some();
            match id {
                Some(id) => {
                    found.names.push(id);
                    found.spans.push((start, start));
                },
                None => {},
            }
            let ghost kids = children@;
            let ghost kid_shapes = tree@->Branch_children;
            let ghost below = keys(needs@);
            let ghost above = keys(needed_by@);
            let ghost all_leaves = collected_from(kid_shapes, 0, below, above);
            let ghost all_names = declared_from(kid_shapes, 0, base);
            let ghost names_here = found.declarations();
            assert(found.leaves() =~= leaves_before);
            assert(below.subrange(0, needs_depth as int) =~= up);
            assert(above.subrange(0, needed_by_depth as int) =~= down);
            for child in it: children
                invariant
                    it.seq() == kids,
                    below.subrange(0, needs_depth as int) == up,
                    above.subrange(0, needed_by_depth as int) == down,
                    tree matches Tree::Branch { children: c, .. } && c@ == kids,
                    kid_shapes == tree@->Branch_children,
                    kid_shapes.len() == kids.len(),
                    found.consistent(),
                    keys(needs@) == below,
                    keys(needed_by@) == above,
                    needs.len() >= needs_depth,
                    needed_by.len() >= needed_by_depth,
                    named ==> slot < found.names.len(),
                    named ==> names_here.len() == slot + 1,
                    found.leaves() + collected_from(kid_shapes, it.index() as int, below, above)
                        == leaves_before + all_leaves,
                    found.declarations() + declared_from(
                        kid_shapes,
                        it.index() as int,
                        found.nodes.len() as int,
                    ) == names_here + all_names,
            {
                let ghost k = it.index() as int;
                let ghost leaves_here = found.leaves();
                let ghost declared_here = found.declarations();
                let ghost here = found.nodes.len() as int;
                assert(child == kids[k]);
                assert(kid_shapes[k] == child@);
                collect(child, needs, needed_by, found);
                proof {
                    lemma_collected_len(child@, below, above);
                    assert(found.leaves().len() == found.nodes.len());
                    assert(leaves_here.len() == here);
                    assert(found.nodes.len() == here + leaf_total(child@));
                    assert(found.leaves() + collected_from(kid_shapes, k + 1, below, above)
                        =~= leaves_here + collected_from(kid_shapes, k, below, above));
                    assert(found.declarations() + declared_from(
                        kid_shapes,
                        k + 1,
                        found.nodes.len() as int,
                    ) =~= declared_here + declared_from(kid_shapes, k, here));
                }
            }
            needs.truncate(needs_depth);
            needed_by.truncate(needed_by_depth);
            assert(keys(needs@) =~= below.subrange(0, needs_depth as int));
            assert(keys(needed_by@) =~= above.subrange(0, needed_by_depth as int));
            assert(found.leaves() =~= leaves_before + collected(tree@, up, down));
            if named {
                let ghost unfinished = found.declarations();
                assert(unfinished =~= names_here + all_names);
                found.spans[slot] = (start, found.nodes.len());
                proof {
                    lemma_collected_from_len(kid_shapes, 0, below, above);
                    assert(found.leaves().len() == found.nodes.len());
                    assert(leaves_before.len() == base);
                    assert(found.nodes.len() == base + leaf_total(tree@));
                    let own = Declared {
                        id: names_here[slot as int].id,
                        start: base,
                        end: base + leaf_total(tree@),
                    };
                    assert(names_before.len() == slot);
                    assert(unfinished[slot as int] == names_here[slot as int]);
                    assert(found.declarations()[slot as int] == own);
                    assert(found.declarations() =~= unfinished.update(slot as int, own));
                    assert(tree@->Branch_meta.id is Some);
                    assert(tree@->Branch_meta.id->0@ == names_here[slot as int].id);
                    assert(declared(tree@, base) =~= seq![own] + all_names);
                    assert(found.declarations() =~= names_before + declared(tree@, base));
                }
            } else {
                assert(found.declarations() =~= names_before + declared(tree@, base));
            }
        },
    }
}

} // verus!

verus! {

/// The names alone.
pub open spec fn ids_of<Key>(names: Seq<Declared<Key>>) -> Seq<Key> {
    Seq::new(names.len(), |d: int| names[d].id)
}

/// The name at position `j` was declared before.
pub open spec fn repeats<Key>(ids: Seq<Key>, j: int) -> bool {
    exists|i: int| 0 <= i < j && #[trigger] ids[i] == ids[j]
}

/// No name is declared twice.
pub open spec fn distinct<Key>(ids: Seq<Key>) -> bool {
    forall|j: int| 0 <= j < ids.len() ==> !repeats(ids, j)
}

/// Some node declares `key`.
pub open spec fn is_declared<Key>(names: Seq<Declared<Key>>, key: Key) -> bool {
    exists|d: int| 0 <= d < names.len() && (#[trigger] names[d]).id == key
}

/// `key` stands for the leaf `leaf`, alone or among others.
pub open spec fn names_leaf<Key>(names: Seq<Declared<Key>>, key: Key, leaf: int) -> bool {
    exists|d: int|
        0 <= d < names.len() && (#[trigger] names[d]).id == key && names[d].start <= leaf
            < names[d].end
}

/// One of the first `upto` requirements of leaf `v` names leaf `u`.
pub open spec fn needs_leaf<Node, Key>(
    leaves: Seq<LeafSpec<Node, Key>>,
    names: Seq<Declared<Key>>,
    u: int,
    v: int,
    upto: int,
) -> bool {
    exists|p: int| 0 <= p < upto && names_leaf(names, #[trigger] leaves[v].requires[p], u)
}

/// One of the first `upto` names that leaf `u` is required by names leaf `v`.
pub open spec fn needed_by_leaf<Node, Key>(
    leaves: Seq<LeafSpec<Node, Key>>,
    names: Seq<Declared<Key>>,
    u: int,
    v: int,
    upto: int,
) -> bool {
    exists|p: int| 0 <= p < upto && names_leaf(names, #[trigger] leaves[u].required_by[p], v)
}

/// Leaf `v` must wait for leaf `u`: `v` requires a name that stands for `u`,
/// or `u` is required by a name that stands for `v`.
pub open spec fn waits_for<Node, Key>(
    leaves: Seq<LeafSpec<Node, Key>>,
    names: Seq<Declared<Key>>,
    u: int,
    v: int,
) -> bool {
    &&& 0 <= u < leaves.len()
    &&& 0 <= v < leaves.len()
    &&& (needs_leaf(leaves, names, u, v, leaves[v].requires.len() as int) || needed_by_leaf(
        leaves,
        names,
        u,
        v,
        leaves[u].required_by.len() as int,
    ))
}

/// The relation "must wait for" among the leaves.
pub open spec fn waits<Node, Key>(
    leaves: Seq<LeafSpec<Node, Key>>,
    names: Seq<Declared<Key>>,
) -> spec_fn(int, int) -> bool {
    |u: int, v: int| waits_for(leaves, names, u, v)
}

/// The first `upto` requirements of leaf `i` are declared.
pub open spec fn needs_known<Node, Key>(
    leaves: Seq<LeafSpec<Node, Key>>,
    names: Seq<Declared<Key>>,
    i: int,
    upto: int,
) -> bool {
    forall|p: int| 0 <= p < upto ==> is_declared(names, #[trigger] leaves[i].requires[p])
}

/// The first `upto` names that leaf `i` is required by are declared.
pub open spec fn needed_by_known<Node, Key>(
    leaves: Seq<LeafSpec<Node, Key>>,
    names: Seq<Declared<Key>>,
    i: int,
    upto: int,
) -> bool {
    forall|p: int| 0 <= p < upto ==> is_declared(names, #[trigger] leaves[i].required_by[p])
}

/// Every name that one of the first `upto` leaves refers to is declared.
pub open spec fn all_known<Node, Key>(
    leaves: Seq<LeafSpec<Node, Key>>,
    names: Seq<Declared<Key>>,
    upto: int,
) -> bool {
    forall|i: int|
        0 <= i < upto ==> #[trigger] needs_known(
            leaves,
            names,
            i,
            leaves[i].requires.len() as int,
        ) && needed_by_known(leaves, names, i, leaves[i].required_by.len() as int)
}

/// The position of the first name that was declared before, if there is one.
fn find_repeat<NodeId: NodeKey>(names: &Vec<NodeId>) -> (found: Option<usize>)
    ensures
        match found {
            Some(j) => j < names.len() && repeats(keys(names@), j as int) && forall|i: int|
                0 <= i < j ==> !repeats(keys(names@), i),
            None => distinct(keys(names@)),
        },
{
    let ghost ids = keys(names@);
    let mut j: usize = 0;
    while j < names.len()
        invariant
            j <= names.len(),
            ids == keys(names@),
            forall|i: int| 0 <= i < j ==> !repeats(ids, i),
        decreases names.len() - j,
    {
        let mut i: usize = 0;
        while i < j
            invariant
                i <= j < names.len(),
                ids == keys(names@),
                forall|e: int| 0 <= e < j ==> !repeats(ids, e),
                forall|e: int| 0 <= e < i ==> #[trigger] ids[e] != ids[j as int],
            decreases j - i,
        {
            if names[i].same_as(&names[j]) {
                assert(ids[i as int] == ids[j as int]);
                return Some(j);
            }
            i += 1;
        }
        j += 1;
    }
    None
}

/// The position at which `id` is declared, if it is.
fn find_declared<NodeId: NodeKey>(names: &Vec<NodeId>, id: &NodeId) -> (found: Option<usize>)
    ensures
        match found {
            Some(d) => d < names.len() && names[d as int]@ == id@,
            None => forall|d: int| 0 <= d < names.len() ==> (#[trigger] names[d])@ != id@,
        },
{
    let mut d: usize = 0;
    while d < names.len()
        invariant
            d <= names.len(),
            forall|e: int| 0 <= e < d ==> (#[trigger] names[e])@ != id@,
        decreases names.len() - d,
    {
        if names[d].same_as(id) {
            return Some(d);
        }
        d += 1;
    }
    None
}

/// Adds the edge `from -> to`.
fn add_edge(out: &mut Vec<Vec<usize>>, from: usize, to: usize)
    requires
        from < old(out).len(),
        to < old(out).len(),
        closed_graph(rows(old(out)@)),
    ensures
        final(out).len() == old(out).len(),
        closed_graph(rows(final(out)@)),
        forall|u: int, v: int|
            #![trigger has_edge(rows(final(out)@), u, v)]
            has_edge(rows(final(out)@), u, v) == (has_edge(rows(old(out)@), u, v) || (u == from
                && v == to)),
{
    let ghost before = rows(out@);
    out[from].push(to);
    proof {
        let after = rows(out@);
        assert(after =~= before.update(from as int, before[from as int].push(to)));
        assert forall|u: int, t: int| 0 <= u < after.len() && 0 <= t < after[u].len() implies (
        #[trigger] after[u][t]) < after.len() by {
            if u == from && t == before[from as int].len() {
            } else {
                assert(after[u][t] == before[u][t]);
            }
        }
        assert forall|u: int, v: int| #![trigger has_edge(after, u, v)]
            has_edge(after, u, v) == (has_edge(before, u, v) || (u == from && v == to)) by {
            if has_edge(before, u, v) {
                let t = choose|t: int| 0 <= t < before[u].len() && #[trigger] before[u][t] == v;
                assert(after[u][t] == v);
            }
            if u == from && v == to {
                assert(after[u][before[from as int].len() as int] == v);
            }
            if has_edge(after, u, v) {
                let t = choose|t: int| 0 <= t < after[u].len() && #[trigger] after[u][t] == v;
                if !(u == from && t == before[from as int].len()) {
                    assert(before[u][t] == v);
                }
            }
        }
    }
}

/// Adds an edge from every node of `start..end` to `to`.
fn add_edges_from(out: &mut Vec<Vec<usize>>, start: usize, end: usize, to: usize)
    requires
        end <= old(out).len(),
        to < old(out).len(),
        closed_graph(rows(old(out)@)),
    ensures
        final(out).len() == old(out).len(),
        closed_graph(rows(final(out)@)),
        forall|u: int, v: int|
            #![trigger has_edge(rows(final(out)@), u, v)]
            has_edge(rows(final(out)@), u, v) == (has_edge(rows(old(out)@), u, v) || (start <= u
                < end && v == to)),
{
    let ghost before = rows(out@);
    let mut j = start;
    while j < end
        invariant
            end <= out.len(),
            to < out.len(),
            start <= j,
            j <= end || j == start,
            out.len() == before.len(),
            closed_graph(rows(out@)),
            forall|u: int, v: int|
                #![trigger has_edge(rows(out@), u, v)]
                has_edge(rows(out@), u, v) == (has_edge(before, u, v) || (start <= u < j && v
                    == to)),
        decreases end - j,
    {
        let ghost here = rows(out@);
        add_edge(out, j, to);
        proof {
            let after = rows(out@);
            assert forall|u: int, v: int| #![trigger has_edge(after, u, v)]
                has_edge(after, u, v) == (has_edge(before, u, v) || (start <= u < j + 1 && v
                    == to)) by {
                assert(has_edge(after, u, v) == (has_edge(here, u, v) || (u == j && v == to)));
                assert(has_edge(here, u, v) == (has_edge(before, u, v) || (start <= u < j && v
                    == to)));
            }
        }
        j += 1;
    }
}

/// Adds an edge from `from` to every node of `start..end`.
fn add_edges_to(out: &mut Vec<Vec<usize>>, from: usize, start: usize, end: usize)
    requires
        end <= old(out).len(),
        from < old(out).len(),
        closed_graph(rows(old(out)@)),
    ensures
        final(out).len() == old(out).len(),
        closed_graph(rows(final(out)@)),
        forall|u: int, v: int|
            #![trigger has_edge(rows(final(out)@), u, v)]
            has_edge(rows(final(out)@), u, v) == (has_edge(rows(old(out)@), u, v) || (u == from
                && start <= v < end)),
{
    let ghost before = rows(out@);
    let mut j = start;
    while j < end
        invariant
            end <= out.len(),
            from < out.len(),
            start <= j,
            j <= end || j == start,
            out.len() == before.len(),
            closed_graph(rows(out@)),
            forall|u: int, v: int|
                #![trigger has_edge(rows(out@), u, v)]
                has_edge(rows(out@), u, v) == (has_edge(before, u, v) || (u == from && start <= v
                    < j)),
        decreases end - j,
    {
        let ghost here = rows(out@);
        add_edge(out, from, j);
        proof {
            let after = rows(out@);
            assert forall|u: int, v: int| #![trigger has_edge(after, u, v)]
                has_edge(after, u, v) == (has_edge(before, u, v) || (u == from && start <= v < j
                    + 1)) by {
                assert(has_edge(after, u, v) == (has_edge(here, u, v) || (u == from && v == j)));
                assert(has_edge(here, u, v) == (has_edge(before, u, v) || (u == from && start
                    <= v < j)));
            }
        }
        j += 1;
    }
}

} // verus!

verus! {

/// Every name stands for leaves among the first `n`.
pub open spec fn spans_within<Key>(names: Seq<Declared<Key>>, n: int) -> bool {
    forall|d: int| 0 <= d < names.len() ==> 0 <= (#[trigger] names[d]).start <= names[d].end <= n
}

/// Equal names stand at one position when no name is declared twice.
pub proof fn lemma_distinct_position<Key>(names: Seq<Declared<Key>>, a: int, b: int)
    requires
        distinct(ids_of(names)),
        0 <= a < names.len(),
        0 <= b < names.len(),
        names[a].id == names[b].id,
    ensures
        a == b,
{
    let ids = ids_of(names);
    if a < b {
        assert(ids[a] == ids[b]);
        assert(repeats(ids, b));
    } else if b < a {
        assert(ids[b] == ids[a]);
        assert(repeats(ids, a));
    }
}

/// The graph holds the edges that the first `upto` leaves ask for.
pub open spec fn wired_upto<Node, Key>(
    leaves: Seq<LeafSpec<Node, Key>>,
    names: Seq<Declared<Key>>,
    out: Seq<Seq<usize>>,
    upto: int,
) -> bool {
    forall|u: int, v: int|
        #![trigger has_edge(out, u, v)]
        has_edge(out, u, v) == (0 <= u < leaves.len() && 0 <= v < leaves.len() && ((v < upto
            && needs_leaf(leaves, names, u, v, leaves[v].requires.len() as int)) || (u < upto
            && needed_by_leaf(leaves, names, u, v, leaves[u].required_by.len() as int))))
}

/// Adds the edges that the requirements of leaf `i` ask for. Returns the
/// position of the first requirement that no node declares, if there is one.
fn wire_needs<Node, NodeId: NodeKey>(
    out: &mut Vec<Vec<usize>>,
    found: &Collection<Node, NodeId>,
    i: usize,
) -> (unknown: Option<usize>)
    requires
        found.consistent(),
        distinct(ids_of(found.declarations())),
        spans_within(found.declarations(), found.nodes.len() as int),
        i < found.nodes.len(),
        old(out).len() == found.nodes.len(),
        closed_graph(rows(old(out)@)),
    ensures
        final(out).len() == old(out).len(),
        closed_graph(rows(final(out)@)),
        match unknown {
            None => {
                &&& needs_known(
                    found.leaves(),
                    found.declarations(),
                    i as int,
                    found.leaves()[i as int].requires.len() as int,
                )
                &&& forall|u: int, v: int|
                    #![trigger has_edge(rows(final(out)@), u, v)]
                    has_edge(rows(final(out)@), u, v) == (has_edge(rows(old(out)@), u, v) || (v
                        == i && needs_leaf(
                        found.leaves(),
                        found.declarations(),
                        u,
                        i as int,
                        found.leaves()[i as int].requires.len() as int,
                    )))
            },
            Some(p) => {
                &&& p < found.constraints[i as int].requires.len()
                &&& needs_known(found.leaves(), found.declarations(), i as int, p as int)
                &&& !is_declared(found.declarations(), found.constraints[i as int].requires[p as int]@)
            },
        },
{
    let ghost leaves = found.leaves();
    let ghost names = found.declarations();
    let ghost before = rows(out@);
    let ghost n = found.nodes.len() as int;
    let wanted = &found.constraints[i].requires;
    assert(leaves[i as int].requires == keys(wanted@));
    let mut p: usize = 0;
    while p < wanted.len()
        invariant
            p <= wanted.len(),
            found.consistent(),
            leaves == found.leaves(),
            names == found.declarations(),
            n == found.nodes.len(),
            distinct(ids_of(names)),
            spans_within(names, n),
            i < n,
            out.len() == n,
            old(out).len() == n,
            closed_graph(rows(out@)),
            wanted == found.constraints[i as int].requires,
            leaves[i as int].requires == keys(wanted@),
            needs_known(leaves, names, i as int, p as int),
            forall|u: int, v: int|
                #![trigger has_edge(rows(out@), u, v)]
                has_edge(rows(out@), u, v) == (has_edge(before, u, v) || (v == i && needs_leaf(
                    leaves,
                    names,
                    u,
                    i as int,
                    p as int,
                ))),
        decreases wanted.len() - p,
    {
        let ghost key = wanted[p as int]@;
        assert(leaves[i as int].requires[p as int] == key);
        match find_declared(&found.names, &wanted[p]) {
            None => {
                proof {
                    if is_declared(names, key) {
                        let d = choose|d: int| 0 <= d < names.len() && (#[trigger] names[d]).id == key;
                        assert(found.names[d]@ == key);
                    }
                }
                return Some(p);
            },
            Some(d) => {
                let (start, end) = found.spans[d];
                let ghost here = rows(out@);
                assert(names[d as int].id == key);
                assert(0 <= names[d as int].start <= names[d as int].end <= n);
                add_edges_from(out, start, end, i);
                proof {
                    let after = rows(out@);
                    assert(is_declared(names, key));
                    assert forall|u: int| names_leaf(names, key, u) == (start <= u < end) by {
                        if names_leaf(names, key, u) {
                            let e = choose|e: int|
                                0 <= e < names.len() && (#[trigger] names[e]).id == key
                                    && names[e].start <= u < names[e].end;
                            lemma_distinct_position(names, e, d as int);
                        }
                        if start <= u < end {
                            assert(names[d as int].start <= u < names[d as int].end);
                        }
                    }
                    assert forall|u: int|
                        needs_leaf(leaves, names, u, i as int, p + 1) == (needs_leaf(
                            leaves,
                            names,
                            u,
                            i as int,
                            p as int,
                        ) || names_leaf(names, key, u)) by {
                        if needs_leaf(leaves, names, u, i as int, p + 1) {
                            let q = choose|q: int|
                                0 <= q < p + 1 && names_leaf(
                                    names,
                                    #[trigger] leaves[i as int].requires[q],
                                    u,
                                );
                            if q < p {
                                assert(needs_leaf(leaves, names, u, i as int, p as int));
                            }
                        }
                        if needs_leaf(leaves, names, u, i as int, p as int) {
                            let q = choose|q: int|
                                0 <= q < p && names_leaf(
                                    names,
                                    #[trigger] leaves[i as int].requires[q],
                                    u,
                                );
                            assert(0 <= q < p + 1);
                        }
                        if names_leaf(names, key, u) {
                            assert(names_leaf(names, leaves[i as int].requires[p as int], u));
                        }
                    }
                    assert forall|u: int, v: int|
                        #![trigger has_edge(after, u, v)]
                        has_edge(after, u, v) == (has_edge(before, u, v) || (v == i && needs_leaf(
                            leaves,
                            names,
                            u,
                            i as int,
                            p + 1,
                        ))) by {
                        assert(has_edge(after, u, v) == (has_edge(here, u, v) || (start <= u < end
                            && v == i)));
                        assert(has_edge(here, u, v) == (has_edge(before, u, v) || (v == i
                            && needs_leaf(leaves, names, u, i as int, p as int))));
                    }
                    assert forall|q: int| 0 <= q < p + 1 implies is_declared(
                        names,
                        #[trigger] leaves[i as int].requires[q],
                    ) by {}
                }
            },
        }
        p += 1;
    }
    None
}

/// Adds the edges that the names which leaf `i` is required by ask for.
/// Returns the position of the first of them that no node declares, if
/// there is one.
fn wire_needed_by<Node, NodeId: NodeKey>(
    out: &mut Vec<Vec<usize>>,
    found: &Collection<Node, NodeId>,
    i: usize,
) -> (unknown: Option<usize>)
    requires
        found.consistent(),
        distinct(ids_of(found.declarations())),
        spans_within(found.declarations(), found.nodes.len() as int),
        i < found.nodes.len(),
        old(out).len() == found.nodes.len(),
        closed_graph(rows(old(out)@)),
    ensures
        final(out).len() == old(out).len(),
        closed_graph(rows(final(out)@)),
        match unknown {
            None => {
                &&& needed_by_known(
                    found.leaves(),
                    found.declarations(),
                    i as int,
                    found.leaves()[i as int].required_by.len() as int,
                )
                &&& forall|u: int, v: int|
                    #![trigger has_edge(rows(final(out)@), u, v)]
                    has_edge(rows(final(out)@), u, v) == (has_edge(rows(old(out)@), u, v) || (u
                        == i && needed_by_leaf(
                        found.leaves(),
                        found.declarations(),
                        i as int,
                        v,
                        found.leaves()[i as int].required_by.len() as int,
                    )))
            },
            Some(p) => {
                &&& p < found.constraints[i as int].required_by.len()
                &&& needed_by_known(found.leaves(), found.declarations(), i as int, p as int)
                &&& !is_declared(
                    found.declarations(),
                    found.constraints[i as int].required_by[p as int]@,
                )
            },
        },
{
    let ghost leaves = found.leaves();
    let ghost names = found.declarations();
    let ghost before = rows(out@);
    let ghost n = found.nodes.len() as int;
    let wanted = &found.constraints[i].required_by;
    assert(leaves[i as int].required_by == keys(wanted@));
    let mut p: usize = 0;
    while p < wanted.len()
        invariant
            p <= wanted.len(),
            found.consistent(),
            leaves == found.leaves(),
            names == found.declarations(),
            n == found.nodes.len(),
            distinct(ids_of(names)),
            spans_within(names, n),
            i < n,
            out.len() == n,
            old(out).len() == n,
            closed_graph(rows(out@)),
            wanted == found.constraints[i as int].required_by,
            leaves[i as int].required_by == keys(wanted@),
            needed_by_known(leaves, names, i as int, p as int),
            forall|u: int, v: int|
                #![trigger has_edge(rows(out@), u, v)]
                has_edge(rows(out@), u, v) == (has_edge(before, u, v) || (u == i
                    && needed_by_leaf(leaves, names, i as int, v, p as int))),
        decreases wanted.len() - p,
    {
        let ghost key = wanted[p as int]@;
        assert(leaves[i as int].required_by[p as int] == key);
        match find_declared(&found.names, &wanted[p]) {
            None => {
                proof {
                    if is_declared(names, key) {
                        let d = choose|d: int| 0 <= d < names.len() && (#[trigger] names[d]).id == key;
                        assert(found.names[d]@ == key);
                    }
                }
                return Some(p);
            },
            Some(d) => {
                let (start, end) = found.spans[d];
                let ghost here = rows(out@);
                assert(names[d as int].id == key);
                assert(0 <= names[d as int].start <= names[d as int].end <= n);
                add_edges_to(out, i, start, end);
                proof {
                    let after = rows(out@);
                    assert(is_declared(names, key));
                    assert forall|v: int| names_leaf(names, key, v) == (start <= v < end) by {
                        if names_leaf(names, key, v) {
                            let e = choose|e: int|
                                0 <= e < names.len() && (#[trigger] names[e]).id == key
                                    && names[e].start <= v < names[e].end;
                            lemma_distinct_position(names, e, d as int);
                        }
                        if start <= v < end {
                            assert(names[d as int].start <= v < names[d as int].end);
                        }
                    }
                    assert forall|v: int|
                        needed_by_leaf(leaves, names, i as int, v, p + 1) == (needed_by_leaf(
                            leaves,
                            names,
                            i as int,
                            v,
                            p as int,
                        ) || names_leaf(names, key, v)) by {
                        if needed_by_leaf(leaves, names, i as int, v, p + 1) {
                            let q = choose|q: int|
                                0 <= q < p + 1 && names_leaf(
                                    names,
                                    #[trigger] leaves[i as int].required_by[q],
                                    v,
                                );
                            if q < p {
                                assert(needed_by_leaf(leaves, names, i as int, v, p as int));
                            }
                        }
                        if needed_by_leaf(leaves, names, i as int, v, p as int) {
                            let q = choose|q: int|
                                0 <= q < p && names_leaf(
                                    names,
                                    #[trigger] leaves[i as int].required_by[q],
                                    v,
                                );
                            assert(0 <= q < p + 1);
                        }
                        if names_leaf(names, key, v) {
                            assert(names_leaf(names, leaves[i as int].required_by[p as int], v));
                        }
                    }
                    assert forall|u: int, v: int|
                        #![trigger has_edge(after, u, v)]
                        has_edge(after, u, v) == (has_edge(before, u, v) || (u == i
                            && needed_by_leaf(leaves, names, i as int, v, p + 1))) by {
                        assert(has_edge(after, u, v) == (has_edge(here, u, v) || (u == i && start
                            <= v < end)));
                        assert(has_edge(here, u, v) == (has_edge(before, u, v) || (u == i
                            && needed_by_leaf(leaves, names, i as int, v, p as int))));
                    }
                    assert forall|q: int| 0 <= q < p + 1 implies is_declared(
                        names,
                        #[trigger] leaves[i as int].required_by[q],
                    ) by {}
                }
            },
        }
        p += 1;
    }
    None
}

} // verus!

verus! {

/// `key` is the first name in the order of declaration that was declared before.
pub open spec fn first_repeat<Key>(ids: Seq<Key>, key: Key) -> bool {
    exists|j: int|
        0 <= j < ids.len() && #[trigger] repeats(ids, j) && ids[j] == key && forall|i: int|
            0 <= i < j ==> !repeats(ids, i)
}

/// `key` is the first reference that no node declares, and it is a
/// requirement: the leaves come in order, and with each leaf its
/// requirements before the names it is required by.
pub open spec fn first_unknown_need<Node, Key>(
    leaves: Seq<LeafSpec<Node, Key>>,
    names: Seq<Declared<Key>>,
    key: Key,
) -> bool {
    exists|i: int, p: int|
        0 <= i < leaves.len() && all_known(leaves, names, i) && 0 <= p
            < leaves[i].requires.len() && #[trigger] needs_known(leaves, names, i, p)
            && leaves[i].requires[p] == key && !is_declared(names, key)
}

/// `key` is the first reference that no node declares, and it is a name
/// that a leaf is required by.
pub open spec fn first_unknown_needed_by<Node, Key>(
    leaves: Seq<LeafSpec<Node, Key>>,
    names: Seq<Declared<Key>>,
    key: Key,
) -> bool {
    exists|i: int, p: int|
        0 <= i < leaves.len() && all_known(leaves, names, i) && needs_known(
            leaves,
            names,
            i,
            leaves[i].requires.len() as int,
        ) && 0 <= p < leaves[i].required_by.len() && #[trigger] needed_by_known(
            leaves,
            names,
            i,
            p,
        ) && leaves[i].required_by[p] == key && !is_declared(names, key)
}

/// Builds the graph of the leaves: an edge `u -> v` where `v` must wait for `u`.
fn wire<Node, NodeId: NodeKey>(found: &Collection<Node, NodeId>) -> (wired: Result<
    Vec<Vec<usize>>,
    EpochError<NodeId>,
>)
    requires
        found.consistent(),
        distinct(ids_of(found.declarations())),
        spans_within(found.declarations(), found.nodes.len() as int),
    ensures
        match wired {
            Ok(out) => {
                &&& out.len() == found.nodes.len()
                &&& closed_graph(rows(out@))
                &&& all_known(found.leaves(), found.declarations(), found.nodes.len() as int)
                &&& forall|u: int, v: int|
                    #![trigger has_edge(rows(out@), u, v)]
                    has_edge(rows(out@), u, v) == waits_for(
                        found.leaves(),
                        found.declarations(),
                        u,
                        v,
                    )
            },
            Err(EpochError::UnknownRequiresRef(id)) => first_unknown_need(
                found.leaves(),
                found.declarations(),
                id@,
            ),
            Err(EpochError::UnknownRequiredByRef(id)) => first_unknown_needed_by(
                found.leaves(),
                found.declarations(),
                id@,
            ),
            Err(_) => false,
        },
{
    let n = found.nodes.len();
    let ghost leaves = found.leaves();
    let ghost names = found.declarations();
    let mut out: Vec<Vec<usize>> = Vec::new();
    while out.len() < n
        invariant
            out.len() <= n,
            forall|u: int| 0 <= u < out.len() ==> (#[trigger] out[u]).len() == 0,
        decreases n - out.len(),
    {
        out.push(Vec::new());
    }
    assert(wired_upto(leaves, names, rows(out@), 0)) by {
        assert forall|u: int, v: int| !has_edge(rows(out@), u, v) by {}
    }
    let mut i: usize = 0;
    while i < n
        invariant
            i <= n,
            n == found.nodes.len(),
            found.consistent(),
            leaves == found.leaves(),
            names == found.declarations(),
            distinct(ids_of(names)),
            spans_within(names, n as int),
            out.len() == n,
            closed_graph(rows(out@)),
            all_known(leaves, names, i as int),
            wired_upto(leaves, names, rows(out@), i as int),
        decreases n - i,
    {
        let ghost start = rows(out@);
        match wire_needs(&mut out, found, i) {
            Some(p) => {
                let id = found.constraints[i].requires[p].duplicate();
                assert(leaves[i as int].requires[p as int] == id@);
                assert(needs_known(leaves, names, i as int, p as int));
                return Err(EpochError::UnknownRequiresRef(id));
            },
            None => {},
        }
        let ghost middle = rows(out@);
        match wire_needed_by(&mut out, found, i) {
            Some(p) => {
                let id = found.constraints[i].required_by[p].duplicate();
                assert(leaves[i as int].required_by[p as int] == id@);
                assert(needed_by_known(leaves, names, i as int, p as int));
                return Err(EpochError::UnknownRequiredByRef(id));
            },
            None => {},
        }
        proof {
            let end = rows(out@);
            assert(needs_known(leaves, names, i as int, leaves[i as int].requires.len() as int));
            assert(needed_by_known(
                leaves,
                names,
                i as int,
                leaves[i as int].required_by.len() as int,
            ));
            assert forall|j: int| 0 <= j < i + 1 implies #[trigger] needs_known(
                leaves,
                names,
                j,
                leaves[j].requires.len() as int,
            ) && needed_by_known(leaves, names, j, leaves[j].required_by.len() as int) by {
                if j < i {
                    assert(all_known(leaves, names, i as int));
                }
            }
            assert forall|u: int, v: int|
                #![trigger has_edge(end, u, v)]
                has_edge(end, u, v) == (0 <= u < leaves.len() && 0 <= v < leaves.len() && ((v < i
                    + 1 && needs_leaf(leaves, names, u, v, leaves[v].requires.len() as int)) || (u
                    < i + 1 && needed_by_leaf(
                    leaves,
                    names,
                    u,
                    v,
                    leaves[u].required_by.len() as int,
                )))) by {
                assert(has_edge(end, u, v) == (has_edge(middle, u, v) || (u == i
                    && needed_by_leaf(
                    leaves,
                    names,
                    i as int,
                    v,
                    leaves[i as int].required_by.len() as int,
                ))));
                assert(has_edge(middle, u, v) == (has_edge(start, u, v) || (v == i && needs_leaf(
                    leaves,
                    names,
                    u,
                    i as int,
                    leaves[i as int].requires.len() as int,
                ))));
                assert(has_edge(start, u, v) == (0 <= u < leaves.len() && 0 <= v < leaves.len()
                    && ((v < i && needs_leaf(
                    leaves,
                    names,
                    u,
                    v,
                    leaves[v].requires.len() as int,
                )) || (u < i && needed_by_leaf(
                    leaves,
                    names,
                    u,
                    v,
                    leaves[u].required_by.len() as int,
                )))));
                if v == i && needs_leaf(
                    leaves,
                    names,
                    u,
                    i as int,
                    leaves[i as int].requires.len() as int,
                ) {
                    let q = choose|q: int|
                        0 <= q < leaves[i as int].requires.len() && names_leaf(
                            names,
                            #[trigger] leaves[i as int].requires[q],
                            u,
                        );
                    let d = choose|d: int|
                        0 <= d < names.len() && (#[trigger] names[d]).id
                            == leaves[i as int].requires[q] && names[d].start <= u < names[d].end;
                    assert(0 <= names[d].start <= names[d].end <= n);
                }
                if u == i && needed_by_leaf(
                    leaves,
                    names,
                    i as int,
                    v,
                    leaves[i as int].required_by.len() as int,
                ) {
                    let q = choose|q: int|
                        0 <= q < leaves[i as int].required_by.len() && names_leaf(
                            names,
                            #[trigger] leaves[i as int].required_by[q],
                            v,
                        );
                    let d = choose|d: int|
                        0 <= d < names.len() && (#[trigger] names[d]).id
                            == leaves[i as int].required_by[q] && names[d].start <= v
                            < names[d].end;
                    assert(0 <= names[d].start <= names[d].end <= n);
                }
            }
        }
        i += 1;
    }
    Ok(out)
}

} // verus!

verus! {

/// The wave lists, as sequences.
pub open spec fn wave_rows(waves: Seq<Vec<usize>>) -> Seq<Seq<usize>> {
    Seq::new(waves.len(), |k: int| waves[k]@)
}

/// The epochs, as sequences.
pub open spec fn epoch_rows<Node>(epochs: Seq<Vec<Node>>) -> Seq<Seq<Node>> {
    Seq::new(epochs.len(), |k: int| epochs[k]@)
}

/// The values of the first `upto` leaves of `list` that hold one, in order.
pub open spec fn wave_values<Node>(nodes: Seq<Option<Node>>, list: Seq<usize>, upto: int) -> Seq<
    Node,
>
    decreases upto,
{
    if upto <= 0 {
        Seq::empty()
    } else {
        let before = wave_values(nodes, list, upto - 1);
        match nodes[list[upto - 1] as int] {
            Some(node) => before.push(node),
            None => before,
        }
    }
}

/// The values of the first `upto` waves, wave by wave, leaving out the
/// waves without a value.
pub open spec fn gathered<Node>(nodes: Seq<Option<Node>>, waves: Seq<Seq<usize>>, upto: int) -> Seq<
    Seq<Node>,
>
    decreases upto,
{
    if upto <= 0 {
        Seq::empty()
    } else {
        let before = gathered(nodes, waves, upto - 1);
        let values = wave_values(nodes, waves[upto - 1], waves[upto - 1].len() as int);
        if values.len() > 0 {
            before.push(values)
        } else {
            before
        }
    }
}

/// No leaf stands in two places of the waves.
pub open spec fn waves_disjoint(waves: Seq<Seq<usize>>, n: int) -> bool {
    &&& forall|k: int, a: int|
        0 <= k < waves.len() && 0 <= a < waves[k].len() ==> (#[trigger] waves[k][a]) < n
    &&& forall|j: int, a: int, k: int, b: int|
        0 <= j < waves.len() && 0 <= a < waves[j].len() && 0 <= k < waves.len() && 0 <= b
            < waves[k].len() && #[trigger] waves[j][a] == #[trigger] waves[k][b] ==> j == k && a
            == b
}

/// Leaf `v` stands in the waves before position `p` of wave `k`.
pub open spec fn taken(waves: Seq<Seq<usize>>, k: int, p: int, v: int) -> bool {
    exists|j: int, a: int|
        0 <= j < waves.len() && 0 <= a < waves[j].len() && (j < k || (j == k && a < p))
            && #[trigger] waves[j][a] == v
}

/// Moves the values of the leaves out, wave by wave.
fn gather<Node>(nodes: Vec<Option<Node>>, waves: &Vec<Vec<usize>>) -> (epochs: Vec<Vec<Node>>)
    requires
        waves_disjoint(wave_rows(waves@), nodes.len() as int),
    ensures
        epoch_rows(epochs@) == gathered(nodes@, wave_rows(waves@), waves.len() as int),
{
    let ghost initial = nodes@;
    let ghost lists = wave_rows(waves@);
    let n = nodes.len();
    let mut nodes = nodes;
    let mut epochs: Vec<Vec<Node>> = Vec::new();
    let mut k: usize = 0;
    assert(epoch_rows(epochs@) =~= gathered(initial, lists, 0));
    while k < waves.len()
        invariant
            k <= waves.len(),
            lists == wave_rows(waves@),
            nodes.len() == n,
            initial.len() == n,
            waves_disjoint(lists, n as int),
            forall|v: int| 0 <= v < n && !taken(lists, k as int, 0, v) ==> nodes[v] == initial[v],
            epoch_rows(epochs@) == gathered(initial, lists, k as int),
        decreases waves.len() - k,
    {
        let wave = &waves[k];
        assert(lists[k as int] == wave@);
        let mut values: Vec<Node> = Vec::new();
        let mut p: usize = 0;
        while p < wave.len()
            invariant
                p <= wave.len(),
                k < waves.len(),
                lists == wave_rows(waves@),
                lists[k as int] == wave@,
                nodes.len() == n,
                initial.len() == n,
                waves_disjoint(lists, n as int),
                forall|v: int|
                    0 <= v < n && !taken(lists, k as int, p as int, v) ==> nodes[v] == initial[v],
                values@ == wave_values(initial, wave@, p as int),
            decreases wave.len() - p,
        {
            let leaf = wave[p];
            assert(lists[k as int][p as int] == leaf);
            proof {
                if taken(lists, k as int, p as int, leaf as int) {
                    let (j, a) = choose|j: int, a: int|
                        0 <= j < lists.len() && 0 <= a < lists[j].len() && (j < k || (j == k && a
                            < p)) && #[trigger] lists[j][a] == leaf;
                    assert(lists[j][a] == lists[k as int][p as int]);
                }
            }
            let ghost untouched = nodes@;
            let value = nodes[leaf].take();
            proof {
                assert forall|v: int| 0 <= v < n && !taken(lists, k as int, p + 1, v) implies nodes[v]
                    == initial[v] by {
                    if v == leaf {
                        assert(lists[k as int][p as int] == v);
                        assert(taken(lists, k as int, p + 1, v));
                    } else {
                        if taken(lists, k as int, p as int, v) {
                            let (j, a) = choose|j: int, a: int|
                                0 <= j < lists.len() && 0 <= a < lists[j].len() && (j < k || (j
                                    == k && a < p)) && #[trigger] lists[j][a] == v;
                            assert(taken(lists, k as int, p + 1, v));
                        }
                        assert(nodes[v] == untouched[v]);
                    }
                }
            }
            match value {
                Some(node) => {
                    values.push(node);
                },
                None => {},
            }
            p += 1;
        }
        proof {
            assert forall|v: int| 0 <= v < n && !taken(lists, k + 1, 0, v) implies nodes[v]
                == initial[v] by {
                if taken(lists, k as int, wave.len() as int, v) {
                    let (j, a) = choose|j: int, a: int|
                        0 <= j < lists.len() && 0 <= a < lists[j].len() && (j < k || (j == k && a
                            < wave.len())) && #[trigger] lists[j][a] == v;
                    assert(taken(lists, k + 1, 0, v));
                }
            }
        }
        let ghost before = epoch_rows(epochs@);
        if values.len() > 0 {
            epochs.push(values);
            assert(epoch_rows(epochs@) =~= before.push(values@));
        }
        k += 1;
    }
    epochs
}

/// `waves` are all the waves of `edge` among the leaves that are not empty,
/// in order, and `epochs` are their values.
pub open spec fn layering<Node, Key>(
    leaves: Seq<LeafSpec<Node, Key>>,
    edge: spec_fn(int, int) -> bool,
    waves: Seq<Seq<usize>>,
    epochs: Seq<Seq<Node>>,
) -> bool {
    &&& forall|k: int|
        0 <= k < waves.len() ==> is_wave(edge, leaves.len() as int, k as nat, #[trigger] waves[k])
    &&& forall|v: int| !in_wave(edge, leaves.len() as int, v, waves.len() as nat)
    &&& epochs == gathered(
        Seq::new(leaves.len(), |i: int| leaves[i].node),
        waves,
        waves.len() as int,
    )
}

/// The epochs are the values of the waves of `edge` among the leaves, wave
/// by wave and within a wave in the order of the leaves.
pub open spec fn layered<Node, Key>(
    leaves: Seq<LeafSpec<Node, Key>>,
    edge: spec_fn(int, int) -> bool,
    epochs: Seq<Seq<Node>>,
) -> bool {
    exists|waves: Seq<Seq<usize>>| #[trigger] layering(leaves, edge, waves, epochs)
}

/// What [`compute_epochs`] returns for a tree.
pub open spec fn scheduled<Node, NodeId: View>(
    tree: TreeShape<Option<Node>, CausalityMeta<NodeId>>,
    epochs: Result<Vec<Vec<Node>>, EpochError<NodeId>>,
) -> bool {
    let leaves = collected(tree, Seq::empty(), Seq::empty());
    let names = declared(tree, 0);
    let n = leaves.len();
    let edge = waits(leaves, names);
    match epochs {
        Err(EpochError::DuplicateId(id)) => first_repeat(ids_of(names), id@),
        Err(EpochError::UnknownRequiresRef(id)) => {
            &&& distinct(ids_of(names))
            &&& first_unknown_need(leaves, names, id@)
        },
        Err(EpochError::UnknownRequiredByRef(id)) => {
            &&& distinct(ids_of(names))
            &&& first_unknown_needed_by(leaves, names, id@)
        },
        Err(EpochError::CycleDetected { remaining }) => {
            &&& distinct(ids_of(names))
            &&& all_known(leaves, names, n as int)
            &&& remaining > 0
            &&& remaining + settled_count(edge, n, n as int) == n
        },
        Ok(epochs) => {
            &&& distinct(ids_of(names))
            &&& all_known(leaves, names, n as int)
            &&& forall|v: int| 0 <= v < n ==> settled(edge, v, n)
            &&& layered(leaves, edge, epoch_rows(epochs@))
        },
    }
}

/// Layers the leaves of the tree into epochs. A leaf comes in the first
/// epoch after those of everything it waits for; within an epoch the leaves
/// keep their order in the tree. Leaves without a value are left out, and so
/// are epochs that would be empty. There are no epochs when a name is
/// declared twice, when a reference names nothing, or when leaves wait for
/// each other in a circle.
pub fn compute_epochs<Node, NodeId: NodeKey>(
    tree: Tree<Option<Node>, CausalityMeta<NodeId>>,
) -> (epochs: Result<Vec<Vec<Node>>, EpochError<NodeId>>)
    ensures
        scheduled(tree@, epochs),
{
    let ghost shape = tree@;
    let ghost leaves = collected(shape, Seq::<NodeId::V>::empty(), Seq::<NodeId::V>::empty());
    let ghost names = declared(shape, 0);
    let ghost edge = waits(leaves, names);
    let mut needs: Vec<NodeId> = Vec::new();
    let mut needed_by: Vec<NodeId> = Vec::new();
    let mut found: Collection<Node, NodeId> = Collection {
        nodes: Vec::new(),
        constraints: Vec::new(),
        names: Vec::new(),
        spans: Vec::new(),
    };
    assert(keys(needs@) =~= Seq::empty());
    assert(keys(needed_by@) =~= Seq::empty());
    let ghost nothing = found.leaves();
    let ghost unnamed = found.declarations();
    collect(tree, &mut needs, &mut needed_by, &mut found);
    proof {
        assert(found.leaves() =~= leaves);
        assert(found.declarations() =~= names);
        assert(keys(found.names@) =~= ids_of(names));
        lemma_collected_len(shape, Seq::<NodeId::V>::empty(), Seq::<NodeId::V>::empty());
    }
    let n = found.nodes.len();
    assert(n == leaves.len());
    match find_repeat(&found.names) {
        Some(j) => {
            let id = found.names[j].duplicate();
            assert(ids_of(names)[j as int] == id@);
            return Err(EpochError::DuplicateId(id));
        },
        None => {},
    }
    proof {
        assert forall|d: int| 0 <= d < names.len() implies 0 <= (#[trigger] names[d]).start
            <= names[d].end <= n by {
            lemma_declared_range(shape, 0, d);
        }
    }
    let out = match wire(&found) {
        Ok(out) => out,
        Err(error) => {
            return Err(error);
        },
    };
    let ghost graph = edges_of(rows(out@));
    assert forall|u: int, v: int| #[trigger] graph(u, v) == edge(u, v) by {
        assert(has_edge(rows(out@), u, v) == waits_for(leaves, names, u, v));
    }
    let (waves, seen) = layer_nodes(&out);
    let ghost lists = wave_rows(waves@);
    let ghost last = waves.len() as nat;
    proof {
        assert forall|k: int| 0 <= k < lists.len() implies is_wave(
            edge,
            n as int,
            k as nat,
            #[trigger] lists[k],
        ) by {
            assert(is_wave(graph, n as int, k as nat, waves[k]@));
            lemma_is_wave_same(graph, edge, n as int, k as nat, lists[k]);
        }
        assert forall|v: int| !in_wave(edge, n as int, v, last) by {
            lemma_in_wave_same(graph, edge, n as int, v, last);
        }
        assert forall|v: int| 0 <= v < n implies settled(graph, v, last) == settled(
            edge,
            v,
            n as nat,
        ) by {
            lemma_settled_same(graph, edge, v, last);
            lemma_empty_wave_is_last(edge, n as int, last, n as nat, v);
        }
        lemma_settled_count_same(graph, last, edge, n as nat, n as int);
        lemma_settled_count_full(edge, n as nat, n as int);
    }
    if seen != n {
        return Err(EpochError::CycleDetected { remaining: n - seen });
    }
    proof {
        assert forall|j: int, a: int, k: int, b: int|
            0 <= j < lists.len() && 0 <= a < lists[j].len() && 0 <= k < lists.len() && 0 <= b
                < lists[k].len() && #[trigger] lists[j][a] == #[trigger] lists[k][b] implies j == k
            && a == b by {
            assert(is_wave(edge, n as int, j as nat, lists[j]));
            assert(is_wave(edge, n as int, k as nat, lists[k]));
            assert(in_wave(edge, n as int, lists[j][a] as int, j as nat));
            assert(in_wave(edge, n as int, lists[k][b] as int, k as nat));
            lemma_wave_unique(edge, n as int, lists[j][a] as int, j as nat, k as nat);
            if a < b {
                assert(lists[j][a] < lists[j][b]);
            } else if b < a {
                assert(lists[j][b] < lists[j][a]);
            }
        }
        assert forall|k: int, a: int| 0 <= k < lists.len() && 0 <= a < lists[k].len() implies (
        #[trigger] lists[k][a]) < n by {
            assert(is_wave(edge, n as int, k as nat, lists[k]));
            assert(in_wave(edge, n as int, lists[k][a] as int, k as nat));
        }
    }
    let Collection { nodes, .. } = found;
    let ghost values = nodes@;
    assert(values =~= Seq::new(leaves.len(), |i: int| leaves[i].node));
    let epochs = gather(nodes, &waves);
    proof {
        assert(layering(leaves, edge, lists, epoch_rows(epochs@)));
        assert(layered(leaves, edge, epoch_rows(epochs@)));
        assert(forall|v: int| 0 <= v < n ==> settled(edge, v, n as nat));
        assert(distinct(ids_of(names)));
        assert(all_known(leaves, names, n as int));
    }
    Ok(epochs)
}

} // verus!

verus! {

/// A leaf comes in a later wave than every leaf it waits for.
pub proof fn lemma_waits_for_earlier_wave<Node, NodeId: View>(
    tree: TreeShape<Option<Node>, CausalityMeta<NodeId>>,
    u: int,
    v: int,
    k: nat,
) -> (j: nat)
    requires
        waits_for(collected(tree, Seq::empty(), Seq::empty()), declared(tree, 0), u, v),
        in_wave(
            waits(collected(tree, Seq::empty(), Seq::empty()), declared(tree, 0)),
            leaf_total(tree) as int,
            v,
            k,
        ),
    ensures
        j < k,
        in_wave(
            waits(collected(tree, Seq::empty(), Seq::empty()), declared(tree, 0)),
            leaf_total(tree) as int,
            u,
            j,
        ),
{
    let leaves = collected(tree, Seq::<NodeId::V>::empty(), Seq::<NodeId::V>::empty());
    let names = declared(tree, 0);
    lemma_collected_len(tree, Seq::<NodeId::V>::empty(), Seq::<NodeId::V>::empty());
    assert(waits(leaves, names)(u, v));
    lemma_edge_rises(waits(leaves, names), leaf_total(tree) as int, u, v, k)
}

/// Where there are epochs, every leaf belongs to exactly one wave.
pub proof fn lemma_every_leaf_in_one_wave<Node, NodeId: View>(
    tree: TreeShape<Option<Node>, CausalityMeta<NodeId>>,
    epochs: Result<Vec<Vec<Node>>, EpochError<NodeId>>,
    v: int,
) -> (k: nat)
    requires
        scheduled(tree, epochs),
        epochs is Ok,
        0 <= v < leaf_total(tree),
    ensures
        in_wave(
            waits(collected(tree, Seq::empty(), Seq::empty()), declared(tree, 0)),
            leaf_total(tree) as int,
            v,
            k,
        ),
        forall|j: nat|
            in_wave(
                waits(collected(tree, Seq::empty(), Seq::empty()), declared(tree, 0)),
                leaf_total(tree) as int,
                v,
                j,
            ) ==> j == k,
{
    let leaves = collected(tree, Seq::<NodeId::V>::empty(), Seq::<NodeId::V>::empty());
    let names = declared(tree, 0);
    let edge = waits(leaves, names);
    let n = leaf_total(tree);
    lemma_collected_len(tree, Seq::<NodeId::V>::empty(), Seq::<NodeId::V>::empty());
    assert(settled(edge, v, n));
    let k = lemma_settled_in_wave(edge, n as int, v, n);
    assert forall|j: nat| in_wave(edge, n as int, v, j) implies j == k by {
        lemma_wave_unique(edge, n as int, v, j, k);
    }
    k
}

/// Every leaf below a node carries what the ancestors of the
/// node require and are required by, and what the node itself declares.
pub proof fn lemma_leaves_inherit<Node, NodeId: View>(
    tree: TreeShape<Option<Node>, CausalityMeta<NodeId>>,
    needs: Seq<NodeId::V>,
    needed_by: Seq<NodeId::V>,
    i: int,
)
    requires
        0 <= i < collected(tree, needs, needed_by).len(),
    ensures
        ({
            let meta = match tree {
                TreeShape::Branch { meta, .. } => meta,
                TreeShape::Leaf { meta, .. } => meta,
            };
            let leaf = collected(tree, needs, needed_by)[i];
            let own_needs = needs + keys(meta.requires@);
            let own_needed_by = needed_by + keys(meta.required_by@);
            &&& leaf.requires.len() >= own_needs.len()
            &&& leaf.requires.subrange(0, own_needs.len() as int) == own_needs
            &&& leaf.required_by.len() >= own_needed_by.len()
            &&& leaf.required_by.subrange(0, own_needed_by.len() as int) == own_needed_by
        }),
    decreases tree, 0nat,
{
    match tree {
        TreeShape::Leaf { meta, .. } => {
            let leaf = collected(tree, needs, needed_by)[i];
            assert(leaf.requires.subrange(0, leaf.requires.len() as int) =~= leaf.requires);
            assert(leaf.required_by.subrange(0, leaf.required_by.len() as int)
                =~= leaf.required_by);
        },
        TreeShape::Branch { meta, children } => {
            lemma_leaves_from_inherit(
                children,
                0,
                needs + keys(meta.requires@),
                needed_by + keys(meta.required_by@),
                i,
            );
        },
    }
}

/// Every leaf of the trees from position `k` on begins its constraints with those handed down.
pub proof fn lemma_leaves_from_inherit<Node, NodeId: View>(
    trees: Seq<TreeShape<Option<Node>, CausalityMeta<NodeId>>>,
    k: int,
    needs: Seq<NodeId::V>,
    needed_by: Seq<NodeId::V>,
    i: int,
)
    requires
        0 <= i < collected_from(trees, k, needs, needed_by).len(),
    ensures
        ({
            let leaf = collected_from(trees, k, needs, needed_by)[i];
            &&& leaf.requires.len() >= needs.len()
            &&& leaf.requires.subrange(0, needs.len() as int) == needs
            &&& leaf.required_by.len() >= needed_by.len()
            &&& leaf.required_by.subrange(0, needed_by.len() as int) == needed_by
        }),
    decreases trees, trees.len() - k,
{
    if 0 <= k < trees.len() {
        let first = collected(trees[k], needs, needed_by);
        if i < first.len() {
            lemma_leaves_inherit(trees[k], needs, needed_by, i);
            let meta = match trees[k] {
                TreeShape::Branch { meta, .. } => meta,
                TreeShape::Leaf { meta, .. } => meta,
            };
            let leaf = first[i];
            let own_needs = needs + keys(meta.requires@);
            let own_needed_by = needed_by + keys(meta.required_by@);
            assert(leaf.requires.subrange(0, needs.len() as int) =~= own_needs.subrange(
                0,
                needs.len() as int,
            )) by {
                assert(leaf.requires.subrange(0, own_needs.len() as int) == own_needs);
                assert forall|q: int| 0 <= q < needs.len() implies leaf.requires[q]
                    == own_needs[q] by {
                    assert(leaf.requires.subrange(0, own_needs.len() as int)[q]
                        == leaf.requires[q]);
                }
            }
            assert(own_needs.subrange(0, needs.len() as int) =~= needs);
            assert(leaf.required_by.subrange(0, needed_by.len() as int)
                =~= own_needed_by.subrange(0, needed_by.len() as int)) by {
                assert(leaf.required_by.subrange(0, own_needed_by.len() as int)
                    == own_needed_by);
                assert forall|q: int| 0 <= q < needed_by.len() implies leaf.required_by[q]
                    == own_needed_by[q] by {
                    assert(leaf.required_by.subrange(0, own_needed_by.len() as int)[q]
                        == leaf.required_by[q]);
                }
            }
            assert(own_needed_by.subrange(0, needed_by.len() as int) =~= needed_by);
        } else {
            lemma_leaves_from_inherit(trees, k + 1, needs, needed_by, i - first.len());
        }
    }
}

/// Where leaves wait for each other in a circle there
/// are no epochs.
pub proof fn lemma_cycle_is_detected<Node, NodeId: View>(
    tree: TreeShape<Option<Node>, CausalityMeta<NodeId>>,
    epochs: Result<Vec<Vec<Node>>, EpochError<NodeId>>,
    walk: Seq<int>,
)
    requires
        scheduled(tree, epochs),
        walk.len() > 0,
        forall|a: int|
            0 <= a < walk.len() ==> waits_for(
                collected(tree, Seq::empty(), Seq::empty()),
                declared(tree, 0),
                #[trigger] walk[a],
                walk[(a + 1) % (walk.len() as int)],
            ),
    ensures
        epochs is Err,
{
    let leaves = collected(tree, Seq::<NodeId::V>::empty(), Seq::<NodeId::V>::empty());
    let names = declared(tree, 0);
    let edge = waits(leaves, names);
    let n = leaves.len();
    assert forall|a: int| 0 <= a < walk.len() implies edge(
        #[trigger] walk[a],
        walk[(a + 1) % (walk.len() as int)],
    ) by {
        assert(waits_for(leaves, names, walk[a], walk[(a + 1) % (walk.len() as int)]));
    }
    lemma_cycle_never_settled(edge, walk, 0, n);
    assert(waits_for(leaves, names, walk[0], walk[(0int + 1) % (walk.len() as int)]));
    assert(0 <= walk[0] < n);
    if epochs is Ok {
        assert(settled(edge, walk[0], n));
    }
}

/// Where every name is declared once and every reference names something,
/// the only error is a cycle.
pub proof fn lemma_only_cycles_fail<Node, NodeId: View>(
    tree: TreeShape<Option<Node>, CausalityMeta<NodeId>>,
    epochs: Result<Vec<Vec<Node>>, EpochError<NodeId>>,
)
    requires
        scheduled(tree, epochs),
        epochs is Err,
        distinct(ids_of(declared(tree, 0))),
        all_known(
            collected(tree, Seq::empty(), Seq::empty()),
            declared(tree, 0),
            collected(tree, Seq::empty(), Seq::empty()).len() as int,
        ),
    ensures
        epochs matches Err(EpochError::CycleDetected { .. }),
{
    let leaves = collected(tree, Seq::<NodeId::V>::empty(), Seq::<NodeId::V>::empty());
    let names = declared(tree, 0);
    let n = leaves.len();
    match epochs {
        Err(EpochError::DuplicateId(id)) => {
            lemma_repeat_not_distinct(ids_of(names), id@);
        },
        Err(EpochError::UnknownRequiresRef(id)) => {
            lemma_unknown_need_not_known(leaves, names, id@);
        },
        Err(EpochError::UnknownRequiredByRef(id)) => {
            lemma_unknown_needed_by_not_known(leaves, names, id@);
        },
        _ => {},
    }
}

/// Where a name is the first that repeats, the names are not distinct.
proof fn lemma_repeat_not_distinct<Key>(ids: Seq<Key>, key: Key)
    requires
        first_repeat(ids, key),
    ensures
        !distinct(ids),
{
    let j = choose|j: int|
        0 <= j < ids.len() && #[trigger] repeats(ids, j) && ids[j] == key && forall|i: int|
            0 <= i < j ==> !repeats(ids, i);
    assert(repeats(ids, j));
}

/// Where a name is the first required that nothing declares, not every name is known.
proof fn lemma_unknown_need_not_known<Node, Key>(
    leaves: Seq<LeafSpec<Node, Key>>,
    names: Seq<Declared<Key>>,
    key: Key,
)
    requires
        first_unknown_need(leaves, names, key),
    ensures
        !all_known(leaves, names, leaves.len() as int),
{
    let (i, p) = choose|i: int, p: int|
        0 <= i < leaves.len() && all_known(leaves, names, i) && 0 <= p < leaves[i].requires.len()
            && #[trigger] needs_known(leaves, names, i, p) && leaves[i].requires[p] == key
            && !is_declared(names, key);
    if all_known(leaves, names, leaves.len() as int) {
        assert(needs_known(leaves, names, i, leaves[i].requires.len() as int));
        assert(is_declared(names, leaves[i].requires[p]));
    }
}

/// Where a name is the first that something is required by and nothing declares,
/// not every name is known.
proof fn lemma_unknown_needed_by_not_known<Node, Key>(
    leaves: Seq<LeafSpec<Node, Key>>,
    names: Seq<Declared<Key>>,
    key: Key,
)
    requires
        first_unknown_needed_by(leaves, names, key),
    ensures
        !all_known(leaves, names, leaves.len() as int),
{
    let (i, p) = choose|i: int, p: int|
        0 <= i < leaves.len() && all_known(leaves, names, i) && needs_known(
            leaves,
            names,
            i,
            leaves[i].requires.len() as int,
        ) && 0 <= p < leaves[i].required_by.len() && #[trigger] needed_by_known(
            leaves,
            names,
            i,
            p,
        ) && leaves[i].required_by[p] == key && !is_declared(names, key);
    if all_known(leaves, names, leaves.len() as int) {
        assert(needs_known(leaves, names, i, leaves[i].requires.len() as int));
        assert(needed_by_known(leaves, names, i, leaves[i].required_by.len() as int));
        assert(is_declared(names, leaves[i].required_by[p]));
    }
}

/// A leaf that requires a name waits for every leaf that the
/// name stands for.
pub proof fn lemma_requirement_waits_for_all<Node, NodeId: View>(
    tree: TreeShape<Option<Node>, CausalityMeta<NodeId>>,
    v: int,
    p: int,
    d: int,
    u: int,
)
    requires
        0 <= v < collected(tree, Seq::empty(), Seq::empty()).len(),
        0 <= p < collected(tree, Seq::empty(), Seq::empty())[v].requires.len(),
        0 <= d < declared(tree, 0).len(),
        declared(tree, 0)[d].id == collected(tree, Seq::empty(), Seq::empty())[v].requires[p],
        declared(tree, 0)[d].start <= u < declared(tree, 0)[d].end,
    ensures
        waits_for(collected(tree, Seq::empty(), Seq::empty()), declared(tree, 0), u, v),
{
    let leaves = collected(tree, Seq::<NodeId::V>::empty(), Seq::<NodeId::V>::empty());
    let names = declared(tree, 0);
    lemma_declared_range(tree, 0, d);
    lemma_collected_len(tree, Seq::<NodeId::V>::empty(), Seq::<NodeId::V>::empty());
    assert(names_leaf(names, leaves[v].requires[p], u));
    assert(needs_leaf(leaves, names, u, v, leaves[v].requires.len() as int));
}

} // verus!

verus! {

/// The metadata of the root of a tree.
pub open spec fn root_meta<Node, NodeId>(
    tree: TreeShape<Option<Node>, CausalityMeta<NodeId>>,
) -> CausalityMeta<NodeId> {
    match tree {
        TreeShape::Branch { meta, .. } => meta,
        TreeShape::Leaf { meta, .. } => meta,
    }
}

/// Whether `part` stands in `tree`: it is the tree itself, or it stands in
/// one of its children. `offset` is the number of its first leaf among the
/// leaves of the tree, and `needs` and `needed_by` are what its ancestors
/// hand down to it, where `above` and `above_by` are handed down to the tree.
pub open spec fn stands_in<Node, NodeId: View>(
    tree: TreeShape<Option<Node>, CausalityMeta<NodeId>>,
    part: TreeShape<Option<Node>, CausalityMeta<NodeId>>,
    offset: int,
    needs: Seq<NodeId::V>,
    needed_by: Seq<NodeId::V>,
    above: Seq<NodeId::V>,
    above_by: Seq<NodeId::V>,
) -> bool
    decreases tree,
{
    ||| (part == tree && offset == 0 && needs == above && needed_by == above_by)
    ||| (tree matches TreeShape::Branch { meta, children } && exists|c: int|
        0 <= c < children.len() && stands_in(
            #[trigger] children[c],
            part,
            offset - (leaf_total_from(children, 0) - leaf_total_from(children, c)),
            needs,
            needed_by,
            above + keys(meta.requires@),
            above_by + keys(meta.required_by@),
        ))
}

/// The leaves of the trees from position `k` on stand behind the leaves of
/// the trees before them.
pub proof fn lemma_collected_from_part<Node, NodeId: View>(
    trees: Seq<TreeShape<Option<Node>, CausalityMeta<NodeId>>>,
    k: int,
    c: int,
    needs: Seq<NodeId::V>,
    needed_by: Seq<NodeId::V>,
    i: int,
)
    requires
        0 <= k <= c < trees.len(),
        0 <= i < leaf_total(trees[c]),
    ensures
        leaf_total_from(trees, k) - leaf_total_from(trees, c) + i < collected_from(
            trees,
            k,
            needs,
            needed_by,
        ).len(),
        0 <= leaf_total_from(trees, k) - leaf_total_from(trees, c),
        collected_from(trees, k, needs, needed_by)[leaf_total_from(trees, k) - leaf_total_from(
            trees,
            c,
        ) + i] == collected(trees[c], needs, needed_by)[i],
    decreases c - k,
{
    lemma_collected_len(trees[k], needs, needed_by);
    lemma_collected_from_len(trees, k + 1, needs, needed_by);
    lemma_collected_from_len(trees, k, needs, needed_by);
    if k < c {
        lemma_collected_from_part(trees, k + 1, c, needs, needed_by, i);
    } else {
        lemma_collected_len(trees[c], needs, needed_by);
    }
}

/// The leaves of a part of a tree are leaves of the tree, from the number
/// of its first leaf on, each with what the ancestors of the part hand down.
pub proof fn lemma_part_leaves<Node, NodeId: View>(
    tree: TreeShape<Option<Node>, CausalityMeta<NodeId>>,
    part: TreeShape<Option<Node>, CausalityMeta<NodeId>>,
    offset: int,
    needs: Seq<NodeId::V>,
    needed_by: Seq<NodeId::V>,
    above: Seq<NodeId::V>,
    above_by: Seq<NodeId::V>,
    i: int,
)
    requires
        stands_in(tree, part, offset, needs, needed_by, above, above_by),
        0 <= i < leaf_total(part),
    ensures
        0 <= offset,
        offset + i < collected(tree, above, above_by).len(),
        collected(tree, above, above_by)[offset + i] == collected(part, needs, needed_by)[i],
    decreases tree,
{
    lemma_collected_len(tree, above, above_by);
    if part == tree && offset == 0 && needs == above && needed_by == above_by {
    } else {
        match tree {
            TreeShape::Branch { meta, children } => {
                let below = above + keys(meta.requires@);
                let below_by = above_by + keys(meta.required_by@);
                let c = choose|c: int|
                    0 <= c < children.len() && stands_in(
                        #[trigger] children[c],
                        part,
                        offset - (leaf_total_from(children, 0) - leaf_total_from(children, c)),
                        needs,
                        needed_by,
                        below,
                        below_by,
                    );
                let before = leaf_total_from(children, 0) - leaf_total_from(children, c);
                lemma_part_leaves(
                    children[c],
                    part,
                    offset - before,
                    needs,
                    needed_by,
                    below,
                    below_by,
                    i,
                );
                lemma_collected_len(children[c], below, below_by);
                lemma_collected_from_part(children, 0, c, below, below_by, offset - before + i);
            },
            TreeShape::Leaf { .. } => {},
        }
    }
}

/// What a node requires holds of every leaf below it: where a node of the
/// tree requires a name, every leaf below the node waits for every leaf
/// that the name stands for.
pub proof fn lemma_requirement_reaches_below<Node, NodeId: View>(
    tree: TreeShape<Option<Node>, CausalityMeta<NodeId>>,
    part: TreeShape<Option<Node>, CausalityMeta<NodeId>>,
    offset: int,
    needs: Seq<NodeId::V>,
    needed_by: Seq<NodeId::V>,
    i: int,
    p: int,
    d: int,
    u: int,
)
    requires
        stands_in(tree, part, offset, needs, needed_by, Seq::empty(), Seq::empty()),
        0 <= i < leaf_total(part),
        0 <= p < root_meta(part).requires@.len(),
        0 <= d < declared(tree, 0).len(),
        declared(tree, 0)[d].id == root_meta(part).requires@[p]@,
        declared(tree, 0)[d].start <= u < declared(tree, 0)[d].end,
    ensures
        waits_for(
            collected(tree, Seq::empty(), Seq::empty()),
            declared(tree, 0),
            u,
            offset + i,
        ),
{
    let none = Seq::<NodeId::V>::empty();
    lemma_part_leaves(tree, part, offset, needs, needed_by, none, none, i);
    lemma_collected_len(part, needs, needed_by);
    lemma_leaves_inherit(part, needs, needed_by, i);
    let leaf = collected(part, needs, needed_by)[i];
    let own = needs + keys(root_meta(part).requires@);
    assert(leaf.requires.subrange(0, own.len() as int)[needs.len() + p] == own[needs.len() + p]);
    assert(own[needs.len() + p] == root_meta(part).requires@[p]@);
    lemma_requirement_waits_for_all(tree, offset + i, needs.len() + p, d, u);
}

} // verus!

verus! {

/// Where a node of the tree requires a name, every leaf below the node
/// comes in a later wave than every leaf that the name stands for.
pub proof fn lemma_leaves_below_come_later<Node, NodeId: View>(
    tree: TreeShape<Option<Node>, CausalityMeta<NodeId>>,
    part: TreeShape<Option<Node>, CausalityMeta<NodeId>>,
    offset: int,
    needs: Seq<NodeId::V>,
    needed_by: Seq<NodeId::V>,
    i: int,
    p: int,
    d: int,
    u: int,
    k: nat,
) -> (j: nat)
    requires
        stands_in(tree, part, offset, needs, needed_by, Seq::empty(), Seq::empty()),
        0 <= i < leaf_total(part),
        0 <= p < root_meta(part).requires@.len(),
        0 <= d < declared(tree, 0).len(),
        declared(tree, 0)[d].id == root_meta(part).requires@[p]@,
        declared(tree, 0)[d].start <= u < declared(tree, 0)[d].end,
        in_wave(
            waits(collected(tree, Seq::empty(), Seq::empty()), declared(tree, 0)),
            leaf_total(tree) as int,
            offset + i,
            k,
        ),
    ensures
        j < k,
        in_wave(
            waits(collected(tree, Seq::empty(), Seq::empty()), declared(tree, 0)),
            leaf_total(tree) as int,
            u,
            j,
        ),
{
    lemma_requirement_reaches_below(tree, part, offset, needs, needed_by, i, p, d, u);
    lemma_waits_for_earlier_wave(tree, u, offset + i, k)
}

} // verus!
