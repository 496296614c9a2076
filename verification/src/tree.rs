//! Nested and flat tree representations.
//!
//! A [`Tree`] is the nested form. A [`FlatTree`] is the same tree laid out in
//! an arena of optional slots, where a branch names its children by slot
//! index. Slots may be empty; everything that walks the arena skips empty
//! slots and indices that lie outside it.

pub mod subtree;

use vstd::prelude::*;

verus! {

/// A nested tree over leaf values `Node` with metadata `Meta` on every node.
#[derive(Debug)]
pub enum Tree<Node, Meta> {
    Branch { meta: Meta, children: Vec<Tree<Node, Meta>> },
    Leaf { meta: Meta, node: Node },
}

/// The mathematical shape of a [`Tree`]: the children form a sequence.
pub ghost enum TreeShape<Node, Meta> {
    Branch { meta: Meta, children: Seq<TreeShape<Node, Meta>> },
    Leaf { meta: Meta, node: Node },
}

/// The shape of a tree: that of each child, in order.
pub open spec fn tree_shape<Node, Meta>(tree: Tree<Node, Meta>) -> TreeShape<Node, Meta>
    decreases tree,
{
    match tree {
        Tree::Branch { meta, children } => TreeShape::Branch {
            meta,
            children: Seq::new(
                children.len() as nat,
                |i: int|
                    if 0 <= i < children.len() {
                        tree_shape(children[i])
                    } else {
                        arbitrary()
                    },
            ),
        },
        Tree::Leaf { meta, node } => TreeShape::Leaf { meta, node },
    }
}

impl<Node, Meta> View for Tree<Node, Meta> {
    type V = TreeShape<Node, Meta>;

    open spec fn view(&self) -> TreeShape<Node, Meta> {
        tree_shape(*self)
    }
}

/// The shapes of a sequence of trees.
pub open spec fn shapes<Node, Meta>(trees: Seq<Tree<Node, Meta>>) -> Seq<TreeShape<Node, Meta>> {
    Seq::new(trees.len(), |i: int| trees[i]@)
}

/// The shape of an optional tree.
pub open spec fn option_shape<Node, Meta>(tree: Option<Tree<Node, Meta>>) -> Option<
    TreeShape<Node, Meta>,
> {
    match tree {
        Some(tree) => Some(tree@),
        None => None,
    }
}

impl<Node, Meta> TreeShape<Node, Meta> {
    /// A branch is empty when every child is empty; a leaf never is.
    pub open spec fn is_empty(self) -> bool
        decreases self,
    {
        match self {
            TreeShape::Branch { children, .. } => forall|i: int|
                0 <= i < children.len() ==> (#[trigger] children[i]).is_empty(),
            TreeShape::Leaf { .. } => false,
        }
    }

    /// `self` and `next` have the same branches and metadata, and each leaf
    /// of `next` holds what `f` may return for the leaf of `self` in its place.
    pub open spec fn maps_to<Next, F: Fn(Node) -> Next>(
        self,
        f: F,
        next: TreeShape<Next, Meta>,
    ) -> bool
        decreases self,
    {
        match self {
            TreeShape::Branch { meta, children } => {
                &&& next matches TreeShape::Branch { meta: next_meta, children: next_children }
                &&& next_meta == meta
                &&& next_children.len() == children.len()
                &&& forall|i: int|
                    0 <= i < children.len() ==> (#[trigger] children[i]).maps_to(
                        f,
                        next_children[i],
                    )
            },
            TreeShape::Leaf { meta, node } => {
                &&& next matches TreeShape::Leaf { meta: next_meta, node: next_node }
                &&& next_meta == meta
                &&& f.ensures((node,), next_node)
            },
        }
    }

    /// `f` accepts every leaf value of the tree.
    pub open spec fn leaves_accepted<Next, F: Fn(Node) -> Next>(self, f: F) -> bool
        decreases self,
    {
        match self {
            TreeShape::Branch { children, .. } => forall|i: int|
                0 <= i < children.len() ==> (#[trigger] children[i]).leaves_accepted(f),
            TreeShape::Leaf { node, .. } => f.requires((node,)),
        }
    }

    /// `self` and `next` have the same branches and leaf values, and each
    /// node of `next` carries what `f` may return for the metadata in its place.
    pub open spec fn meta_maps_to<Next, F: Fn(Meta) -> Next>(
        self,
        f: F,
        next: TreeShape<Node, Next>,
    ) -> bool
        decreases self,
    {
        match self {
            TreeShape::Branch { meta, children } => {
                &&& next matches TreeShape::Branch { meta: next_meta, children: next_children }
                &&& f.ensures((meta,), next_meta)
                &&& next_children.len() == children.len()
                &&& forall|i: int|
                    0 <= i < children.len() ==> (#[trigger] children[i]).meta_maps_to(
                        f,
                        next_children[i],
                    )
            },
            TreeShape::Leaf { meta, node } => {
                &&& next matches TreeShape::Leaf { meta: next_meta, node: next_node }
                &&& next_node == node
                &&& f.ensures((meta,), next_meta)
            },
        }
    }

    /// `f` accepts the metadata of every node of the tree.
    pub open spec fn metas_accepted<Next, F: Fn(Meta) -> Next>(self, f: F) -> bool
        decreases self,
    {
        match self {
            TreeShape::Branch { meta, children } => {
                &&& f.requires((meta,))
                &&& forall|i: int|
                    0 <= i < children.len() ==> (#[trigger] children[i]).metas_accepted(f)
            },
            TreeShape::Leaf { meta, .. } => f.requires((meta,)),
        }
    }
}

impl<Node, Meta> Tree<Node, Meta> {
    /// A branch with the metadata and the children.
    pub fn branch(meta: Meta, children: Vec<Tree<Node, Meta>>) -> (tree: Self)
        ensures
            tree == (Tree::Branch { meta, children }),
    {
        Tree::Branch { children, meta }
    }

    /// A leaf with the metadata and the value.
    pub fn leaf(meta: Meta, node: Node) -> (tree: Self)
        ensures
            tree == (Tree::Leaf { meta, node }),
    {
        Tree::Leaf { node, meta }
    }

    /// Whether the tree is a leaf.
    pub fn is_leaf(&self) -> (b: bool)
        ensures
            b == (self is Leaf),
    {
        match self {
            Tree::Leaf { .. } => true,
            Tree::Branch { .. } => false,
        }
    }

    /// Whether the tree is a branch.
    pub fn is_branch(&self) -> (b: bool)
        ensures
            b == (self is Branch),
    {
        match self {
            Tree::Branch { .. } => true,
            Tree::Leaf { .. } => false,
        }
    }

    /// Whether the tree holds no leaf at all.
    pub fn is_empty(&self) -> (b: bool)
        ensures
            b == self@.is_empty(),
        decreases self,
    {
        match self {
            Tree::Branch { children, .. } => {
                let mut i: usize = 0;
                while i < children.len()
                    invariant
                        i <= children.len(),
                        self matches Tree::Branch { children: c, .. } && c == children,
                        forall|j: int| 0 <= j < i ==> (#[trigger] children[j])@.is_empty(),
                    decreases children.len() - i,
                {
                    if !children[i].is_empty() {
                        assert(!self@->Branch_children[i as int].is_empty());
                        return false;
                    }
                    i += 1;
                }
                assert forall|j: int| 0 <= j < self@->Branch_children.len() implies (
                #[trigger] self@->Branch_children[j]).is_empty() by {
                    assert(children[j]@.is_empty());
                }
                true
            },
            Tree::Leaf { .. } => false,
        }
    }

    /// Applies `f` to every leaf value, keeping branches and metadata.
    pub fn map<NextNode, MapFn>(self, f: MapFn) -> (next: Tree<NextNode, Meta>) where
        MapFn: Fn(Node) -> NextNode + Copy,

        requires
            self@.leaves_accepted(f),
        ensures
            self@.maps_to(f, next@),
        decreases self,
    {
        match self {
            Tree::Branch { meta, children } => {
                let ghost kids = children@;
                let mut next_children: Vec<Tree<NextNode, Meta>> = Vec::new();
                for child in it: children
                    invariant
                        it.seq() == kids,
                        self matches Tree::Branch { children: c, .. } && c@ == kids,
                        self@.leaves_accepted(f),
                        next_children.len() == it.index(),
                        forall|j: int|
                            0 <= j < it.index() ==> (#[trigger] kids[j])@.maps_to(
                                f,
                                next_children[j]@,
                            ),
                {
                    let ghost k = it.index() as int;
                    assert(child == kids[k]);
                    assert(self@->Branch_children[k] == kids[k]@);
                    assert(self@->Branch_children[k].leaves_accepted(f));
                    let next_child = child.map(f);
                    next_children.push(next_child);
                }
                let next = Tree::Branch { meta, children: next_children };
                assert forall|j: int| 0 <= j < self@->Branch_children.len() implies (
                #[trigger] self@->Branch_children[j]).maps_to(f, next@->Branch_children[j]) by {
                    assert(kids[j]@.maps_to(f, next_children[j]@));
                }
                next
            },
            Tree::Leaf { meta, node } => Tree::Leaf { meta, node: f(node) },
        }
    }

    /// Applies `f` to the metadata of every node, keeping branches and leaf values.
    pub fn map_meta<NextMeta, MapFn>(self, f: MapFn) -> (next: Tree<Node, NextMeta>) where
        MapFn: Fn(Meta) -> NextMeta + Copy,

        requires
            self@.metas_accepted(f),
        ensures
            self@.meta_maps_to(f, next@),
        decreases self,
    {
        match self {
            Tree::Branch { meta, children } => {
                let ghost kids = children@;
                let mut next_children: Vec<Tree<Node, NextMeta>> = Vec::new();
                for child in it: children
                    invariant
                        it.seq() == kids,
                        self matches Tree::Branch { children: c, .. } && c@ == kids,
                        self@.metas_accepted(f),
                        next_children.len() == it.index(),
                        forall|j: int|
                            0 <= j < it.index() ==> (#[trigger] kids[j])@.meta_maps_to(
                                f,
                                next_children[j]@,
                            ),
                {
                    let ghost k = it.index() as int;
                    assert(child == kids[k]);
                    assert(self@->Branch_children[k] == kids[k]@);
                    assert(self@->Branch_children[k].metas_accepted(f));
                    let next_child = child.map_meta(f);
                    next_children.push(next_child);
                }
                let next_meta = f(meta);
                let next = Tree::Branch { meta: next_meta, children: next_children };
                assert forall|j: int| 0 <= j < self@->Branch_children.len() implies (
                #[trigger] self@->Branch_children[j]).meta_maps_to(
                    f,
                    next@->Branch_children[j],
                ) by {
                    assert(kids[j]@.meta_maps_to(f, next_children[j]@));
                }
                next
            },
            Tree::Leaf { meta, node } => Tree::Leaf { meta: f(meta), node },
        }
    }
}

} // verus!


verus! {

/// One slot of a flat tree; a branch names its children by slot index.
#[derive(Debug)]
pub enum FlatTreeNode<Node, Meta> {
    Branch { meta: Meta, children: Vec<usize> },
    Leaf { meta: Meta, node: Node },
}

/// The mathematical shape of a [`FlatTreeNode`].
pub ghost enum FlatNodeShape<Node, Meta> {
    Branch { meta: Meta, children: Seq<usize> },
    Leaf { meta: Meta, node: Node },
}

impl<Node, Meta> View for FlatTreeNode<Node, Meta> {
    type V = FlatNodeShape<Node, Meta>;

    open spec fn view(&self) -> FlatNodeShape<Node, Meta> {
        match self {
            FlatTreeNode::Branch { meta, children } => FlatNodeShape::Branch {
                meta: *meta,
                children: children@,
            },
            FlatTreeNode::Leaf { meta, node } => FlatNodeShape::Leaf { meta: *meta, node: *node },
        }
    }
}

/// The shape of an arena slot.
pub open spec fn slot_shape<Node, Meta>(slot: Option<FlatTreeNode<Node, Meta>>) -> Option<
    FlatNodeShape<Node, Meta>,
> {
    match slot {
        Some(node) => Some(node@),
        None => None,
    }
}

/// The shape of an arena: the shape of each slot.
pub open spec fn arena_shape<Node, Meta>(nodes: Seq<Option<FlatTreeNode<Node, Meta>>>) -> Seq<
    Option<FlatNodeShape<Node, Meta>>,
> {
    Seq::new(nodes.len(), |i: int| slot_shape(nodes[i]))
}

/// The number of slots that `tree` takes in an arena.
pub open spec fn flat_size<Node, Meta>(tree: TreeShape<Node, Meta>) -> nat
    decreases tree, 0nat,
{
    match tree {
        TreeShape::Leaf { .. } => 1,
        TreeShape::Branch { children, .. } => 1 + flat_size_from(children, 0),
    }
}

/// The number of slots that the trees from position `k` on take together.
pub open spec fn flat_size_from<Node, Meta>(trees: Seq<TreeShape<Node, Meta>>, k: int) -> nat
    decreases trees, trees.len() - k,
{
    if 0 <= k < trees.len() {
        flat_size(trees[k]) + flat_size_from(trees, k + 1)
    } else {
        0
    }
}

/// The slots that appending `tree` adds to an arena of length `base`: the
/// root first, then each child's slots in order.
pub open spec fn flatten<Node, Meta>(tree: TreeShape<Node, Meta>, base: int) -> Seq<
    Option<FlatNodeShape<Node, Meta>>,
>
    decreases tree, 0nat,
{
    match tree {
        TreeShape::Leaf { meta, node } => seq![Some(FlatNodeShape::Leaf { meta, node })],
        TreeShape::Branch { meta, children } => seq![
            Some(FlatNodeShape::Branch { meta, children: child_roots(children, 0, base + 1) }),
        ] + flatten_from(children, 0, base + 1),
    }
}

/// The slots that the trees from position `k` on add, the first at `base`.
pub open spec fn flatten_from<Node, Meta>(
    trees: Seq<TreeShape<Node, Meta>>,
    k: int,
    base: int,
) -> Seq<Option<FlatNodeShape<Node, Meta>>>
    decreases trees, trees.len() - k,
{
    if 0 <= k < trees.len() {
        flatten(trees[k], base) + flatten_from(trees, k + 1, base + flat_size(trees[k]))
    } else {
        Seq::empty()
    }
}

/// The slot index of the root of each tree from position `k` on, the first at `base`.
pub open spec fn child_roots<Node, Meta>(
    trees: Seq<TreeShape<Node, Meta>>,
    k: int,
    base: int,
) -> Seq<usize>
    decreases trees, trees.len() - k,
{
    if 0 <= k < trees.len() {
        seq![base as usize] + child_roots(trees, k + 1, base + flat_size(trees[k]))
    } else {
        Seq::empty()
    }
}

/// A tree takes as many slots as it has nodes, wherever it is put.
pub proof fn lemma_flatten_len<Node, Meta>(tree: TreeShape<Node, Meta>, base: int)
    ensures
        flatten(tree, base).len() == flat_size(tree),
        flat_size(tree) >= 1,
    decreases tree, 0nat,
{
    match tree {
        TreeShape::Leaf { .. } => {},
        TreeShape::Branch { children, .. } => {
            lemma_flatten_from_len(children, 0, base + 1);
        },
    }
}

/// The trees from position `k` on take as many slots as they have nodes.
pub proof fn lemma_flatten_from_len<Node, Meta>(
    trees: Seq<TreeShape<Node, Meta>>,
    k: int,
    base: int,
)
    ensures
        flatten_from(trees, k, base).len() == flat_size_from(trees, k),
        0 <= k <= trees.len() ==> child_roots(trees, k, base).len() == trees.len() - k,
    decreases trees, trees.len() - k,
{
    if 0 <= k < trees.len() {
        lemma_flatten_len(trees[k], base);
        lemma_flatten_from_len(trees, k + 1, base + flat_size(trees[k]));
    }
}

/// Appends `tree` to the arena and returns the slot of its root.
pub fn append_tree_nodes<Node, Meta>(
    nodes: &mut Vec<Option<FlatTreeNode<Node, Meta>>>,
    tree: Tree<Node, Meta>,
) -> (index: usize)
    ensures
        index == old(nodes).len(),
        arena_shape(final(nodes)@) == arena_shape(old(nodes)@) + flatten(
            tree@,
            old(nodes).len() as int,
        ),
    decreases tree,
{
    let index = nodes.len();
    let ghost before = arena_shape(nodes@);
    match tree {
        Tree::Leaf { node, meta } => {
            nodes.push(Some(FlatTreeNode::Leaf { node, meta }));
            assert(arena_shape(nodes@) =~= before + flatten(tree@, index as int));
            index
        },
        Tree::Branch { children, meta } => {
            nodes.push(None);
            assert(arena_shape(nodes@) =~= before + seq![None]);
            let ghost kid_shapes = shapes(children@);
            assert(tree@->Branch_children =~= kid_shapes);
            let child_indices = append_forest(nodes, children);
            let ghost filled = arena_shape(nodes@);
            assert(filled.len() == nodes.len() && filled.len() > index) by {
                assert((before + seq![None]).len() == index + 1);
            }
            nodes[index] = Some(FlatTreeNode::Branch { children: child_indices, meta });
            proof {
                let all = flatten_from(kid_shapes, 0, index + 1);
                let root = Some(
                    FlatNodeShape::Branch { meta, children: child_roots(kid_shapes, 0, index + 1) },
                );
                assert(tree@ == TreeShape::Branch { meta, children: kid_shapes });
                assert(flatten(tree@, index as int) == seq![root] + all);
                assert(arena_shape(nodes@) =~= filled.update(index as int, root));
                assert(filled.update(index as int, root) =~= before + (seq![root] + all));
            }
            index
        },
    }
}

/// Appends each tree in turn and returns the slots of their roots.
pub fn append_forest<Node, Meta>(
    nodes: &mut Vec<Option<FlatTreeNode<Node, Meta>>>,
    trees: Vec<Tree<Node, Meta>>,
) -> (roots: Vec<usize>)
    ensures
        arena_shape(final(nodes)@) == arena_shape(old(nodes)@) + flatten_from(
            shapes(trees@),
            0,
            old(nodes).len() as int,
        ),
        roots@ == child_roots(shapes(trees@), 0, old(nodes).len() as int),
    decreases trees,
{
    let ghost before = arena_shape(nodes@);
    let ghost kids = trees@;
    let ghost kid_shapes = shapes(trees@);
    let ghost all = flatten_from(kid_shapes, 0, nodes.len() as int);
    let ghost all_roots = child_roots(kid_shapes, 0, nodes.len() as int);
    let mut roots: Vec<usize> = Vec::new();
    assert(arena_shape(nodes@) + all =~= before + all);
    for child in it: trees
        invariant
            it.seq() == kids,
            trees@ == kids,
            kid_shapes == shapes(kids),
            roots.len() == it.index(),
            arena_shape(nodes@) + flatten_from(kid_shapes, it.index() as int, nodes.len() as int)
                == before + all,
            roots@ + child_roots(kid_shapes, it.index() as int, nodes.len() as int) == all_roots,
    {
        let ghost k = it.index() as int;
        let ghost here = arena_shape(nodes@);
        let ghost found = roots@;
        let ghost base = nodes.len() as int;
        assert(child == kids[k]);
        assert(kid_shapes[k] == child@);
        let child_index = append_tree_nodes(nodes, child);
        roots.push(child_index);
        proof {
            lemma_flatten_len(child@, base);
            assert(arena_shape(nodes@).len() == nodes.len());
            assert(here.len() == base);
            assert(nodes.len() == base + flat_size(child@));
            assert(arena_shape(nodes@) + flatten_from(kid_shapes, k + 1, nodes.len() as int)
                =~= here + flatten_from(kid_shapes, k, base));
            assert(roots@ + child_roots(kid_shapes, k + 1, nodes.len() as int) =~= found
                + child_roots(kid_shapes, k, base));
        }
    }
    assert(roots@ =~= all_roots);
    assert(arena_shape(nodes@) =~= before + all);
    roots
}

} // verus!

verus! {

/// The slots of an arena, as shapes.
pub type ArenaShape<Node, Meta> = Seq<Option<FlatNodeShape<Node, Meta>>>;

/// The number of slots that hold a node.
pub open spec fn count_present<Node, Meta>(nodes: ArenaShape<Node, Meta>) -> nat
    decreases nodes.len(),
{
    if nodes.len() == 0 {
        0
    } else {
        count_present(nodes.drop_last()) + if nodes.last() is Some {
            1nat
        } else {
            0nat
        }
    }
}

/// Emptying a slot that holds a node leaves one node fewer.
pub proof fn lemma_count_present_take<Node, Meta>(nodes: ArenaShape<Node, Meta>, i: int)
    requires
        0 <= i < nodes.len(),
        nodes[i] is Some,
    ensures
        count_present(nodes.update(i, None)) + 1 == count_present(nodes),
    decreases nodes.len(),
{
    let taken = nodes.update(i, None);
    if i == nodes.len() - 1 {
        assert(taken.drop_last() =~= nodes.drop_last());
    } else {
        lemma_count_present_take(nodes.drop_last(), i);
        assert(taken.drop_last() =~= nodes.drop_last().update(i, None));
    }
}

/// What rebuilding the nested tree at slot `index` yields, and the arena it
/// leaves: every slot it visits is emptied, so a slot is used at most once.
/// Empty slots and indices outside the arena yield nothing.
pub open spec fn rebuild<Node, Meta>(nodes: ArenaShape<Node, Meta>, index: int) -> (
    Option<TreeShape<Node, Meta>>,
    ArenaShape<Node, Meta>,
)
    decreases count_present(nodes), 0nat,
{
    if 0 <= index < nodes.len() && nodes[index] is Some {
        let rest = nodes.update(index, None);
        match nodes[index].unwrap() {
            FlatNodeShape::Leaf { meta, node } => (Some(TreeShape::Leaf { meta, node }), rest),
            FlatNodeShape::Branch { meta, children } => {
                proof {
                    lemma_count_present_take(nodes, index);
                }
                let built = rebuild_from(rest, children, 0);
                (Some(TreeShape::Branch { meta, children: built.0 }), built.1)
            },
        }
    } else {
        (None, nodes)
    }
}

/// What rebuilding the children from position `k` on yields, in order,
/// leaving out those that yield nothing.
pub open spec fn rebuild_from<Node, Meta>(
    nodes: ArenaShape<Node, Meta>,
    children: Seq<usize>,
    k: int,
) -> (Seq<TreeShape<Node, Meta>>, ArenaShape<Node, Meta>)
    decreases count_present(nodes), 1 + children.len() - k,
{
    if 0 <= k < children.len() {
        let first = rebuild(nodes, children[k] as int);
        let after = if count_present(first.1) <= count_present(nodes) {
            first.1
        } else {
            nodes
        };
        let others = rebuild_from(after, children, k + 1);
        (
            match first.0 {
                Some(tree) => seq![tree] + others.0,
                None => others.0,
            },
            others.1,
        )
    } else {
        (Seq::empty(), nodes)
    }
}

/// Rebuilding never adds a node to the arena.
pub proof fn lemma_rebuild_count<Node, Meta>(nodes: ArenaShape<Node, Meta>, index: int)
    ensures
        count_present(rebuild(nodes, index).1) <= count_present(nodes),
        rebuild(nodes, index).1.len() == nodes.len(),
    decreases count_present(nodes), 0nat,
{
    if 0 <= index < nodes.len() && nodes[index] is Some {
        lemma_count_present_take(nodes, index);
        match nodes[index].unwrap() {
            FlatNodeShape::Leaf { .. } => {},
            FlatNodeShape::Branch { children, .. } => {
                lemma_rebuild_from_count(nodes.update(index, None), children, 0);
            },
        }
    }
}

/// Rebuilding the children from position `k` on never adds a node to the arena.
pub proof fn lemma_rebuild_from_count<Node, Meta>(
    nodes: ArenaShape<Node, Meta>,
    children: Seq<usize>,
    k: int,
)
    ensures
        count_present(rebuild_from(nodes, children, k).1) <= count_present(nodes),
        rebuild_from(nodes, children, k).1.len() == nodes.len(),
    decreases count_present(nodes), 1 + children.len() - k,
{
    if 0 <= k < children.len() {
        lemma_rebuild_count(nodes, children[k] as int);
        lemma_rebuild_from_count(rebuild(nodes, children[k] as int).1, children, k + 1);
    }
}

/// Rebuilds the nested tree at slot `index`, emptying the slots it uses.
pub fn build_tree<Node, Meta>(
    index: usize,
    nodes: &mut Vec<Option<FlatTreeNode<Node, Meta>>>,
) -> (tree: Option<Tree<Node, Meta>>)
    ensures
        option_shape(tree) == rebuild(arena_shape(old(nodes)@), index as int).0,
        arena_shape(final(nodes)@) == rebuild(arena_shape(old(nodes)@), index as int).1,
    decreases count_present(arena_shape(old(nodes)@)),
{
    let ghost before = arena_shape(nodes@);
    if index >= nodes.len() {
        return None;
    }
    let node = match nodes[index].take() {
        Some(node) => node,
        None => {
            assert(arena_shape(nodes@) =~= before);
            return None;
        },
    };
    let ghost rest = before.update(index as int, None);
    assert(arena_shape(nodes@) =~= rest);
    proof {
        lemma_count_present_take(before, index as int);
    }
    match node {
        FlatTreeNode::Leaf { node, meta } => Some(Tree::Leaf { node, meta }),
        FlatTreeNode::Branch { children, meta } => {
            let mut built_children: Vec<Tree<Node, Meta>> = Vec::new();
            let ghost kids = children@;
            let ghost all = rebuild_from(rest, kids, 0);
            for child_index in it: children
                invariant
                    it.seq() == kids,
                    before == arena_shape(old(nodes)@),
                    count_present(arena_shape(nodes@)) <= count_present(rest),
                    count_present(rest) < count_present(before),
                    shapes(built_children@) + rebuild_from(
                        arena_shape(nodes@),
                        kids,
                        it.index() as int,
                    ).0 == all.0,
                    rebuild_from(arena_shape(nodes@), kids, it.index() as int).1 == all.1,
            {
                let ghost k = it.index() as int;
                let ghost here = arena_shape(nodes@);
                let ghost done = shapes(built_children@);
                assert(child_index == kids[k]);
                proof {
                    lemma_rebuild_count(here, child_index as int);
                }
                if let Some(child) = build_tree(child_index, nodes) {
                    built_children.push(child);
                    assert(shapes(built_children@) =~= done + seq![child@]);
                    assert(shapes(built_children@) + rebuild_from(
                        arena_shape(nodes@),
                        kids,
                        k + 1,
                    ).0 =~= done + rebuild_from(here, kids, k).0);
                }
            }
            let tree = Tree::Branch { children: built_children, meta };
            assert(tree@->Branch_children =~= shapes(built_children@));
            assert(shapes(built_children@) =~= all.0);
            Some(tree)
        },
    }
}

} // verus!

verus! {

/// The arena extended with empty slots until it has at least `len` slots.
pub open spec fn padded<Node, Meta>(nodes: ArenaShape<Node, Meta>, len: int) -> ArenaShape<
    Node,
    Meta,
> {
    if nodes.len() >= len {
        nodes
    } else {
        nodes + Seq::new((len - nodes.len()) as nat, |i: int| None)
    }
}

/// Empty slots add no node.
pub proof fn lemma_count_present_padded<Node, Meta>(nodes: ArenaShape<Node, Meta>, len: int)
    ensures
        count_present(padded(nodes, len)) == count_present(nodes),
    decreases len - nodes.len(),
{
    if nodes.len() < len {
        lemma_count_present_padded(nodes, len - 1);
        assert(padded(nodes, len).drop_last() =~= padded(nodes, len - 1));
    }
}

/// The arena after the subtree at slot `index` is removed: the slot and
/// every slot reachable from it through children are emptied. An index
/// outside the arena extends it with empty slots up to that index.
pub open spec fn cleared<Node, Meta>(nodes: ArenaShape<Node, Meta>, index: int) -> ArenaShape<
    Node,
    Meta,
>
    decreases count_present(nodes), 0nat,
{
    if index < 0 {
        nodes
    } else if index >= nodes.len() {
        padded(nodes, index + 1)
    } else {
        match nodes[index] {
            Some(FlatNodeShape::Branch { children, .. }) => {
                proof {
                    lemma_count_present_take(nodes, index);
                }
                cleared_from(nodes.update(index, None), children, 0)
            },
            _ => nodes.update(index, None),
        }
    }
}

/// The arena after the subtrees of the children from position `k` on are removed.
pub open spec fn cleared_from<Node, Meta>(
    nodes: ArenaShape<Node, Meta>,
    children: Seq<usize>,
    k: int,
) -> ArenaShape<Node, Meta>
    decreases count_present(nodes), 1 + children.len() - k,
{
    if 0 <= k < children.len() {
        let first = cleared(nodes, children[k] as int);
        let after = if count_present(first) <= count_present(nodes) {
            first
        } else {
            nodes
        };
        cleared_from(after, children, k + 1)
    } else {
        nodes
    }
}

/// Removing a subtree never adds a node, and never shortens the arena.
pub proof fn lemma_cleared_count<Node, Meta>(nodes: ArenaShape<Node, Meta>, index: int)
    ensures
        count_present(cleared(nodes, index)) <= count_present(nodes),
        cleared(nodes, index).len() >= nodes.len(),
        0 <= index < nodes.len() && nodes[index] is Some ==> count_present(cleared(nodes, index))
            < count_present(nodes),
    decreases count_present(nodes), 0nat,
{
    if index < 0 {
    } else if index >= nodes.len() {
        lemma_count_present_padded(nodes, index + 1);
    } else {
        match nodes[index] {
            Some(FlatNodeShape::Branch { children, .. }) => {
                lemma_count_present_take(nodes, index);
                lemma_cleared_from_count(nodes.update(index, None), children, 0);
            },
            Some(FlatNodeShape::Leaf { .. }) => {
                lemma_count_present_take(nodes, index);
            },
            None => {
                assert(nodes.update(index, None) =~= nodes);
            },
        }
    }
}

/// Removing the subtrees of the children from position `k` on never adds a node,
/// and never shortens the arena.
pub proof fn lemma_cleared_from_count<Node, Meta>(
    nodes: ArenaShape<Node, Meta>,
    children: Seq<usize>,
    k: int,
)
    ensures
        count_present(cleared_from(nodes, children, k)) <= count_present(nodes),
        cleared_from(nodes, children, k).len() >= nodes.len(),
    decreases count_present(nodes), 1 + children.len() - k,
{
    if 0 <= k < children.len() {
        lemma_cleared_count(nodes, children[k] as int);
        lemma_cleared_from_count(cleared(nodes, children[k] as int), children, k + 1);
    }
}

/// The arena after the subtree at slot `index` is replaced by `tree`: the
/// old subtree is removed; a leaf is stored at `index`; a branch is stored at
/// `index` with its children appended behind the last slot. Without a tree
/// the slot stays empty.
pub open spec fn replaced<Node, Meta>(
    nodes: ArenaShape<Node, Meta>,
    tree: Option<TreeShape<Node, Meta>>,
    index: int,
) -> ArenaShape<Node, Meta> {
    let freed = if index < nodes.len() {
        cleared(nodes, index)
    } else {
        nodes
    };
    match tree {
        None => padded(freed, index + 1),
        Some(TreeShape::Leaf { meta, node }) => padded(freed, index + 1).update(
            index,
            Some(FlatNodeShape::Leaf { meta, node }),
        ),
        Some(TreeShape::Branch { meta, children }) => padded(
            freed + flatten_from(children, 0, freed.len() as int),
            index + 1,
        ).update(
            index,
            Some(
                FlatNodeShape::Branch {
                    meta,
                    children: child_roots(children, 0, freed.len() as int),
                },
            ),
        ),
    }
}

/// Extends the arena with empty slots until slot `index` exists.
fn pad_nodes<Node, Meta>(nodes: &mut Vec<Option<FlatTreeNode<Node, Meta>>>, index: usize)
    ensures
        arena_shape(final(nodes)@) == padded(arena_shape(old(nodes)@), index + 1),
        final(nodes).len() > index,
{
    let ghost before = arena_shape(nodes@);
    while nodes.len() <= index
        invariant
            arena_shape(nodes@) == padded(before, nodes.len() as int),
            nodes.len() >= before.len(),
            nodes.len() == before.len() || nodes.len() <= index + 1,
        decreases index + 1 - nodes.len(),
    {
        let ghost here = arena_shape(nodes@);
        nodes.push(None);
        assert(arena_shape(nodes@) =~= padded(before, nodes.len() as int)) by {
            assert(arena_shape(nodes@) =~= here + seq![None]);
        }
    }
    assert(arena_shape(nodes@) =~= padded(before, index + 1));
}

/// Removes the subtree at slot `index`.
pub fn clear_tree_nodes<Node, Meta>(nodes: &mut Vec<Option<FlatTreeNode<Node, Meta>>>, index: usize)
    ensures
        arena_shape(final(nodes)@) == cleared(arena_shape(old(nodes)@), index as int),
    decreases count_present(arena_shape(old(nodes)@)),
{
    let ghost before = arena_shape(nodes@);
    if index >= nodes.len() {
        pad_nodes(nodes, index);
        return ;
    }
    let taken = nodes[index].take();
    assert(arena_shape(nodes@) =~= before.update(index as int, None));
    if let Some(FlatTreeNode::Branch { children, .. }) = taken {
        let ghost kids = children@;
        let ghost rest = before.update(index as int, None);
        proof {
            lemma_count_present_take(before, index as int);
        }
        for child in it: children
            invariant
                it.seq() == kids,
                before == arena_shape(old(nodes)@),
                count_present(arena_shape(nodes@)) <= count_present(rest),
                count_present(rest) < count_present(before),
                cleared_from(arena_shape(nodes@), kids, it.index() as int) == cleared_from(
                    rest,
                    kids,
                    0,
                ),
        {
            assert(child == kids[it.index() as int]);
            proof {
                lemma_cleared_count(arena_shape(nodes@), child as int);
            }
            clear_tree_nodes(nodes, child);
        }
    }
}

/// Replaces the subtree at slot `root_index` by `tree`, or removes it.
pub fn replace_tree_nodes<Node, Meta>(
    nodes: &mut Vec<Option<FlatTreeNode<Node, Meta>>>,
    tree: Option<Tree<Node, Meta>>,
    root_index: usize,
)
    ensures
        arena_shape(final(nodes)@) == replaced(
            arena_shape(old(nodes)@),
            option_shape(tree),
            root_index as int,
        ),
{
    if root_index < nodes.len() {
        clear_tree_nodes(nodes, root_index);
    }
    let ghost freed = arena_shape(nodes@);
    match tree {
        None => {
            pad_nodes(nodes, root_index);
        },
        Some(Tree::Leaf { node, meta }) => {
            pad_nodes(nodes, root_index);
            let ghost wide = arena_shape(nodes@);
            nodes[root_index] = Some(FlatTreeNode::Leaf { node, meta });
            assert(arena_shape(nodes@) =~= wide.update(
                root_index as int,
                Some(FlatNodeShape::Leaf { meta, node }),
            ));
        },
        Some(Tree::Branch { children, meta }) => {
            let ghost kid_shapes = shapes(children@);
            assert(tree.unwrap()@->Branch_children =~= kid_shapes);
            assert(freed.len() == nodes.len());
            let child_indices = append_forest(nodes, children);
            pad_nodes(nodes, root_index);
            let ghost wide = arena_shape(nodes@);
            nodes[root_index] = Some(FlatTreeNode::Branch { children: child_indices, meta });
            assert(arena_shape(nodes@) =~= wide.update(
                root_index as int,
                Some(
                    FlatNodeShape::Branch {
                        meta,
                        children: child_roots(kid_shapes, 0, freed.len() as int),
                    },
                ),
            ));
        },
    }
}

} // verus!

verus! {

/// The children that the slot at `index` names; none for a leaf, an empty
/// slot or an index outside the arena.
pub open spec fn slot_children<Node, Meta>(nodes: ArenaShape<Node, Meta>, index: int) -> Seq<
    usize,
> {
    if 0 <= index < nodes.len() {
        match nodes[index] {
            Some(FlatNodeShape::Branch { children, .. }) => children,
            _ => Seq::empty(),
        }
    } else {
        Seq::empty()
    }
}

/// Every child lies inside the arena, behind the branch that names it.
pub open spec fn arena_ordered<Node, Meta>(nodes: ArenaShape<Node, Meta>) -> bool {
    forall|index: int, k: int|
        0 <= k < slot_children(nodes, index).len() ==> index < (#[trigger] slot_children(
            nodes,
            index,
        )[k]) < nodes.len()
}

/// The slots that a walk from slot `index` visits, and the arena it
/// leaves. The walk empties the slot, visits the children of a branch in
/// their order and then puts the slot itself into the list, so that
/// children stand before their parent. An empty slot and an index outside
/// the arena are skipped; since every slot that is visited is emptied, no
/// slot is visited twice.
pub open spec fn post_order<Node, Meta>(nodes: ArenaShape<Node, Meta>, index: int) -> (
    Seq<usize>,
    ArenaShape<Node, Meta>,
)
    decreases count_present(nodes), 0nat,
{
    if 0 <= index < nodes.len() && nodes[index] is Some {
        let rest = nodes.update(index, None);
        match nodes[index].unwrap() {
            FlatNodeShape::Leaf { .. } => (seq![index as usize], rest),
            FlatNodeShape::Branch { children, .. } => {
                proof {
                    lemma_count_present_take(nodes, index);
                }
                let below = post_order_from(rest, children, 0);
                (below.0 + seq![index as usize], below.1)
            },
        }
    } else {
        (Seq::empty(), nodes)
    }
}

/// The slots that the walks from the children from position `k` on visit,
/// one walk after the other, and the arena they leave.
pub open spec fn post_order_from<Node, Meta>(
    nodes: ArenaShape<Node, Meta>,
    children: Seq<usize>,
    k: int,
) -> (Seq<usize>, ArenaShape<Node, Meta>)
    decreases count_present(nodes), 1 + children.len() - k,
{
    if 0 <= k < children.len() {
        let first = post_order(nodes, children[k] as int);
        let after = if count_present(first.1) <= count_present(nodes) {
            first.1
        } else {
            nodes
        };
        let others = post_order_from(after, children, k + 1);
        (first.0 + others.0, others.1)
    } else {
        (Seq::empty(), nodes)
    }
}

/// A walk never adds a node to the arena.
pub proof fn lemma_post_order_count<Node, Meta>(nodes: ArenaShape<Node, Meta>, index: int)
    ensures
        count_present(post_order(nodes, index).1) <= count_present(nodes),
        post_order(nodes, index).1.len() == nodes.len(),
    decreases count_present(nodes), 0nat,
{
    if 0 <= index < nodes.len() && nodes[index] is Some {
        lemma_count_present_take(nodes, index);
        match nodes[index].unwrap() {
            FlatNodeShape::Leaf { .. } => {},
            FlatNodeShape::Branch { children, .. } => {
                lemma_post_order_from_count(nodes.update(index, None), children, 0);
            },
        }
    }
}

/// The walks from the children from position `k` on never add a node to
/// the arena.
pub proof fn lemma_post_order_from_count<Node, Meta>(
    nodes: ArenaShape<Node, Meta>,
    children: Seq<usize>,
    k: int,
)
    ensures
        count_present(post_order_from(nodes, children, k).1) <= count_present(nodes),
        post_order_from(nodes, children, k).1.len() == nodes.len(),
    decreases count_present(nodes), 1 + children.len() - k,
{
    if 0 <= k < children.len() {
        lemma_post_order_count(nodes, children[k] as int);
        lemma_post_order_from_count(post_order(nodes, children[k] as int).1, children, k + 1);
    }
}

/// The arena without the slots that are marked.
pub open spec fn unmarked_slots<Node, Meta>(
    nodes: ArenaShape<Node, Meta>,
    marks: Seq<bool>,
) -> ArenaShape<Node, Meta> {
    Seq::new(
        nodes.len(),
        |i: int|
            if 0 <= i < marks.len() && marks[i] {
                None
            } else {
                nodes[i]
            },
    )
}

/// Why a slot of a flat tree could not be read.
#[derive(Debug, Clone, Copy, PartialEq, Eq)]
pub enum FlatTreeError {
    NodeMissing(usize),
    IndexOutOfBounds(usize),
}

/// A tree laid out in an arena; the root is slot 0.
#[derive(Debug)]
pub struct FlatTree<Node, Meta> {
    nodes: Vec<Option<FlatTreeNode<Node, Meta>>>,
}

impl<Node, Meta> View for FlatTree<Node, Meta> {
    type V = ArenaShape<Node, Meta>;

    closed spec fn view(&self) -> ArenaShape<Node, Meta> {
        arena_shape(self.nodes@)
    }
}

/// Walks from slot `index` through the slots that are not marked, marks
/// every slot it visits and appends it to `order`, children first.
fn visit_post_order<Node, Meta>(
    nodes: &Vec<Option<FlatTreeNode<Node, Meta>>>,
    index: usize,
    marks: &mut Vec<bool>,
    order: &mut Vec<usize>,
)
    requires
        old(marks).len() == nodes.len(),
    ensures
        final(marks).len() == nodes.len(),
        final(order)@ == old(order)@ + post_order(
            unmarked_slots(arena_shape(nodes@), old(marks)@),
            index as int,
        ).0,
        unmarked_slots(arena_shape(nodes@), final(marks)@) == post_order(
            unmarked_slots(arena_shape(nodes@), old(marks)@),
            index as int,
        ).1,
    decreases count_present(unmarked_slots(arena_shape(nodes@), old(marks)@)),
{
    let ghost arena = arena_shape(nodes@);
    let ghost before = unmarked_slots(arena, marks@);
    let ghost start = order@;
    if index >= nodes.len() {
        assert(order@ =~= start + post_order(before, index as int).0);
        return ;
    }
    assert(arena[index as int] == slot_shape(nodes[index as int]));
    if marks[index] {
        assert(order@ =~= start + post_order(before, index as int).0);
        return ;
    }
    assert(before[index as int] == arena[index as int]);
    match &nodes[index] {
        None => {
            assert(order@ =~= start + post_order(before, index as int).0);
        },
        Some(FlatTreeNode::Leaf { .. }) => {
            marks.set(index, true);
            order.push(index);
            assert(unmarked_slots(arena, marks@) =~= before.update(index as int, None));
            assert(order@ =~= start + post_order(before, index as int).0);
        },
        Some(FlatTreeNode::Branch { children, .. }) => {
            marks.set(index, true);
            let ghost rest = before.update(index as int, None);
            assert(unmarked_slots(arena, marks@) =~= rest);
            proof {
                lemma_count_present_take(before, index as int);
            }
            let ghost all = post_order_from(rest, children@, 0);
            let mut k: usize = 0;
            assert(order@ + all.0 =~= start + all.0);
            while k < children.len()
                invariant
                    k <= children.len(),
                    arena == arena_shape(nodes@),
                    before == unmarked_slots(arena_shape(nodes@), old(marks)@),
                    marks.len() == nodes.len(),
                    count_present(unmarked_slots(arena, marks@)) <= count_present(rest),
                    count_present(rest) < count_present(before),
                    order@ + post_order_from(
                        unmarked_slots(arena, marks@),
                        children@,
                        k as int,
                    ).0 == start + all.0,
                    post_order_from(unmarked_slots(arena, marks@), children@, k as int).1
                        == all.1,
                decreases children.len() - k,
            {
                let child = children[k];
                let ghost here = order@;
                let ghost state = unmarked_slots(arena, marks@);
                proof {
                    lemma_post_order_count(state, child as int);
                }
                visit_post_order(nodes, child, marks, order);
                assert(order@ + post_order_from(
                    unmarked_slots(arena, marks@),
                    children@,
                    k + 1,
                ).0 =~= here + post_order_from(state, children@, k as int).0);
                k += 1;
            }
            assert(order@ =~= start + all.0);
            order.push(index);
            assert(order@ =~= start + post_order(before, index as int).0);
        },
    }
}

/// As many marks as the number says, none of them set.
fn no_marks(count: usize) -> (marks: Vec<bool>)
    ensures
        marks.len() == count,
        forall|i: int| 0 <= i < count ==> !(#[trigger] marks[i]),
{
    let mut marks: Vec<bool> = Vec::new();
    while marks.len() < count
        invariant
            marks.len() <= count,
            forall|i: int| 0 <= i < marks.len() ==> !(#[trigger] marks[i]),
        decreases count - marks.len(),
    {
        marks.push(false);
    }
    marks
}

impl<Node, Meta> FlatTree<Node, Meta> {
    /// Every child lies inside the arena, behind the branch that names it.
    /// Every flat tree made by this module is well formed.
    pub open spec fn well_formed(&self) -> bool {
        arena_ordered(self@)
    }

    /// No slot is named as a child twice. Laying out a tree, appending
    /// and replacing keep it so.
    pub open spec fn unshared(&self) -> bool {
        crate::tree::subtree::unshared(self@)
    }

    /// The slot of the root.
    pub fn root_index() -> (index: usize)
        ensures
            index == 0,
    {
        0
    }

    /// The root, unless its slot is missing or empty.
    pub fn root(&self) -> (node: Option<&FlatTreeNode<Node, Meta>>)
        ensures
            match node {
                Some(node) => self@.len() > 0 && self@[0] == Some(node@),
                None => self@.len() == 0 || self@[0] is None,
            },
    {
        if self.nodes.len() == 0 {
            None
        } else {
            assert(self@[0] == slot_shape(self.nodes[0]));
            self.nodes[0].as_ref()
        }
    }

    /// Whether the tree has no root.
    pub fn is_empty(&self) -> (b: bool)
        ensures
            b == (self@.len() == 0 || self@[0] is None),
    {
        self.root().is_none()
    }

    /// The number of slots, empty ones included.
    pub fn len(&self) -> (n: usize)
        ensures
            n == self@.len(),
    {
        self.nodes.len()
    }

    /// The node in slot `index`.
    pub fn get(&self, index: usize) -> (node: Result<&FlatTreeNode<Node, Meta>, FlatTreeError>)
        ensures
            match node {
                Ok(node) => index < self@.len() && self@[index as int] == Some(node@),
                Err(FlatTreeError::IndexOutOfBounds(i)) => i == index && index >= self@.len(),
                Err(FlatTreeError::NodeMissing(i)) => i == index && index < self@.len()
                    && self@[index as int] is None,
            },
    {
        if index >= self.nodes.len() {
            return Err(FlatTreeError::IndexOutOfBounds(index));
        }
        assert(self@[index as int] == slot_shape(self.nodes[index as int]));
        match &self.nodes[index] {
            Some(node) => Ok(node),
            None => Err(FlatTreeError::NodeMissing(index)),
        }
    }

    /// Appends `tree` behind the last slot and returns the slot of its root.
    pub fn append_tree(&mut self, tree: Tree<Node, Meta>) -> (index: usize)
        ensures
            index == old(self)@.len(),
            final(self)@ == old(self)@ + flatten(tree@, old(self)@.len() as int),
            old(self).well_formed() ==> final(self).well_formed(),
            old(self).well_formed() && old(self).unshared() ==> final(self).unshared(),
    {
        let ghost shape = tree@;
        let index = append_tree_nodes(&mut self.nodes, tree);
        proof {
            lemma_flatten_len(shape, index as int);
            assert(self@.len() == self.nodes.len());
            lemma_flatten_ordered(old(self)@, shape);
            if old(self).well_formed() && old(self).unshared() {
                crate::tree::subtree::lemma_append_unshared(old(self)@, shape);
            }
        }
        index
    }

    /// Replaces the subtree at slot `root_index` by `tree`, or removes it.
    pub fn replace_tree(&mut self, tree: Option<Tree<Node, Meta>>, root_index: usize)
        ensures
            final(self)@ == replaced(old(self)@, option_shape(tree), root_index as int),
            old(self).well_formed() && root_index < old(self)@.len()
                ==> final(self).well_formed(),
            old(self).well_formed() && old(self).unshared() && root_index < old(self)@.len()
                ==> final(self).unshared(),
    {
        let ghost shape = option_shape(tree);
        replace_tree_nodes(&mut self.nodes, tree, root_index);
        proof {
            assert(self@.len() == self.nodes.len());
            if old(self).well_formed() && root_index < old(self)@.len() {
                lemma_replaced_ordered(old(self)@, shape, root_index as int);
                if old(self).unshared() {
                    crate::tree::subtree::lemma_replaced_unshared(
                        old(self)@,
                        shape,
                        root_index as int,
                    );
                }
            }
        }
    }

    /// The slots that can be reached from the root through children that
    /// lie inside the arena and hold a node, each slot once, children
    /// before their parent.
    pub fn depth_first_search(&self) -> (order: Vec<usize>)
        ensures
            order@ == post_order(self@, 0).0,
    {
        let mut order: Vec<usize> = Vec::new();
        let mut marks = no_marks(self.nodes.len());
        assert(unmarked_slots(self@, marks@) =~= self@);
        visit_post_order(&self.nodes, 0, &mut marks, &mut order);
        assert(order@ =~= post_order(self@, 0).0);
        order
    }
}

} // verus!

verus! {

/// The slots that a tree adds name only slots among themselves, each child
/// behind its parent.
pub proof fn lemma_flatten_children<Node, Meta>(tree: TreeShape<Node, Meta>, base: int, i: int, k: int)
    requires
        0 <= base,
        base + flat_size(tree) <= usize::MAX,
        0 <= k < slot_children(flatten(tree, base), i).len(),
    ensures
        base + i < slot_children(flatten(tree, base), i)[k] < base + flat_size(tree),
    decreases tree, 0nat,
{
    lemma_flatten_len(tree, base);
    match tree {
        TreeShape::Leaf { .. } => {},
        TreeShape::Branch { children, .. } => {
            lemma_flatten_from_len(children, 0, base + 1);
            if i == 0 {
                lemma_child_roots_range(children, 0, base + 1, k);
            } else {
                assert(flatten(tree, base)[i] == flatten_from(children, 0, base + 1)[i - 1]);
                assert(slot_children(flatten(tree, base), i) == slot_children(
                    flatten_from(children, 0, base + 1),
                    i - 1,
                ));
                lemma_flatten_from_children(children, 0, base + 1, i - 1, k);
            }
        },
    }
}

/// The roots of the trees from position `from` on lie among the slots that the trees take.
pub proof fn lemma_child_roots_range<Node, Meta>(
    trees: Seq<TreeShape<Node, Meta>>,
    from: int,
    base: int,
    k: int,
)
    requires
        0 <= base,
        0 <= from,
        base + flat_size_from(trees, from) <= usize::MAX,
        0 <= k < child_roots(trees, from, base).len(),
    ensures
        base <= child_roots(trees, from, base)[k] < base + flat_size_from(trees, from),
    decreases trees, trees.len() - from,
{
    if 0 <= from < trees.len() {
        lemma_flatten_len(trees[from], base);
        if k > 0 {
            lemma_child_roots_range(trees, from + 1, base + flat_size(trees[from]), k - 1);
        }
    }
}

/// The slots that the trees from position `from` on add name only slots among
/// themselves, each child behind its parent.
pub proof fn lemma_flatten_from_children<Node, Meta>(
    trees: Seq<TreeShape<Node, Meta>>,
    from: int,
    base: int,
    i: int,
    k: int,
)
    requires
        0 <= base,
        0 <= from,
        base + flat_size_from(trees, from) <= usize::MAX,
        0 <= k < slot_children(flatten_from(trees, from, base), i).len(),
    ensures
        base + i < slot_children(flatten_from(trees, from, base), i)[k] < base + flat_size_from(
            trees,
            from,
        ),
    decreases trees, trees.len() - from,
{
    if 0 <= from < trees.len() {
        let first = flatten(trees[from], base);
        let others = flatten_from(trees, from + 1, base + flat_size(trees[from]));
        lemma_flatten_len(trees[from], base);
        lemma_flatten_from_len(trees, from + 1, base + flat_size(trees[from]));
        if i < first.len() {
            assert((first + others)[i] == first[i]);
            assert(slot_children(first + others, i) == slot_children(first, i));
            lemma_flatten_children(trees[from], base, i, k);
        } else {
            assert((first + others)[i] == others[i - first.len()]);
            assert(slot_children(first + others, i) == slot_children(others, i - first.len()));
            lemma_flatten_from_children(
                trees,
                from + 1,
                base + flat_size(trees[from]),
                i - first.len(),
                k,
            );
        }
    }
}

/// Appending a tree keeps the arena well formed.
pub proof fn lemma_flatten_ordered<Node, Meta>(nodes: ArenaShape<Node, Meta>, tree: TreeShape<Node, Meta>)
    requires
        nodes.len() + flat_size(tree) <= usize::MAX,
    ensures
        arena_ordered(nodes) ==> arena_ordered(nodes + flatten(tree, nodes.len() as int)),
{
    let base = nodes.len() as int;
    let added = flatten(tree, base);
    let both = nodes + added;
    lemma_flatten_len(tree, base);
    if arena_ordered(nodes) {
        assert forall|index: int, k: int| 0 <= k < slot_children(both, index).len() implies index
            < (#[trigger] slot_children(both, index)[k]) < both.len() by {
            if index < base {
                assert(slot_children(both, index) == slot_children(nodes, index));
                assert(index < slot_children(nodes, index)[k] < nodes.len());
            } else {
                assert(both[index] == added[index - base]);
                assert(slot_children(both, index) == slot_children(added, index - base));
                lemma_flatten_children(tree, base, index - base, k);
            }
        }
    }
}

} // verus!

verus! {

/// `after` is `before` with some slots emptied.
pub open spec fn thinned<Node, Meta>(
    before: ArenaShape<Node, Meta>,
    after: ArenaShape<Node, Meta>,
) -> bool {
    &&& after.len() == before.len()
    &&& forall|i: int| 0 <= i < before.len() ==> (#[trigger] after[i]) is None || after[i] == before[i]
}

/// Emptying slots keeps the arena well formed.
pub proof fn lemma_thinned_ordered<Node, Meta>(
    before: ArenaShape<Node, Meta>,
    after: ArenaShape<Node, Meta>,
)
    requires
        arena_ordered(before),
        thinned(before, after),
    ensures
        arena_ordered(after),
{
    assert forall|index: int, k: int| 0 <= k < slot_children(after, index).len() implies index < (
    #[trigger] slot_children(after, index)[k]) < after.len() by {
        assert(after[index] is None || after[index] == before[index]);
        assert(slot_children(after, index) == slot_children(before, index));
        assert(index < slot_children(before, index)[k] < before.len());
    }
}

/// Removing a subtree of a well-formed arena only empties slots.
pub proof fn lemma_cleared_thins<Node, Meta>(nodes: ArenaShape<Node, Meta>, index: int)
    requires
        arena_ordered(nodes),
        0 <= index < nodes.len(),
    ensures
        thinned(nodes, cleared(nodes, index)),
        cleared(nodes, index)[index] is None,
    decreases count_present(nodes), 0nat,
{
    let rest = nodes.update(index, None);
    assert(thinned(nodes, rest));
    match nodes[index] {
        Some(FlatNodeShape::Branch { children, .. }) => {
            lemma_count_present_take(nodes, index);
            lemma_thinned_ordered(nodes, rest);
            assert forall|j: int| 0 <= j < children.len() implies index < (#[trigger] children[j])
                < rest.len() by {
                assert(children[j] == slot_children(nodes, index)[j]);
            }
            lemma_cleared_from_thins(rest, children, 0, index);
        },
        _ => {},
    }
}

/// Removing the subtrees of the children of an emptied slot only empties slots.
pub proof fn lemma_cleared_from_thins<Node, Meta>(
    nodes: ArenaShape<Node, Meta>,
    children: Seq<usize>,
    k: int,
    parent: int,
)
    requires
        arena_ordered(nodes),
        0 <= k,
        0 <= parent < nodes.len(),
        nodes[parent] is None,
        forall|j: int| 0 <= j < children.len() ==> parent < (#[trigger] children[j]) < nodes.len(),
    ensures
        thinned(nodes, cleared_from(nodes, children, k)),
        cleared_from(nodes, children, k)[parent] is None,
    decreases count_present(nodes), 1 + children.len() - k,
{
    if 0 <= k < children.len() {
        let first = cleared(nodes, children[k] as int);
        lemma_cleared_thins(nodes, children[k] as int);
        lemma_cleared_count(nodes, children[k] as int);
        lemma_thinned_ordered(nodes, first);
        assert(first[parent] is None || first[parent] == nodes[parent]);
        lemma_cleared_from_thins(first, children, k + 1, parent);
        let last = cleared_from(first, children, k + 1);
        assert forall|i: int| 0 <= i < nodes.len() implies (#[trigger] last[i]) is None || last[i]
            == nodes[i] by {
            assert(first[i] is None || first[i] == nodes[i]);
        }
    }
}

/// Replacing a subtree inside a well-formed arena keeps it well formed.
pub proof fn lemma_replaced_ordered<Node, Meta>(
    nodes: ArenaShape<Node, Meta>,
    tree: Option<TreeShape<Node, Meta>>,
    index: int,
)
    requires
        arena_ordered(nodes),
        0 <= index < nodes.len(),
        replaced(nodes, tree, index).len() <= usize::MAX,
    ensures
        arena_ordered(replaced(nodes, tree, index)),
{
    let freed = cleared(nodes, index);
    lemma_cleared_thins(nodes, index);
    lemma_thinned_ordered(nodes, freed);
    let after = replaced(nodes, tree, index);
    match tree {
        None => {},
        Some(TreeShape::Leaf { meta, node }) => {
            assert forall|i: int, k: int| 0 <= k < slot_children(after, i).len() implies i < (
            #[trigger] slot_children(after, i)[k]) < after.len() by {
                assert(i != index);
                assert(slot_children(after, i) == slot_children(freed, i));
                assert(i < slot_children(freed, i)[k] < freed.len());
            }
        },
        Some(TreeShape::Branch { meta, children }) => {
            let base = freed.len() as int;
            let added = flatten_from(children, 0, base);
            let roots = child_roots(children, 0, base);
            lemma_flatten_from_len(children, 0, base);
            assert(after.len() == base + flat_size_from(children, 0));
            assert forall|i: int, k: int| 0 <= k < slot_children(after, i).len() implies i < (
            #[trigger] slot_children(after, i)[k]) < after.len() by {
                if i == index {
                    assert(slot_children(after, i) == roots);
                    lemma_child_roots_range(children, 0, base, k);
                } else if i < base {
                    assert(after[i] == freed[i]);
                    assert(slot_children(after, i) == slot_children(freed, i));
                    assert(i < slot_children(freed, i)[k] < freed.len());
                } else {
                    assert(after[i] == added[i - base]);
                    assert(slot_children(after, i) == slot_children(added, i - base));
                    lemma_flatten_from_children(children, 0, base, i - base, k);
                }
            }
        },
    }
}

} // verus!

verus! {

/// `n` empty slots.
pub open spec fn vacant<Node, Meta>(n: nat) -> ArenaShape<Node, Meta> {
    Seq::new(n, |i: int| None)
}

/// Rebuilding at the root of a freshly appended tree yields that tree and
/// empties exactly its slots, whatever stands before and behind them.
pub proof fn lemma_rebuild_flatten<Node, Meta>(
    tree: TreeShape<Node, Meta>,
    pre: ArenaShape<Node, Meta>,
    post: ArenaShape<Node, Meta>,
)
    requires
        pre.len() + flat_size(tree) <= usize::MAX,
    ensures
        rebuild(pre + flatten(tree, pre.len() as int) + post, pre.len() as int) == (
            Some(tree),
            pre + vacant(flat_size(tree)) + post,
        ),
    decreases tree, 0nat,
{
    let base = pre.len() as int;
    let arena = pre + flatten(tree, base) + post;
    lemma_flatten_len(tree, base);
    assert(arena[base] == flatten(tree, base)[0]);
    match tree {
        TreeShape::Leaf { .. } => {
            assert(arena.update(base, None) =~= pre + vacant(1) + post);
        },
        TreeShape::Branch { meta, children } => {
            let roots = child_roots(children, 0, base + 1);
            let rest = arena.update(base, None);
            let head = pre + seq![None];
            lemma_flatten_from_len(children, 0, base + 1);
            assert(rest =~= head + flatten_from(children, 0, base + 1) + post);
            assert(roots.subrange(0, roots.len() as int) =~= roots);
            lemma_rebuild_from_flatten(children, 0, head, post, roots);
            assert(children.subrange(0, children.len() as int) =~= children);
            assert(head + vacant(flat_size_from(children, 0)) + post =~= pre + vacant(
                flat_size(tree),
            ) + post);
        },
    }
}

/// Rebuilding at the roots of freshly appended trees yields those trees and
/// empties exactly their slots.
pub proof fn lemma_rebuild_from_flatten<Node, Meta>(
    trees: Seq<TreeShape<Node, Meta>>,
    from: int,
    pre: ArenaShape<Node, Meta>,
    post: ArenaShape<Node, Meta>,
    children: Seq<usize>,
)
    requires
        0 <= from <= trees.len(),
        children.len() == trees.len(),
        children.subrange(from, children.len() as int) == child_roots(trees, from, pre.len() as int),
        pre.len() + flat_size_from(trees, from) <= usize::MAX,
    ensures
        rebuild_from(pre + flatten_from(trees, from, pre.len() as int) + post, children, from) == (
            trees.subrange(from, trees.len() as int),
            pre + vacant(flat_size_from(trees, from)) + post,
        ),
    decreases trees, trees.len() - from,
{
    let base = pre.len() as int;
    let arena = pre + flatten_from(trees, from, base) + post;
    if from < trees.len() {
        let size = flat_size(trees[from]);
        let others = flatten_from(trees, from + 1, base + size);
        let behind = others + post;
        let head = pre + vacant(size);
        lemma_flatten_len(trees[from], base);
        assert(children[from] == children.subrange(from, children.len() as int)[0]);
        assert(children[from] == base);
        assert(arena =~= pre + flatten(trees[from], base) + behind);
        lemma_rebuild_flatten(trees[from], pre, behind);
        lemma_rebuild_count(arena, base);
        assert(head + behind =~= head + others + post);
        assert(children.subrange(from + 1, children.len() as int) =~= children.subrange(
            from,
            children.len() as int,
        ).drop_first());
        assert(child_roots(trees, from, base).drop_first() =~= child_roots(
            trees,
            from + 1,
            base + size,
        ));
        lemma_rebuild_from_flatten(trees, from + 1, head, post, children);
        assert(seq![trees[from]] + trees.subrange(from + 1, trees.len() as int) =~= trees.subrange(
            from,
            trees.len() as int,
        ));
        assert(head + vacant(flat_size_from(trees, from + 1)) + post =~= pre + vacant(
            flat_size_from(trees, from),
        ) + post);
    } else {
        assert(trees.subrange(from, trees.len() as int) =~= Seq::empty());
        assert(pre + vacant(0) + post =~= arena);
    }
}

/// Flattening a tree puts its root in slot 0, and rebuilding the nested
/// tree from the result gives the tree back.
pub proof fn lemma_flatten_round_trip<Node, Meta>(tree: TreeShape<Node, Meta>)
    requires
        flat_size(tree) <= usize::MAX,
    ensures
        flatten(tree, 0).len() > 0,
        flatten(tree, 0)[0] is Some,
        rebuild(flatten(tree, 0), 0).0 == Some(tree),
{
    lemma_flatten_len(tree, 0);
    lemma_rebuild_flatten(tree, Seq::empty(), Seq::empty());
    assert(Seq::empty() + flatten(tree, 0) + Seq::empty() =~= flatten(tree, 0));
}

/// After the subtree at a slot of the arena is replaced by `tree`,
/// rebuilding at that slot yields `tree`.
pub proof fn lemma_replaced_rebuild<Node, Meta>(
    nodes: ArenaShape<Node, Meta>,
    tree: TreeShape<Node, Meta>,
    index: int,
)
    requires
        0 <= index < nodes.len(),
        replaced(nodes, Some(tree), index).len() <= usize::MAX,
    ensures
        rebuild(replaced(nodes, Some(tree), index), index).0 == Some(tree),
{
    let freed = cleared(nodes, index);
    lemma_cleared_count(nodes, index);
    let after = replaced(nodes, Some(tree), index);
    match tree {
        TreeShape::Leaf { .. } => {},
        TreeShape::Branch { meta, children } => {
            let base = freed.len() as int;
            let roots = child_roots(children, 0, base);
            lemma_flatten_from_len(children, 0, base);
            let rest = after.update(index, None);
            let head = freed.update(index, None);
            assert(rest =~= head + flatten_from(children, 0, base) + Seq::empty());
            assert(roots.subrange(0, roots.len() as int) =~= roots);
            lemma_rebuild_from_flatten(children, 0, head, Seq::empty(), roots);
            assert(children.subrange(0, children.len() as int) =~= children);
        },
    }
}

/// Whether the slot stands in the list.
pub open spec fn listed(order: Seq<usize>, slot: int) -> bool {
    exists|q: int| 0 <= q < order.len() && #[trigger] order[q] == slot
}

/// Whether `after` is `before` without the slots of the list, all of which
/// held a node.
pub open spec fn walked<Node, Meta>(
    before: ArenaShape<Node, Meta>,
    order: Seq<usize>,
    after: ArenaShape<Node, Meta>,
) -> bool {
    &&& after.len() == before.len()
    &&& forall|x: int|
        0 <= x < before.len() ==> #[trigger] after[x] == if listed(order, x) {
            None
        } else {
            before[x]
        }
    &&& forall|q: int|
        0 <= q < order.len() ==> (#[trigger] order[q]) < before.len() && before[order[q] as int] is Some
}

/// A walk visits slots that hold a node and leaves the arena without
/// them. A slot that holds a node comes last in its own walk.
pub proof fn lemma_post_order_walked<Node, Meta>(nodes: ArenaShape<Node, Meta>, index: int)
    requires
        nodes.len() <= usize::MAX,
    ensures
        walked(nodes, post_order(nodes, index).0, post_order(nodes, index).1),
        0 <= index < nodes.len() && nodes[index] is Some ==> post_order(nodes, index).0.len() >= 1
            && post_order(nodes, index).0.last() == index,
    decreases count_present(nodes), 0nat,
{
    let order = post_order(nodes, index).0;
    let after = post_order(nodes, index).1;
    if 0 <= index < nodes.len() && nodes[index] is Some {
        let rest = nodes.update(index, None);
        lemma_count_present_take(nodes, index);
        match nodes[index].unwrap() {
            FlatNodeShape::Leaf { .. } => {
                assert(order[0] == index);
                assert forall|x: int| 0 <= x < nodes.len() implies #[trigger] after[x] == if listed(
                    order,
                    x,
                ) {
                    None
                } else {
                    nodes[x]
                } by {
                    if x == index {
                        assert(listed(order, x));
                    }
                }
            },
            FlatNodeShape::Branch { children, .. } => {
                let below = post_order_from(rest, children, 0);
                lemma_post_order_from_walked(rest, children, 0);
                assert(order[below.0.len() as int] == index);
                assert(listed(order, index));
                assert forall|x: int| 0 <= x < nodes.len() implies #[trigger] after[x] == if listed(
                    order,
                    x,
                ) {
                    None
                } else {
                    nodes[x]
                } by {
                    if listed(below.0, x) {
                        let q = choose|q: int| 0 <= q < below.0.len() && #[trigger] below.0[q] == x;
                        assert(order[q] == x);
                    } else if x != index {
                        if listed(order, x) {
                            let q = choose|q: int| 0 <= q < order.len() && #[trigger] order[q] == x;
                            assert(below.0[q] == x);
                        }
                    }
                }
                assert forall|q: int| 0 <= q < order.len() implies (#[trigger] order[q])
                    < nodes.len() && nodes[order[q] as int] is Some by {
                    if q < below.0.len() {
                        assert(below.0[q] == order[q]);
                    }
                }
            },
        }
    }
}

/// The walks from the children from position `k` on visit slots that hold
/// a node and leave the arena without them. Every child from there on
/// that holds a node is visited.
pub proof fn lemma_post_order_from_walked<Node, Meta>(
    nodes: ArenaShape<Node, Meta>,
    children: Seq<usize>,
    k: int,
)
    requires
        0 <= k,
        nodes.len() <= usize::MAX,
    ensures
        walked(nodes, post_order_from(nodes, children, k).0, post_order_from(nodes, children, k).1),
        forall|j: int|
            k <= j < children.len() && (#[trigger] children[j]) < nodes.len()
                && nodes[children[j] as int] is Some ==> listed(
                post_order_from(nodes, children, k).0,
                children[j] as int,
            ),
    decreases count_present(nodes), 1 + children.len() - k,
{
    if k < children.len() {
        let child = children[k] as int;
        let first = post_order(nodes, child);
        lemma_post_order_walked(nodes, child);
        lemma_post_order_count(nodes, child);
        let others = post_order_from(first.1, children, k + 1);
        lemma_post_order_from_walked(first.1, children, k + 1);
        let order = first.0 + others.0;
        assert forall|x: int| 0 <= x < nodes.len() implies #[trigger] others.1[x] == if listed(
            order,
            x,
        ) {
            None
        } else {
            nodes[x]
        } by {
            if listed(first.0, x) {
                let q = choose|q: int| 0 <= q < first.0.len() && #[trigger] first.0[q] == x;
                assert(order[q] == x);
            } else if listed(others.0, x) {
                let q = choose|q: int| 0 <= q < others.0.len() && #[trigger] others.0[q] == x;
                assert(order[first.0.len() + q] == x);
            } else if listed(order, x) {
                let q = choose|q: int| 0 <= q < order.len() && #[trigger] order[q] == x;
                if q < first.0.len() {
                    assert(first.0[q] == x);
                } else {
                    assert(others.0[q - first.0.len()] == x);
                }
            }
        }
        assert forall|q: int| 0 <= q < order.len() implies (#[trigger] order[q]) < nodes.len()
            && nodes[order[q] as int] is Some by {
            if q < first.0.len() {
                assert(first.0[q] == order[q]);
            } else {
                assert(others.0[q - first.0.len()] == order[q]);
                assert(first.1[order[q] as int] is Some);
            }
        }
        assert forall|j: int|
            k <= j < children.len() && (#[trigger] children[j]) < nodes.len()
                && nodes[children[j] as int] is Some implies listed(order, children[j] as int) by {
            let c = children[j] as int;
            if j == k {
                assert(order[first.0.len() - 1] == c);
            } else if first.1[c] is Some {
                let q = choose|q: int| 0 <= q < others.0.len() && #[trigger] others.0[q] == c;
                assert(order[first.0.len() + q] == c);
            } else {
                let q = choose|q: int| 0 <= q < first.0.len() && #[trigger] first.0[q] == c;
                assert(order[q] == c);
            }
        }
    }
}

/// A walk visits no slot twice.
pub proof fn lemma_post_order_once<Node, Meta>(
    nodes: ArenaShape<Node, Meta>,
    index: int,
    p: int,
    q: int,
)
    requires
        nodes.len() <= usize::MAX,
        0 <= p < q < post_order(nodes, index).0.len(),
    ensures
        post_order(nodes, index).0[p] != post_order(nodes, index).0[q],
    decreases count_present(nodes), 0nat,
{
    if 0 <= index < nodes.len() && nodes[index] is Some {
        let rest = nodes.update(index, None);
        lemma_count_present_take(nodes, index);
        match nodes[index].unwrap() {
            FlatNodeShape::Leaf { .. } => {},
            FlatNodeShape::Branch { children, .. } => {
                let below = post_order_from(rest, children, 0);
                lemma_post_order_from_walked(rest, children, 0);
                if q < below.0.len() {
                    lemma_post_order_from_once(rest, children, 0, p, q);
                } else {
                    assert(rest[below.0[p] as int] is Some);
                }
            },
        }
    }
}

/// The walks from the children of a slot visit no slot twice.
pub proof fn lemma_post_order_from_once<Node, Meta>(
    nodes: ArenaShape<Node, Meta>,
    children: Seq<usize>,
    k: int,
    p: int,
    q: int,
)
    requires
        nodes.len() <= usize::MAX,
        0 <= k,
        0 <= p < q < post_order_from(nodes, children, k).0.len(),
    ensures
        post_order_from(nodes, children, k).0[p] != post_order_from(nodes, children, k).0[q],
    decreases count_present(nodes), 1 + children.len() - k,
{
    if k < children.len() {
        let child = children[k] as int;
        let first = post_order(nodes, child);
        lemma_post_order_count(nodes, child);
        lemma_post_order_walked(nodes, child);
        let others = post_order_from(first.1, children, k + 1);
        lemma_post_order_from_walked(first.1, children, k + 1);
        if q < first.0.len() {
            lemma_post_order_once(nodes, child, p, q);
        } else if p >= first.0.len() {
            lemma_post_order_from_once(
                first.1,
                children,
                k + 1,
                p - first.0.len(),
                q - first.0.len(),
            );
        } else {
            let x = others.0[q - first.0.len()] as int;
            assert(first.1[x] is Some);
            if first.0[p] == x {
                assert(listed(first.0, x));
            }
        }
    }
}

/// Whether the ranks rise along the children: every child that lies
/// inside the arena has a higher rank than the branch that names it. An
/// arena has such ranks where no slot lies below itself.
pub open spec fn ranks_rise<Node, Meta>(
    nodes: ArenaShape<Node, Meta>,
    rank: spec_fn(int) -> int,
) -> bool {
    forall|index: int, k: int|
        0 <= k < slot_children(nodes, index).len() && (#[trigger] slot_children(nodes, index)[k])
            < nodes.len() ==> rank(index) < rank(slot_children(nodes, index)[k] as int)
}

/// Where every child lies behind its parent, the slots themselves are
/// ranks that rise.
pub proof fn lemma_ordered_ranks<Node, Meta>(nodes: ArenaShape<Node, Meta>)
    requires
        arena_ordered(nodes),
    ensures
        ranks_rise(nodes, |i: int| i),
{
    let rank = |i: int| i;
    assert forall|index: int, k: int|
        0 <= k < slot_children(nodes, index).len() && (#[trigger] slot_children(nodes, index)[k])
            < nodes.len() implies rank(index) < rank(slot_children(nodes, index)[k] as int) by {
        assert(index < slot_children(nodes, index)[k]);
    }
}

/// Ranks that rise keep rising where slots are emptied.
pub proof fn lemma_thinned_ranks<Node, Meta>(
    before: ArenaShape<Node, Meta>,
    after: ArenaShape<Node, Meta>,
    rank: spec_fn(int) -> int,
)
    requires
        ranks_rise(before, rank),
        thinned(before, after),
    ensures
        ranks_rise(after, rank),
{
    assert forall|index: int, k: int|
        0 <= k < slot_children(after, index).len() && (#[trigger] slot_children(after, index)[k])
            < after.len() implies rank(index) < rank(slot_children(after, index)[k] as int) by {
        assert(after[index] is None || after[index] == before[index]);
        assert(slot_children(after, index) == slot_children(before, index));
        assert(slot_children(before, index)[k] < before.len());
    }
}

/// Where ranks rise, a walk from a slot visits no slot of a lower rank
/// than that slot.
pub proof fn lemma_post_order_behind<Node, Meta>(
    nodes: ArenaShape<Node, Meta>,
    rank: spec_fn(int) -> int,
    index: int,
    q: int,
)
    requires
        ranks_rise(nodes, rank),
        nodes.len() <= usize::MAX,
        0 <= q < post_order(nodes, index).0.len(),
    ensures
        rank(post_order(nodes, index).0[q] as int) >= rank(index),
    decreases count_present(nodes), 0nat,
{
    if 0 <= index < nodes.len() && nodes[index] is Some {
        let rest = nodes.update(index, None);
        lemma_count_present_take(nodes, index);
        match nodes[index].unwrap() {
            FlatNodeShape::Leaf { .. } => {},
            FlatNodeShape::Branch { children, .. } => {
                let below = post_order_from(rest, children, 0);
                if q < below.0.len() {
                    assert(thinned(nodes, rest));
                    lemma_thinned_ranks(nodes, rest, rank);
                    assert forall|j: int|
                        0 <= j < children.len() && (#[trigger] children[j])
                            < nodes.len() implies rank(children[j] as int) > rank(index) by {
                        assert(children[j] == slot_children(nodes, index)[j]);
                    }
                    lemma_post_order_from_behind(rest, rank, children, 0, rank(index), q);
                }
            },
        }
    }
}

/// The same of the walks from the children of a slot.
pub proof fn lemma_post_order_from_behind<Node, Meta>(
    nodes: ArenaShape<Node, Meta>,
    rank: spec_fn(int) -> int,
    children: Seq<usize>,
    k: int,
    bound: int,
    q: int,
)
    requires
        ranks_rise(nodes, rank),
        nodes.len() <= usize::MAX,
        0 <= k,
        forall|j: int|
            0 <= j < children.len() && (#[trigger] children[j]) < nodes.len() ==> rank(
                children[j] as int,
            ) > bound,
        0 <= q < post_order_from(nodes, children, k).0.len(),
    ensures
        rank(post_order_from(nodes, children, k).0[q] as int) > bound,
    decreases count_present(nodes), 1 + children.len() - k,
{
    if k < children.len() {
        let child = children[k] as int;
        let first = post_order(nodes, child);
        lemma_post_order_count(nodes, child);
        if q < first.0.len() {
            lemma_post_order_behind(nodes, rank, child, q);
        } else {
            lemma_post_order_walked(nodes, child);
            assert(thinned(nodes, first.1));
            lemma_thinned_ranks(nodes, first.1, rank);
            lemma_post_order_from_behind(first.1, rank, children, k + 1, bound, q - first.0.len());
        }
    }
}

/// Where ranks rise, that is where no slot lies below itself, a child
/// that lies inside the arena and holds a node stands before its parent in
/// the order of a walk.
pub proof fn lemma_post_order_child_before<Node, Meta>(
    nodes: ArenaShape<Node, Meta>,
    rank: spec_fn(int) -> int,
    root: int,
    p: int,
    k: int,
) -> (q: int)
    requires
        ranks_rise(nodes, rank),
        nodes.len() <= usize::MAX,
        0 <= p < post_order(nodes, root).0.len(),
        0 <= k < slot_children(nodes, post_order(nodes, root).0[p] as int).len(),
        slot_children(nodes, post_order(nodes, root).0[p] as int)[k] < nodes.len(),
        nodes[slot_children(nodes, post_order(nodes, root).0[p] as int)[k] as int] is Some,
    ensures
        0 <= q < p,
        post_order(nodes, root).0[q] == slot_children(
            nodes,
            post_order(nodes, root).0[p] as int,
        )[k],
    decreases count_present(nodes), 0nat,
{
    let order = post_order(nodes, root).0;
    let rest = nodes.update(root, None);
    lemma_count_present_take(nodes, root);
    assert(thinned(nodes, rest));
    lemma_thinned_ranks(nodes, rest, rank);
    match nodes[root].unwrap() {
        FlatNodeShape::Leaf { .. } => {
            assert(slot_children(nodes, root).len() == 0);
            0
        },
        FlatNodeShape::Branch { children, .. } => {
            let below = post_order_from(rest, children, 0);
            let child = slot_children(nodes, order[p] as int)[k] as int;
            lemma_post_order_from_walked(rest, children, 0);
            assert forall|j: int|
                0 <= j < children.len() && (#[trigger] children[j]) < nodes.len() implies rank(
                children[j] as int,
            ) > rank(root) by {
                assert(children[j] == slot_children(nodes, root)[j]);
            }
            if p < below.0.len() {
                let x = below.0[p] as int;
                assert(order[p] == x);
                lemma_post_order_from_behind(rest, rank, children, 0, rank(root), p);
                assert(rest[x] == nodes[x]);
                assert(slot_children(rest, x) == slot_children(nodes, x));
                assert(rank(child) > rank(x));
                assert(rest[child] == nodes[child]);
                let q = lemma_post_order_from_child_before(rest, rank, children, 0, p, k);
                assert(order[q] == below.0[q]);
                q
            } else {
                assert(order[p] == root);
                assert(child == children[k]);
                assert(rest[child] is Some);
                assert(listed(below.0, child));
                let q = choose|q: int| 0 <= q < below.0.len() && #[trigger] below.0[q] == child;
                assert(order[q] == below.0[q]);
                q
            }
        },
    }
}

/// The same of the walks from the children of a slot.
pub proof fn lemma_post_order_from_child_before<Node, Meta>(
    nodes: ArenaShape<Node, Meta>,
    rank: spec_fn(int) -> int,
    children: Seq<usize>,
    from: int,
    p: int,
    k: int,
) -> (q: int)
    requires
        ranks_rise(nodes, rank),
        nodes.len() <= usize::MAX,
        0 <= from,
        0 <= p < post_order_from(nodes, children, from).0.len(),
        0 <= k < slot_children(nodes, post_order_from(nodes, children, from).0[p] as int).len(),
        slot_children(nodes, post_order_from(nodes, children, from).0[p] as int)[k] < nodes.len(),
        nodes[slot_children(
            nodes,
            post_order_from(nodes, children, from).0[p] as int,
        )[k] as int] is Some,
    ensures
        0 <= q < p,
        post_order_from(nodes, children, from).0[q] == slot_children(
            nodes,
            post_order_from(nodes, children, from).0[p] as int,
        )[k],
    decreases count_present(nodes), 1 + children.len() - from,
{
    let first = post_order(nodes, children[from] as int);
    lemma_post_order_count(nodes, children[from] as int);
    lemma_post_order_walked(nodes, children[from] as int);
    let others = post_order_from(first.1, children, from + 1);
    let order = first.0 + others.0;
    if p < first.0.len() {
        assert(order[p] == first.0[p]);
        let q = lemma_post_order_child_before(nodes, rank, children[from] as int, p, k);
        assert(order[q] == first.0[q]);
        q
    } else {
        let x = others.0[p - first.0.len()] as int;
        assert(order[p] == x);
        lemma_post_order_from_walked(first.1, children, from + 1);
        assert(first.1[x] is Some);
        assert(first.1[x] == nodes[x]);
        assert(slot_children(first.1, x) == slot_children(nodes, x));
        let child = slot_children(nodes, x)[k] as int;
        if first.1[child] is Some {
            assert(thinned(nodes, first.1));
            lemma_thinned_ranks(nodes, first.1, rank);
            let q = lemma_post_order_from_child_before(
                first.1,
                rank,
                children,
                from + 1,
                p - first.0.len(),
                k,
            );
            assert(order[first.0.len() + q] == others.0[q]);
            first.0.len() + q
        } else {
            assert(listed(first.0, child));
            let q = choose|q: int| 0 <= q < first.0.len() && #[trigger] first.0[q] == child;
            assert(order[q] == first.0[q]);
            q
        }
    }
}

/// The nested tree that an arena stands for: what rebuilding at the root
/// yields, or a childless branch with `fallback` as metadata where the root
/// is missing.
pub open spec fn nested<Node, Meta>(nodes: ArenaShape<Node, Meta>, fallback: Meta) -> TreeShape<
    Node,
    Meta,
> {
    match rebuild(nodes, 0).0 {
        Some(tree) => tree,
        None => TreeShape::Branch { meta: fallback, children: Seq::empty() },
    }
}

impl<Node, Meta> FlatTree<Node, Meta> {
    /// A flat tree without slots.
    pub fn new() -> (flat: Self)
        ensures
            flat@.len() == 0,
            flat.well_formed(),
            flat.unshared(),
    {
        FlatTree { nodes: Vec::new() }
    }

    /// The node in slot `index`, to be changed in place.
    pub fn get_mut(&mut self, index: usize) -> (node: Result<
        &mut FlatTreeNode<Node, Meta>,
        FlatTreeError,
    >)
        ensures
            match node {
                Ok(node) => {
                    &&& index < old(self)@.len()
                    &&& old(self)@[index as int] == Some(node@)
                    &&& final(self)@ == old(self)@.update(index as int, Some(final(node)@))
                },
                Err(FlatTreeError::IndexOutOfBounds(i)) => {
                    &&& i == index
                    &&& index >= old(self)@.len()
                    &&& final(self)@ == old(self)@
                },
                Err(FlatTreeError::NodeMissing(i)) => {
                    &&& i == index
                    &&& index < old(self)@.len()
                    &&& old(self)@[index as int] is None
                    &&& final(self)@ == old(self)@
                },
            },
    {
        if index >= self.nodes.len() {
            return Err(FlatTreeError::IndexOutOfBounds(index));
        }
        assert(self@[index as int] == slot_shape(self.nodes[index as int]));
        let ghost before = self.nodes@;
        match self.nodes[index].as_mut() {
            Some(node) => {
                proof {
                    assert(arena_shape(before.update(index as int, Some(*final(node))))
                        =~= arena_shape(before).update(index as int, Some(final(node)@)));
                }
                Ok(node)
            },
            None => Err(FlatTreeError::NodeMissing(index)),
        }
    }

    /// Lays `tree` out in a fresh arena, its root in slot 0.
    pub fn from_tree(tree: Tree<Node, Meta>) -> (flat: Self)
        ensures
            flat@ == flatten(tree@, 0),
            flat@.len() > 0,
            flat@[0] is Some,
            flat.well_formed(),
            flat.unshared(),
            rebuild(flat@, 0).0 == Some(tree@),
    {
        let ghost shape = tree@;
        let mut nodes: Vec<Option<FlatTreeNode<Node, Meta>>> = Vec::new();
        let ghost empty = arena_shape(nodes@);
        let _ = append_tree_nodes(&mut nodes, tree);
        let flat = FlatTree { nodes };
        proof {
            assert(empty + flatten(shape, 0) =~= flatten(shape, 0));
            lemma_flatten_len(shape, 0);
            assert(flat@.len() == flat.nodes.len());
            lemma_flatten_ordered(empty, shape);
            lemma_flatten_round_trip(shape);
            crate::tree::subtree::lemma_flat_tree_unshared(shape);
        }
        flat
    }

    /// Rebuilds the nested tree. Empty slots and children outside the
    /// arena are skipped; without a root the result is a childless branch
    /// with `fallback` as metadata.
    pub fn into_tree(self, fallback: Meta) -> (tree: Tree<Node, Meta>)
        ensures
            tree@ == nested(self@, fallback),
    {
        let mut nodes = self.nodes;
        match build_tree(0, &mut nodes) {
            Some(tree) => tree,
            None => {
                let tree = Tree::Branch { children: Vec::new(), meta: fallback };
                assert(tree@->Branch_children =~= Seq::empty());
                tree
            },
        }
    }
}

impl<Node, Meta> From<Tree<Node, Meta>> for FlatTree<Node, Meta> {
    fn from(tree: Tree<Node, Meta>) -> (flat: Self)
        ensures
            flat@ == flatten(tree@, 0),
            flat.well_formed(),
            flat.unshared(),
            rebuild(flat@, 0).0 == Some(tree@),
    {
        FlatTree::from_tree(tree)
    }
}

impl<Node, Meta> vstd::std_specs::convert::FromSpecImpl<Tree<Node, Meta>> for FlatTree<Node, Meta> {
    open spec fn obeys_from_spec() -> bool {
        false
    }

    open spec fn from_spec(tree: Tree<Node, Meta>) -> Self {
        arbitrary()
    }
}

impl<Node, Meta: Default> From<FlatTree<Node, Meta>> for Tree<Node, Meta> {
    fn from(flat: FlatTree<Node, Meta>) -> (tree: Self)
        ensures
            exists|fallback: Meta| tree@ == nested(flat@, fallback),
    {
        flat.into_tree(Meta::default())
    }
}

impl<Node, Meta: Default> vstd::std_specs::convert::FromSpecImpl<FlatTree<Node, Meta>> for Tree<Node, Meta> {
    open spec fn obeys_from_spec() -> bool {
        false
    }

    open spec fn from_spec(flat: FlatTree<Node, Meta>) -> Self {
        arbitrary()
    }
}

} // verus!

verus! {

/// A slot after its leaf value went through `f`: an empty slot stays empty,
/// a branch is kept, and a leaf keeps its metadata and holds what `f` may
/// return for its value.
pub open spec fn slot_mapped<Node, Next, Meta, F: Fn(Node) -> Next>(
    before: Option<FlatNodeShape<Node, Meta>>,
    f: F,
    after: Option<FlatNodeShape<Next, Meta>>,
) -> bool {
    match before {
        None => after is None,
        Some(FlatNodeShape::Branch { meta, children }) => after == Some(
            FlatNodeShape::<Next, Meta>::Branch { meta, children },
        ),
        Some(FlatNodeShape::Leaf { meta, node }) => {
            &&& after matches Some(FlatNodeShape::Leaf { meta: next_meta, node: next_node })
            &&& next_meta == meta
            &&& f.ensures((node,), next_node)
        },
    }
}

/// As [`slot_mapped`], for an `f` that may fail: the leaf holds a value that
/// `f` may return as a success.
pub open spec fn slot_mapped_ok<Node, Next, Meta, Error, F: Fn(Node) -> Result<Next, Error>>(
    before: Option<FlatNodeShape<Node, Meta>>,
    f: F,
    after: Option<FlatNodeShape<Next, Meta>>,
) -> bool {
    match before {
        None => after is None,
        Some(FlatNodeShape::Branch { meta, children }) => after == Some(
            FlatNodeShape::<Next, Meta>::Branch { meta, children },
        ),
        Some(FlatNodeShape::Leaf { meta, node }) => {
            &&& after matches Some(FlatNodeShape::Leaf { meta: next_meta, node: next_node })
            &&& next_meta == meta
            &&& f.ensures((node,), Ok(next_node))
        },
    }
}

/// Some call of `report` with a slot and a value fails with `error`.
pub open spec fn report_fails<Value, Error, F: Fn(usize, Value) -> Result<(), Error>>(
    report: F,
    error: Error,
) -> bool {
    exists|i: usize, value: Value| #[trigger] report.ensures((i, value), Err(error))
}

/// Some call of `start` with a slot fails with `error`.
pub open spec fn start_fails<Error, F: Fn(usize) -> Result<(), Error>>(
    start: F,
    error: Error,
) -> bool {
    exists|i: usize| #[trigger] start.ensures((i,), Err(error))
}

/// Some call of `f` fails with `error`.
pub open spec fn call_fails<Node, Next, Error, F: Fn(Node) -> Result<Next, Error>>(
    f: F,
    error: Error,
) -> bool {
    exists|node: Node| #[trigger] f.ensures((node,), Err(error))
}

/// Two arenas of one length whose slots name the same children.
pub open spec fn same_children<Node, Next, Meta>(
    before: ArenaShape<Node, Meta>,
    after: ArenaShape<Next, Meta>,
) -> bool {
    &&& after.len() == before.len()
    &&& forall|i: int|
        0 <= i < before.len() ==> #[trigger] slot_children(after, i) == slot_children(before, i)
}

/// Well-formedness depends on the children alone.
pub proof fn lemma_same_children_ordered<Node, Next, Meta>(
    before: ArenaShape<Node, Meta>,
    after: ArenaShape<Next, Meta>,
)
    requires
        arena_ordered(before),
        same_children(before, after),
    ensures
        arena_ordered(after),
{
    assert forall|index: int, k: int| 0 <= k < slot_children(after, index).len() implies index < (
    #[trigger] slot_children(after, index)[k]) < after.len() by {
        assert(slot_children(after, index) == slot_children(before, index));
        assert(index < slot_children(before, index)[k] < before.len());
    }
}

impl<Node, Meta> FlatTree<Node, Meta> {
    /// `f` accepts the value of every leaf.
    pub open spec fn leaves_accepted<Next, F: Fn(Node) -> Next>(&self, f: F) -> bool {
        forall|i: int|
            0 <= i < self@.len() ==> ((#[trigger] self@[i]) matches Some(
                FlatNodeShape::Leaf { node, .. },
            ) ==> f.requires((node,)))
    }

    /// Maps every leaf value through `f`, slot by slot in index order, and
    /// reports each new value to `write_update` with its slot. Stops at the
    /// first report that fails.
    pub fn map<NextNode, Error, MapFn, WriteUpdateFn>(
        self,
        f: MapFn,
        write_update: WriteUpdateFn,
    ) -> (next: Result<FlatTree<NextNode, Meta>, Error>) where
        NextNode: Clone,
        MapFn: Fn(Node) -> NextNode,
        WriteUpdateFn: Fn(usize, NextNode) -> Result<(), Error>,

        requires
            self.leaves_accepted(f),
            forall|i: usize, node: NextNode| write_update.requires((i, node)),
        ensures
            match next {
                Ok(next) => {
                    &&& next@.len() == self@.len()
                    &&& forall|i: int|
                        0 <= i < self@.len() ==> slot_mapped(self@[i], f, #[trigger] next@[i])
                    &&& self.well_formed() ==> next.well_formed()
                },
                Err(error) => report_fails(write_update, error),
            },
    {
        let ghost before = self@;
        let ghost slots = self.nodes@;
        let mut next_nodes: Vec<Option<FlatTreeNode<NextNode, Meta>>> = Vec::new();
        for slot in it: self.nodes
            invariant
                it.seq() == slots,
                before == arena_shape(slots),
                self.leaves_accepted(f),
                before == self@,
                forall|i: usize, node: NextNode| write_update.requires((i, node)),
                next_nodes.len() == it.index(),
                forall|i: int|
                    0 <= i < it.index() ==> slot_mapped(
                        before[i],
                        f,
                        #[trigger] arena_shape(next_nodes@)[i],
                    ),
                forall|i: int|
                    0 <= i < it.index() ==> #[trigger] slot_children(arena_shape(next_nodes@), i)
                        == slot_children(before, i),
        {
            let ghost k = it.index() as int;
            let ghost done = arena_shape(next_nodes@);
            let index = next_nodes.len();
            assert(slot == slots[k]);
            assert(before[k] == slot_shape(slot));
            match slot {
                None => {
                    next_nodes.push(None);
                },
                Some(FlatTreeNode::Branch { meta, children }) => {
                    next_nodes.push(Some(FlatTreeNode::Branch { meta, children }));
                },
                Some(FlatTreeNode::Leaf { meta, node }) => {
                    let next_node = f(node);
                    let report = next_node.clone();
                    next_nodes.push(Some(FlatTreeNode::Leaf { meta, node: next_node }));
                    match write_update(index, report) {
                        Ok(()) => {},
                        Err(error) => {
                            assert(write_update.ensures((index, report), Err(error)));
                            return Err(error);
                        },
                    }
                },
            }
            proof {
                let now = arena_shape(next_nodes@);
                assert forall|i: int| 0 <= i < k + 1 implies slot_mapped(
                    before[i],
                    f,
                    #[trigger] now[i],
                ) by {
                    if i < k {
                        assert(now[i] == done[i]);
                    }
                }
                assert forall|i: int| 0 <= i < k + 1 implies #[trigger] slot_children(now, i)
                    == slot_children(before, i) by {
                    if i < k {
                        assert(now[i] == done[i]);
                        assert(slot_children(done, i) == slot_children(before, i));
                    }
                }
            }
        }
        let next = FlatTree { nodes: next_nodes };
        proof {
            if self.well_formed() {
                lemma_same_children_ordered(before, next@);
            }
        }
        Ok(next)
    }

    /// `f` accepts the value of every leaf.
    pub open spec fn leaves_accepted_fallible<Next, Error, F: Fn(Node) -> Result<Next, Error>>(
        &self,
        f: F,
    ) -> bool {
        forall|i: int|
            0 <= i < self@.len() ==> ((#[trigger] self@[i]) matches Some(
                FlatNodeShape::Leaf { node, .. },
            ) ==> f.requires((node,)))
    }

    /// Maps every leaf value through `f`, which may fail, slot by slot in
    /// index order. Before each call the slot is reported to `write_start`,
    /// after it the new value to `write_update`. Stops at the first failure
    /// of any of the three. The callbacks are where a caller waits for
    /// outside work.
    pub fn map_result_async<NextNode, Error, MapFn, WriteStartFn, WriteUpdateFn>(
        self,
        f: MapFn,
        write_start: WriteStartFn,
        write_update: WriteUpdateFn,
    ) -> (next: Result<FlatTree<NextNode, Meta>, Error>) where
        NextNode: Clone,
        MapFn: Fn(Node) -> Result<NextNode, Error>,
        WriteStartFn: Fn(usize) -> Result<(), Error>,
        WriteUpdateFn: Fn(usize, NextNode) -> Result<(), Error>,

        requires
            self.leaves_accepted_fallible(f),
            forall|i: usize| write_start.requires((i,)),
            forall|i: usize, node: NextNode| write_update.requires((i, node)),
        ensures
            match next {
                Ok(next) => {
                    &&& next@.len() == self@.len()
                    &&& forall|i: int|
                        0 <= i < self@.len() ==> slot_mapped_ok(self@[i], f, #[trigger] next@[i])
                    &&& self.well_formed() ==> next.well_formed()
                },
                Err(error) => {
                    ||| start_fails(write_start, error)
                    ||| call_fails(f, error)
                    ||| report_fails(write_update, error)
                },
            },
    {
        let ghost before = self@;
        let ghost slots = self.nodes@;
        let mut next_nodes: Vec<Option<FlatTreeNode<NextNode, Meta>>> = Vec::new();
        for slot in it: self.nodes
            invariant
                it.seq() == slots,
                before == arena_shape(slots),
                self.leaves_accepted_fallible(f),
                before == self@,
                forall|i: usize| write_start.requires((i,)),
                forall|i: usize, node: NextNode| write_update.requires((i, node)),
                next_nodes.len() == it.index(),
                forall|i: int|
                    0 <= i < it.index() ==> slot_mapped_ok(
                        before[i],
                        f,
                        #[trigger] arena_shape(next_nodes@)[i],
                    ),
                forall|i: int|
                    0 <= i < it.index() ==> #[trigger] slot_children(arena_shape(next_nodes@), i)
                        == slot_children(before, i),
        {
            let ghost k = it.index() as int;
            let ghost done = arena_shape(next_nodes@);
            let index = next_nodes.len();
            assert(slot == slots[k]);
            assert(before[k] == slot_shape(slot));
            match slot {
                None => {
                    next_nodes.push(None);
                },
                Some(FlatTreeNode::Branch { meta, children }) => {
                    next_nodes.push(Some(FlatTreeNode::Branch { meta, children }));
                },
                Some(FlatTreeNode::Leaf { meta, node }) => {
                    match write_start(index) {
                        Ok(()) => {},
                        Err(error) => {
                            assert(write_start.ensures((index,), Err(error)));
                            return Err(error);
                        },
                    }
                    let next_node = match f(node) {
                        Ok(next_node) => next_node,
                        Err(error) => {
                            assert(f.ensures((node,), Err(error)));
                            return Err(error);
                        },
                    };
                    let report = next_node.clone();
                    next_nodes.push(Some(FlatTreeNode::Leaf { meta, node: next_node }));
                    match write_update(index, report) {
                        Ok(()) => {},
                        Err(error) => {
                            assert(write_update.ensures((index, report), Err(error)));
                            return Err(error);
                        },
                    }
                },
            }
            proof {
                let now = arena_shape(next_nodes@);
                assert forall|i: int| 0 <= i < k + 1 implies slot_mapped_ok(
                    before[i],
                    f,
                    #[trigger] now[i],
                ) by {
                    if i < k {
                        assert(now[i] == done[i]);
                    }
                }
                assert forall|i: int| 0 <= i < k + 1 implies #[trigger] slot_children(now, i)
                    == slot_children(before, i) by {
                    if i < k {
                        assert(now[i] == done[i]);
                        assert(slot_children(done, i) == slot_children(before, i));
                    }
                }
            }
        }
        let next = FlatTree { nodes: next_nodes };
        proof {
            if self.well_formed() {
                lemma_same_children_ordered(before, next@);
            }
        }
        Ok(next)
    }
}

} // verus!

verus! {

impl<Node, Meta> FlatTree<Node, Meta> {
    /// Stores `slot` in the slot `index`. The subtree that was there is not
    /// touched: what the slot named stays in the arena.
    pub fn set_slot(&mut self, index: usize, slot: Option<FlatTreeNode<Node, Meta>>)
        requires
            index < old(self)@.len(),
        ensures
            final(self)@ == old(self)@.update(index as int, slot_shape(slot)),
            old(self).well_formed() && !(slot matches Some(FlatTreeNode::Branch { .. }))
                ==> final(self).well_formed(),
    {
        assert(self@.len() == self.nodes.len());
        let ghost shape = slot_shape(slot);
        self.nodes[index] = slot;
        proof {
            let before = old(self)@;
            let after = self@;
            assert(after =~= before.update(index as int, shape));
            if old(self).well_formed() && !(shape matches Some(FlatNodeShape::Branch { .. })) {
                assert forall|i: int, k: int| 0 <= k < slot_children(after, i).len() implies i < (
                #[trigger] slot_children(after, i)[k]) < after.len() by {
                    assert(i != index);
                    assert(slot_children(after, i) == slot_children(before, i));
                    assert(i < slot_children(before, i)[k] < before.len());
                }
            }
        }
    }

    /// Appends one slot behind the last.
    pub fn push_slot(&mut self, slot: Option<FlatTreeNode<Node, Meta>>)
        ensures
            final(self)@ == old(self)@.push(slot_shape(slot)),
    {
        let ghost shape = slot_shape(slot);
        self.nodes.push(slot);
        assert(self@ =~= old(self)@.push(shape));
    }
}

} // verus!

verus! {

impl<Node, Meta> TreeShape<Node, Meta> {
    /// `next` has the branches and metadata of `self`, and each leaf of
    /// `next` holds `wrap` of the leaf of `self` in its place.
    pub open spec fn wrapped_as<Next>(
        self,
        wrap: spec_fn(Node) -> Next,
        next: TreeShape<Next, Meta>,
    ) -> bool
        decreases self,
    {
        match self {
            TreeShape::Branch { meta, children } => {
                &&& next matches TreeShape::Branch { meta: next_meta, children: next_children }
                &&& next_meta == meta
                &&& next_children.len() == children.len()
                &&& forall|i: int|
                    0 <= i < children.len() ==> (#[trigger] children[i]).wrapped_as(
                        wrap,
                        next_children[i],
                    )
            },
            TreeShape::Leaf { meta, node } => next == (TreeShape::Leaf { meta, node: wrap(node) }),
        }
    }

    /// A map through a function that returns `wrap` of its argument wraps every leaf.
    pub proof fn lemma_maps_to_wrapped<Next, F: Fn(Node) -> Next>(
        self,
        f: F,
        wrap: spec_fn(Node) -> Next,
        next: TreeShape<Next, Meta>,
    )
        requires
            self.maps_to(f, next),
            forall|node: Node, out: Next| #[trigger] f.ensures((node,), out) ==> out == wrap(node),
        ensures
            self.wrapped_as(wrap, next),
        decreases self,
    {
        match self {
            TreeShape::Branch { meta, children } => {
                let next_children = next->Branch_children;
                assert forall|i: int| 0 <= i < children.len() implies (
                #[trigger] children[i]).wrapped_as(wrap, next_children[i]) by {
                    children[i].lemma_maps_to_wrapped(f, wrap, next_children[i]);
                }
            },
            TreeShape::Leaf { .. } => {},
        }
    }
}

} // verus!

verus! {

/// The arena in which the first `upto` slots of `before` have gone through
/// a map to trees: an empty slot stays empty, a branch is kept, and the
/// leaf in slot `i` is replaced by the tree `trees[i]`, whose root takes the
/// slot and whose children are appended behind the last slot.
pub open spec fn grafted<Node, Next, Meta>(
    before: ArenaShape<Node, Meta>,
    trees: Seq<TreeShape<Next, Meta>>,
    upto: int,
) -> ArenaShape<Next, Meta>
    decreases upto,
{
    if upto <= 0 {
        vacant(before.len())
    } else {
        let done = grafted(before, trees, upto - 1);
        match before[upto - 1] {
            None => done,
            Some(FlatNodeShape::Branch { meta, children }) => done.update(
                upto - 1,
                Some(FlatNodeShape::Branch { meta, children }),
            ),
            Some(FlatNodeShape::Leaf { .. }) => replaced(done, Some(trees[upto - 1]), upto - 1),
        }
    }
}

/// Grafting never shortens the arena, and it fills no slot before its turn.
pub proof fn lemma_grafted_len<Node, Next, Meta>(
    before: ArenaShape<Node, Meta>,
    trees: Seq<TreeShape<Next, Meta>>,
    upto: int,
)
    requires
        0 <= upto <= before.len(),
    ensures
        grafted(before, trees, upto).len() >= before.len(),
        forall|i: int| upto <= i < before.len() ==> (#[trigger] grafted(before, trees, upto)[i]) is None,
    decreases upto,
{
    if upto > 0 {
        lemma_grafted_len(before, trees, upto - 1);
        let done = grafted(before, trees, upto - 1);
        match before[upto - 1] {
            Some(FlatNodeShape::Leaf { .. }) => {
                assert(done[upto - 1] is None);
                assert(cleared(done, upto - 1) =~= done);
            },
            _ => {},
        }
    }
}

/// Grafting onto a well-formed arena gives a well-formed arena.
pub proof fn lemma_grafted_ordered<Node, Next, Meta>(
    before: ArenaShape<Node, Meta>,
    trees: Seq<TreeShape<Next, Meta>>,
    upto: int,
)
    requires
        arena_ordered(before),
        0 <= upto <= before.len(),
        grafted(before, trees, upto).len() <= usize::MAX,
    ensures
        arena_ordered(grafted(before, trees, upto)),
    decreases upto,
{
    let now = grafted(before, trees, upto);
    if upto > 0 {
        let done = grafted(before, trees, upto - 1);
        lemma_grafted_len(before, trees, upto - 1);
        lemma_grafted_len(before, trees, upto);
        match before[upto - 1] {
            None => {
                lemma_grafted_ordered(before, trees, upto - 1);
            },
            Some(FlatNodeShape::Branch { meta, children }) => {
                lemma_grafted_ordered(before, trees, upto - 1);
                assert forall|i: int, k: int| 0 <= k < slot_children(now, i).len() implies i < (
                #[trigger] slot_children(now, i)[k]) < now.len() by {
                    if i == upto - 1 {
                        assert(slot_children(now, i) == slot_children(before, i));
                        assert(i < slot_children(before, i)[k] < before.len());
                    } else {
                        assert(slot_children(now, i) == slot_children(done, i));
                        assert(i < slot_children(done, i)[k] < done.len());
                    }
                }
            },
            Some(FlatNodeShape::Leaf { .. }) => {
                assert(done[upto - 1] is None);
                assert(cleared(done, upto - 1) =~= done);
                match trees[upto - 1] {
                    TreeShape::Leaf { .. } => {},
                    TreeShape::Branch { children, .. } => {
                        lemma_flatten_from_len(children, 0, done.len() as int);
                    },
                }
                assert(now.len() >= done.len());
                lemma_grafted_ordered(before, trees, upto - 1);
                lemma_replaced_ordered(done, Some(trees[upto - 1]), upto - 1);
            },
        }
    } else {
        assert forall|i: int, k: int| 0 <= k < slot_children(now, i).len() implies i < (
        #[trigger] slot_children(now, i)[k]) < now.len() by {}
    }
}

/// Some call of `f` fails with `error`.
pub open spec fn tree_call_fails<Node, Meta, Next, Error, F: Fn(Node, Meta) -> Result<
    Tree<Next, Meta>,
    Error,
>>(f: F, error: Error) -> bool {
    exists|node: Node, meta: Meta| #[trigger] f.ensures((node, meta), Err(error))
}

/// Some call of `report` with a slot and a tree fails with `error`.
pub open spec fn tree_report_fails<Next, Meta, Error, F: Fn(usize, &Tree<Next, Meta>) -> Result<
    (),
    Error,
>>(report: F, error: Error) -> bool {
    exists|i: usize, tree: Tree<Next, Meta>| #[trigger] report.ensures((i, &tree), Err(error))
}

impl<Node, Meta> FlatTree<Node, Meta> {
    /// `f` accepts the value and metadata of every leaf.
    pub open spec fn leaves_with_meta_accepted<Out, F: Fn(Node, Meta) -> Out>(&self, f: F) -> bool {
        forall|i: int|
            0 <= i < self@.len() ==> ((#[trigger] self@[i]) matches Some(
                FlatNodeShape::Leaf { meta, node },
            ) ==> f.requires((node, meta)))
    }

    /// `trees` holds, for every leaf, a tree that `f` may return for it as
    /// a success.
    pub open spec fn trees_made_ok<Next, Error, F: Fn(Node, Meta) -> Result<
        Tree<Next, Meta>,
        Error,
    >>(&self, f: F, trees: Seq<Tree<Next, Meta>>) -> bool {
        &&& trees.len() == self@.len()
        &&& forall|i: int|
            0 <= i < self@.len() ==> ((#[trigger] self@[i]) matches Some(
                FlatNodeShape::Leaf { meta, node },
            ) ==> f.ensures((node, meta), Ok(trees[i])))
    }

    /// Maps every leaf through `f` to a tree that takes its place: the
    /// root of the tree takes the slot of the leaf, what is below it is
    /// appended. Leaves are taken in index order. Before each call the slot
    /// is reported to `write_start`, after it the tree to `write_update`.
    /// Stops at the first failure of any of the three.
    pub fn map_tree_result_async<NextNode, Error, MapFn, WriteStartFn, WriteUpdateFn>(
        self,
        f: MapFn,
        write_start: WriteStartFn,
        write_update: WriteUpdateFn,
    ) -> (next: Result<FlatTree<NextNode, Meta>, Error>) where
        MapFn: Fn(Node, Meta) -> Result<Tree<NextNode, Meta>, Error>,
        WriteStartFn: Fn(usize) -> Result<(), Error>,
        WriteUpdateFn: Fn(usize, &Tree<NextNode, Meta>) -> Result<(), Error>,

        requires
            self.leaves_with_meta_accepted(f),
            forall|i: usize| write_start.requires((i,)),
            forall|i: usize, tree: &Tree<NextNode, Meta>| write_update.requires((i, tree)),
        ensures
            match next {
                Ok(next) => {
                    &&& exists|trees: Seq<Tree<NextNode, Meta>>| #[trigger]
                        self.trees_made_ok(f, trees) && next@ == grafted(
                            self@,
                            shapes(trees),
                            self@.len() as int,
                        )
                    &&& self.well_formed() ==> next.well_formed()
                },
                Err(error) => {
                    ||| start_fails(write_start, error)
                    ||| tree_call_fails(f, error)
                    ||| tree_report_fails(write_update, error)
                },
            },
    {
        let ghost before = self@;
        let ghost slots = self.nodes@;
        let n = self.nodes.len();
        let mut next_nodes: Vec<Option<FlatTreeNode<NextNode, Meta>>> = Vec::new();
        while next_nodes.len() < n
            invariant
                next_nodes.len() <= n,
                forall|i: int| 0 <= i < next_nodes.len() ==> (#[trigger] next_nodes[i]) is None,
            decreases n - next_nodes.len(),
        {
            next_nodes.push(None);
        }
        let ghost mut trees: Seq<Tree<NextNode, Meta>> = Seq::new(n as nat, |i: int| arbitrary());
        assert(arena_shape(next_nodes@) =~= grafted(before, shapes(trees), 0));
        let mut index: usize = 0;
        for slot in it: self.nodes
            invariant
                it.seq() == slots,
                index == it.index(),
                slots.len() == n,
                before == arena_shape(slots),
                before == self@,
                before.len() == n,
                trees.len() == n,
                self.leaves_with_meta_accepted(f),
                forall|i: usize| write_start.requires((i,)),
                forall|i: usize, tree: &Tree<NextNode, Meta>| write_update.requires((i, tree)),
                arena_shape(next_nodes@) == grafted(before, shapes(trees), it.index() as int),
                forall|i: int|
                    0 <= i < it.index() ==> ((#[trigger] before[i]) matches Some(
                        FlatNodeShape::Leaf { meta, node },
                    ) ==> f.ensures((node, meta), Ok(trees[i]))),
        {
            let ghost k = it.index() as int;
            let ghost done = arena_shape(next_nodes@);
            assert(slot == slots[k]);
            assert(before[k] == slot_shape(slot));
            proof {
                lemma_grafted_len(before, shapes(trees), k);
                assert(done.len() == next_nodes.len());
            }
            match slot {
                None => {},
                Some(FlatTreeNode::Branch { meta, children }) => {
                    next_nodes[index] = Some(FlatTreeNode::Branch { meta, children });
                    assert(arena_shape(next_nodes@) =~= done.update(
                        k,
                        Some(FlatNodeShape::Branch { meta, children: children@ }),
                    ));
                },
                Some(FlatTreeNode::Leaf { meta, node }) => {
                    match write_start(index) {
                        Ok(()) => {},
                        Err(error) => {
                            assert(write_start.ensures((index,), Err(error)));
                            return Err(error);
                        },
                    }
                    let next_tree = match f(node, meta) {
                        Ok(next_tree) => next_tree,
                        Err(error) => {
                            assert(f.ensures((node, meta), Err(error)));
                            return Err(error);
                        },
                    };
                    match write_update(index, &next_tree) {
                        Ok(()) => {},
                        Err(error) => {
                            assert(write_update.ensures((index, &next_tree), Err(error)));
                            return Err(error);
                        },
                    }
                    proof {
                        let old_trees = trees;
                        trees = trees.update(k, next_tree);
                        assert(shapes(trees) =~= shapes(old_trees).update(k, next_tree@));
                        lemma_grafted_same(before, shapes(old_trees), shapes(trees), k);
                    }
                    replace_tree_nodes(&mut next_nodes, Some(next_tree), index);
                },
            }
            proof {
                assert(arena_shape(next_nodes@) == grafted(before, shapes(trees), k + 1));
            }
            index += 1;
        }
        let next = FlatTree { nodes: next_nodes };
        proof {
            assert(self.trees_made_ok(f, trees));
            if self.well_formed() {
                assert(next@.len() == next.nodes.len());
                lemma_grafted_ordered(before, shapes(trees), n as int);
            }
        }
        Ok(next)
    }

    /// `trees` holds, for every leaf, a tree that `f` may return for it.
    pub open spec fn trees_made<Next, F: Fn(Node, Meta) -> Tree<Next, Meta>>(
        &self,
        f: F,
        trees: Seq<Tree<Next, Meta>>,
    ) -> bool {
        &&& trees.len() == self@.len()
        &&& forall|i: int|
            0 <= i < self@.len() ==> ((#[trigger] self@[i]) matches Some(
                FlatNodeShape::Leaf { meta, node },
            ) ==> f.ensures((node, meta), trees[i]))
    }

    /// Maps every leaf through `f` to a tree that takes its place: the
    /// root of the tree takes the slot of the leaf, what is below it is
    /// appended. Leaves are taken in index order, and each tree is reported
    /// to `write_update` with its slot. Stops at the first report that fails.
    pub fn map_tree<NextNode, Error, MapFn, WriteUpdateFn>(
        self,
        f: MapFn,
        write_update: WriteUpdateFn,
    ) -> (next: Result<FlatTree<NextNode, Meta>, Error>) where
        MapFn: Fn(Node, Meta) -> Tree<NextNode, Meta>,
        WriteUpdateFn: Fn(usize, &Tree<NextNode, Meta>) -> Result<(), Error>,

        requires
            self.leaves_with_meta_accepted(f),
            forall|i: usize, tree: &Tree<NextNode, Meta>| write_update.requires((i, tree)),
        ensures
            match next {
                Ok(next) => {
                    &&& exists|trees: Seq<Tree<NextNode, Meta>>| #[trigger]
                        self.trees_made(f, trees) && next@ == grafted(
                            self@,
                            shapes(trees),
                            self@.len() as int,
                        )
                    &&& self.well_formed() ==> next.well_formed()
                },
                Err(error) => tree_report_fails(write_update, error),
            },
    {
        let ghost before = self@;
        let ghost slots = self.nodes@;
        let n = self.nodes.len();
        let mut next_nodes: Vec<Option<FlatTreeNode<NextNode, Meta>>> = Vec::new();
        while next_nodes.len() < n
            invariant
                next_nodes.len() <= n,
                forall|i: int| 0 <= i < next_nodes.len() ==> (#[trigger] next_nodes[i]) is None,
            decreases n - next_nodes.len(),
        {
            next_nodes.push(None);
        }
        let ghost mut trees: Seq<Tree<NextNode, Meta>> = Seq::new(n as nat, |i: int| arbitrary());
        assert(arena_shape(next_nodes@) =~= grafted(before, shapes(trees), 0));
        let mut index: usize = 0;
        for slot in it: self.nodes
            invariant
                it.seq() == slots,
                index == it.index(),
                slots.len() == n,
                before == arena_shape(slots),
                before == self@,
                before.len() == n,
                trees.len() == n,
                self.leaves_with_meta_accepted(f),
                forall|i: usize, tree: &Tree<NextNode, Meta>| write_update.requires((i, tree)),
                arena_shape(next_nodes@) == grafted(before, shapes(trees), it.index() as int),
                forall|i: int|
                    0 <= i < it.index() ==> ((#[trigger] before[i]) matches Some(
                        FlatNodeShape::Leaf { meta, node },
                    ) ==> f.ensures((node, meta), trees[i])),
        {
            let ghost k = it.index() as int;
            let ghost done = arena_shape(next_nodes@);
            assert(slot == slots[k]);
            assert(before[k] == slot_shape(slot));
            proof {
                lemma_grafted_len(before, shapes(trees), k);
                assert(done.len() == next_nodes.len());
            }
            match slot {
                None => {},
                Some(FlatTreeNode::Branch { meta, children }) => {
                    next_nodes[index] = Some(FlatTreeNode::Branch { meta, children });
                    assert(arena_shape(next_nodes@) =~= done.update(
                        k,
                        Some(FlatNodeShape::Branch { meta, children: children@ }),
                    ));
                },
                Some(FlatTreeNode::Leaf { meta, node }) => {
                    let next_tree = f(node, meta);
                    match write_update(index, &next_tree) {
                        Ok(()) => {},
                        Err(error) => {
                            assert(write_update.ensures((index, &next_tree), Err(error)));
                            return Err(error);
                        },
                    }
                    proof {
                        let old_trees = trees;
                        trees = trees.update(k, next_tree);
                        assert(shapes(trees) =~= shapes(old_trees).update(k, next_tree@));
                        lemma_grafted_same(before, shapes(old_trees), shapes(trees), k);
                    }
                    replace_tree_nodes(&mut next_nodes, Some(next_tree), index);
                },
            }
            proof {
                assert(arena_shape(next_nodes@) == grafted(before, shapes(trees), k + 1));
            }
            index += 1;
        }
        let next = FlatTree { nodes: next_nodes };
        proof {
            assert(self.trees_made(f, trees));
            if self.well_formed() {
                assert(next@.len() == next.nodes.len());
                lemma_grafted_ordered(before, shapes(trees), n as int);
            }
        }
        Ok(next)
    }
}

/// Grafting the first `upto` slots does not look at the trees of later slots.
pub proof fn lemma_grafted_same<Node, Next, Meta>(
    before: ArenaShape<Node, Meta>,
    one: Seq<TreeShape<Next, Meta>>,
    other: Seq<TreeShape<Next, Meta>>,
    upto: int,
)
    requires
        forall|i: int| 0 <= i < upto ==> one[i] == other[i],
    ensures
        grafted(before, one, upto) == grafted(before, other, upto),
    decreases upto,
{
    if upto > 0 {
        lemma_grafted_same(before, one, other, upto - 1);
    }
}

} // verus!

verus! {

/// A slot after its leaf value went through an `f` that may drop it: an
/// empty slot stays empty, a branch is kept, and a leaf keeps its metadata
/// and holds what `f` may return for its value, or is dropped where `f`
/// may return nothing.
pub open spec fn slot_mapped_option<Node, Next, Meta, F: Fn(Node) -> Option<Next>>(
    before: Option<FlatNodeShape<Node, Meta>>,
    f: F,
    after: Option<FlatNodeShape<Next, Meta>>,
) -> bool {
    match before {
        None => after is None,
        Some(FlatNodeShape::Branch { meta, children }) => after == Some(
            FlatNodeShape::<Next, Meta>::Branch { meta, children },
        ),
        Some(FlatNodeShape::Leaf { meta, node }) => match after {
            None => f.ensures((node,), None),
            Some(FlatNodeShape::Leaf { meta: next_meta, node: next_node }) => next_meta == meta
                && f.ensures((node,), Some(next_node)),
            Some(FlatNodeShape::Branch { .. }) => false,
        },
    }
}

/// The slot `child` holds a node.
pub open spec fn child_present<Node, Meta>(nodes: ArenaShape<Node, Meta>, child: usize) -> bool {
    child < nodes.len() && nodes[child as int] is Some
}

/// The slot `index` holds a branch none of whose children holds a node.
pub open spec fn childless<Node, Meta>(nodes: ArenaShape<Node, Meta>, index: int) -> bool {
    &&& 0 <= index < nodes.len()
    &&& nodes[index] matches Some(FlatNodeShape::Branch { children, .. })
    &&& forall|k: int| 0 <= k < children.len() ==> !child_present(nodes, #[trigger] children[k])
}

/// The arena with the slot `index` emptied if it holds a branch without children.
pub open spec fn pruned_slot<Node, Meta>(nodes: ArenaShape<Node, Meta>, index: int) -> ArenaShape<
    Node,
    Meta,
> {
    if childless(nodes, index) {
        nodes.update(index, None)
    } else {
        nodes
    }
}

/// The arena after the slots of `order` from position `k` on are pruned in turn.
pub open spec fn pruned_along<Node, Meta>(
    nodes: ArenaShape<Node, Meta>,
    order: Seq<usize>,
    k: int,
) -> ArenaShape<Node, Meta>
    decreases order.len() - k,
{
    if 0 <= k < order.len() {
        pruned_along(pruned_slot(nodes, order[k] as int), order, k + 1)
    } else {
        nodes
    }
}

/// The arena without the branches that hold no leaf: the slots reachable
/// from the root are pruned children first, so that a branch goes once
/// everything below it is gone.
pub open spec fn pruned<Node, Meta>(nodes: ArenaShape<Node, Meta>) -> ArenaShape<Node, Meta> {
    pruned_along(nodes, post_order(nodes, 0).0, 0)
}

/// Pruning only empties slots.
pub proof fn lemma_pruned_along_thins<Node, Meta>(
    nodes: ArenaShape<Node, Meta>,
    order: Seq<usize>,
    k: int,
)
    ensures
        thinned(nodes, pruned_along(nodes, order, k)),
    decreases order.len() - k,
{
    if 0 <= k < order.len() {
        let next = pruned_slot(nodes, order[k] as int);
        lemma_pruned_along_thins(next, order, k + 1);
        let last = pruned_along(next, order, k + 1);
        assert forall|i: int| 0 <= i < nodes.len() implies (#[trigger] last[i]) is None || last[i]
            == nodes[i] by {
            assert(last[i] is None || last[i] == next[i]);
        }
    }
}

/// Whether the slot holds a branch none of whose children holds a node.
fn is_childless<Node, Meta>(nodes: &Vec<Option<FlatTreeNode<Node, Meta>>>, index: usize) -> (yes:
    bool)
    ensures
        yes == childless(arena_shape(nodes@), index as int),
{
    let ghost arena = arena_shape(nodes@);
    if index >= nodes.len() {
        return false;
    }
    assert(arena[index as int] == slot_shape(nodes[index as int]));
    match &nodes[index] {
        Some(FlatTreeNode::Branch { children, .. }) => {
            let mut k: usize = 0;
            while k < children.len()
                invariant
                    k <= children.len(),
                    arena == arena_shape(nodes@),
                    index < nodes.len(),
                    arena[index as int] matches Some(FlatNodeShape::Branch { children: c, .. })
                        && c == children@,
                    forall|j: int| 0 <= j < k ==> !child_present(arena, #[trigger] children[j]),
                decreases children.len() - k,
            {
                let child = children[k];
                if child < nodes.len() {
                    assert(arena[child as int] == slot_shape(nodes[child as int]));
                    if nodes[child].is_some() {
                        assert(child_present(arena, children[k as int]));
                        return false;
                    }
                }
                k += 1;
            }
            true
        },
        _ => false,
    }
}

impl<Node, Meta> FlatTree<Node, Meta> {
    /// `f` accepts the value of every leaf.
    pub open spec fn leaves_accepted_option<Next, F: Fn(Node) -> Option<Next>>(&self, f: F) -> bool {
        forall|i: int|
            0 <= i < self@.len() ==> ((#[trigger] self@[i]) matches Some(
                FlatNodeShape::Leaf { node, .. },
            ) ==> f.requires((node,)))
    }

    /// `mid` is the arena with every leaf mapped through `f` or dropped.
    pub open spec fn mapped_option<Next, F: Fn(Node) -> Option<Next>>(
        &self,
        f: F,
        mid: ArenaShape<Next, Meta>,
    ) -> bool {
        &&& mid.len() == self@.len()
        &&& forall|i: int|
            0 <= i < self@.len() ==> slot_mapped_option(self@[i], f, #[trigger] mid[i])
    }

    /// Maps every leaf value through `f`, slot by slot in index order, and
    /// reports what `f` returned to `write_update` with the slot. A leaf
    /// for which `f` returns nothing is dropped, and so is afterwards every
    /// branch below which no leaf is left. Stops at the first report that fails.
    pub fn map_option<NextNode, Error, MapFn, WriteUpdateFn>(
        self,
        f: MapFn,
        write_update: WriteUpdateFn,
    ) -> (next: Result<FlatTree<NextNode, Meta>, Error>) where
        MapFn: Fn(Node) -> Option<NextNode>,
        WriteUpdateFn: Fn(usize, Option<&NextNode>) -> Result<(), Error>,

        requires
            self.leaves_accepted_option(f),
            forall|i: usize, node: Option<&NextNode>| write_update.requires((i, node)),
        ensures
            match next {
                Ok(next) => {
                    &&& exists|mid: ArenaShape<NextNode, Meta>| #[trigger]
                        self.mapped_option(f, mid) && next@ == pruned(mid)
                    &&& self.well_formed() ==> next.well_formed()
                },
                Err(error) => option_report_fails(write_update, error),
            },
    {
        let ghost before = self@;
        let ghost slots = self.nodes@;
        let n = self.nodes.len();
        let mut next_nodes: Vec<Option<FlatTreeNode<NextNode, Meta>>> = Vec::new();
        let mut index: usize = 0;
        for slot in it: self.nodes
            invariant
                it.seq() == slots,
                index == it.index(),
                slots.len() == n,
                before == arena_shape(slots),
                self.leaves_accepted_option(f),
                before == self@,
                forall|i: usize, node: Option<&NextNode>| write_update.requires((i, node)),
                next_nodes.len() == it.index(),
                forall|i: int|
                    0 <= i < it.index() ==> slot_mapped_option(
                        before[i],
                        f,
                        #[trigger] arena_shape(next_nodes@)[i],
                    ),
        {
            let ghost k = it.index() as int;
            let ghost done = arena_shape(next_nodes@);
            assert(slot == slots[k]);
            assert(before[k] == slot_shape(slot));
            match slot {
                None => {
                    next_nodes.push(None);
                },
                Some(FlatTreeNode::Branch { meta, children }) => {
                    next_nodes.push(Some(FlatTreeNode::Branch { meta, children }));
                },
                Some(FlatTreeNode::Leaf { meta, node }) => {
                    let next_node = f(node);
                    let report = next_node.as_ref();
                    match write_update(index, report) {
                        Ok(()) => {},
                        Err(error) => {
                            assert(write_update.ensures((index, report), Err(error)));
                            return Err(error);
                        },
                    }
                    match next_node {
                        Some(next_node) => {
                            next_nodes.push(Some(FlatTreeNode::Leaf { meta, node: next_node }));
                        },
                        None => {
                            next_nodes.push(None);
                        },
                    }
                },
            }
            proof {
                let now = arena_shape(next_nodes@);
                assert forall|i: int| 0 <= i < k + 1 implies slot_mapped_option(
                    before[i],
                    f,
                    #[trigger] now[i],
                ) by {
                    if i < k {
                        assert(now[i] == done[i]);
                    }
                }
            }
            index += 1;
        }
        let ghost mid = arena_shape(next_nodes@);
        let mut result = FlatTree { nodes: next_nodes };
        let order = result.depth_first_search();
        let mut p: usize = 0;
        while p < order.len()
            invariant
                p <= order.len(),
                order@ == post_order(mid, 0).0,
                pruned_along(result@, order@, p as int) == pruned(mid),
            decreases order.len() - p,
        {
            let at = order[p];
            let ghost here = result@;
            if is_childless(&result.nodes, at) {
                result.nodes[at] = None;
                assert(result@ =~= pruned_slot(here, at as int));
            }
            p += 1;
        }
        proof {
            assert(self.mapped_option(f, mid));
            if self.well_formed() {
                assert forall|i: int, k: int| 0 <= k < slot_children(mid, i).len() implies i < (
                #[trigger] slot_children(mid, i)[k]) < mid.len() by {
                    assert(slot_mapped_option(before[i], f, mid[i]));
                    assert(slot_children(mid, i) == slot_children(before, i));
                    assert(i < slot_children(before, i)[k] < before.len());
                }
                lemma_pruned_along_thins(mid, order@, 0);
                lemma_thinned_ordered(mid, result@);
            }
        }
        Ok(result)
    }
}

/// Some call of `report` with a slot and an optional value fails with `error`.
pub open spec fn option_report_fails<Value, Error, F: Fn(usize, Option<&Value>) -> Result<
    (),
    Error,
>>(report: F, error: Error) -> bool {
    exists|i: usize, value: Option<&Value>| #[trigger] report.ensures((i, value), Err(error))
}

} // verus!
