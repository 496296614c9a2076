//! A flat tree of what is shown of each node of a stage.

use crate::tree::{
    arena_ordered, lemma_same_children_ordered, padded, replaced, same_children, slot_children,
    ArenaShape, FlatNodeShape, FlatTree, FlatTreeError, FlatTreeNode, Tree, TreeShape,
};
use crate::view::{Render, ViewElement, ViewShape, ViewTree};
use vstd::prelude::*;

verus! {

/// How far the work on a leaf has come, and what it shows once complete.
#[derive(Debug)]
pub enum ViewNode {
    NotStarted,
    Started,
    Complete(ViewElement),
}

impl Default for ViewNode {
    fn default() -> (node: Self)
        ensures
            node is NotStarted,
    {
        ViewNode::NotStarted
    }
}

impl ViewNode {
    /// Another node that shows the same.
    pub fn duplicate(&self) -> (copy: Self)
        ensures
            copy is NotStarted == self is NotStarted,
            copy is Started == self is Started,
            copy is Complete == self is Complete,
            self is Complete ==> copy->Complete_0@ == self->Complete_0@,
    {
        match self {
            ViewNode::NotStarted => ViewNode::NotStarted,
            ViewNode::Started => ViewNode::Started,
            ViewNode::Complete(view) => ViewNode::Complete(view.duplicate()),
        }
    }
}

impl Clone for ViewNode {
    fn clone(&self) -> (copy: Self) {
        self.duplicate()
    }
}

impl Render for ViewNode {
    /// A placeholder for a leaf that has not started, a sign of waiting for
    /// one that has, and a check mark before the content of one that is
    /// complete.
    fn render(&self) -> (view: ViewElement)
        ensures
            match *self {
                ViewNode::NotStarted => view@ == ViewShape::Span("🟩"@),
                ViewNode::Started => view@ == ViewShape::Span("⌛"@),
                ViewNode::Complete(content) => view@ == ViewShape::Fragment(
                    seq![ViewShape::Span("✅"@), content@],
                ),
            },
    {
        match self {
            ViewNode::NotStarted => ViewElement::span("🟩"),
            ViewNode::Started => ViewElement::span("⌛"),
            ViewNode::Complete(content) => {
                let mut pieces: Vec<ViewElement> = Vec::new();
                pieces.push(ViewElement::span("✅"));
                pieces.push(content.duplicate());
                let view = ViewElement::Fragment(pieces);
                assert(view@->Fragment_0 =~= seq![ViewShape::Span("✅"@), content@]);
                view
            },
        }
    }
}

/// One slot of a flat view tree: a branch carries what it shows as
/// metadata, a leaf carries none and holds its node.
pub type FlatViewTreeNode = FlatTreeNode<ViewNode, Option<ViewElement>>;

/// The slots of a flat view tree, as shapes.
pub type ViewArena = ArenaShape<ViewNode, Option<ViewElement>>;

/// Why a slot of a flat view tree could not be read or written.
#[derive(Debug, Clone, Copy, PartialEq, Eq)]
pub enum FlatViewTreeError {
    IndexOutOfBounds(usize),
    NodeMissing(usize),
    NotALeaf(usize),
}

/// The nested tree that a completed view tree stands for: every leaf is complete.
pub open spec fn completed(view_tree: ViewTree) -> TreeShape<ViewNode, Option<ViewElement>>
    decreases view_tree,
{
    match view_tree {
        ViewTree::Leaf { view } => TreeShape::Leaf { meta: None, node: ViewNode::Complete(view) },
        ViewTree::Branch { view, children } => TreeShape::Branch {
            meta: Some(view),
            children: Seq::new(
                children.len() as nat,
                |i: int|
                    if 0 <= i < children.len() {
                        completed(children[i])
                    } else {
                        arbitrary()
                    },
            ),
        },
    }
}

/// The nested tree that a completed view tree stands for.
pub fn complete(view_tree: ViewTree) -> (tree: Tree<ViewNode, Option<ViewElement>>)
    ensures
        tree@ == completed(view_tree),
    decreases view_tree,
{
    match view_tree {
        ViewTree::Leaf { view } => Tree::Leaf { meta: None, node: ViewNode::Complete(view) },
        ViewTree::Branch { view, children } => {
            let ghost kids = children@;
            let mut trees: Vec<Tree<ViewNode, Option<ViewElement>>> = Vec::new();
            for child in it: children
                invariant
                    it.seq() == kids,
                    view_tree matches ViewTree::Branch { children: c, .. } && c@ == kids,
                    trees.len() == it.index(),
                    forall|j: int| 0 <= j < it.index() ==> (#[trigger] trees[j])@ == completed(kids[j]),
            {
                assert(child == kids[it.index() as int]);
                trees.push(complete(child));
            }
            let tree = Tree::Branch { meta: Some(view), children: trees };
            assert(tree@->Branch_children =~= completed(view_tree)->Branch_children);
            tree
        },
    }
}

/// What an optional view element shows.
pub open spec fn shown(view: Option<ViewElement>) -> Option<ViewShape> {
    match view {
        Some(view) => Some(view@),
        None => None,
    }
}

/// `after` has the slots of `before` with every leaf reset: an empty slot
/// stays empty, a leaf has not started, and a branch shows the same and
/// names the same children.
pub open spec fn templated(before: ViewArena, after: ViewArena) -> bool {
    &&& after.len() == before.len()
    &&& forall|i: int|
        0 <= i < before.len() ==> match before[i] {
            None => (#[trigger] after[i]) is None,
            Some(FlatNodeShape::Leaf { .. }) => after[i] == Some(
                FlatNodeShape::<ViewNode, Option<ViewElement>>::Leaf {
                    meta: None,
                    node: ViewNode::NotStarted,
                },
            ),
            Some(FlatNodeShape::Branch { meta, children }) => {
                &&& after[i] matches Some(
                    FlatNodeShape::Branch { meta: after_meta, children: after_children },
                )
                &&& after_children == children
                &&& shown(after_meta) == shown(meta)
            },
        }
}

/// The slots after the leaf in slot `index`, which lies inside the arena,
/// is set to `node`: a leaf keeps its metadata, and an empty slot becomes a
/// leaf.
pub open spec fn with_leaf(before: ViewArena, index: int, node: ViewNode) -> ViewArena {
    match before[index] {
        Some(FlatNodeShape::Leaf { meta, .. }) => before.update(
            index,
            Some(FlatNodeShape::Leaf { meta, node }),
        ),
        _ => before.update(index, Some(FlatNodeShape::Leaf { meta: None, node })),
    }
}

/// The slot `index` holds a branch.
pub open spec fn is_branch_slot(arena: ViewArena, index: int) -> bool {
    0 <= index < arena.len() && arena[index] matches Some(FlatNodeShape::Branch { .. })
}

/// A flat view tree with its root in slot 0.
#[derive(Debug)]
pub struct FlatViewTree {
    tree: FlatTree<ViewNode, Option<ViewElement>>,
}

impl View for FlatViewTree {
    type V = ViewArena;

    closed spec fn view(&self) -> ViewArena {
        self.tree@
    }
}

impl Default for FlatViewTree {
    fn default() -> (flat: Self)
        ensures
            flat@.len() == 0,
            flat.well_formed(),
    {
        FlatViewTree { tree: FlatTree::new() }
    }
}

impl FlatViewTree {
    /// Every child lies inside the arena, behind the branch that names it.
    pub open spec fn well_formed(&self) -> bool {
        arena_ordered(self@)
    }

    /// The slot of the root.
    pub fn root_index() -> (index: usize)
        ensures
            index == 0,
    {
        0
    }

    /// The root, unless its slot is missing or empty.
    pub fn root(&self) -> (node: Option<&FlatViewTreeNode>)
        ensures
            match node {
                Some(node) => self@.len() > 0 && self@[0] == Some(node@),
                None => self@.len() == 0 || self@[0] is None,
            },
    {
        self.tree.root()
    }

    /// The number of slots, empty ones included.
    pub fn len(&self) -> (n: usize)
        ensures
            n == self@.len(),
    {
        self.tree.len()
    }

    /// Whether the tree has no root.
    pub fn is_empty(&self) -> (b: bool)
        ensures
            b == (self@.len() == 0 || self@[0] is None),
    {
        self.tree.is_empty()
    }

    /// The node in slot `index`.
    pub fn get(&self, index: usize) -> (node: Result<&FlatViewTreeNode, FlatViewTreeError>)
        ensures
            match node {
                Ok(node) => index < self@.len() && self@[index as int] == Some(node@),
                Err(FlatViewTreeError::IndexOutOfBounds(i)) => i == index && index >= self@.len(),
                Err(FlatViewTreeError::NodeMissing(i)) => i == index && index < self@.len()
                    && self@[index as int] is None,
                Err(FlatViewTreeError::NotALeaf(_)) => false,
            },
    {
        match self.tree.get(index) {
            Ok(node) => Ok(node),
            Err(FlatTreeError::IndexOutOfBounds(i)) => Err(FlatViewTreeError::IndexOutOfBounds(i)),
            Err(FlatTreeError::NodeMissing(i)) => Err(FlatViewTreeError::NodeMissing(i)),
        }
    }

    /// Lays a completed view tree out, its root in slot 0.
    pub fn from_view_tree_completed(view_tree: ViewTree) -> (flat: Self)
        ensures
            flat@ == crate::tree::flatten(completed(view_tree), 0),
            flat.well_formed(),
    {
        FlatViewTree { tree: FlatTree::from_tree(complete(view_tree)) }
    }

    /// Replaces the subtree at slot `root_index` by a completed view tree.
    /// A slot outside the tree is refused, and the tree stays as it was.
    pub fn replace_subtree_completed(&mut self, root_index: usize, view_tree: ViewTree) -> (done:
        Result<(), FlatViewTreeError>)
        ensures
            match done {
                Ok(()) => root_index < old(self)@.len() && final(self)@ == replaced(
                    old(self)@,
                    Some(completed(view_tree)),
                    root_index as int,
                ),
                Err(FlatViewTreeError::IndexOutOfBounds(i)) => i == root_index && root_index
                    >= old(self)@.len() && *final(self) == *old(self),
                Err(_) => false,
            },
            old(self).well_formed() ==> final(self).well_formed(),
    {
        if root_index >= self.tree.len() {
            return Err(FlatViewTreeError::IndexOutOfBounds(root_index));
        }
        self.tree.replace_tree(Some(complete(view_tree)), root_index);
        Ok(())
    }

    /// Whether the leaf in slot `index` can be set: the slot does not hold a branch.
    pub fn accepts_leaf(&self, index: usize) -> (ok: bool)
        ensures
            ok == !is_branch_slot(self@, index as int),
    {
        match self.tree.get(index) {
            Ok(FlatTreeNode::Branch { .. }) => false,
            _ => true,
        }
    }

    /// Marks the leaf in slot `index` as started.
    pub fn set_leaf_started(&mut self, index: usize) -> (done: Result<(), FlatViewTreeError>)
        ensures
            match done {
                Ok(()) => index < old(self)@.len() && !is_branch_slot(old(self)@, index as int)
                    && final(self)@ == with_leaf(old(self)@, index as int, ViewNode::Started),
                Err(FlatViewTreeError::IndexOutOfBounds(i)) => i == index && index
                    >= old(self)@.len() && *final(self) == *old(self),
                Err(FlatViewTreeError::NotALeaf(i)) => i == index && is_branch_slot(
                    old(self)@,
                    index as int,
                ) && *final(self) == *old(self),
                Err(FlatViewTreeError::NodeMissing(_)) => false,
            },
            old(self).well_formed() ==> final(self).well_formed(),
    {
        self.set_leaf_view(index, ViewNode::Started)
    }

    /// Sets the leaf in slot `index` to `new_view`. An empty slot becomes
    /// a leaf. A slot outside the tree and a branch are refused, and the
    /// tree stays as it was.
    pub fn set_leaf_view(&mut self, index: usize, new_view: ViewNode) -> (done: Result<
        (),
        FlatViewTreeError,
    >)
        ensures
            match done {
                Ok(()) => index < old(self)@.len() && !is_branch_slot(old(self)@, index as int)
                    && final(self)@ == with_leaf(old(self)@, index as int, new_view),
                Err(FlatViewTreeError::IndexOutOfBounds(i)) => i == index && index
                    >= old(self)@.len() && *final(self) == *old(self),
                Err(FlatViewTreeError::NotALeaf(i)) => i == index && is_branch_slot(
                    old(self)@,
                    index as int,
                ) && *final(self) == *old(self),
                Err(FlatViewTreeError::NodeMissing(_)) => false,
            },
            old(self).well_formed() ==> final(self).well_formed(),
    {
        if index >= self.tree.len() {
            return Err(FlatViewTreeError::IndexOutOfBounds(index));
        }
        if !self.accepts_leaf(index) {
            return Err(FlatViewTreeError::NotALeaf(index));
        }
        let ghost wide = self.tree@;
        assert(!is_branch_slot(wide, index as int));
        match self.tree.get_mut(index) {
            Ok(FlatTreeNode::Leaf { node, .. }) => {
                *node = new_view;
            },
            _ => {
                self.tree.set_slot(index, Some(FlatTreeNode::Leaf { meta: None, node: new_view }));
            },
        }
        proof {
            if old(self).well_formed() {
                let after = self@;
                assert forall|i: int, k: int| 0 <= k < slot_children(after, i).len() implies i < (
                #[trigger] slot_children(after, i)[k]) < after.len() by {
                    assert(i != index);
                    assert(slot_children(after, i) == slot_children(wide, i));
                    assert(i < slot_children(wide, i)[k] < wide.len());
                }
            }
        }
        Ok(())
    }

    /// Empties the slot `index`. What the slot named stays in the arena. A
    /// slot outside the tree is refused, and the tree stays as it was.
    pub fn set_node_none(&mut self, index: usize) -> (done: Result<(), FlatViewTreeError>)
        ensures
            match done {
                Ok(()) => index < old(self)@.len() && final(self)@ == old(self)@.update(
                    index as int,
                    None,
                ),
                Err(FlatViewTreeError::IndexOutOfBounds(i)) => i == index && index
                    >= old(self)@.len() && *final(self) == *old(self),
                Err(_) => false,
            },
            old(self).well_formed() ==> final(self).well_formed(),
    {
        if index >= self.tree.len() {
            return Err(FlatViewTreeError::IndexOutOfBounds(index));
        }
        self.tree.set_slot(index, None);
        Ok(())
    }

    /// The node in slot `index`, to be changed in place.
    pub fn get_mut(&mut self, index: usize) -> (node: Result<
        &mut FlatViewTreeNode,
        FlatViewTreeError,
    >)
        ensures
            match node {
                Ok(node) => {
                    &&& index < old(self)@.len()
                    &&& old(self)@[index as int] == Some(node@)
                    &&& final(self)@ == old(self)@.update(index as int, Some(final(node)@))
                },
                Err(FlatViewTreeError::IndexOutOfBounds(i)) => {
                    &&& i == index
                    &&& index >= old(self)@.len()
                    &&& final(self)@ == old(self)@
                },
                Err(FlatViewTreeError::NodeMissing(i)) => {
                    &&& i == index
                    &&& index < old(self)@.len()
                    &&& old(self)@[index as int] is None
                    &&& final(self)@ == old(self)@
                },
                Err(FlatViewTreeError::NotALeaf(_)) => false,
            },
    {
        match self.tree.get_mut(index) {
            Ok(node) => Ok(node),
            Err(FlatTreeError::IndexOutOfBounds(i)) => Err(FlatViewTreeError::IndexOutOfBounds(i)),
            Err(FlatTreeError::NodeMissing(i)) => Err(FlatViewTreeError::NodeMissing(i)),
        }
    }

    /// A tree with the same branches and children in which no leaf has started.
    pub fn template(&self) -> (next: FlatViewTree)
        ensures
            templated(self@, next@),
            self.well_formed() ==> next.well_formed(),
    {
        let mut tree: FlatTree<ViewNode, Option<ViewElement>> = FlatTree::new();
        let mut i: usize = 0;
        while i < self.tree.len()
            invariant
                i <= self.tree@.len(),
                tree@.len() == i,
                forall|j: int|
                    0 <= j < i ==> match self@[j] {
                        None => (#[trigger] tree@[j]) is None,
                        Some(FlatNodeShape::Leaf { .. }) => tree@[j] == Some(
                            FlatNodeShape::<ViewNode, Option<ViewElement>>::Leaf {
                                meta: None,
                                node: ViewNode::NotStarted,
                            },
                        ),
                        Some(FlatNodeShape::Branch { meta, children }) => {
                            &&& tree@[j] matches Some(
                                FlatNodeShape::Branch {
                                    meta: after_meta,
                                    children: after_children,
                                },
                            )
                            &&& after_children == children
                            &&& shown(after_meta) == shown(meta)
                        },
                    },
            decreases self.tree@.len() - i,
        {
            let slot = match self.tree.get(i) {
                Err(_) => None,
                Ok(FlatTreeNode::Leaf { .. }) => Some(
                    FlatTreeNode::Leaf { meta: None, node: ViewNode::NotStarted },
                ),
                Ok(FlatTreeNode::Branch { meta, children }) => {
                    let view = match meta {
                        Some(view) => Some(view.duplicate()),
                        None => None,
                    };
                    Some(FlatTreeNode::Branch { meta: view, children: children.clone() })
                },
            };
            tree.push_slot(slot);
            i += 1;
        }
        let next = FlatViewTree { tree };
        proof {
            if self.well_formed() {
                assert forall|j: int| 0 <= j < self@.len() implies #[trigger] slot_children(
                    next@,
                    j,
                ) == slot_children(self@, j) by {
                    assert(next@[j] is None || next@[j] is Some);
                }
                lemma_same_children_ordered(self@, next@);
            }
        }
        next
    }
}

} // verus!
