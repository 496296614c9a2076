//! Trees of a plan, and the trees that are put below an item.

use crate::causality::meta::{CausalityMeta, MetaShape};
use crate::plan::id::{PlanNodeId, PlanNodeKey};
use crate::tree::{Tree, TreeShape};
use crate::view::{Render, ViewElement, ViewShape, ViewTree};
use vstd::prelude::*;
use vstd::string::StringExecFns;

verus! {

/// The metadata of a node of a plan.
pub type PlanMeta = CausalityMeta<PlanNodeId>;

/// A tree of a plan.
pub type PlanTree<Node> = Tree<Node, PlanMeta>;

/// The name `item` within the scope `scope`.
pub open spec fn scoped_key(scope: Seq<char>, item: Seq<char>) -> PlanNodeKey {
    PlanNodeKey::SubItem { scope, item }
}

/// The metadata with every name put into the scope.
pub open spec fn scoped_meta(meta: MetaShape<Seq<char>>, scope: Seq<char>) -> MetaShape<
    PlanNodeKey,
> {
    MetaShape {
        id: match meta.id {
            Some(id) => Some(scoped_key(scope, id)),
            None => None,
        },
        requires: Seq::new(meta.requires.len(), |i: int| scoped_key(scope, meta.requires[i])),
        required_by: Seq::new(
            meta.required_by.len(),
            |i: int| scoped_key(scope, meta.required_by[i]),
        ),
    }
}

/// `to` is `from` with the names of every node put into the scope.
pub open spec fn scoped<Node>(
    from: TreeShape<Node, CausalityMeta<String>>,
    scope: Seq<char>,
    to: TreeShape<Node, PlanMeta>,
) -> bool
    decreases from,
{
    match from {
        TreeShape::Leaf { meta, node } => to matches TreeShape::Leaf { meta: to_meta, node: to_node }
            && to_node == node && to_meta@ == scoped_meta(meta@, scope),
        TreeShape::Branch { meta, children } => {
            &&& to matches TreeShape::Branch { meta: to_meta, children: to_children }
            &&& to_meta@ == scoped_meta(meta@, scope)
            &&& to_children.len() == children.len()
            &&& forall|i: int|
                0 <= i < children.len() ==> scoped(#[trigger] children[i], scope, to_children[i])
        },
    }
}

/// The names put into the scope.
fn scope_ids(ids: Vec<String>, scope_id: &str) -> (scoped: Vec<PlanNodeId>)
    ensures
        scoped.len() == ids.len(),
        forall|i: int| 0 <= i < ids.len() ==> (#[trigger] scoped[i])@ == scoped_key(scope_id@, ids[i]@),
{
    let ghost list = ids@;
    let mut scoped: Vec<PlanNodeId> = Vec::new();
    for item_id in it: ids
        invariant
            it.seq() == list,
            scoped.len() == it.index(),
            forall|i: int|
                0 <= i < it.index() ==> (#[trigger] scoped[i])@ == scoped_key(scope_id@, list[i]@),
    {
        assert(item_id == list[it.index() as int]);
        scoped.push(PlanNodeId::SubItem { scope_id: String::from_str(scope_id), item_id });
    }
    scoped
}

/// The metadata with every name put into the scope.
pub fn scope_meta(meta: CausalityMeta<String>, scope_id: &str) -> (scoped: PlanMeta)
    ensures
        scoped@ == scoped_meta(meta@, scope_id@),
{
    let CausalityMeta { id, requires: needs, required_by: needed_by } = meta;
    let scoped = CausalityMeta {
        id: match id {
            Some(item_id) => Some(
                PlanNodeId::SubItem { scope_id: String::from_str(scope_id), item_id },
            ),
            None => None,
        },
        requires: scope_ids(needs, scope_id),
        required_by: scope_ids(needed_by, scope_id),
    };
    assert(scoped@.requires =~= scoped_meta(meta@, scope_id@).requires);
    assert(scoped@.required_by =~= scoped_meta(meta@, scope_id@).required_by);
    scoped
}

/// The tree with the names of every node put into the scope.
pub fn scope_tree<Node>(tree: Tree<Node, CausalityMeta<String>>, scope_id: &str) -> (scoped_tree:
    PlanTree<Node>)
    ensures
        scoped(tree@, scope_id@, scoped_tree@),
    decreases tree,
{
    match tree {
        Tree::Leaf { meta, node } => Tree::Leaf { meta: scope_meta(meta, scope_id), node },
        Tree::Branch { meta, children } => {
            let ghost kids = children@;
            let mut trees: Vec<PlanTree<Node>> = Vec::new();
            for child in it: children
                invariant
                    it.seq() == kids,
                    tree matches Tree::Branch { children: c, .. } && c@ == kids,
                    trees.len() == it.index(),
                    forall|i: int|
                        0 <= i < it.index() ==> scoped((#[trigger] kids[i])@, scope_id@, trees[i]@),
            {
                assert(child == kids[it.index() as int]);
                trees.push(scope_tree(child, scope_id));
            }
            let scoped_tree = Tree::Branch { meta: scope_meta(meta, scope_id), children: trees };
            assert forall|i: int| 0 <= i < tree@->Branch_children.len() implies scoped(
                #[trigger] tree@->Branch_children[i],
                scope_id@,
                scoped_tree@->Branch_children[i],
            ) by {
                assert(scoped(kids[i]@, scope_id@, trees[i]@));
            }
            scoped_tree
        },
    }
}

/// `tree` is a branch with the metadata `meta` whose children are
/// `subitems` in order, each with its names put into the scope.
pub open spec fn holds_subitems<Node>(
    tree: TreeShape<Node, PlanMeta>,
    meta: PlanMeta,
    subitems: Seq<Tree<Node, CausalityMeta<String>>>,
    scope: Seq<char>,
) -> bool {
    &&& tree matches TreeShape::Branch { meta: held, children }
    &&& held == meta
    &&& children.len() == subitems.len()
    &&& forall|i: int| 0 <= i < subitems.len() ==> scoped((#[trigger] subitems[i])@, scope, children[i])
}

/// Puts the trees that an item expands to below the item, their names
/// within the scope `scope_id`, so that they cannot meet the names of the plan.
pub fn scope_subitems<Node>(
    meta: PlanMeta,
    subitems: Vec<Tree<Node, CausalityMeta<String>>>,
    scope_id: &str,
) -> (tree: PlanTree<Node>)
    ensures
        holds_subitems(tree@, meta, subitems@, scope_id@),
{
    let ghost list = subitems@;
    let mut children: Vec<PlanTree<Node>> = Vec::new();
    for subitem in it: subitems
        invariant
            it.seq() == list,
            children.len() == it.index(),
            forall|i: int|
                0 <= i < it.index() ==> scoped((#[trigger] list[i])@, scope_id@, children[i]@),
    {
        assert(subitem == list[it.index() as int]);
        children.push(scope_tree(subitem, scope_id));
    }
    let tree = Tree::Branch { meta, children };
    assert forall|i: int| 0 <= i < list.len() implies scoped(
        (#[trigger] list[i])@,
        scope_id@,
        tree@->Branch_children[i],
    ) by {
        assert(scoped(list[i]@, scope_id@, children[i]@));
    }
    tree
}

/// A fresh identifier from `cuid2::create_id`. It is made of the time, a
/// counter and random characters; nothing is promised of it.
#[verifier::external_body]
fn fresh_scope_id() -> (scope_id: String) {
    cuid2::create_id()
}

/// Puts the trees that an item expands to below the item, their names
/// within a scope of their own.
pub fn map_plan_subitems<Node>(
    meta: PlanMeta,
    subitems: Vec<Tree<Node, CausalityMeta<String>>>,
) -> (tree: PlanTree<Node>)
    ensures
        exists|scope: Seq<char>| holds_subitems(tree@, meta, subitems@, scope),
{
    let scope_id = fresh_scope_id();
    scope_subitems(meta, subitems, scope_id.as_str())
}

/// Whether `view_tree` shows the tree: a branch shows its name, or a dot
/// where it has none, above what its children show, one for one and in
/// order; a leaf shows what its node renders.
pub open spec fn shows<Node: Render>(tree: Tree<Node, PlanMeta>, view_tree: ViewTree) -> bool
    decreases tree,
{
    match tree {
        Tree::Leaf { node, .. } => view_tree is Leaf && call_ensures(
            Node::render,
            (&node,),
            view_tree->Leaf_view,
        ),
        Tree::Branch { meta, children } => {
            &&& view_tree is Branch
            &&& view_tree->Branch_view@ == ViewShape::Line(
                match meta.id {
                    Some(id) => id.spec_label(),
                    None => "."@,
                },
            )
            &&& view_tree->children.len() == children.len()
            &&& forall|i: int|
                0 <= i < children.len() ==> shows(
                    #[trigger] children[i],
                    view_tree->children[i],
                )
        },
    }
}

/// What a tree of a plan shows: the name of a branch, or a dot where it
/// has none, and what each leaf renders.
pub fn render_plan_tree<Node: Render>(tree: &PlanTree<Node>) -> (view_tree: ViewTree)
    ensures
        shows(*tree, view_tree),
    decreases tree,
{
    match tree {
        Tree::Leaf { meta: _, node } => ViewTree::Leaf { view: node.render() },
        Tree::Branch { meta, children } => {
            let view = match &meta.id {
                Some(id) => id.render(),
                None => ViewElement::line("."),
            };
            let mut shown: Vec<ViewTree> = Vec::new();
            let mut i: usize = 0;
            while i < children.len()
                invariant
                    i <= children.len(),
                    tree matches Tree::Branch { children: c, .. } && c == children,
                    shown.len() == i,
                    forall|j: int| 0 <= j < i ==> shows(#[trigger] children[j], shown[j]),
                decreases children.len() - i,
            {
                shown.push(render_plan_tree(&children[i]));
                i += 1;
            }
            ViewTree::Branch { view, children: shown }
        },
    }
}

} // verus!
