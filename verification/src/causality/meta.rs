//! The causality metadata that every tree node carries.

use crate::tree::Tree;
use vstd::prelude::*;
use vstd::string::StringExecFns;

verus! {

/// An identifier that can be compared and copied. The view is what
/// identifies: two ids name the same node exactly when their views are equal.
pub trait NodeKey: View + Sized {
    /// Whether both ids name the same node.
    fn same_as(&self, other: &Self) -> (same: bool)
        ensures
            same == (self@ == other@),
    ;

    /// Another id that names the same node.
    fn duplicate(&self) -> (copy: Self)
        ensures
            copy@ == self@,
    ;
}

impl NodeKey for String {
    fn same_as(&self, other: &Self) -> (same: bool) {
        *self == *other
    }

    fn duplicate(&self) -> (copy: Self) {
        self.clone()
    }
}

/// What a node declares about its place in the order of execution: a name
/// by which others refer to it, the names that must complete before it,
/// and the names that must wait for it. On a branch it holds of every
/// descendant.
#[derive(Debug, Clone)]
pub struct CausalityMeta<NodeId> {
    pub id: Option<NodeId>,
    pub requires: Vec<NodeId>,
    pub required_by: Vec<NodeId>,
}

/// The mathematical shape of a [`CausalityMeta`]: the views of its ids.
pub ghost struct MetaShape<Key> {
    pub id: Option<Key>,
    pub requires: Seq<Key>,
    pub required_by: Seq<Key>,
}

impl<NodeId: View> View for CausalityMeta<NodeId> {
    type V = MetaShape<NodeId::V>;

    open spec fn view(&self) -> MetaShape<NodeId::V> {
        MetaShape {
            id: match self.id {
                Some(id) => Some(id@),
                None => None,
            },
            requires: Seq::new(self.requires@.len(), |i: int| self.requires@[i]@),
            required_by: Seq::new(self.required_by@.len(), |i: int| self.required_by@[i]@),
        }
    }
}

impl<Key> MetaShape<Key> {
    /// Metadata that declares nothing.
    pub open spec fn plain() -> Self {
        MetaShape { id: None, requires: Seq::empty(), required_by: Seq::empty() }
    }

    /// Metadata that only names the node.
    pub open spec fn named(id: Key) -> Self {
        MetaShape { id: Some(id), requires: Seq::empty(), required_by: Seq::empty() }
    }

    /// Metadata that only says that the node comes after `id`.
    pub open spec fn after(id: Key) -> Self {
        MetaShape { id: None, requires: seq![id], required_by: Seq::empty() }
    }
}

/// A tree whose nodes carry causality metadata.
pub type CausalityTree<Node, NodeId> = Tree<Node, CausalityMeta<NodeId>>;

impl<NodeId> Default for CausalityMeta<NodeId> {
    fn default() -> (meta: Self)
        ensures
            meta.id is None,
            meta.requires@.len() == 0,
            meta.required_by@.len() == 0,
    {
        CausalityMeta { id: None, requires: Vec::new(), required_by: Vec::new() }
    }
}

impl<NodeId> CausalityMeta<NodeId> {
    /// Metadata that only names the node.
    pub fn id(id: NodeId) -> (meta: Self)
        ensures
            meta.id == Some(id),
            meta.requires@.len() == 0,
            meta.required_by@.len() == 0,
    {
        CausalityMeta { id: Some(id), requires: Vec::new(), required_by: Vec::new() }
    }

    /// Metadata that only says what must complete before the node.
    pub fn requiring(ids: Vec<NodeId>) -> (meta: Self)
        ensures
            meta.id is None,
            meta.requires == ids,
            meta.required_by@.len() == 0,
    {
        CausalityMeta { id: None, requires: ids, required_by: Vec::new() }
    }

    /// Metadata that only says what must wait for the node.
    pub fn required_by(required_by: Vec<NodeId>) -> (meta: Self)
        ensures
            meta.id is None,
            meta.requires@.len() == 0,
            meta.required_by == required_by,
    {
        CausalityMeta { id: None, requires: Vec::new(), required_by }
    }
}

/// The tree is a leaf that declares nothing.
pub open spec fn plain_leaf<Node>(tree: Tree<Node, CausalityMeta<String>>) -> bool {
    tree is Leaf && tree->Leaf_meta@ == MetaShape::<Seq<char>>::plain()
}

/// The tree is a leaf with the name `id`.
pub open spec fn named_leaf<Node>(tree: Tree<Node, CausalityMeta<String>>, id: Seq<char>) -> bool {
    tree is Leaf && tree->Leaf_meta@ == MetaShape::named(id)
}

/// The tree is a leaf that comes after the node named `id`.
pub open spec fn leaf_after<Node>(tree: Tree<Node, CausalityMeta<String>>, id: Seq<char>) -> bool {
    tree is Leaf && tree->Leaf_meta@ == MetaShape::after(id)
}

/// Metadata that declares nothing.
pub fn plain_meta() -> (meta: CausalityMeta<String>)
    ensures
        meta@ == MetaShape::<Seq<char>>::plain(),
{
    let meta = CausalityMeta { id: None, requires: Vec::new(), required_by: Vec::new() };
    assert(meta@.requires =~= Seq::empty());
    assert(meta@.required_by =~= Seq::empty());
    meta
}

/// Metadata that only names the node.
pub fn named_meta(id: &str) -> (meta: CausalityMeta<String>)
    ensures
        meta@ == MetaShape::named(id@),
{
    let meta = CausalityMeta {
        id: Some(String::from_str(id)),
        requires: Vec::new(),
        required_by: Vec::new(),
    };
    assert(meta@.requires =~= Seq::empty());
    assert(meta@.required_by =~= Seq::empty());
    meta
}

/// Metadata that only says that the node comes after the node named `id`.
pub fn meta_after(id: &str) -> (meta: CausalityMeta<String>)
    ensures
        meta@ == MetaShape::after(id@),
{
    let mut needs: Vec<String> = Vec::new();
    needs.push(String::from_str(id));
    let meta = CausalityMeta { id: None, requires: needs, required_by: Vec::new() };
    assert(meta@.requires =~= seq![id@]);
    assert(meta@.required_by =~= Seq::empty());
    meta
}

} // verus!
