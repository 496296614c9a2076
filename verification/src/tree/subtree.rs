//! Subtrees of an arena: which slots belong to the subtree at a slot, what
//! tree the subtree is, and why replacing a subtree by itself changes no
//! tree.

use crate::tree::{
    arena_ordered, child_roots, cleared, cleared_from, count_present, flat_size, flat_size_from,
    flatten, flatten_from, lemma_child_roots_range, lemma_flatten_children,
    lemma_flatten_from_children, lemma_flatten_len, lemma_cleared_count, lemma_cleared_thins, lemma_count_present_take,
    lemma_flatten_from_len, lemma_rebuild_count, lemma_rebuild_from_flatten,
    lemma_thinned_ordered, nested, rebuild, rebuild_from, replaced, slot_children, thinned,
    ArenaShape,
    FlatNodeShape, TreeShape,
};
use vstd::prelude::*;

verus! {

/// Whether `slot` belongs to the subtree at slot `index`: it is that slot,
/// or it belongs to the subtree of one of its children.
pub open spec fn within<Node, Meta>(nodes: ArenaShape<Node, Meta>, index: int, slot: int) -> bool
    decreases nodes.len() - index,
{
    &&& 0 <= index < nodes.len()
    &&& (slot == index || exists|k: int|
        0 <= k < slot_children(nodes, index).len() && index < (#[trigger] slot_children(
            nodes,
            index,
        )[k]) < nodes.len() && within(nodes, slot_children(nodes, index)[k] as int, slot))
}

/// No slot is named as a child twice: not by two branches, and not twice
/// by one.
pub open spec fn unshared<Node, Meta>(nodes: ArenaShape<Node, Meta>) -> bool {
    forall|p: int, k: int, q: int, l: int|
        0 <= k < slot_children(nodes, p).len() && 0 <= l < slot_children(nodes, q).len()
            && #[trigger] slot_children(nodes, p)[k] == #[trigger] slot_children(nodes, q)[l]
            ==> p == q && k == l
}

/// The tree at slot `index`: the trees at its children, in order, those
/// left out whose slot is empty. Nothing for an empty slot or an index
/// outside the arena.
pub open spec fn subtree<Node, Meta>(nodes: ArenaShape<Node, Meta>, index: int) -> Option<
    TreeShape<Node, Meta>,
>
    decreases nodes.len() - index, 1nat, 0nat,
{
    if 0 <= index < nodes.len() {
        match nodes[index] {
            None => None,
            Some(FlatNodeShape::Leaf { meta, node }) => Some(TreeShape::Leaf { meta, node }),
            Some(FlatNodeShape::Branch { meta, children }) => Some(
                TreeShape::Branch { meta, children: subtrees_from(nodes, index, children, 0) },
            ),
        }
    } else {
        None
    }
}

/// The trees at the children of `parent` from position `k` on.
pub open spec fn subtrees_from<Node, Meta>(
    nodes: ArenaShape<Node, Meta>,
    parent: int,
    children: Seq<usize>,
    k: int,
) -> Seq<TreeShape<Node, Meta>>
    decreases nodes.len() - parent, 0nat, children.len() - k,
{
    if 0 <= k < children.len() {
        let first = if parent < children[k] < nodes.len() {
            subtree(nodes, children[k] as int)
        } else {
            None
        };
        let others = subtrees_from(nodes, parent, children, k + 1);
        match first {
            Some(tree) => seq![tree] + others,
            None => others,
        }
    } else {
        Seq::empty()
    }
}

/// A slot of a subtree lies inside the arena, not before the root of the
/// subtree.
pub proof fn lemma_within_bounds<Node, Meta>(nodes: ArenaShape<Node, Meta>, index: int, slot: int)
    requires
        within(nodes, index, slot),
    ensures
        0 <= index <= slot < nodes.len(),
    decreases nodes.len() - index,
{
    if slot != index {
        let k = choose|k: int|
            0 <= k < slot_children(nodes, index).len() && index < (#[trigger] slot_children(nodes, index)[k]) < nodes.len() && within(
                nodes,
                slot_children(nodes, index)[k] as int,
                slot,
            );
        lemma_within_bounds(nodes, slot_children(nodes, index)[k] as int, slot);
    }
}

/// What belongs to a subtree of a subtree belongs to the subtree.
pub proof fn lemma_within_chain<Node, Meta>(
    nodes: ArenaShape<Node, Meta>,
    index: int,
    middle: int,
    slot: int,
)
    requires
        within(nodes, index, middle),
        within(nodes, middle, slot),
    ensures
        within(nodes, index, slot),
    decreases nodes.len() - index,
{
    if middle != index {
        let k = choose|k: int|
            0 <= k < slot_children(nodes, index).len() && index < (#[trigger] slot_children(nodes, index)[k]) < nodes.len() && within(
                nodes,
                slot_children(nodes, index)[k] as int,
                middle,
            );
        lemma_within_chain(nodes, slot_children(nodes, index)[k] as int, middle, slot);
    }
}

/// A slot of a subtree other than its root is the child of a branch of
/// the subtree.
pub proof fn lemma_within_parent<Node, Meta>(
    nodes: ArenaShape<Node, Meta>,
    index: int,
    slot: int,
) -> (found: (int, int))
    requires
        within(nodes, index, slot),
        slot != index,
    ensures
        within(nodes, index, found.0),
        0 <= found.1 < slot_children(nodes, found.0).len(),
        slot_children(nodes, found.0)[found.1] == slot,
    decreases nodes.len() - index,
{
    let k = choose|k: int|
        0 <= k < slot_children(nodes, index).len() && index < (#[trigger] slot_children(nodes, index)[k]) < nodes.len() && within(nodes, slot_children(nodes, index)[k] as int, slot);
    let child = slot_children(nodes, index)[k] as int;
    if child == slot {
        (index, k)
    } else {
        let found = lemma_within_parent(nodes, child, slot);
        assert(within(nodes, child, child));
        assert(within(nodes, index, child));
        lemma_within_chain(nodes, index, child, found.0);
        found
    }
}

/// A child of a branch belongs to the subtree of the branch.
pub proof fn lemma_child_within<Node, Meta>(nodes: ArenaShape<Node, Meta>, index: int, k: int)
    requires
        arena_ordered(nodes),
        0 <= k < slot_children(nodes, index).len(),
    ensures
        within(nodes, index, slot_children(nodes, index)[k] as int),
        within(nodes, slot_children(nodes, index)[k] as int, slot_children(nodes, index)[k] as int),
        index < slot_children(nodes, index)[k] < nodes.len(),
{
    let child = slot_children(nodes, index)[k];
    assert(index < child < nodes.len());
    assert(0 <= index < nodes.len()) by {
        if !(0 <= index < nodes.len()) {
            assert(slot_children(nodes, index).len() == 0);
        }
    }
    assert(within(nodes, child as int, child as int));
}

/// Of two subtrees that share a slot, the one that begins first holds the
/// other, where no slot is named twice.
pub proof fn lemma_within_nested<Node, Meta>(
    nodes: ArenaShape<Node, Meta>,
    first: int,
    second: int,
    slot: int,
)
    requires
        arena_ordered(nodes),
        unshared(nodes),
        within(nodes, first, slot),
        within(nodes, second, slot),
        first <= second,
    ensures
        within(nodes, first, second),
    decreases nodes.len() - first,
{
    lemma_within_bounds(nodes, first, slot);
    lemma_within_bounds(nodes, second, slot);
    if first == second {
    } else if slot == first {
    } else {
        let k = choose|k: int|
            0 <= k < slot_children(nodes, first).len() && first < (#[trigger] slot_children(nodes, first)[k]) < nodes.len() && within(
                nodes,
                slot_children(nodes, first)[k] as int,
                slot,
            );
        let child = slot_children(nodes, first)[k] as int;
        if child <= second {
            lemma_within_nested(nodes, child, second, slot);
        } else {
            lemma_within_nested(nodes, second, child, slot);
            let found = lemma_within_parent(nodes, second, child);
            lemma_within_bounds(nodes, second, found.0);
            assert(slot_children(nodes, found.0)[found.1] == slot_children(nodes, first)[k]);
            assert(false);
        }
    }
}

/// The subtrees of two children of a branch share no slot, where no slot
/// is named twice.
pub proof fn lemma_siblings_apart<Node, Meta>(
    nodes: ArenaShape<Node, Meta>,
    index: int,
    k: int,
    l: int,
    slot: int,
)
    requires
        arena_ordered(nodes),
        unshared(nodes),
        0 <= k < slot_children(nodes, index).len(),
        0 <= l < slot_children(nodes, index).len(),
        k != l,
        within(nodes, slot_children(nodes, index)[k] as int, slot),
    ensures
        !within(nodes, slot_children(nodes, index)[l] as int, slot),
{
    let one = slot_children(nodes, index)[k] as int;
    let other = slot_children(nodes, index)[l] as int;
    lemma_child_within(nodes, index, k);
    lemma_child_within(nodes, index, l);
    if within(nodes, other, slot) {
        assert(one != other);
        if one < other {
            lemma_within_nested(nodes, one, other, slot);
            let found = lemma_within_parent(nodes, one, other);
            lemma_within_bounds(nodes, one, found.0);
            assert(slot_children(nodes, found.0)[found.1] == slot_children(nodes, index)[l]);
            assert(false);
        } else {
            lemma_within_nested(nodes, other, one, slot);
            let found = lemma_within_parent(nodes, other, one);
            lemma_within_bounds(nodes, other, found.0);
            assert(slot_children(nodes, found.0)[found.1] == slot_children(nodes, index)[k]);
            assert(false);
        }
    }
}

/// Rebuilding at a slot yields the tree at the slot and leaves every slot
/// outside its subtree as it was, in any arena that holds the subtree as
/// `nodes` does.
pub proof fn lemma_rebuild_subtree<Node, Meta>(
    nodes: ArenaShape<Node, Meta>,
    state: ArenaShape<Node, Meta>,
    index: int,
)
    requires
        arena_ordered(nodes),
        unshared(nodes),
        0 <= index < nodes.len() <= state.len(),
        forall|x: int| within(nodes, index, x) ==> state[x] == nodes[x],
    ensures
        rebuild(state, index).0 == subtree(nodes, index),
        rebuild(state, index).1.len() == state.len(),
        forall|x: int|
            0 <= x < state.len() && !within(nodes, index, x) ==> rebuild(state, index).1[x]
                == state[x],
    decreases nodes.len() - index, 1nat, 0nat,
{
    assert(within(nodes, index, index));
    match nodes[index] {
        Some(FlatNodeShape::Branch { meta, children }) => {
            let rest = state.update(index, None);
            assert(children == slot_children(nodes, index));
            assert forall|l: int, x: int|
                0 <= l < children.len() && within(nodes, children[l] as int, x) implies rest[x]
                == nodes[x] by {
                lemma_child_within(nodes, index, l);
                lemma_within_chain(nodes, index, children[l] as int, x);
                lemma_within_bounds(nodes, children[l] as int, x);
            }
            lemma_rebuild_children(nodes, rest, index, 0);
            assert(state[index] == nodes[index]);
            assert(rebuild(state, index).1 == rebuild_from(rest, children, 0).1);
            assert forall|x: int|
                0 <= x < state.len() && !within(nodes, index, x) implies rebuild(
                state,
                index,
            ).1[x] == state[x] by {
                assert(rest[x] == state[x]);
            }
        },
        Some(FlatNodeShape::Leaf { .. }) => {
            assert(state[index] == nodes[index]);
        },
        None => {
            assert(state[index] == nodes[index]);
        },
    }
}

/// Rebuilding the children of a branch from position `k` on yields the
/// trees at those children and leaves every slot outside the subtree of
/// the branch as it was.
pub proof fn lemma_rebuild_children<Node, Meta>(
    nodes: ArenaShape<Node, Meta>,
    state: ArenaShape<Node, Meta>,
    parent: int,
    k: int,
)
    requires
        arena_ordered(nodes),
        unshared(nodes),
        0 <= parent < nodes.len() <= state.len(),
        0 <= k,
        forall|l: int, x: int|
            k <= l < slot_children(nodes, parent).len() && within(
                nodes,
                slot_children(nodes, parent)[l] as int,
                x,
            ) ==> state[x] == nodes[x],
    ensures
        rebuild_from(state, slot_children(nodes, parent), k).0 == subtrees_from(
            nodes,
            parent,
            slot_children(nodes, parent),
            k,
        ),
        rebuild_from(state, slot_children(nodes, parent), k).1.len() == state.len(),
        forall|x: int|
            0 <= x < state.len() && !within(nodes, parent, x) ==> rebuild_from(
                state,
                slot_children(nodes, parent),
                k,
            ).1[x] == state[x],
    decreases nodes.len() - parent, 0nat, slot_children(nodes, parent).len() - k,
{
    let children = slot_children(nodes, parent);
    if k < children.len() {
        let child = children[k] as int;
        lemma_child_within(nodes, parent, k);
        lemma_rebuild_subtree(nodes, state, child);
        lemma_rebuild_count(state, child);
        let after = rebuild(state, child).1;
        assert forall|l: int, x: int|
            k + 1 <= l < children.len() && within(nodes, children[l] as int, x) implies after[x]
            == nodes[x] by {
            lemma_siblings_apart(nodes, parent, l, k, x);
            lemma_within_bounds(nodes, children[l] as int, x);
        }
        lemma_rebuild_children(nodes, after, parent, k + 1);
        assert forall|x: int| 0 <= x < state.len() && !within(nodes, parent, x) implies rebuild_from(
            state,
            children,
            k,
        ).1[x] == state[x] by {
            if within(nodes, child, x) {
                lemma_within_chain(nodes, parent, child, x);
            }
        }
    }
}

/// Being thinned goes on: what is thinned from a thinned arena is
/// thinned from the arena.
pub proof fn lemma_thinned_chain<Node, Meta>(
    nodes: ArenaShape<Node, Meta>,
    middle: ArenaShape<Node, Meta>,
    last: ArenaShape<Node, Meta>,
)
    requires
        thinned(nodes, middle),
        thinned(middle, last),
    ensures
        thinned(nodes, last),
{
    assert forall|i: int| 0 <= i < nodes.len() implies (#[trigger] last[i]) is None || last[i]
        == nodes[i] by {
        assert(middle[i] is None || middle[i] == nodes[i]);
    }
}

/// Removing the subtree at a slot leaves every slot outside the subtree
/// as it was, also where slots of the arena were emptied before.
pub proof fn lemma_cleared_outside<Node, Meta>(
    nodes: ArenaShape<Node, Meta>,
    state: ArenaShape<Node, Meta>,
    index: int,
)
    requires
        arena_ordered(nodes),
        thinned(nodes, state),
        0 <= index < nodes.len(),
    ensures
        forall|x: int|
            0 <= x < nodes.len() && !within(nodes, index, x) ==> cleared(state, index)[x]
                == state[x],
    decreases count_present(state), 0nat,
{
    assert(within(nodes, index, index));
    match state[index] {
        Some(FlatNodeShape::Branch { children, .. }) => {
            let rest = state.update(index, None);
            assert(state[index] == nodes[index]);
            assert(children == slot_children(nodes, index));
            lemma_count_present_take(state, index);
            assert(thinned(state, rest));
            lemma_thinned_chain(nodes, state, rest);
            lemma_cleared_children_outside(nodes, rest, index, 0);
            assert forall|x: int| 0 <= x < nodes.len() && !within(nodes, index, x) implies cleared(
                state,
                index,
            )[x] == state[x] by {
                assert(rest[x] == state[x]);
            }
        },
        _ => {},
    }
}

/// Removing the subtrees of the children of a branch from position `k` on
/// leaves every slot outside the subtree of the branch as it was.
pub proof fn lemma_cleared_children_outside<Node, Meta>(
    nodes: ArenaShape<Node, Meta>,
    state: ArenaShape<Node, Meta>,
    parent: int,
    k: int,
)
    requires
        arena_ordered(nodes),
        thinned(nodes, state),
        0 <= parent < nodes.len(),
        0 <= k,
    ensures
        forall|x: int|
            0 <= x < nodes.len() && !within(nodes, parent, x) ==> cleared_from(
                state,
                slot_children(nodes, parent),
                k,
            )[x] == state[x],
    decreases count_present(state), 1 + slot_children(nodes, parent).len() - k,
{
    let children = slot_children(nodes, parent);
    if k < children.len() {
        let child = children[k] as int;
        lemma_child_within(nodes, parent, k);
        lemma_cleared_outside(nodes, state, child);
        lemma_cleared_count(state, child);
        lemma_thinned_ordered(nodes, state);
        lemma_cleared_thins(state, child);
        let first = cleared(state, child);
        lemma_thinned_chain(nodes, state, first);
        lemma_cleared_children_outside(nodes, first, parent, k + 1);
        assert forall|x: int| 0 <= x < nodes.len() && !within(nodes, parent, x) implies cleared_from(
            state,
            children,
            k,
        )[x] == state[x] by {
            if within(nodes, child, x) {
                lemma_within_chain(nodes, parent, child, x);
            }
        }
    }
}

/// Whether both arenas hold the same behind the first `from` slots.
pub open spec fn same_behind<Node, Meta>(
    one: ArenaShape<Node, Meta>,
    other: ArenaShape<Node, Meta>,
    from: int,
) -> bool {
    &&& one.len() == other.len()
    &&& forall|x: int| from <= x < one.len() ==> one[x] == other[x]
}

/// Whether `state` holds the subtree at `index` as the arena `after`
/// holds it, where `after` is `nodes` with the subtree at `at` replaced:
/// outside the subtree at `at` it holds what `nodes` holds, and where the
/// subtree at `index` reaches `at` it holds the new slot and the new
/// slots behind the old ones.
pub open spec fn stands_for<Node, Meta>(
    nodes: ArenaShape<Node, Meta>,
    after: ArenaShape<Node, Meta>,
    state: ArenaShape<Node, Meta>,
    at: int,
    index: int,
) -> bool {
    &&& state.len() == after.len()
    &&& forall|x: int| within(nodes, index, x) && !within(nodes, at, x) ==> state[x] == nodes[x]
    &&& within(nodes, index, at) ==> state[at] == after[at] && same_behind(
        state,
        after,
        nodes.len() as int,
    )
}

/// In the arena in which the subtree at `at` was replaced by itself,
/// rebuilding at a slot outside that subtree, or at `at`, yields the tree
/// that stood at the slot before.
pub proof fn lemma_rebuild_replaced<Node, Meta>(
    nodes: ArenaShape<Node, Meta>,
    tree: TreeShape<Node, Meta>,
    at: int,
    state: ArenaShape<Node, Meta>,
    index: int,
)
    requires
        arena_ordered(nodes),
        unshared(nodes),
        0 <= at < nodes.len(),
        subtree(nodes, at) == Some(tree),
        replaced(nodes, Some(tree), at).len() <= usize::MAX,
        0 <= index < nodes.len(),
        index == at || !within(nodes, at, index),
        stands_for(nodes, replaced(nodes, Some(tree), at), state, at, index),
    ensures
        rebuild(state, index).0 == subtree(nodes, index),
        rebuild(state, index).1.len() == state.len(),
        forall|x: int|
            0 <= x < nodes.len() && !within(nodes, index, x) ==> rebuild(state, index).1[x]
                == state[x],
        !within(nodes, index, at) ==> same_behind(
            rebuild(state, index).1,
            state,
            nodes.len() as int,
        ),
    decreases nodes.len() - index, 1nat, 0nat,
{
    let after = replaced(nodes, Some(tree), at);
    let freed = cleared(nodes, at);
    let base = nodes.len() as int;
    lemma_thinned_ordered(nodes, nodes);
    lemma_cleared_thins(nodes, at);
    assert(freed.len() == base);
    assert(within(nodes, index, index));
    assert(within(nodes, at, at));
    if index == at {
        match tree {
            TreeShape::Leaf { .. } => {
                assert(state[at] == after[at]);
            },
            TreeShape::Branch { meta, children } => {
                let roots = child_roots(children, 0, base);
                lemma_flatten_from_len(children, 0, base);
                assert(after.len() == base + flat_size_from(children, 0));
                assert(state[at] == after[at]);
                let rest = state.update(at, None);
                let head = rest.subrange(0, base);
                assert(rest =~= head + flatten_from(children, 0, base) + Seq::empty()) by {
                    assert forall|x: int| base <= x < rest.len() implies rest[x] == flatten_from(
                        children,
                        0,
                        base,
                    )[x - base] by {
                        assert(state[x] == after[x]);
                    }
                }
                assert(roots.subrange(0, roots.len() as int) =~= roots);
                lemma_rebuild_from_flatten(children, 0, head, Seq::empty(), roots);
                assert(children.subrange(0, children.len() as int) =~= children);
                assert(rebuild(state, at).1 == rebuild_from(rest, roots, 0).1);
            },
        }
    } else if !within(nodes, index, at) {
        assert forall|x: int| within(nodes, index, x) implies state[x] == nodes[x] by {
            if within(nodes, at, x) {
                if index <= at {
                    lemma_within_nested(nodes, index, at, x);
                } else {
                    lemma_within_nested(nodes, at, index, x);
                }
            }
        }
        lemma_rebuild_subtree(nodes, state, index);
        assert forall|x: int| base <= x < state.len() implies rebuild(state, index).1[x]
            == state[x] by {
            if within(nodes, index, x) {
                lemma_within_bounds(nodes, index, x);
            }
        }
    } else {
        assert(state[index] == nodes[index]);
        assert(nodes[index] is Some && nodes[index]->0 is Branch) by {
            if !(nodes[index] is Some && nodes[index]->0 is Branch) {
                assert(slot_children(nodes, index).len() == 0);
            }
        }
        let children = slot_children(nodes, index);
        let rest = state.update(index, None);
        assert forall|l: int, x: int|
            0 <= l < children.len() && within(nodes, children[l] as int, x) && !within(
                nodes,
                at,
                x,
            ) implies rest[x] == nodes[x] by {
            lemma_child_within(nodes, index, l);
            lemma_within_chain(nodes, index, children[l] as int, x);
            lemma_within_bounds(nodes, children[l] as int, x);
        }
        assert(rest[at] == after[at]);
        assert(same_behind(rest, after, base));
        lemma_rebuild_replaced_children(nodes, tree, at, rest, index, 0);
        assert(rebuild(state, index).1 == rebuild_from(rest, children, 0).1);
        assert forall|x: int| 0 <= x < nodes.len() && !within(nodes, index, x) implies rebuild(
            state,
            index,
        ).1[x] == state[x] by {
            assert(rest[x] == state[x]);
        }
    }
}

/// The same of the children of a branch outside the replaced subtree,
/// from position `k` on.
pub proof fn lemma_rebuild_replaced_children<Node, Meta>(
    nodes: ArenaShape<Node, Meta>,
    tree: TreeShape<Node, Meta>,
    at: int,
    state: ArenaShape<Node, Meta>,
    parent: int,
    k: int,
)
    requires
        arena_ordered(nodes),
        unshared(nodes),
        0 <= at < nodes.len(),
        subtree(nodes, at) == Some(tree),
        replaced(nodes, Some(tree), at).len() <= usize::MAX,
        0 <= parent < nodes.len(),
        parent != at,
        !within(nodes, at, parent),
        0 <= k,
        state.len() == replaced(nodes, Some(tree), at).len(),
        forall|l: int, x: int|
            k <= l < slot_children(nodes, parent).len() && within(
                nodes,
                slot_children(nodes, parent)[l] as int,
                x,
            ) && !within(nodes, at, x) ==> state[x] == nodes[x],
        forall|l: int|
            k <= l < slot_children(nodes, parent).len() && within(
                nodes,
                #[trigger] slot_children(nodes, parent)[l] as int,
                at,
            ) ==> state[at] == replaced(nodes, Some(tree), at)[at] && same_behind(
                state,
                replaced(nodes, Some(tree), at),
                nodes.len() as int,
            ),
    ensures
        rebuild_from(state, slot_children(nodes, parent), k).0 == subtrees_from(
            nodes,
            parent,
            slot_children(nodes, parent),
            k,
        ),
        rebuild_from(state, slot_children(nodes, parent), k).1.len() == state.len(),
        forall|x: int|
            0 <= x < nodes.len() && !within(nodes, parent, x) ==> rebuild_from(
                state,
                slot_children(nodes, parent),
                k,
            ).1[x] == state[x],
    decreases nodes.len() - parent, 0nat, slot_children(nodes, parent).len() - k,
{
    let after = replaced(nodes, Some(tree), at);
    let children = slot_children(nodes, parent);
    let base = nodes.len() as int;
    if k < children.len() {
        let child = children[k] as int;
        lemma_child_within(nodes, parent, k);
        if child != at && within(nodes, at, child) {
            let found = lemma_within_parent(nodes, at, child);
            assert(slot_children(nodes, found.0)[found.1] == slot_children(nodes, parent)[k]);
            assert(false);
        }
        assert(stands_for(nodes, after, state, at, child));
        lemma_rebuild_replaced(nodes, tree, at, state, child);
        lemma_rebuild_count(state, child);
        let next = rebuild(state, child).1;
        assert forall|l: int, x: int|
            k + 1 <= l < children.len() && within(nodes, children[l] as int, x) && !within(
                nodes,
                at,
                x,
            ) implies next[x] == nodes[x] by {
            lemma_siblings_apart(nodes, parent, l, k, x);
            lemma_within_bounds(nodes, children[l] as int, x);
        }
        assert forall|l: int|
            k + 1 <= l < children.len() && within(
                nodes,
                #[trigger] children[l] as int,
                at,
            ) implies next[at] == after[at] && same_behind(next, after, base) by {
            lemma_siblings_apart(nodes, parent, l, k, at);
        }
        lemma_rebuild_replaced_children(nodes, tree, at, next, parent, k + 1);
        assert forall|x: int| 0 <= x < nodes.len() && !within(nodes, parent, x) implies rebuild_from(
            state,
            children,
            k,
        ).1[x] == state[x] by {
            if within(nodes, child, x) {
                lemma_within_chain(nodes, parent, child, x);
            }
        }
    }
}

/// Replacing the subtree at a slot that holds a node by the tree that
/// stands there changes no tree that can be rebuilt: not the one at that
/// slot, and none at a slot outside its subtree. This holds where no slot
/// is named as a child twice.
pub proof fn lemma_replace_by_itself<Node, Meta>(
    nodes: ArenaShape<Node, Meta>,
    at: int,
    root: int,
)
    requires
        arena_ordered(nodes),
        unshared(nodes),
        0 <= at < nodes.len(),
        nodes[at] is Some,
        replaced(nodes, rebuild(nodes, at).0, at).len() <= usize::MAX,
        0 <= root < nodes.len(),
        root == at || !within(nodes, at, root),
    ensures
        rebuild(replaced(nodes, rebuild(nodes, at).0, at), root).0 == rebuild(nodes, root).0,
{
    lemma_rebuild_subtree(nodes, nodes, at);
    lemma_rebuild_subtree(nodes, nodes, root);
    let tree = subtree(nodes, at)->0;
    let after = replaced(nodes, Some(tree), at);
    let freed = cleared(nodes, at);
    assert(thinned(nodes, nodes));
    lemma_cleared_thins(nodes, at);
    lemma_cleared_outside(nodes, nodes, at);
    match tree {
        TreeShape::Leaf { .. } => {},
        TreeShape::Branch { meta, children } => {
            lemma_flatten_from_len(children, 0, nodes.len() as int);
        },
    }
    assert forall|x: int| within(nodes, root, x) && !within(nodes, at, x) implies after[x]
        == nodes[x] by {
        lemma_within_bounds(nodes, root, x);
        assert(within(nodes, at, at));
        assert(after[x] == freed[x]);
    }
    assert(stands_for(nodes, after, after, at, root));
    lemma_rebuild_replaced(nodes, tree, at, after, root);
}

/// Replacing the subtree at a slot that holds a node by the tree that
/// stands there leaves the tree of the whole arena as it was, where no
/// slot is named as a child twice.
pub proof fn lemma_replace_by_itself_keeps_tree<Node, Meta>(
    nodes: ArenaShape<Node, Meta>,
    at: int,
    fallback: Meta,
)
    requires
        arena_ordered(nodes),
        unshared(nodes),
        0 <= at < nodes.len(),
        nodes[at] is Some,
        replaced(nodes, rebuild(nodes, at).0, at).len() <= usize::MAX,
    ensures
        nested(replaced(nodes, rebuild(nodes, at).0, at), fallback) == nested(nodes, fallback),
{
    if within(nodes, at, 0) {
        lemma_within_bounds(nodes, at, 0);
    }
    lemma_replace_by_itself(nodes, at, 0);
}

/// The roots of the trees from position `from` on stand in rising order.
pub proof fn lemma_child_roots_rise<Node, Meta>(
    trees: Seq<TreeShape<Node, Meta>>,
    from: int,
    base: int,
    k: int,
    l: int,
)
    requires
        0 <= base,
        0 <= from,
        base + flat_size_from(trees, from) <= usize::MAX,
        0 <= k < l < child_roots(trees, from, base).len(),
    ensures
        child_roots(trees, from, base)[k] < child_roots(trees, from, base)[l],
    decreases trees, trees.len() - from,
{
    if 0 <= from < trees.len() {
        let size = flat_size(trees[from]);
        lemma_flatten_len(trees[from], base);
        if k == 0 {
            lemma_child_roots_range(trees, from + 1, base + size, l - 1);
        } else {
            lemma_child_roots_rise(trees, from + 1, base + size, k - 1, l - 1);
        }
    }
}

/// No slot of the trees from position `from` on names the root of one of
/// them as its child.
pub proof fn lemma_roots_not_named<Node, Meta>(
    trees: Seq<TreeShape<Node, Meta>>,
    from: int,
    base: int,
    i: int,
    l: int,
    k: int,
)
    requires
        0 <= base,
        0 <= from,
        base + flat_size_from(trees, from) <= usize::MAX,
        0 <= l < slot_children(flatten_from(trees, from, base), i).len(),
        0 <= k < child_roots(trees, from, base).len(),
    ensures
        slot_children(flatten_from(trees, from, base), i)[l] != child_roots(trees, from, base)[k],
    decreases trees, trees.len() - from,
{
    if 0 <= from < trees.len() {
        let size = flat_size(trees[from]);
        let first = flatten(trees[from], base);
        let others = flatten_from(trees, from + 1, base + size);
        lemma_flatten_len(trees[from], base);
        lemma_flatten_from_len(trees, from + 1, base + size);
        if i < first.len() {
            assert((first + others)[i] == first[i]);
            assert(slot_children(first + others, i) == slot_children(first, i));
            lemma_flatten_children(trees[from], base, i, l);
            if k > 0 {
                lemma_child_roots_range(trees, from + 1, base + size, k - 1);
            }
        } else {
            assert((first + others)[i] == others[i - first.len()]);
            assert(slot_children(first + others, i) == slot_children(others, i - first.len()));
            lemma_flatten_from_children(trees, from + 1, base + size, i - first.len(), l);
            if k > 0 {
                lemma_roots_not_named(trees, from + 1, base + size, i - first.len(), l, k - 1);
            }
        }
    }
}

/// The slots of a tree name no slot twice, wherever the tree is put.
pub proof fn lemma_flatten_unshared<Node, Meta>(tree: TreeShape<Node, Meta>, base: int)
    requires
        0 <= base,
        base + flat_size(tree) <= usize::MAX,
    ensures
        unshared(flatten(tree, base)),
    decreases tree, 0nat,
{
    let arena = flatten(tree, base);
    lemma_flatten_len(tree, base);
    match tree {
        TreeShape::Leaf { .. } => {
            assert forall|p: int, k: int, q: int, l: int|
                0 <= k < slot_children(arena, p).len() && 0 <= l < slot_children(arena, q).len()
                    && #[trigger] slot_children(arena, p)[k] == #[trigger] slot_children(
                    arena,
                    q,
                )[l] implies p == q && k == l by {}
        },
        TreeShape::Branch { children, .. } => {
            let below = flatten_from(children, 0, base + 1);
            let roots = child_roots(children, 0, base + 1);
            lemma_flatten_from_len(children, 0, base + 1);
            lemma_flatten_from_unshared(children, 0, base + 1);
            assert forall|p: int, k: int, q: int, l: int|
                0 <= k < slot_children(arena, p).len() && 0 <= l < slot_children(arena, q).len()
                    && #[trigger] slot_children(arena, p)[k] == #[trigger] slot_children(
                    arena,
                    q,
                )[l] implies p == q && k == l by {
                if p != 0 {
                    assert(arena[p] == below[p - 1]);
                    assert(slot_children(arena, p) == slot_children(below, p - 1));
                }
                if q != 0 {
                    assert(arena[q] == below[q - 1]);
                    assert(slot_children(arena, q) == slot_children(below, q - 1));
                }
                if p == 0 && q == 0 {
                    if k < l {
                        lemma_child_roots_rise(children, 0, base + 1, k, l);
                    } else if l < k {
                        lemma_child_roots_rise(children, 0, base + 1, l, k);
                    }
                } else if p == 0 {
                    lemma_roots_not_named(children, 0, base + 1, q - 1, l, k);
                } else if q == 0 {
                    lemma_roots_not_named(children, 0, base + 1, p - 1, k, l);
                } else {
                    assert(slot_children(below, p - 1)[k] == slot_children(below, q - 1)[l]);
                }
            }
        },
    }
}

/// The slots of the trees from position `from` on name no slot twice.
pub proof fn lemma_flatten_from_unshared<Node, Meta>(
    trees: Seq<TreeShape<Node, Meta>>,
    from: int,
    base: int,
)
    requires
        0 <= base,
        0 <= from,
        base + flat_size_from(trees, from) <= usize::MAX,
    ensures
        unshared(flatten_from(trees, from, base)),
    decreases trees, trees.len() - from,
{
    let arena = flatten_from(trees, from, base);
    if 0 <= from < trees.len() {
        let size = flat_size(trees[from]);
        let first = flatten(trees[from], base);
        let others = flatten_from(trees, from + 1, base + size);
        lemma_flatten_len(trees[from], base);
        lemma_flatten_from_len(trees, from + 1, base + size);
        lemma_flatten_unshared(trees[from], base);
        lemma_flatten_from_unshared(trees, from + 1, base + size);
        assert forall|p: int, k: int, q: int, l: int|
            0 <= k < slot_children(arena, p).len() && 0 <= l < slot_children(arena, q).len()
                && #[trigger] slot_children(arena, p)[k] == #[trigger] slot_children(
                arena,
                q,
            )[l] implies p == q && k == l by {
            if p < first.len() {
                assert(arena[p] == first[p]);
                assert(slot_children(arena, p) == slot_children(first, p));
                lemma_flatten_children(trees[from], base, p, k);
            } else {
                assert(arena[p] == others[p - first.len()]);
                assert(slot_children(arena, p) == slot_children(others, p - first.len()));
                lemma_flatten_from_children(trees, from + 1, base + size, p - first.len(), k);
            }
            if q < first.len() {
                assert(arena[q] == first[q]);
                assert(slot_children(arena, q) == slot_children(first, q));
                lemma_flatten_children(trees[from], base, q, l);
            } else {
                assert(arena[q] == others[q - first.len()]);
                assert(slot_children(arena, q) == slot_children(others, q - first.len()));
                lemma_flatten_from_children(trees, from + 1, base + size, q - first.len(), l);
            }
            if p < first.len() && q < first.len() {
                assert(slot_children(first, p)[k] == slot_children(first, q)[l]);
            } else if p >= first.len() && q >= first.len() {
                assert(slot_children(others, p - first.len())[k] == slot_children(
                    others,
                    q - first.len(),
                )[l]);
            }
        }
    } else {
        assert forall|p: int, k: int, q: int, l: int|
            0 <= k < slot_children(arena, p).len() && 0 <= l < slot_children(arena, q).len()
                && #[trigger] slot_children(arena, p)[k] == #[trigger] slot_children(
                arena,
                q,
            )[l] implies p == q && k == l by {}
    }
}

/// Emptying slots names no slot twice that was not named twice before.
pub proof fn lemma_thinned_unshared<Node, Meta>(
    before: ArenaShape<Node, Meta>,
    after: ArenaShape<Node, Meta>,
)
    requires
        unshared(before),
        thinned(before, after),
    ensures
        unshared(after),
{
    assert forall|p: int, k: int, q: int, l: int|
        0 <= k < slot_children(after, p).len() && 0 <= l < slot_children(after, q).len()
            && #[trigger] slot_children(after, p)[k] == #[trigger] slot_children(
            after,
            q,
        )[l] implies p == q && k == l by {
        assert(after[p] is None || after[p] == before[p]);
        assert(after[q] is None || after[q] == before[q]);
        assert(slot_children(after, p) == slot_children(before, p));
        assert(slot_children(after, q) == slot_children(before, q));
        assert(slot_children(before, p)[k] == slot_children(before, q)[l]);
    }
}

/// The tree that flattening puts into an empty arena names no slot twice.
pub proof fn lemma_flat_tree_unshared<Node, Meta>(tree: TreeShape<Node, Meta>)
    requires
        flat_size(tree) <= usize::MAX,
    ensures
        unshared(flatten(tree, 0)),
{
    lemma_flatten_unshared(tree, 0);
}

/// Appending a tree to an arena names no slot twice that was not named
/// twice before.
pub proof fn lemma_append_unshared<Node, Meta>(
    nodes: ArenaShape<Node, Meta>,
    tree: TreeShape<Node, Meta>,
)
    requires
        arena_ordered(nodes),
        unshared(nodes),
        nodes.len() + flat_size(tree) <= usize::MAX,
    ensures
        unshared(nodes + flatten(tree, nodes.len() as int)),
{
    let base = nodes.len() as int;
    let added = flatten(tree, base);
    let both = nodes + added;
    lemma_flatten_len(tree, base);
    lemma_flatten_unshared(tree, base);
    assert forall|p: int, k: int, q: int, l: int|
        0 <= k < slot_children(both, p).len() && 0 <= l < slot_children(both, q).len()
            && #[trigger] slot_children(both, p)[k] == #[trigger] slot_children(
            both,
            q,
        )[l] implies p == q && k == l by {
        if p < base {
            assert(slot_children(both, p) == slot_children(nodes, p));
            assert(p < slot_children(nodes, p)[k] < nodes.len());
        } else {
            assert(both[p] == added[p - base]);
            assert(slot_children(both, p) == slot_children(added, p - base));
            lemma_flatten_children(tree, base, p - base, k);
        }
        if q < base {
            assert(slot_children(both, q) == slot_children(nodes, q));
            assert(q < slot_children(nodes, q)[l] < nodes.len());
        } else {
            assert(both[q] == added[q - base]);
            assert(slot_children(both, q) == slot_children(added, q - base));
            lemma_flatten_children(tree, base, q - base, l);
        }
        if p < base && q < base {
            assert(slot_children(nodes, p)[k] == slot_children(nodes, q)[l]);
        } else if p >= base && q >= base {
            assert(slot_children(added, p - base)[k] == slot_children(added, q - base)[l]);
        }
    }
}

/// Replacing a subtree inside an arena names no slot twice that was not
/// named twice before.
pub proof fn lemma_replaced_unshared<Node, Meta>(
    nodes: ArenaShape<Node, Meta>,
    tree: Option<TreeShape<Node, Meta>>,
    index: int,
)
    requires
        arena_ordered(nodes),
        unshared(nodes),
        0 <= index < nodes.len(),
        replaced(nodes, tree, index).len() <= usize::MAX,
    ensures
        unshared(replaced(nodes, tree, index)),
{
    let freed = cleared(nodes, index);
    lemma_cleared_thins(nodes, index);
    lemma_thinned_ordered(nodes, freed);
    lemma_thinned_unshared(nodes, freed);
    let after = replaced(nodes, tree, index);
    match tree {
        None => {},
        Some(TreeShape::Leaf { meta, node }) => {
            assert(thinned(freed, after.update(index, None)));
            assert forall|p: int, k: int, q: int, l: int|
                0 <= k < slot_children(after, p).len() && 0 <= l < slot_children(after, q).len()
                    && #[trigger] slot_children(after, p)[k] == #[trigger] slot_children(
                    after,
                    q,
                )[l] implies p == q && k == l by {
                assert(p != index && q != index);
                assert(slot_children(after, p) == slot_children(freed, p));
                assert(slot_children(after, q) == slot_children(freed, q));
                assert(slot_children(freed, p)[k] == slot_children(freed, q)[l]);
            }
        },
        Some(TreeShape::Branch { meta, children }) => {
            let base = freed.len() as int;
            let added = flatten_from(children, 0, base);
            let roots = child_roots(children, 0, base);
            lemma_flatten_from_len(children, 0, base);
            lemma_flatten_from_unshared(children, 0, base);
            assert(after.len() == base + flat_size_from(children, 0));
            assert forall|p: int, k: int, q: int, l: int|
                0 <= k < slot_children(after, p).len() && 0 <= l < slot_children(after, q).len()
                    && #[trigger] slot_children(after, p)[k] == #[trigger] slot_children(
                    after,
                    q,
                )[l] implies p == q && k == l by {
                if p == index {
                    assert(slot_children(after, p) == roots);
                    lemma_child_roots_range(children, 0, base, k);
                } else if p < base {
                    assert(after[p] == freed[p]);
                    assert(slot_children(after, p) == slot_children(freed, p));
                    assert(p < slot_children(freed, p)[k] < freed.len());
                } else {
                    assert(after[p] == added[p - base]);
                    assert(slot_children(after, p) == slot_children(added, p - base));
                    lemma_flatten_from_children(children, 0, base, p - base, k);
                }
                if q == index {
                    assert(slot_children(after, q) == roots);
                    lemma_child_roots_range(children, 0, base, l);
                } else if q < base {
                    assert(after[q] == freed[q]);
                    assert(slot_children(after, q) == slot_children(freed, q));
                    assert(q < slot_children(freed, q)[l] < freed.len());
                } else {
                    assert(after[q] == added[q - base]);
                    assert(slot_children(after, q) == slot_children(added, q - base));
                    lemma_flatten_from_children(children, 0, base, q - base, l);
                }
                if p == index && q == index {
                    if k < l {
                        lemma_child_roots_rise(children, 0, base, k, l);
                    } else if l < k {
                        lemma_child_roots_rise(children, 0, base, l, k);
                    }
                } else if p == index && q >= base {
                    lemma_roots_not_named(children, 0, base, q - base, l, k);
                } else if q == index && p >= base {
                    lemma_roots_not_named(children, 0, base, p - base, k, l);
                } else if p < base && q < base && p != index && q != index {
                    assert(slot_children(freed, p)[k] == slot_children(freed, q)[l]);
                } else if p >= base && q >= base {
                    assert(slot_children(added, p - base)[k] == slot_children(added, q - base)[l]);
                }
            }
        },
    }
}

} // verus!
