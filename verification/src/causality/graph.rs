//! Layering the nodes of a directed graph.
//!
//! A graph over the nodes `0..n` is given by its successor lists: `out[u]`
//! lists, possibly with repetition, the nodes that must wait for `u`. A node
//! is settled once everything it waits for is settled; the nodes that become
//! settled together form a wave.

use vstd::prelude::*;

verus! {

/// The successor lists of a graph, as sequences.
pub open spec fn rows(out: Seq<Vec<usize>>) -> Seq<Seq<usize>> {
    Seq::new(out.len(), |u: int| out[u]@)
}

/// Every successor is a node of the graph.
pub open spec fn closed_graph(out: Seq<Seq<usize>>) -> bool {
    forall|u: int, t: int|
        0 <= u < out.len() && 0 <= t < out[u].len() ==> (#[trigger] out[u][t]) < out.len()
}

/// `v` must wait for `u`.
pub open spec fn has_edge(out: Seq<Seq<usize>>, u: int, v: int) -> bool {
    0 <= u < out.len() && exists|t: int| 0 <= t < out[u].len() && #[trigger] out[u][t] == v
}

/// The relation "must wait for" of a graph given by successor lists.
pub open spec fn edges_of(out: Seq<Seq<usize>>) -> spec_fn(int, int) -> bool {
    |u: int, v: int| has_edge(out, u, v)
}

/// `v` belongs to one of the first `k` waves: `edge(u, v)` says that `v`
/// must wait for `u`.
pub open spec fn settled(edge: spec_fn(int, int) -> bool, v: int, k: nat) -> bool
    decreases k,
{
    k > 0 && (settled(edge, v, (k - 1) as nat) || forall|u: int| #[trigger]
        edge(u, v) ==> settled(edge, u, (k - 1) as nat))
}

/// Everything `v` waits for belongs to one of the first `k` waves.
pub open spec fn ready(edge: spec_fn(int, int) -> bool, v: int, k: nat) -> bool {
    forall|u: int| #[trigger] edge(u, v) ==> settled(edge, u, k)
}

/// `v`, one of the nodes `0..n`, belongs to wave `k`: it becomes settled
/// there and not before.
pub open spec fn in_wave(edge: spec_fn(int, int) -> bool, n: int, v: int, k: nat) -> bool {
    &&& 0 <= v < n
    &&& !settled(edge, v, k)
    &&& ready(edge, v, k)
}

/// `list` holds the nodes of wave `k`, each once, in rising order.
pub open spec fn is_wave(edge: spec_fn(int, int) -> bool, n: int, k: nat, list: Seq<usize>) -> bool {
    &&& forall|a: int, b: int| 0 <= a < b < list.len() ==> list[a] < list[b]
    &&& forall|a: int| 0 <= a < list.len() ==> in_wave(edge, n, #[trigger] list[a] as int, k)
    &&& forall|v: int|
        in_wave(edge, n, v, k) ==> exists|a: int| 0 <= a < list.len() && #[trigger] list[a] == v
}

/// The number of nodes below `upto` that belong to one of the first `k` waves.
pub open spec fn settled_count(edge: spec_fn(int, int) -> bool, k: nat, upto: int) -> nat
    decreases upto,
{
    if upto <= 0 {
        0
    } else {
        settled_count(edge, k, upto - 1) + if settled(edge, upto - 1, k) {
            1nat
        } else {
            0nat
        }
    }
}

/// A settled node stays settled.
pub proof fn lemma_settled_stays(edge: spec_fn(int, int) -> bool, v: int, k: nat, later: nat)
    requires
        settled(edge, v, k),
        k <= later,
    ensures
        settled(edge, v, later),
    decreases later - k,
{
    if k < later {
        lemma_settled_stays(edge, v, (k + 1) as nat, later);
    }
}

/// A settled node belongs to an earlier wave.
pub proof fn lemma_settled_in_wave(edge: spec_fn(int, int) -> bool, n: int, v: int, k: nat) -> (j:
    nat)
    requires
        0 <= v < n,
        settled(edge, v, k),
    ensures
        j < k,
        in_wave(edge, n, v, j),
    decreases k,
{
    if settled(edge, v, (k - 1) as nat) {
        lemma_settled_in_wave(edge, n, v, (k - 1) as nat)
    } else {
        (k - 1) as nat
    }
}

/// A node belongs to at most one wave.
pub proof fn lemma_wave_unique(edge: spec_fn(int, int) -> bool, n: int, v: int, j: nat, k: nat)
    requires
        in_wave(edge, n, v, j),
        in_wave(edge, n, v, k),
    ensures
        j == k,
{
    if j < k {
        assert(settled(edge, v, j + 1));
        lemma_settled_stays(edge, v, j + 1, k);
    } else if k < j {
        assert(settled(edge, v, k + 1));
        lemma_settled_stays(edge, v, k + 1, j);
    }
}

/// Whoever a node waits for belongs to an earlier wave.
pub proof fn lemma_edge_rises(edge: spec_fn(int, int) -> bool, n: int, u: int, v: int, k: nat) -> (j:
    nat)
    requires
        0 <= u < n,
        edge(u, v),
        in_wave(edge, n, v, k),
    ensures
        j < k,
        in_wave(edge, n, u, j),
{
    assert(settled(edge, u, k));
    lemma_settled_in_wave(edge, n, u, k)
}

/// Once a wave is empty nothing more is settled.
pub proof fn lemma_empty_wave_is_last(
    edge: spec_fn(int, int) -> bool,
    n: int,
    k: nat,
    later: nat,
    v: int,
)
    requires
        forall|w: int| !in_wave(edge, n, w, k),
        forall|u: int, w: int| #[trigger] edge(u, w) ==> 0 <= u < n,
        k <= later,
        0 <= v < n,
    ensures
        settled(edge, v, later) == settled(edge, v, k),
    decreases later - k,
{
    if k < later {
        lemma_empty_wave_is_last(edge, n, k, (later - 1) as nat, v);
        if settled(edge, v, later) && !settled(edge, v, (later - 1) as nat) {
            assert(ready(edge, v, (later - 1) as nat));
            assert forall|u: int| #[trigger] edge(u, v) implies settled(edge, u, k) by {
                lemma_empty_wave_is_last(edge, n, k, (later - 1) as nat, u);
            }
            assert(in_wave(edge, n, v, k));
        }
    }
}

/// On a closed walk `walk[0] -> walk[1] -> ... -> walk[0]` no node is ever settled.
pub proof fn lemma_cycle_never_settled(
    edge: spec_fn(int, int) -> bool,
    walk: Seq<int>,
    i: int,
    k: nat,
)
    requires
        walk.len() > 0,
        forall|a: int|
            0 <= a < walk.len() ==> edge(#[trigger] walk[a], walk[(a + 1) % (walk.len() as int)]),
        0 <= i < walk.len(),
    ensures
        !settled(edge, walk[i], k),
    decreases k,
{
    if k > 0 {
        let n = walk.len() as int;
        let before = if i == 0 {
            n - 1
        } else {
            i - 1
        };
        assert((before + 1) % n == i) by {
            if i == 0 {
                assert(n % n == 0) by (nonlinear_arith)
                    requires
                        n > 0,
                ;
            } else {
                assert(i % n == i) by (nonlinear_arith)
                    requires
                        0 <= i < n,
                ;
            }
        }
        assert(edge(walk[before], walk[(before + 1) % n]));
        lemma_cycle_never_settled(edge, walk, i, (k - 1) as nat);
        lemma_cycle_never_settled(edge, walk, before, (k - 1) as nat);
    }
}

/// Two relations that hold of the same pairs settle the same nodes.
pub proof fn lemma_settled_same(
    one: spec_fn(int, int) -> bool,
    other: spec_fn(int, int) -> bool,
    v: int,
    k: nat,
)
    requires
        forall|u: int, w: int| #[trigger] one(u, w) == other(u, w),
    ensures
        settled(one, v, k) == settled(other, v, k),
    decreases k,
{
    if k > 0 {
        let j = (k - 1) as nat;
        lemma_settled_same(one, other, v, j);
        assert forall|u: int| #[trigger] one(u, v) implies (settled(one, u, j) == settled(
            other,
            u,
            j,
        )) by {
            lemma_settled_same(one, other, u, j);
        }
        assert forall|u: int| #[trigger] other(u, v) implies (settled(one, u, j) == settled(
            other,
            u,
            j,
        )) by {
            lemma_settled_same(one, other, u, j);
            assert(one(u, v));
        }
        if forall|u: int| #[trigger] one(u, v) ==> settled(one, u, j) {
            assert forall|u: int| #[trigger] other(u, v) implies settled(other, u, j) by {
                assert(one(u, v));
            }
        }
        if forall|u: int| #[trigger] other(u, v) ==> settled(other, u, j) {
            assert forall|u: int| #[trigger] one(u, v) implies settled(one, u, j) by {
                assert(other(u, v));
            }
        }
    }
}

} // verus!

verus! {

/// How often `v` occurs in `list`.
pub open spec fn count_to(list: Seq<usize>, v: int) -> nat
    decreases list.len(),
{
    if list.len() == 0 {
        0
    } else {
        count_to(list.drop_last(), v) + if list.last() == v {
            1nat
        } else {
            0nat
        }
    }
}

/// The number of edges into `v` from nodes below `upto` that are not done.
pub open spec fn pending(out: Seq<Seq<usize>>, done: Seq<bool>, v: int, upto: int) -> nat
    decreases upto,
{
    if upto <= 0 {
        0
    } else {
        pending(out, done, v, upto - 1) + if !done[upto - 1] {
            count_to(out[upto - 1], v)
        } else {
            0nat
        }
    }
}

/// The number of entries below `upto` that are set.
pub open spec fn count_set(done: Seq<bool>, upto: int) -> nat
    decreases upto,
{
    if upto <= 0 {
        0
    } else {
        count_set(done, upto - 1) + if done[upto - 1] {
            1nat
        } else {
            0nat
        }
    }
}

/// A node is counted in a list exactly when it stands in it, and never more often
/// than the list is long.
proof fn lemma_count_zero(list: Seq<usize>, v: int)
    ensures
        count_to(list, v) == 0 <==> forall|t: int| 0 <= t < list.len() ==> list[t] != v,
        count_to(list, v) <= list.len(),
    decreases list.len(),
{
    if list.len() > 0 {
        lemma_count_zero(list.drop_last(), v);
        if count_to(list, v) == 0 {
            assert forall|t: int| 0 <= t < list.len() implies list[t] != v by {
                if t < list.len() - 1 {
                    assert(list.drop_last()[t] == list[t]);
                }
            }
        } else if forall|t: int| 0 <= t < list.len() ==> list[t] != v {
            assert forall|t: int| 0 <= t < list.drop_last().len() implies list.drop_last()[t]
                != v by {
                assert(list.drop_last()[t] == list[t]);
            }
        }
    }
}

/// The count in a list grows by one with every place at which the node stands.
proof fn lemma_count_prefix(list: Seq<usize>, t: int, v: int)
    requires
        0 <= t < list.len(),
    ensures
        count_to(list.subrange(0, t + 1), v) == count_to(list.subrange(0, t), v) + if list[t]
            == v {
            1nat
        } else {
            0nat
        },
        count_to(list.subrange(0, t + 1), v) <= count_to(list, v),
    decreases list.len() - t,
{
    assert(list.subrange(0, t + 1).drop_last() =~= list.subrange(0, t));
    if t + 1 < list.len() {
        lemma_count_prefix(list, t + 1, v);
    } else {
        assert(list.subrange(0, t + 1) =~= list);
    }
}

/// Nothing is pending for a node exactly when every node with an edge to it is done.
proof fn lemma_pending_zero(out: Seq<Seq<usize>>, done: Seq<bool>, v: int, upto: int)
    requires
        0 <= upto <= out.len(),
        done.len() == out.len(),
    ensures
        pending(out, done, v, upto) == 0 <==> forall|u: int|
            0 <= u < upto && #[trigger] has_edge(out, u, v) ==> done[u],
    decreases upto,
{
    if upto > 0 {
        let last = upto - 1;
        lemma_pending_zero(out, done, v, last);
        lemma_count_zero(out[last], v);
        if pending(out, done, v, upto) == 0 {
            assert forall|u: int| 0 <= u < upto && #[trigger] has_edge(out, u, v) implies done[u] by {
                if u == last && !done[last] {
                    let t = choose|t: int| 0 <= t < out[u].len() && #[trigger] out[u][t] == v;
                    assert(out[last][t] == v);
                }
            }
        } else if forall|u: int| 0 <= u < upto && #[trigger] has_edge(out, u, v) ==> done[u] {
            if !done[last] && count_to(out[last], v) != 0 {
                let t = choose|t: int| 0 <= t < out[last].len() && out[last][t] == v;
                assert(out[last][t] == v);
                assert(has_edge(out, last, v));
            }
        }
    }
}

/// Marking a node as done takes its edges to `v` out of what is pending for `v`.
proof fn lemma_pending_mark(out: Seq<Seq<usize>>, done: Seq<bool>, i: int, v: int, upto: int)
    requires
        0 <= upto <= out.len(),
        done.len() == out.len(),
        0 <= i < done.len(),
        !done[i],
    ensures
        pending(out, done, v, upto) == pending(out, done.update(i, true), v, upto) + if i < upto {
            count_to(out[i], v)
        } else {
            0nat
        },
    decreases upto,
{
    if upto > 0 {
        lemma_pending_mark(out, done, i, v, upto - 1);
    }
}

/// What is pending for a node is bounded by the lengths of the rows.
proof fn lemma_pending_bound(out: Seq<Seq<usize>>, done: Seq<bool>, v: int, upto: int)
    requires
        0 <= upto <= out.len(),
        forall|u: int| 0 <= u < out.len() ==> (#[trigger] out[u]).len() <= usize::MAX,
    ensures
        pending(out, done, v, upto) <= upto * usize::MAX,
    decreases upto,
{
    if upto > 0 {
        lemma_pending_bound(out, done, v, upto - 1);
        lemma_count_zero(out[upto - 1], v);
        assert((upto - 1) * usize::MAX + usize::MAX == upto * usize::MAX) by (nonlinear_arith);
    }
}

/// Marking a node that was not done counts one more, and the count stays below the number of nodes.
proof fn lemma_count_set_mark(done: Seq<bool>, i: int, upto: int)
    requires
        0 <= upto <= done.len(),
        0 <= i < done.len(),
        !done[i],
    ensures
        count_set(done.update(i, true), upto) == count_set(done, upto) + if i < upto {
            1nat
        } else {
            0nat
        },
        count_set(done, upto) <= upto,
        i < upto ==> count_set(done, upto) < upto,
    decreases upto,
{
    if upto > 0 {
        lemma_count_set_mark(done, i, upto - 1);
    }
}

/// Where the marks say which nodes are settled, as many are marked as are settled.
proof fn lemma_count_set_settled(
    edge: spec_fn(int, int) -> bool,
    done: Seq<bool>,
    k: nat,
    upto: int,
)
    requires
        0 <= upto <= done.len(),
        forall|v: int| 0 <= v < done.len() ==> done[v] == settled(edge, v, k),
    ensures
        count_set(done, upto) == settled_count(edge, k, upto),
    decreases upto,
{
    if upto > 0 {
        lemma_count_set_settled(edge, done, k, upto - 1);
    }
}

/// Before the first wave no node is settled.
proof fn lemma_nothing_settled(edge: spec_fn(int, int) -> bool, upto: int)
    ensures
        settled_count(edge, 0, upto) == 0,
    decreases upto,
{
    if upto > 0 {
        lemma_nothing_settled(edge, upto - 1);
    }
}

/// For every node, the number of edges into it.
fn count_incoming(out: &Vec<Vec<usize>>) -> (indegree: Vec<u128>)
    requires
        closed_graph(rows(out@)),
    ensures
        indegree.len() == out.len(),
        forall|v: int|
            0 <= v < out.len() ==> #[trigger] indegree[v] == pending(
                rows(out@),
                Seq::new(out.len() as nat, |i: int| false),
                v,
                out.len() as int,
            ),
{
    let n = out.len();
    let ghost graph = rows(out@);
    let ghost none = Seq::new(n as nat, |i: int| false);
    let mut indegree: Vec<u128> = Vec::new();
    while indegree.len() < n
        invariant
            indegree.len() <= n,
            forall|v: int| 0 <= v < indegree.len() ==> #[trigger] indegree[v] == 0,
        decreases n - indegree.len(),
    {
        indegree.push(0);
    }
    let mut u: usize = 0;
    while u < n
        invariant
            u <= n,
            n == out.len(),
            graph == rows(out@),
            closed_graph(graph),
            none == Seq::new(n as nat, |i: int| false),
            indegree.len() == n,
            forall|v: int| 0 <= v < n ==> #[trigger] indegree[v] == pending(graph, none, v, u as int),
        decreases n - u,
    {
        let row = &out[u];
        let mut t: usize = 0;
        assert(graph[u as int] == row@);
        assert(row@.subrange(0, 0) =~= Seq::empty());
        while t < row.len()
            invariant
                t <= row.len(),
                u < n,
                n == out.len(),
                graph == rows(out@),
                closed_graph(graph),
                graph[u as int] == row@,
                indegree.len() == n,
                forall|v: int|
                    0 <= v < n ==> #[trigger] indegree[v] == pending(graph, none, v, u as int)
                        + count_to(row@.subrange(0, t as int), v),
            decreases row.len() - t,
        {
            let target = row[t];
            assert(graph[u as int][t as int] < n);
            proof {
                assert forall|v: int| 0 <= v < n implies pending(graph, none, v, u as int)
                    + count_to(row@.subrange(0, t + 1), v) <= (u + 1) * usize::MAX by {
                    assert forall|w: int| 0 <= w < graph.len() implies (#[trigger] graph[w]).len()
                        <= usize::MAX by {
                        assert(graph[w] == out[w]@);
                        assert(out[w].len() <= usize::MAX);
                    }
                    lemma_pending_bound(graph, none, v, u as int);
                    lemma_count_zero(row@.subrange(0, t + 1), v);
                    assert(u * usize::MAX + usize::MAX == (u + 1) * usize::MAX)
                        by (nonlinear_arith);
                }
                assert((u + 1) * usize::MAX <= usize::MAX * usize::MAX) by (nonlinear_arith)
                    requires
                        u + 1 <= usize::MAX,
                ;
                assert(usize::MAX * usize::MAX < u128::MAX) by (nonlinear_arith)
                    requires
                        usize::MAX <= 0xffff_ffff_ffff_ffff,
                ;
                lemma_count_prefix(row@, t as int, target as int);
            }
            let ghost before = indegree@;
            indegree[target] = indegree[target] + 1;
            proof {
                assert forall|v: int| 0 <= v < n implies #[trigger] indegree[v] == pending(
                    graph,
                    none,
                    v,
                    u as int,
                ) + count_to(row@.subrange(0, t + 1), v) by {
                    lemma_count_prefix(row@, t as int, v);
                    assert(before[v] == pending(graph, none, v, u as int) + count_to(
                        row@.subrange(0, t as int),
                        v,
                    ));
                }
            }
            t += 1;
        }
        assert(row@.subrange(0, t as int) =~= row@);
        u += 1;
    }
    indegree
}

} // verus!

verus! {

/// Takes the edges that leave `i` out of the counts.
fn release(out: &Vec<Vec<usize>>, i: usize, indegree: &mut Vec<u128>, Ghost(done): Ghost<Seq<bool>>)
    requires
        closed_graph(rows(out@)),
        i < out.len(),
        done.len() == out.len(),
        !done[i as int],
        old(indegree).len() == out.len(),
        forall|v: int|
            0 <= v < out.len() ==> #[trigger] old(indegree)[v] == pending(
                rows(out@),
                done,
                v,
                out.len() as int,
            ),
    ensures
        final(indegree).len() == out.len(),
        forall|v: int|
            0 <= v < out.len() ==> #[trigger] final(indegree)[v] == pending(
                rows(out@),
                done.update(i as int, true),
                v,
                out.len() as int,
            ),
{
    let n = out.len();
    let ghost graph = rows(out@);
    let row = &out[i];
    let mut t: usize = 0;
    assert(graph[i as int] == row@);
    assert(row@.subrange(0, 0) =~= Seq::empty());
    while t < row.len()
        invariant
            t <= row.len(),
            i < n,
            n == out.len(),
            graph == rows(out@),
            closed_graph(graph),
            graph[i as int] == row@,
            done.len() == n,
            !done[i as int],
            indegree.len() == n,
            forall|v: int|
                0 <= v < n ==> (#[trigger] indegree[v]) + count_to(row@.subrange(0, t as int), v)
                    == pending(graph, done, v, n as int),
        decreases row.len() - t,
    {
        let target = row[t];
        assert(graph[i as int][t as int] < n);
        proof {
            lemma_pending_mark(graph, done, i as int, target as int, n as int);
            lemma_count_prefix(row@, t as int, target as int);
        }
        let ghost before = indegree@;
        indegree[target] = indegree[target] - 1;
        proof {
            assert forall|v: int| 0 <= v < n implies (#[trigger] indegree[v]) + count_to(
                row@.subrange(0, t + 1),
                v,
            ) == pending(graph, done, v, n as int) by {
                lemma_count_prefix(row@, t as int, v);
                assert(before[v] + count_to(row@.subrange(0, t as int), v) == pending(
                    graph,
                    done,
                    v,
                    n as int,
                ));
            }
        }
        t += 1;
    }
    proof {
        assert(row@.subrange(0, t as int) =~= row@);
        assert forall|v: int| 0 <= v < n implies #[trigger] indegree[v] == pending(
            graph,
            done.update(i as int, true),
            v,
            n as int,
        ) by {
            lemma_pending_mark(graph, done, i as int, v, n as int);
        }
    }
}

/// The nodes that are not done and wait for nothing, in rising order.
fn ready_nodes(done: &Vec<bool>, indegree: &Vec<u128>) -> (wave: Vec<usize>)
    requires
        done.len() == indegree.len(),
    ensures
        forall|a: int, b: int| 0 <= a < b < wave.len() ==> wave[a] < wave[b],
        forall|a: int|
            0 <= a < wave.len() ==> (#[trigger] wave[a]) < done.len() && !done[wave[a] as int]
                && indegree[wave[a] as int] == 0,
        forall|v: int|
            0 <= v < done.len() && !done[v] && indegree[v] == 0 ==> exists|a: int|
                0 <= a < wave.len() && #[trigger] wave[a] == v,
{
    let mut wave: Vec<usize> = Vec::new();
    let mut v: usize = 0;
    while v < done.len()
        invariant
            v <= done.len(),
            done.len() == indegree.len(),
            forall|a: int, b: int| 0 <= a < b < wave.len() ==> wave[a] < wave[b],
            forall|a: int|
                0 <= a < wave.len() ==> (#[trigger] wave[a]) < v && !done[wave[a] as int]
                    && indegree[wave[a] as int] == 0,
            forall|w: int|
                0 <= w < v && !done[w] && indegree[w] == 0 ==> exists|a: int|
                    0 <= a < wave.len() && #[trigger] wave[a] == w,
        decreases done.len() - v,
    {
        if !done[v] && indegree[v] == 0 {
            let ghost before = wave@;
            wave.push(v);
            proof {
                assert forall|w: int| 0 <= w < v + 1 && !done[w] && indegree[w] == 0 implies exists|
                    a: int,
                |
                    0 <= a < wave.len() && #[trigger] wave[a] == w by {
                    if w < v {
                        let a = choose|a: int| 0 <= a < before.len() && #[trigger] before[a] == w;
                        assert(wave[a] == w);
                    } else {
                        assert(wave[wave.len() - 1] == w);
                    }
                }
            }
        }
        v += 1;
    }
    wave
}

/// The waves of the graph in order, as far as they are not empty, and the
/// number of nodes in them. A node that is in none of them lies on a cycle
/// or waits for one.
pub fn layer_nodes(out: &Vec<Vec<usize>>) -> (layered: (Vec<Vec<usize>>, usize))
    requires
        closed_graph(rows(out@)),
    ensures
        forall|k: int|
            0 <= k < layered.0.len() ==> is_wave(edges_of(rows(out@)), out.len() as int, k as nat, (#[trigger] layered.0[k])@)
                && layered.0[k].len() > 0,
        forall|v: int| !in_wave(edges_of(rows(out@)), out.len() as int, v, layered.0.len() as nat),
        layered.1 == settled_count(edges_of(rows(out@)), layered.0.len() as nat, out.len() as int),
        layered.0.len() <= layered.1 <= out.len(),
{
    let n = out.len();
    let ghost graph = rows(out@);
    let mut indegree = count_incoming(out);
    let mut done: Vec<bool> = Vec::new();
    while done.len() < n
        invariant
            done.len() <= n,
            forall|v: int| 0 <= v < done.len() ==> !(#[trigger] done[v]),
        decreases n - done.len(),
    {
        done.push(false);
    }
    assert(done@ =~= Seq::new(n as nat, |i: int| false));
    let mut waves: Vec<Vec<usize>> = Vec::new();
    let mut seen: usize = 0;
    proof {
        lemma_count_set_settled(edges_of(graph), done@, 0, n as int);
        lemma_nothing_settled(edges_of(graph), n as int);
    }
    loop
        invariant
            n == out.len(),
            graph == rows(out@),
            closed_graph(graph),
            done.len() == n,
            indegree.len() == n,
            forall|v: int| 0 <= v < n ==> (#[trigger] done[v]) == settled(edges_of(graph), v, waves.len() as nat),
            forall|v: int|
                0 <= v < n ==> #[trigger] indegree[v] == pending(graph, done@, v, n as int),
            forall|k: int|
                0 <= k < waves.len() ==> is_wave(edges_of(graph), n as int, k as nat, (#[trigger] waves[k])@)
                    && waves[k].len() > 0,
            seen == count_set(done@, n as int),
            waves.len() <= seen <= n,
        ensures
            forall|v: int| 0 <= v < n ==> (#[trigger] done[v]) == settled(edges_of(graph), v, waves.len() as nat),
            forall|k: int|
                0 <= k < waves.len() ==> is_wave(edges_of(graph), n as int, k as nat, (#[trigger] waves[k])@)
                    && waves[k].len() > 0,
            forall|v: int| !in_wave(edges_of(graph), n as int, v, waves.len() as nat),
            seen == count_set(done@, n as int),
            waves.len() <= seen <= n,
        decreases n - seen,
    {
        let ghost k = waves.len() as nat;
        let ghost done_before = done@;
        let wave = ready_nodes(&done, &indegree);
        proof {
            assert forall|a: int| 0 <= a < wave.len() implies in_wave(
                edges_of(graph), n as int,
                #[trigger] wave[a] as int,
                k,
            ) by {
                let v = wave[a] as int;
                lemma_pending_zero(graph, done_before, v, n as int);
                assert forall|u: int| #[trigger] has_edge(graph, u, v) implies settled(
                    edges_of(graph),
                    u,
                    k,
                ) by {
                    assert(done_before[u]);
                }
            }
            assert forall|v: int| in_wave(edges_of(graph), n as int, v, k) implies exists|a: int|
                0 <= a < wave.len() && #[trigger] wave[a] == v by {
                lemma_pending_zero(graph, done_before, v, n as int);
                assert forall|u: int| 0 <= u < n && #[trigger] has_edge(graph, u, v) implies done_before[u] by {
                    assert(edges_of(graph)(u, v));
                    assert(settled(edges_of(graph), u, k));
                }
                assert(indegree[v] == 0);
            }
            assert(is_wave(edges_of(graph), n as int, k, wave@));
        }
        if wave.len() == 0 {
            proof {
                assert forall|v: int| !in_wave(edges_of(graph), n as int, v, k) by {
                    if in_wave(edges_of(graph), n as int, v, k) {
                        let a = choose|a: int| 0 <= a < wave.len() && #[trigger] wave[a] == v;
                    }
                }
            }
            break ;
        }
        let mut p: usize = 0;
        while p < wave.len()
            invariant
                p <= wave.len(),
                n == out.len(),
                graph == rows(out@),
                closed_graph(graph),
                done.len() == n,
                done_before.len() == n,
                indegree.len() == n,
                forall|a: int, b: int| 0 <= a < b < wave.len() ==> wave[a] < wave[b],
                forall|a: int|
                    0 <= a < wave.len() ==> (#[trigger] wave[a]) < n && !done_before[wave[a] as int],
                forall|v: int|
                    0 <= v < n ==> (#[trigger] done[v]) == (done_before[v] || exists|a: int|
                        0 <= a < p && #[trigger] wave[a] == v),
                forall|v: int|
                    0 <= v < n ==> #[trigger] indegree[v] == pending(graph, done@, v, n as int),
                seen + p == count_set(done@, n as int),
                seen + p <= n,
            decreases wave.len() - p,
        {
            let i = wave[p];
            let ghost marked = done@;
            proof {
                if done[i as int] {
                    let a = choose|a: int| 0 <= a < p && #[trigger] wave[a] == i;
                    assert(wave[a] < wave[p as int]);
                }
                lemma_count_set_mark(marked, i as int, n as int);
            }
            release(out, i, &mut indegree, Ghost(marked));
            done[i] = true;
            proof {
                assert(done@ =~= marked.update(i as int, true));
                assert forall|v: int| 0 <= v < n implies (#[trigger] done[v]) == (done_before[v]
                    || exists|a: int| 0 <= a < p + 1 && #[trigger] wave[a] == v) by {
                    if v == i {
                        assert(wave[p as int] == v);
                    } else if marked[v] && !done_before[v] {
                        let a = choose|a: int| 0 <= a < p && #[trigger] wave[a] == v;
                        assert(0 <= a < p + 1 && wave[a] == v);
                    } else if !marked[v] {
                        if exists|a: int| 0 <= a < p + 1 && #[trigger] wave[a] == v {
                            let a = choose|a: int| 0 <= a < p + 1 && #[trigger] wave[a] == v;
                            assert(a < p);
                        }
                    }
                }
            }
            p += 1;
        }
        proof {
            assert forall|v: int| 0 <= v < n implies (#[trigger] done[v]) == settled(
                edges_of(graph),
                v,
                k + 1,
            ) by {
                if exists|a: int| 0 <= a < wave.len() && #[trigger] wave[a] == v {
                    let a = choose|a: int| 0 <= a < wave.len() && #[trigger] wave[a] == v;
                    assert(in_wave(edges_of(graph), n as int, wave[a] as int, k));
                }
                if settled(edges_of(graph), v, k + 1) && !settled(edges_of(graph), v, k) {
                    assert(in_wave(edges_of(graph), n as int, v, k));
                }
            }
        }
        seen = seen + wave.len();
        waves.push(wave);
    }
    proof {
        lemma_count_set_settled(edges_of(graph), done@, waves.len() as nat, n as int);
    }
    (waves, seen)
}

} // verus!

verus! {

/// Two relations that hold of the same pairs have the same waves.
pub proof fn lemma_in_wave_same(
    one: spec_fn(int, int) -> bool,
    other: spec_fn(int, int) -> bool,
    n: int,
    v: int,
    k: nat,
)
    requires
        forall|u: int, w: int| #[trigger] one(u, w) == other(u, w),
    ensures
        in_wave(one, n, v, k) == in_wave(other, n, v, k),
{
    lemma_settled_same(one, other, v, k);
    assert forall|u: int| settled(one, u, k) == settled(other, u, k) by {
        lemma_settled_same(one, other, u, k);
    }
    if ready(one, v, k) {
        assert forall|u: int| #[trigger] other(u, v) implies settled(other, u, k) by {
            assert(one(u, v));
        }
    }
    if ready(other, v, k) {
        assert forall|u: int| #[trigger] one(u, v) implies settled(one, u, k) by {
            assert(other(u, v));
        }
    }
}

/// Two relations that hold of the same pairs have the same wave lists.
pub proof fn lemma_is_wave_same(
    one: spec_fn(int, int) -> bool,
    other: spec_fn(int, int) -> bool,
    n: int,
    k: nat,
    list: Seq<usize>,
)
    requires
        forall|u: int, w: int| #[trigger] one(u, w) == other(u, w),
        is_wave(one, n, k, list),
    ensures
        is_wave(other, n, k, list),
{
    assert forall|a: int| 0 <= a < list.len() implies in_wave(
        other,
        n,
        #[trigger] list[a] as int,
        k,
    ) by {
        lemma_in_wave_same(one, other, n, list[a] as int, k);
    }
    assert forall|v: int| in_wave(other, n, v, k) implies exists|a: int|
        0 <= a < list.len() && #[trigger] list[a] == v by {
        lemma_in_wave_same(one, other, n, v, k);
    }
}

/// Counting the settled nodes gives the same for relations and horizons
/// that settle the same nodes.
pub proof fn lemma_settled_count_same(
    one: spec_fn(int, int) -> bool,
    j: nat,
    other: spec_fn(int, int) -> bool,
    k: nat,
    upto: int,
)
    requires
        forall|v: int| 0 <= v < upto ==> settled(one, v, j) == settled(other, v, k),
    ensures
        settled_count(one, j, upto) == settled_count(other, k, upto),
    decreases upto,
{
    if upto > 0 {
        lemma_settled_count_same(one, j, other, k, upto - 1);
    }
}

/// All of the first `upto` nodes are settled exactly when the count says so.
pub proof fn lemma_settled_count_full(edge: spec_fn(int, int) -> bool, k: nat, upto: int)
    requires
        0 <= upto,
    ensures
        settled_count(edge, k, upto) <= upto,
        settled_count(edge, k, upto) == upto <==> forall|v: int|
            0 <= v < upto ==> settled(edge, v, k),
    decreases upto,
{
    if upto > 0 {
        lemma_settled_count_full(edge, k, upto - 1);
    }
}

} // verus!
