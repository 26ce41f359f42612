//! Ordering and reachability over the node graph of a dataflow task.
//!
//! A task's nodes form a directed graph whose edges carry data from one
//! node's output to another node's input.  Evaluation needs a deterministic
//! topological order over that graph, and, for one trigger, the subsequence
//! of nodes downstream of the trigger node.

use crate::dataflow::DataFlowEdge;
use crate::error::Error;
use vstd::prelude::*;
use vstd::seq_lib::*;
use vstd::set_lib::*;

verus! {

/// Every edge endpoint is an index into a node list of length `n`.
pub open spec fn edges_in_range(edges: Seq<DataFlowEdge>, n: nat) -> bool {
    forall|k: int|
        0 <= k < edges.len() ==> (#[trigger] edges[k]).from < n && edges[k].to < n
}

/// There is an edge from node `a` to node `b`.
pub open spec fn has_edge(edges: Seq<DataFlowEdge>, a: int, b: int) -> bool {
    exists|k: int|
        0 <= k < edges.len() && (#[trigger] edges[k]).from == a && edges[k].to == b
}

/// `c` lists the nodes of a directed cycle: each node has an edge to the
/// next, and the last has an edge back to the first.  A self-loop is the
/// cycle of length one.
pub open spec fn is_cycle(edges: Seq<DataFlowEdge>, c: Seq<int>) -> bool {
    &&& c.len() > 0
    &&& (forall|i: int| 0 <= i < c.len() - 1 ==> has_edge(edges, #[trigger] c[i], c[i + 1]))
    &&& has_edge(edges, c[c.len() - 1], c[0])
}

pub open spec fn has_cycle(edges: Seq<DataFlowEdge>) -> bool {
    exists|c: Seq<int>| is_cycle(edges, c)
}

/// Node `v` may be placed directly after the partial order `prefix`:
/// it is in range, not placed yet, and every edge into it comes from a
/// node already placed.
pub open spec fn ready(n: nat, edges: Seq<DataFlowEdge>, prefix: Seq<u32>, v: int) -> bool {
    &&& 0 <= v < n
    &&& !prefix.contains(v as u32)
    &&& (forall|k: int|
        0 <= k < edges.len() && (#[trigger] edges[k]).to == v ==> prefix.contains(edges[k].from))
}

/// `v` is the smallest index that may be placed after `prefix`.
pub open spec fn min_ready(n: nat, edges: Seq<DataFlowEdge>, prefix: Seq<u32>, v: int) -> bool {
    &&& ready(n, edges, prefix, v)
    &&& (forall|u: int| 0 <= u < v ==> !ready(n, edges, prefix, u))
}

/// Every element of `order` is the smallest node that was ready at its
/// position.  This pins the order produced by the orderer: zero in-degree
/// nodes are removed in ascending index order.
pub open spec fn is_kahn_prefix(n: nat, edges: Seq<DataFlowEdge>, order: Seq<u32>) -> bool {
    forall|i: int|
        0 <= i < order.len() ==> #[trigger] min_ready(n, edges, order.take(i), order[i] as int)
}

pub open spec fn is_kahn_order(n: nat, edges: Seq<DataFlowEdge>, order: Seq<u32>) -> bool {
    &&& order.len() == n
    &&& is_kahn_prefix(n, edges, order)
}

/// For every edge, the `from` node stands before the `to` node in `order`.
pub open spec fn respects_edges(order: Seq<u32>, edges: Seq<DataFlowEdge>) -> bool {
    forall|k: int, i: int, j: int|
        #![trigger edges[k], order[i], order[j]]
        0 <= k < edges.len() && 0 <= i < order.len() && 0 <= j < order.len()
            && order[i] == edges[k].from && order[j] == edges[k].to ==> i < j
}

/// `order` is a topological order of the `n` nodes: a permutation of
/// `0..n` in which every edge points forward.
pub open spec fn is_topo_order(n: nat, edges: Seq<DataFlowEdge>, order: Seq<u32>) -> bool {
    &&& order.len() == n
    &&& (forall|i: int| 0 <= i < order.len() ==> (#[trigger] order[i]) < n)
    &&& order.no_duplicates()
    &&& respects_edges(order, edges)
}

/// A Kahn order is in particular a topological order.
pub proof fn lemma_kahn_order_is_topo(n: nat, edges: Seq<DataFlowEdge>, order: Seq<u32>)
    requires
        is_kahn_order(n, edges, order),
    ensures
        is_topo_order(n, edges, order),
{
    lemma_kahn_prefix_distinct(n, edges, order);
    assert forall|k: int, i: int, j: int|
        #![trigger edges[k], order[i], order[j]]
        0 <= k < edges.len() && 0 <= i < order.len() && 0 <= j < order.len()
            && order[i] == edges[k].from && order[j] == edges[k].to implies i < j by {
        assert(min_ready(n, edges, order.take(j), order[j] as int));
        assert(order.take(j).contains(edges[k].from));
        let w = choose|w: int| 0 <= w < j && order.take(j)[w] == edges[k].from;
        assert(order[w] == order[i]);
        assert(w == i);
    }
}

/// Elements of a Kahn prefix are in range and pairwise distinct.
proof fn lemma_kahn_prefix_distinct(n: nat, edges: Seq<DataFlowEdge>, order: Seq<u32>)
    requires
        is_kahn_prefix(n, edges, order),
    ensures
        forall|i: int| 0 <= i < order.len() ==> (#[trigger] order[i]) < n,
        order.no_duplicates(),
{
    assert forall|i: int| 0 <= i < order.len() implies (#[trigger] order[i]) < n by {
        assert(min_ready(n, edges, order.take(i), order[i] as int));
    }
    assert forall|i: int, j: int|
        0 <= i < order.len() && 0 <= j < order.len() && i != j implies order[i] != order[j] by {
        let a = if i < j { i } else { j };
        let b = if i < j { j } else { i };
        assert(min_ready(n, edges, order.take(b), order[b] as int));
        if order[a] == order[b] {
            assert(order.take(b)[a] == order[b]);
            assert(order.take(b).contains(order[b]));
        }
    }
}

/// The orderer is deterministic: there is exactly one Kahn order for a
/// given node count and edge list.
pub proof fn lemma_kahn_order_unique(n: nat, edges: Seq<DataFlowEdge>, o1: Seq<u32>, o2: Seq<u32>)
    requires
        is_kahn_order(n, edges, o1),
        is_kahn_order(n, edges, o2),
    ensures
        o1 == o2,
{
    lemma_kahn_prefix_agrees(n, edges, o1, o2, n as int);
    assert(o1 =~= o2);
}

proof fn lemma_kahn_prefix_agrees(
    n: nat,
    edges: Seq<DataFlowEdge>,
    o1: Seq<u32>,
    o2: Seq<u32>,
    i: int,
)
    requires
        is_kahn_order(n, edges, o1),
        is_kahn_order(n, edges, o2),
        0 <= i <= n,
    ensures
        forall|j: int| 0 <= j < i ==> o1[j] == o2[j],
    decreases i,
{
    if i > 0 {
        lemma_kahn_prefix_agrees(n, edges, o1, o2, i - 1);
        assert(o1.take(i - 1) =~= o2.take(i - 1));
        assert(min_ready(n, edges, o1.take(i - 1), o1[i - 1] as int));
        assert(min_ready(n, edges, o2.take(i - 1), o2[i - 1] as int));
        let a = o1[i - 1] as int;
        let b = o2[i - 1] as int;
        if a < b {
            assert(!ready(n, edges, o2.take(i - 1), a));
            assert(ready(n, edges, o1.take(i - 1), a));
        }
        if b < a {
            assert(!ready(n, edges, o1.take(i - 1), b));
            assert(ready(n, edges, o2.take(i - 1), b));
        }
    }
}

/// Position of node `v` in `order`.
pub open spec fn pos_of(order: Seq<u32>, v: int) -> int {
    choose|i: int| 0 <= i < order.len() && order[i] == v
}

/// A topological order of all `n` nodes gives every node in range a
/// well-defined position.
proof fn lemma_pos_of_valid(n: nat, edges: Seq<DataFlowEdge>, order: Seq<u32>, v: int)
    requires
        is_topo_order(n, edges, order),
        0 <= v < n,
    ensures
        0 <= pos_of(order, v) < order.len(),
        order[pos_of(order, v)] == v,
{
    let oi = order.map_values(|u: u32| u as int);
    assert forall|i: int, j: int|
        0 <= i < oi.len() && 0 <= j < oi.len() && i != j implies oi[i] != oi[j] by {
        assert(order[i] != order[j]);
    }
    oi.unique_seq_to_set();
    let rng = set_int_range(0, n as int);
    lemma_int_range(0, n as int);
    assert(oi.to_set().subset_of(rng)) by {
        assert forall|x: int| oi.to_set().contains(x) implies rng.contains(x) by {
            let i = choose|i: int| 0 <= i < oi.len() && oi[i] == x;
            assert(order[i] < n);
        }
    }
    lemma_len_subset(oi.to_set(), rng);
    lemma_subset_equality(oi.to_set(), rng);
    assert(rng.contains(v));
    assert(oi.contains(v));
    let i = choose|i: int| 0 <= i < oi.len() && oi[i] == v;
    assert(0 <= i < order.len() && order[i] == v);
}

proof fn lemma_cycle_chain(
    n: nat,
    edges: Seq<DataFlowEdge>,
    order: Seq<u32>,
    c: Seq<int>,
    t: int,
)
    requires
        is_topo_order(n, edges, order),
        edges_in_range(edges, n),
        is_cycle(edges, c),
        0 <= t < c.len(),
    ensures
        0 <= c[t] < n,
        0 <= pos_of(order, c[t]) < order.len(),
        order[pos_of(order, c[t])] == c[t],
        pos_of(order, c[t]) >= pos_of(order, c[0]) + t,
    decreases t,
{
    let nxt = if t == c.len() - 1 { c[0] } else { c[t + 1] };
    assert(has_edge(edges, c[t], nxt));
    let k0 = choose|k: int|
        0 <= k < edges.len() && (#[trigger] edges[k]).from == c[t] && edges[k].to == nxt;
    assert(edges[k0].from < n);
    lemma_pos_of_valid(n, edges, order, c[t]);
    if t > 0 {
        lemma_cycle_chain(n, edges, order, c, t - 1);
        assert(has_edge(edges, c[t - 1], c[t]));
        let k = choose|k: int|
            0 <= k < edges.len() && (#[trigger] edges[k]).from == c[t - 1] && edges[k].to == c[t];
        let i = pos_of(order, c[t - 1]);
        let j = pos_of(order, c[t]);
        assert(order[i] == edges[k].from);
        assert(order[j] == edges[k].to);
        assert(i < j);
    }
}

/// No directed cycle can coexist with a topological order: following the
/// cycle's edges moves strictly forward in the order, yet the cycle returns
/// to its first node.
pub proof fn lemma_topo_order_excludes_cycle(n: nat, edges: Seq<DataFlowEdge>, order: Seq<u32>)
    requires
        is_topo_order(n, edges, order),
        edges_in_range(edges, n),
    ensures
        !has_cycle(edges),
{
    if has_cycle(edges) {
        let c = choose|c: Seq<int>| is_cycle(edges, c);
        let m = c.len() - 1;
        lemma_cycle_chain(n, edges, order, c, m);
        lemma_cycle_chain(n, edges, order, c, 0);
        assert(has_edge(edges, c[m], c[0]));
        let k = choose|k: int|
            0 <= k < edges.len() && (#[trigger] edges[k]).from == c[m] && edges[k].to == c[0];
        let i = pos_of(order, c[m]);
        let j = pos_of(order, c[0]);
        assert(order[i] == edges[k].from);
        assert(order[j] == edges[k].to);
        assert(i < j);
        assert(i >= j + m);
        assert(false);
    }
}

/// Every node of `s` has an incoming edge whose source is also in `s`, so
/// no node of `s` can ever become ready.
pub open spec fn blocked(edges: Seq<DataFlowEdge>, s: Set<int>) -> bool {
    forall|v: int| #[trigger]
        s.contains(v) ==> exists|k: int|
            0 <= k < edges.len() && (#[trigger] edges[k]).to == v && s.contains(
                edges[k].from as int,
            )
}

/// Builds a backward walk of the given length through a blocked set:
/// every element is in `s` and each element has an edge to the one before
/// it.
proof fn build_walk(edges: Seq<DataFlowEdge>, s: Set<int>, len: nat) -> (w: Seq<int>)
    requires
        blocked(edges, s),
        exists|v: int| s.contains(v),
        len >= 1,
    ensures
        w.len() == len,
        forall|i: int| 0 <= i < len ==> s.contains(#[trigger] w[i]),
        forall|i: int| 0 <= i < len - 1 ==> has_edge(edges, w[i + 1], #[trigger] w[i]),
    decreases len,
{
    if len == 1 {
        let v = choose|v: int| s.contains(v);
        seq![v]
    } else {
        let w0 = build_walk(edges, s, (len - 1) as nat);
        let last = w0[len - 2];
        assert(s.contains(last));
        let k = choose|k: int|
            0 <= k < edges.len() && (#[trigger] edges[k]).to == last && s.contains(
                edges[k].from as int,
            );
        let w = w0.push(edges[k].from as int);
        assert(has_edge(edges, w[len - 1], w[len - 2]));
        w
    }
}

/// A walk longer than the blocked set must visit some node twice.
proof fn lemma_walk_duplicate(s: Set<int>, w: Seq<int>) -> (r: (int, int))
    requires
        s.finite(),
        forall|i: int| 0 <= i < w.len() ==> s.contains(#[trigger] w[i]),
        w.len() > s.len(),
    ensures
        0 <= r.0 < r.1 < w.len(),
        w[r.0] == w[r.1],
{
    if w.no_duplicates() {
        w.unique_seq_to_set();
        assert(w.to_set().subset_of(s)) by {
            assert forall|x: int| w.to_set().contains(x) implies s.contains(x) by {
                let i = choose|i: int| 0 <= i < w.len() && w[i] == x;
                assert(s.contains(w[i]));
            }
        }
        lemma_len_subset(w.to_set(), s);
        assert(false);
    }
    let (i, j) = choose|i: int, j: int|
        0 <= i < w.len() && 0 <= j < w.len() && i != j && w[i] == w[j];
    if i < j {
        (i, j)
    } else {
        (j, i)
    }
}

/// A nonempty blocked set forces a directed cycle: walking backwards
/// through predecessors must eventually repeat a node, and the repeated
/// stretch is a cycle.
pub proof fn lemma_blocked_set_has_cycle(edges: Seq<DataFlowEdge>, s: Set<int>)
    requires
        s.finite(),
        exists|v: int| s.contains(v),
        blocked(edges, s),
    ensures
        has_cycle(edges),
{
    let w = build_walk(edges, s, s.len() + 1);
    let r = lemma_walk_duplicate(s, w);
    let a = r.0;
    let b = r.1;
    let c = Seq::new((b - a) as nat, |i: int| w[b - i]);
    assert forall|i: int| 0 <= i < c.len() - 1 implies has_edge(edges, #[trigger] c[i], c[i + 1]) by {
        assert(has_edge(edges, w[(b - i - 1) + 1], w[b - i - 1]));
    }
    assert(c[c.len() - 1] == w[a + 1]);
    assert(has_edge(edges, w[(a) + 1], w[a]));
    assert(c[0] == w[b]);
    assert(w[a] == w[b]);
    assert(is_cycle(edges, c));
}

/// Computes the deterministic topological order of `n_nodes` nodes under
/// `edges`, by Kahn's algorithm with the smallest ready index always taken
/// first.  Succeeds exactly when the graph is acyclic.
pub fn toposort_nodes(n_nodes: usize, edges: &Vec<DataFlowEdge>) -> (r: Result<Vec<u32>, Error>)
    requires
        edges_in_range(edges@, n_nodes as nat),
        n_nodes <= u32::MAX,
    ensures
        match r {
            Ok(order) => is_kahn_order(n_nodes as nat, edges@, order@) && !has_cycle(edges@),
            Err(e) => e == Error::CycleDetected && has_cycle(edges@),
        },
{
    let ghost n = n_nodes as nat;
    let mut order: Vec<u32> = Vec::new();
    let mut placed: Vec<bool> = vec![false; n_nodes];
    while order.len() < n_nodes
        invariant
            edges_in_range(edges@, n),
            n == n_nodes as nat,
            n_nodes <= u32::MAX,
            order@.len() <= n_nodes,
            placed@.len() == n_nodes,
            forall|u: int| 0 <= u < n_nodes ==> placed@[u] == order@.contains(u as u32),
            is_kahn_prefix(n, edges@, order@),
        decreases n_nodes - order.len(),
    {
        let ghost prefix = order@;
        let mut found: Option<u32> = None;
        let mut v: usize = 0;
        while v < n_nodes && found.is_none()
            invariant
                edges_in_range(edges@, n),
                n == n_nodes as nat,
                n_nodes <= u32::MAX,
                v <= n_nodes,
                placed@.len() == n_nodes,
                order@ == prefix,
                forall|u: int| 0 <= u < n_nodes ==> placed@[u] == order@.contains(u as u32),
                found is None ==> forall|u: int| 0 <= u < v ==> !ready(n, edges@, prefix, u),
                match found {
                    Some(f) => min_ready(n, edges@, prefix, f as int),
                    None => true,
                },
            decreases n_nodes - v,
        {
            if !placed[v] {
                let mut ok = true;
                let mut k: usize = 0;
                while k < edges.len() && ok
                    invariant
                        edges_in_range(edges@, n),
                        n == n_nodes as nat,
                        n_nodes <= u32::MAX,
                        v < n_nodes,
                        k <= edges@.len(),
                        placed@.len() == n_nodes,
                        order@ == prefix,
                        forall|u: int| 0 <= u < n_nodes ==> placed@[u] == order@.contains(u as u32),
                        ok ==> forall|kk: int|
                            0 <= kk < k && (#[trigger] edges@[kk]).to == v ==> prefix.contains(
                                edges@[kk].from,
                            ),
                        !ok ==> !ready(n, edges@, prefix, v as int),
                    decreases edges@.len() - k,
                {
                    if edges[k].to as usize == v && !placed[edges[k].from as usize] {
                        proof {
                            assert(edges@[k as int].to == v);
                            assert(!prefix.contains(edges@[k as int].from));
                        }
                        ok = false;
                    }
                    k += 1;
                }
                if ok {
                    proof {
                        assert(ready(n, edges@, prefix, v as int));
                    }
                    found = Some(v as u32);
                }
            } else {
                proof {
                    assert(prefix.contains(v as u32));
                    assert(!ready(n, edges@, prefix, v as int));
                }
            }
            v += 1;
        }
        match found {
            Some(f) => {
                let ghost old_order = order@;
                order.push(f);
                placed.set(f as usize, true);
                proof {
                    assert(order@ == old_order.push(f));
                    assert forall|u: int| 0 <= u < n_nodes implies placed@[u] == order@.contains(
                        u as u32,
                    ) by {
                        if u == f as int {
                            assert(order@[old_order.len() as int] == f);
                            assert(order@.contains(f));
                        } else {
                            assert forall|x: u32|
                                x != f implies old_order.push(f).contains(x)
                                == old_order.contains(x) by {
                                if old_order.contains(x) {
                                    let ix = choose|ix: int|
                                        0 <= ix < old_order.len() && old_order[ix] == x;
                                    assert(old_order.push(f)[ix] == x);
                                }
                                if old_order.push(f).contains(x) {
                                    let ix = choose|ix: int|
                                        0 <= ix < old_order.push(f).len() && old_order.push(f)[ix]
                                            == x;
                                    assert(0 <= ix < old_order.len());
                                    assert(old_order[ix] == x);
                                }
                            }
                        }
                    }
                    assert forall|i: int| 0 <= i < order@.len() implies #[trigger] min_ready(
                        n,
                        edges@,
                        order@.take(i),
                        order@[i] as int,
                    ) by {
                        if i < old_order.len() {
                            assert(min_ready(n, edges@, old_order.take(i), old_order[i] as int));
                            assert(order@.take(i) =~= old_order.take(i));
                        } else {
                            assert(order@.take(i) =~= old_order);
                            assert(min_ready(n, edges@, old_order, f as int));
                        }
                    }
                }
            },
            None => {
                proof {
                    let s = Set::new(|u: int| 0 <= u < n && !prefix.contains(u as u32));
                    let rng = set_int_range(0, n as int);
                    lemma_int_range(0, n as int);
                    lemma_len_subset(s, rng);
                    // the set of unplaced nodes is nonempty
                    lemma_kahn_prefix_distinct(n, edges@, prefix);
                    let oi = prefix.map_values(|u: u32| u as int);
                    assert forall|i: int, j: int|
                        0 <= i < oi.len() && 0 <= j < oi.len() && i != j implies oi[i] != oi[j] by {
                        assert(prefix[i] != prefix[j]);
                    }
                    oi.unique_seq_to_set();
                    if !(exists|u: int| s.contains(u)) {
                        assert(rng.subset_of(oi.to_set())) by {
                            assert forall|x: int| rng.contains(x) implies oi.to_set().contains(
                                x,
                            ) by {
                                assert(!s.contains(x));
                                assert(prefix.contains(x as u32));
                                let ix = choose|ix: int|
                                    0 <= ix < prefix.len() && prefix[ix] == x as u32;
                                assert(oi[ix] == x);
                            }
                        }
                        seq_to_set_is_finite(oi);
                        lemma_len_subset(rng, oi.to_set());
                        assert(false);
                    }
                    // every unplaced node is blocked by an unplaced predecessor
                    assert forall|u: int| #[trigger] s.contains(u) implies exists|k: int|
                        0 <= k < edges@.len() && (#[trigger] edges@[k]).to == u && s.contains(
                            edges@[k].from as int,
                        ) by {
                        assert(!ready(n, edges@, prefix, u));
                        assert(!prefix.contains(u as u32));
                        let k = choose|k: int|
                            0 <= k < edges@.len() && (#[trigger] edges@[k]).to == u
                                && !prefix.contains(edges@[k].from);
                        assert(edges@[k].from < n);
                        assert(s.contains(edges@[k].from as int));
                    }
                    lemma_blocked_set_has_cycle(edges@, s);
                }
                return Err(Error::CycleDetected);
            },
        }
    }
    proof {
        lemma_kahn_order_is_topo(n, edges@, order@);
        lemma_topo_order_excludes_cycle(n, edges@, order@);
    }
    Ok(order)
}

// ---------- reachability ----------

/// `p` is a walk along edges: each element has an edge to the next.
pub open spec fn is_path(edges: Seq<DataFlowEdge>, p: Seq<int>) -> bool {
    &&& p.len() >= 1
    &&& (forall|i: int| 0 <= i < p.len() - 1 ==> has_edge(edges, #[trigger] p[i], p[i + 1]))
}

/// `v` is the start node `s` itself or lies transitively downstream of it.
pub open spec fn reachable(edges: Seq<DataFlowEdge>, s: int, v: int) -> bool {
    exists|p: Seq<int>| is_path(edges, p) && p.first() == s && p.last() == v
}

pub proof fn lemma_reachable_refl(edges: Seq<DataFlowEdge>, s: int)
    ensures
        reachable(edges, s, s),
{
    let p = seq![s];
    assert(is_path(edges, p) && p.first() == s && p.last() == s);
}

pub proof fn lemma_reachable_step(edges: Seq<DataFlowEdge>, s: int, u: int, v: int)
    requires
        reachable(edges, s, u),
        has_edge(edges, u, v),
    ensures
        reachable(edges, s, v),
{
    let p = choose|p: Seq<int>| is_path(edges, p) && p.first() == s && p.last() == u;
    let q = p.push(v);
    assert forall|i: int| 0 <= i < q.len() - 1 implies has_edge(edges, #[trigger] q[i], q[i + 1]) by {
        if i < p.len() - 1 {
            assert(has_edge(edges, p[i], p[i + 1]));
        } else {
            assert(q[i] == u && q[i + 1] == v);
        }
    }
    assert(is_path(edges, q) && q.first() == s && q.last() == v);
}

proof fn lemma_reachable_last_edge(edges: Seq<DataFlowEdge>, s: int, v: int)
    requires
        reachable(edges, s, v),
        v != s,
    ensures
        exists|u: int| #[trigger] has_edge(edges, u, v) && reachable(edges, s, u),
{
    let p = choose|p: Seq<int>| is_path(edges, p) && p.first() == s && p.last() == v;
    assert(p.len() >= 2);
    let u = p[p.len() - 2];
    let q = p.drop_last();
    assert forall|i: int| 0 <= i < q.len() - 1 implies has_edge(edges, #[trigger] q[i], q[i + 1]) by {
        assert(has_edge(edges, p[i], p[i + 1]));
    }
    assert(is_path(edges, q) && q.first() == s && q.last() == u);
    assert(has_edge(edges, p[p.len() - 2], p[p.len() - 1]));
    assert(has_edge(edges, u, v) && reachable(edges, s, u));
}

/// A reachable node other than the start has an incoming edge from a
/// reachable node that stands earlier in the topological order.
proof fn lemma_reachable_has_earlier_pred(
    n: nat,
    edges: Seq<DataFlowEdge>,
    order: Seq<u32>,
    s: int,
    v: int,
    p: int,
)
    requires
        is_topo_order(n, edges, order),
        edges_in_range(edges, n),
        reachable(edges, s, v),
        v != s,
        0 <= p < order.len(),
        order[p] == v,
    ensures
        exists|k: int|
            0 <= k < edges.len() && (#[trigger] edges[k]).to == v && reachable(
                edges,
                s,
                edges[k].from as int,
            ) && order.take(p).contains(edges[k].from),
{
    lemma_reachable_last_edge(edges, s, v);
    let u = choose|u: int| #[trigger] has_edge(edges, u, v) && reachable(edges, s, u);
    let k = choose|k: int|
        0 <= k < edges.len() && (#[trigger] edges[k]).from == u && edges[k].to == v;
    assert(edges[k].from < n);
    lemma_pos_of_valid(n, edges, order, u);
    let iu = pos_of(order, u);
    assert(order[iu] == edges[k].from);
    assert(order[p] == edges[k].to);
    assert(iu < p);
    assert(order.take(p)[iu] == edges[k].from);
    assert(order.take(p).contains(edges[k].from));
}

pub proof fn lemma_filter_push<A>(s: Seq<A>, x: A, pred: spec_fn(A) -> bool)
    ensures
        s.push(x).filter(pred) == if pred(x) {
            s.filter(pred).push(x)
        } else {
            s.filter(pred)
        },
{
    reveal(Seq::filter);
    assert(s.push(x).drop_last() =~= s);
    assert(s.push(x).last() == x);
}

proof fn lemma_push_contains<A>(s: Seq<A>, x: A, y: A)
    ensures
        s.push(x).contains(y) <==> (s.contains(y) || x == y),
{
    if s.contains(y) {
        let i = choose|i: int| 0 <= i < s.len() && s[i] == y;
        assert(s.push(x)[i] == y);
    }
    if x == y {
        assert(s.push(x)[s.len() as int] == y);
    }
    if s.push(x).contains(y) {
        let i = choose|i: int| 0 <= i < s.push(x).len() && s.push(x)[i] == y;
        if i < s.len() {
            assert(s[i] == y);
        }
    }
}

/// A node reachable from a node in range is itself in range.
pub proof fn lemma_reachable_in_range(edges: Seq<DataFlowEdge>, n: nat, s: int, v: int)
    requires
        edges_in_range(edges, n),
        reachable(edges, s, v),
        0 <= s < n,
    ensures
        0 <= v < n,
{
    if v != s {
        lemma_reachable_last_edge(edges, s, v);
        let u = choose|u: int| #[trigger] has_edge(edges, u, v) && reachable(edges, s, u);
        let k = choose|k: int|
            0 <= k < edges.len() && (#[trigger] edges[k]).from == u && edges[k].to == v;
        assert(edges[k].to < n);
    }
}

/// The walk of one trigger evaluation: the topological order restricted to
/// the nodes reachable from `start`.
pub open spec fn reachable_walk_spec(edges: Seq<DataFlowEdge>, order: Seq<u32>, start: int) -> Seq<
    u32,
> {
    order.filter(|u: u32| reachable(edges, start, u as int))
}

/// Every element of a reachability walk is a node index in range.
pub proof fn lemma_walk_elements(edges: Seq<DataFlowEdge>, order: Seq<u32>, start: int, n: nat)
    requires
        edges_in_range(edges, n),
        is_topo_order(n, edges, order),
        0 <= start < n,
    ensures
        forall|i: int|
            0 <= i < reachable_walk_spec(edges, order, start).len() ==> (
            #[trigger] reachable_walk_spec(edges, order, start)[i]) < n,
{
    let pred = |u: u32| reachable(edges, start, u as int);
    let w = order.filter(pred);
    assert forall|i: int| 0 <= i < w.len() implies (#[trigger] w[i]) < n by {
        order.lemma_filter_pred(pred, i);
        lemma_reachable_in_range(edges, n, start, w[i] as int);
    }
}

/// Whatever a filter keeps was in the underlying sequence.
proof fn lemma_filter_element_of<A>(s: Seq<A>, pred: spec_fn(A) -> bool, x: A)
    requires
        s.filter(pred).contains(x),
    ensures
        s.contains(x),
    decreases s.len(),
{
    reveal(Seq::filter);
    if s.len() > 0 {
        let dl = s.drop_last();
        if pred(s.last()) && x == s.last() {
            assert(s[s.len() - 1] == x);
        } else {
            let f = s.filter(pred);
            let dlf = dl.filter(pred);
            let i = choose|i: int| 0 <= i < f.len() && f[i] == x;
            if pred(s.last()) {
                assert(f == dlf.push(s.last()));
                assert(dlf[i] == x);
            }
            assert(dlf.contains(x));
            lemma_filter_element_of(dl, pred, x);
            let j = choose|j: int| 0 <= j < dl.len() && dl[j] == x;
            assert(s[j] == x);
        }
    }
}

/// A filter of a duplicate-free sequence is duplicate-free.
proof fn lemma_filter_no_duplicates<A>(s: Seq<A>, pred: spec_fn(A) -> bool)
    requires
        s.no_duplicates(),
    ensures
        s.filter(pred).no_duplicates(),
    decreases s.len(),
{
    reveal(Seq::filter);
    if s.len() > 0 {
        let dl = s.drop_last();
        lemma_filter_no_duplicates(dl, pred);
        if pred(s.last()) {
            if dl.filter(pred).contains(s.last()) {
                lemma_filter_element_of(dl, pred, s.last());
                let j = choose|j: int| 0 <= j < dl.len() && dl[j] == s.last();
                assert(s[j] == s[s.len() - 1]);
            }
            assert(s.filter(pred) == dl.filter(pred).push(s.last()));
            assert forall|i: int, j: int|
                0 <= i < s.filter(pred).len() && 0 <= j < s.filter(pred).len() && i != j implies s.filter(
                pred,
            )[i] != s.filter(pred)[j] by {
                if i < s.filter(pred).len() - 1 && j < s.filter(pred).len() - 1 {
                    assert(dl.filter(pred)[i] != dl.filter(pred)[j]);
                }
            }
        }
    }
}

/// The walker touches exactly the downstream subgraph: every node
/// reachable from `start` appears in the walk exactly once, in an order
/// consistent with the full topological order, and no unreachable node
/// ever appears.
pub proof fn lemma_walk_exactly_reachable(
    n: nat,
    edges: Seq<DataFlowEdge>,
    order: Seq<u32>,
    start: int,
)
    requires
        edges_in_range(edges, n),
        is_topo_order(n, edges, order),
        0 <= start < n,
    ensures
        reachable_walk_spec(edges, order, start).no_duplicates(),
        forall|i: int|
            0 <= i < reachable_walk_spec(edges, order, start).len() ==> reachable(
                edges,
                start,
                (#[trigger] reachable_walk_spec(edges, order, start)[i]) as int,
            ),
        forall|v: int|
            0 <= v < n && reachable(edges, start, v) ==> reachable_walk_spec(
                edges,
                order,
                start,
            ).contains(v as u32),
{
    let pred = |u: u32| reachable(edges, start, u as int);
    let w = order.filter(pred);
    lemma_filter_no_duplicates(order, pred);
    assert forall|i: int| 0 <= i < w.len() implies reachable(
        edges,
        start,
        (#[trigger] w[i]) as int,
    ) by {
        order.lemma_filter_pred(pred, i);
    }
    assert forall|v: int| 0 <= v < n && reachable(edges, start, v) implies w.contains(
        v as u32,
    ) by {
        lemma_pos_of_valid(n, edges, order, v);
        let i = pos_of(order, v);
        assert(pred(order[i]));
        broadcast use vstd::seq_lib::group_filter_ensures;

        assert(w.contains(order[i]));
    }
}

/// No graph with a directed cycle has a Kahn order: ordering fails on
/// exactly the cyclic graphs.
pub proof fn lemma_cycle_defeats_ordering(n: nat, edges: Seq<DataFlowEdge>, order: Seq<u32>)
    requires
        edges_in_range(edges, n),
        has_cycle(edges),
    ensures
        !is_kahn_order(n, edges, order),
{
    if is_kahn_order(n, edges, order) {
        lemma_kahn_order_is_topo(n, edges, order);
        lemma_topo_order_excludes_cycle(n, edges, order);
    }
}

/// Computes the subsequence of the topological order that is reachable from
/// `start`, in order.  The start node itself comes first.
pub fn reachable_walk(
    n_nodes: usize,
    edges: &Vec<DataFlowEdge>,
    order: &Vec<u32>,
    start: u32,
) -> (r: Result<Vec<u32>, Error>)
    requires
        edges_in_range(edges@, n_nodes as nat),
        is_topo_order(n_nodes as nat, edges@, order@),
        n_nodes <= u32::MAX,
    ensures
        match r {
            Ok(walk) => {
                &&& (start as int) < n_nodes
                &&& walk@ == reachable_walk_spec(edges@, order@, start as int)
                &&& walk@.len() >= 1
                &&& walk@[0] == start
            },
            Err(e) => e == Error::StartNodeOutOfRange && (start as int) >= n_nodes,
        },
{
    if !((start as usize) < n_nodes) {
        return Err(Error::StartNodeOutOfRange);
    }
    let ghost n = n_nodes as nat;
    let ghost pred = |u: u32| reachable(edges@, start as int, u as int);
    let mut included: Vec<bool> = vec![false; n_nodes];
    let mut walk: Vec<u32> = Vec::new();
    let mut p: usize = 0;
    while p < n_nodes
        invariant
            edges_in_range(edges@, n),
            is_topo_order(n, edges@, order@),
            n == n_nodes as nat,
            n_nodes <= u32::MAX,
            (start as int) < n_nodes,
            p <= n_nodes,
            order@.len() == n_nodes,
            included@.len() == n_nodes,
            pred == (|u: u32| reachable(edges@, start as int, u as int)),
            forall|u: int|
                0 <= u < n_nodes ==> (included@[u] <==> (order@.take(p as int).contains(u as u32)
                    && reachable(edges@, start as int, u))),
            walk@ == order@.take(p as int).filter(pred),
            walk@.len() > 0 ==> walk@[0] == start,
        decreases n_nodes - p,
    {
        let v: u32 = order[p];
        proof {
            assert(order@[p as int] < n);
        }
        let mut hit: bool = v == start;
        proof {
            if hit {
                lemma_reachable_refl(edges@, start as int);
            }
        }
        if !hit {
            let mut k: usize = 0;
            while k < edges.len() && !hit
                invariant
                    edges_in_range(edges@, n),
                    n == n_nodes as nat,
                    n_nodes <= u32::MAX,
                    p < n_nodes,
                    order@.len() == n_nodes,
                    v == order@[p as int],
                    (v as int) < n_nodes,
                    included@.len() == n_nodes,
                    k <= edges@.len(),
                    forall|u: int|
                        0 <= u < n_nodes ==> (included@[u] <==> (order@.take(
                            p as int,
                        ).contains(u as u32) && reachable(edges@, start as int, u))),
                    !hit ==> forall|kk: int|
                        0 <= kk < k ==> !((#[trigger] edges@[kk]).to == v && included@[edges@[kk].from as int]),
                    hit ==> reachable(edges@, start as int, v as int),
                decreases edges@.len() - k,
            {
                if edges[k].to == v && included[edges[k].from as usize] {
                    proof {
                        let u = edges@[k as int].from;
                        assert(included@[u as int]);
                        assert(reachable(edges@, start as int, u as int));
                        assert(has_edge(edges@, u as int, v as int));
                        lemma_reachable_step(edges@, start as int, u as int, v as int);
                    }
                    hit = true;
                }
                k += 1;
            }
        }
        if hit {
            proof {
                if walk@.len() == 0 && v != start {
                    lemma_reachable_has_earlier_pred(
                        n,
                        edges@,
                        order@,
                        start as int,
                        v as int,
                        p as int,
                    );
                    let k = choose|k: int|
                        0 <= k < edges@.len() && (#[trigger] edges@[k]).to == v as int && reachable(
                            edges@,
                            start as int,
                            edges@[k].from as int,
                        ) && order@.take(p as int).contains(edges@[k].from);
                    let tp = order@.take(p as int);
                    let iu = choose|iu: int| 0 <= iu < tp.len() && tp[iu] == edges@[k].from;
                    tp.lemma_filter_contains(pred, iu);
                    assert(false);
                }
            }
            walk.push(v);
            included.set(v as usize, true);
            proof {
                assert(order@.take(p + 1) =~= order@.take(p as int).push(v));
                lemma_filter_push(order@.take(p as int), v, pred);
                assert forall|u: int|
                    0 <= u < n_nodes implies (included@[u] <==> (order@.take(
                        p + 1,
                    ).contains(u as u32) && reachable(edges@, start as int, u))) by {
                    lemma_push_contains(order@.take(p as int), v, u as u32);
                }
            }
        } else {
            proof {
                if reachable(edges@, start as int, v as int) {
                    lemma_reachable_has_earlier_pred(
                        n,
                        edges@,
                        order@,
                        start as int,
                        v as int,
                        p as int,
                    );
                    let k = choose|k: int|
                        0 <= k < edges@.len() && (#[trigger] edges@[k]).to == v as int && reachable(
                            edges@,
                            start as int,
                            edges@[k].from as int,
                        ) && order@.take(p as int).contains(edges@[k].from);
                    assert(edges@[k].from < n);
                    assert(included@[edges@[k].from as int]);
                    assert(false);
                }
                assert(order@.take(p + 1) =~= order@.take(p as int).push(v));
                lemma_filter_push(order@.take(p as int), v, pred);
                assert forall|u: int|
                    0 <= u < n_nodes implies (included@[u] <==> (order@.take(
                        p + 1,
                    ).contains(u as u32) && reachable(edges@, start as int, u))) by {
                    lemma_push_contains(order@.take(p as int), v, u as u32);
                }
            }
        }
        p += 1;
    }
    proof {
        assert(order@.take(n_nodes as int) =~= order@);
        lemma_reachable_refl(edges@, start as int);
        lemma_pos_of_valid(n, edges@, order@, start as int);
        let ps = pos_of(order@, start as int);
        order@.lemma_filter_contains(pred, ps);
        assert(walk@.len() >= 1);
    }
    Ok(walk)
}

} // verus!
