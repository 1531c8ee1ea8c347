//! The shortest-path scheduler: a single-source shortest-path tree over the
//! dependency graph, rooted at the synthetic node `0`.
//!
//! The node picked each round is the unseen node with the least
//! `(distance, node id)` pair, so processing order is deterministic among
//! equal distances. A relaxation that would overflow the distance range is
//! skipped, treated as worse. The output is the predecessor array only; the
//! root's predecessor is itself, a sentinel meaning "terminal". A node that
//! ends up without a finite distance means some thread has no affordable
//! path from the root: that input is rejected before any scheduling.

use vstd::prelude::*;

use crate::errors::TlError;
use crate::graph::{csr_count, csr_edge_map, csr_node_total, csr_out_edges, DepGraph};

verus! {

/// Following predecessors from `v` hits the root within `fuel` steps.
pub open spec fn reaches_root(pred: Seq<u32>, v: int, fuel: nat) -> bool
    decreases fuel,
{
    if v == 0 {
        true
    } else if fuel == 0 {
        false
    } else if 0 <= v < pred.len() {
        reaches_root(pred, pred[v] as int, (fuel - 1) as nat)
    } else {
        false
    }
}

/// There is a directed path of at most `fuel` edges from the root to `v`.
pub open spec fn connected(edges: Map<(u32, u32), u8>, v: int, fuel: nat) -> bool
    decreases fuel,
{
    if v == 0 {
        true
    } else if fuel == 0 {
        false
    } else {
        exists|u: u32|
            #[trigger] edges.contains_key((u, v as u32)) && connected(edges, u as int, (fuel - 1) as nat)
    }
}

/// `d` is a distance labeling that the predecessor array is tight against:
/// the root costs zero, each tree edge accounts exactly for its head's
/// label, and no graph edge could lower any label, except where the sum
/// leaves the distance range. Together with the tree shape this pins `d` as
/// the shortest distances and the tree as a shortest-path tree.
pub open spec fn tight_labels(edges: Map<(u32, u32), u8>, ps: Seq<u32>, d: Seq<u32>) -> bool {
    &&& d.len() == ps.len()
    &&& d[0] == 0
    &&& forall|v: int|
        1 <= v < ps.len() ==> (d[v] as int) == (d[(#[trigger] ps[v]) as int] as int) + (edges[
            (ps[v], v as u32)
        ] as int)
    &&& forall|u: u32, v: u32|
        #[trigger] edges.contains_key((u, v)) && (u as int) < d.len() && (v as int) < d.len()
            ==> (d[u as int] as int) + (edges[(u, v)] as int) >= 0xffff_ffff || (d[v as int] as int)
            <= (d[u as int] as int) + (edges[(u, v)] as int)
}

/// A graph on which scheduling is owed: every edge stays among the nodes,
/// every node is reachable from the root, and the worst path cost fits the
/// distance range.
pub open spec fn complete_input(edges: Map<(u32, u32), u8>, n: nat) -> bool {
    &&& forall|u: u32, v: u32|
        #[trigger] edges.contains_key((u, v)) ==> (u as nat) < n && (v as nat) < n
    &&& (n + 1) * 255 < 0xffff_ffff
    &&& forall|v: int| 0 <= v < n ==> connected(edges, v, n)
}

pub proof fn lemma_reaches_mono(pred: Seq<u32>, v: int, f1: nat, f2: nat)
    requires
        reaches_root(pred, v, f1),
        f1 <= f2,
    ensures
        reaches_root(pred, v, f2),
    decreases f1,
{
    if v != 0 {
        lemma_reaches_mono(pred, pred[v] as int, (f1 - 1) as nat, (f2 - 1) as nat);
    }
}

/// A predecessor chain that ranks strictly down reaches the root within the
/// rank of its start.
proof fn lemma_rank_chain(ps: Seq<u32>, rank: Seq<nat>, n: int, v: int)
    requires
        ps.len() == n,
        rank.len() == n,
        0 <= v < n,
        forall|w: int|
            1 <= w < n ==> 0 <= (#[trigger] ps[w]) < n && rank[ps[w] as int] < rank[w],
    ensures
        reaches_root(ps, v, (rank[v] + 1) as nat),
    decreases rank[v],
{
    if v != 0 {
        let u = ps[v] as int;
        lemma_rank_chain(ps, rank, n, u);
        lemma_reaches_mono(ps, u, (rank[u] + 1) as nat, rank[v] as nat);
    }
}

/// Every node whose predecessor chain reaches the root is reachable from the
/// root along graph edges: the rejection check is never spurious for a tree.
pub proof fn lemma_pred_tree_reachable(
    edges: Map<(u32, u32), u8>,
    ps: Seq<u32>,
    v: int,
    fuel: nat,
)
    requires
        0 <= v < ps.len(),
        ps.len() <= 0x1_0000_0000,
        forall|w: int|
            1 <= w < ps.len() ==> (#[trigger] ps[w] as int) < ps.len() && edges.contains_key(
                (ps[w], w as u32),
            ),
        reaches_root(ps, v, fuel),
    ensures
        connected(edges, v, fuel),
    decreases fuel,
{
    if v != 0 {
        let u = ps[v] as int;
        lemma_pred_tree_reachable(edges, ps, u, (fuel - 1) as nat);
        assert(edges.contains_key((ps[v], v as u32)) && connected(
            edges,
            ps[v] as int,
            (fuel - 1) as nat,
        ));
    }
}

/// How many entries of `s` are set.
spec fn count_true(s: Seq<bool>) -> nat
    decreases s.len(),
{
    if s.len() == 0 {
        0
    } else {
        count_true(s.drop_last()) + (if s.last() {
            1nat
        } else {
            0nat
        })
    }
}

proof fn lemma_count_le(s: Seq<bool>)
    ensures
        count_true(s) <= s.len(),
    decreases s.len(),
{
    if s.len() > 0 {
        lemma_count_le(s.drop_last());
    }
}

proof fn lemma_count_none(s: Seq<bool>)
    requires
        forall|i: int| 0 <= i < s.len() ==> !s[i],
    ensures
        count_true(s) == 0,
    decreases s.len(),
{
    if s.len() > 0 {
        lemma_count_none(s.drop_last());
    }
}

proof fn lemma_count_update(s: Seq<bool>, i: int)
    requires
        0 <= i < s.len(),
        !s[i],
    ensures
        count_true(s.update(i, true)) == count_true(s) + 1,
    decreases s.len(),
{
    if i == s.len() - 1 {
        assert(s.update(i, true).drop_last() =~= s.drop_last());
    } else {
        assert(s.update(i, true).drop_last() =~= s.drop_last().update(i, true));
        lemma_count_update(s.drop_last(), i);
    }
}

proof fn lemma_count_full(s: Seq<bool>)
    requires
        forall|i: int| 0 <= i < s.len() ==> s[i],
    ensures
        count_true(s) == s.len(),
    decreases s.len(),
{
    if s.len() > 0 {
        lemma_count_full(s.drop_last());
    }
}

proof fn lemma_count_all(s: Seq<bool>)
    requires
        count_true(s) == s.len(),
    ensures
        forall|i: int| 0 <= i < s.len() ==> s[i],
    decreases s.len(),
{
    if s.len() > 0 {
        lemma_count_le(s.drop_last());
        lemma_count_all(s.drop_last());
        assert forall|i: int| 0 <= i < s.len() implies s[i] by {
            if i < s.len() - 1 {
                assert(s.drop_last()[i]);
            }
        }
    }
}

/// A finite label is bounded by its chain depth: along the tight tree every
/// step adds at most the largest single weight.
proof fn lemma_label_bound(
    edges: Map<(u32, u32), u8>,
    po: Seq<Option<u32>>,
    rank: Seq<nat>,
    dd: Seq<u32>,
    n: int,
    w: int,
)
    requires
        po.len() == n,
        rank.len() == n,
        dd.len() == n,
        0 <= w < n,
        dd[0] == 0,
        forall|x: int|
            #![trigger po[x]]
            0 <= x < n ==> match po[x] {
                Some(u) => (u as int) < n && rank[u as int] < rank[x] && (dd[x] as int) == (dd[
                    u as int
                ] as int) + (edges[(u, x as u32)] as int),
                None => true,
            },
        forall|x: int| 1 <= x < n ==> ((#[trigger] po[x]) is Some <==> dd[x] < 0xffff_ffffu32),
        dd[w] < 0xffff_ffffu32,
    ensures
        (dd[w] as int) <= (rank[w] + 1) * 255,
    decreases rank[w],
{
    if w != 0 {
        assert(po[w] is Some);
        let u = po[w]->0 as int;
        if u == 0 {
            assert((dd[w] as int) <= 255);
            assert((rank[w] + 1) * 255 >= 255) by (nonlinear_arith);
        } else {
            assert(dd[u] < 0xffff_ffffu32);
            lemma_label_bound(edges, po, rank, dd, n, u);
            assert((dd[w] as int) <= (rank[u] + 1) * 255 + 255);
            assert((rank[u] + 1) * 255 + 255 <= (rank[w] + 1) * 255) by (nonlinear_arith)
                requires
                    rank[u] < rank[w],
            ;
        }
    }
}

/// On a complete input every node ends with a finite label: its path's cost
/// fits the range, so no relaxation along it is ever skipped.
proof fn lemma_finite_label(
    edges: Map<(u32, u32), u8>,
    po: Seq<Option<u32>>,
    rank: Seq<nat>,
    dd: Seq<u32>,
    n: int,
    v: int,
    fuel: nat,
)
    requires
        po.len() == n,
        rank.len() == n,
        dd.len() == n,
        1 <= n,
        0 <= v < n,
        dd[0] == 0,
        (n + 1) * 255 < 0xffff_ffff,
        forall|x: int| 0 <= x < n ==> (#[trigger] rank[x]) < n,
        forall|x: int|
            #![trigger po[x]]
            0 <= x < n ==> match po[x] {
                Some(u) => (u as int) < n && rank[u as int] < rank[x] && (dd[x] as int) == (dd[
                    u as int
                ] as int) + (edges[(u, x as u32)] as int),
                None => true,
            },
        forall|x: int| 1 <= x < n ==> ((#[trigger] po[x]) is Some <==> dd[x] < 0xffff_ffffu32),
        forall|u: u32, x: u32|
            #[trigger] edges.contains_key((u, x)) ==> (u as int) < n && (x as int) < n,
        forall|u: u32, x: u32|
            #[trigger] edges.contains_key((u, x)) ==> (dd[u as int] as int) + (edges[(u, x)] as int)
                >= 0xffff_ffff || (dd[x as int] as int) <= (dd[u as int] as int) + (edges[
                (u, x)
            ] as int),
        connected(edges, v, fuel),
    ensures
        dd[v] < 0xffff_ffffu32,
    decreases fuel,
{
    if v != 0 {
        let u = choose|u: u32|
            #[trigger] edges.contains_key((u, v as u32)) && connected(edges, u as int, (fuel - 1) as nat);
        lemma_finite_label(edges, po, rank, dd, n, u as int, (fuel - 1) as nat);
        lemma_label_bound(edges, po, rank, dd, n, u as int);
        assert((dd[u as int] as int) + (edges[(u, v as u32)] as int) <= (rank[u as int] + 1) * 255
            + 255);
        assert((rank[u as int] + 1) * 255 + 255 <= (n + 1) * 255) by (nonlinear_arith)
            requires
                rank[u as int] < n,
        ;
    }
}

/// `p` walks the graph from the root: consecutive entries are edges.
pub open spec fn is_path(edges: Map<(u32, u32), u8>, p: Seq<u32>) -> bool {
    &&& p.len() >= 1
    &&& p[0] == 0
    &&& forall|i: int| 0 <= i < p.len() - 1 ==> edges.contains_key(((#[trigger] p[i]), p[i + 1]))
}

/// The cost of a path: the sum of its edge weights.
pub open spec fn path_cost(edges: Map<(u32, u32), u8>, p: Seq<u32>) -> int
    decreases p.len(),
{
    if p.len() <= 1 {
        0
    } else {
        path_cost(edges, p.drop_last()) + edges[(p[p.len() - 2], p[p.len() - 1])]
    }
}

/// No affordable path undercuts a tight labeling: every path from the root
/// to a node whose total cost fits the distance range costs at least the
/// node's label. With the exactness of the tree edges this makes the
/// labeling the shortest distances and the predecessor tree a
/// shortest-path tree.
pub proof fn lemma_labels_are_minimal(edges: Map<(u32, u32), u8>, d: Seq<u32>, p: Seq<u32>)
    requires
        d.len() >= 1,
        d[0] == 0,
        forall|u: u32, v: u32|
            #[trigger] edges.contains_key((u, v)) ==> (u as int) < d.len() && (v as int) < d.len(),
        forall|u: u32, v: u32|
            #[trigger] edges.contains_key((u, v)) ==> (d[u as int] as int) + (edges[(u, v)] as int)
                >= 0xffff_ffff || (d[v as int] as int) <= (d[u as int] as int) + (edges[
                (u, v)
            ] as int),
        is_path(edges, p),
        path_cost(edges, p) < 0xffff_ffff,
    ensures
        (d[p[p.len() - 1] as int] as int) <= path_cost(edges, p),
    decreases p.len(),
{
    if p.len() > 1 {
        let q = p.drop_last();
        assert(edges.contains_key((p[p.len() - 2], p[p.len() - 1])));
        assert(is_path(edges, q)) by {
            assert(forall|i: int|
                0 <= i < q.len() - 1 ==> (#[trigger] q[i]) == p[i] && q[i + 1] == p[i + 1]);
        }
        assert(path_cost(edges, q) <= path_cost(edges, p));
        lemma_labels_are_minimal(edges, d, q);
    }
}

/// The shortest-path tree of the dependency graph, as a predecessor array.
///
/// On success every node's predecessor chain reaches the root within `N`
/// steps without cycling, every non-root predecessor link is a real edge,
/// the root's predecessor is itself, and some distance labeling is tight
/// for the tree: the tree is a shortest-path tree of the graph. A graph in
/// which some node cannot be reached from the root at all is rejected as
/// `Unreachable`; a complete input is never rejected.
#[verifier::rlimit(60)]
pub fn dijkstra(g: &DepGraph) -> (r: Result<Vec<u32>, TlError>)
    requires
        1 <= csr_node_total(g),
        csr_node_total(g) < 0x1_0000_0000,
    ensures
        match r {
            Ok(pred) => pred@.len() == csr_node_total(g) && pred@[0] == 0 && (forall|v: int|
                1 <= v < pred@.len() ==> (#[trigger] pred@[v] as int) < pred@.len()
                    && csr_edge_map(g).contains_key((pred@[v], v as u32))) && (forall|v: int|
                0 <= v < pred@.len() ==> reaches_root(pred@, v, pred@.len() as nat)) && (exists|
                d: Seq<u32>,
            | tight_labels(csr_edge_map(g), pred@, d)),
            Err(e) => e is Unreachable,
        },
        (exists|v: int|
            0 <= v < csr_node_total(g) && !connected(
                csr_edge_map(g),
                v,
                csr_node_total(g),
            )) ==> r is Err,
        complete_input(csr_edge_map(g), csr_node_total(g)) ==> r is Ok,
{
    let n = csr_count(g);
    let mut dist: Vec<u32> = Vec::new();
    let mut pred: Vec<Option<u32>> = Vec::new();
    let mut seen: Vec<bool> = Vec::new();

    let mut k: usize = 0;
    while k < n
        invariant
            k <= n,
            dist@.len() == k,
            pred@.len() == k,
            seen@.len() == k,
            k >= 1 ==> dist@[0] == 0,
            forall|v: int| 1 <= v < k ==> (#[trigger] dist@[v]) == 0xffff_ffffu32,
            forall|v: int| 0 <= v < k ==> (#[trigger] pred@[v]) is None,
            forall|v: int| 0 <= v < k ==> !(#[trigger] seen@[v]),
        decreases n - k,
    {
        dist.push(if k == 0 { 0 } else { u32::MAX });
        pred.push(None);
        seen.push(false);
        k += 1;
    }
    proof {
        lemma_count_none(seen@);
    }

    let ghost mut rank: Seq<nat> = Seq::new(n as nat, |i: int| 0nat);

    let mut it: usize = 0;
    while it < n
        invariant
            n == csr_node_total(g),
            1 <= n < 0x1_0000_0000,
            it <= n,
            dist@.len() == n,
            pred@.len() == n,
            seen@.len() == n,
            rank.len() == n,
            dist@[0] == 0,
            count_true(seen@) == it,
            forall|v: int| 0 <= v < n ==> (#[trigger] rank[v]) < n,
            forall|v: int| 0 <= v < n && (#[trigger] seen@[v]) ==> rank[v] < it,
            forall|v: int|
                1 <= v < n ==> ((#[trigger] pred@[v]) is Some <==> dist@[v] < 0xffff_ffffu32),
            forall|v: int|
                #![trigger pred@[v]]
                0 <= v < n ==> match pred@[v] {
                    Some(u) => (u as int) < n && seen@[u as int] && csr_edge_map(g).contains_key(
                        (u, v as u32),
                    ) && (dist@[v] as int) == (dist@[u as int] as int) + (csr_edge_map(g)[
                        (u, v as u32)
                    ] as int) && dist@[v] < 0xffff_ffffu32,
                    None => true,
                },
            forall|v: int|
                0 <= v < n && (#[trigger] seen@[v]) ==> match pred@[v] {
                    Some(u) => rank[u as int] < rank[v],
                    None => true,
                },
            forall|a: int, b: int|
                0 <= a < n && 0 <= b < n && (#[trigger] seen@[a]) && !(#[trigger] seen@[b])
                    ==> dist@[a] <= dist@[b],
            forall|a: int, b: int|
                0 <= a < n && 0 <= b < n && (#[trigger] seen@[a]) && (#[trigger] seen@[b]) && rank[a]
                    <= rank[b] ==> dist@[a] <= dist@[b],
            forall|a: int, v: u32|
                0 <= a < n && (#[trigger] seen@[a]) && (#[trigger] csr_edge_map(g).contains_key(
                    ((a as u32), v),
                )) && (v as int) < n ==> (dist@[a] as int) + (csr_edge_map(g)[((a as u32), v)] as int)
                    >= 0xffff_ffff || (dist@[v as int] as int) <= (dist@[a] as int) + (csr_edge_map(
                    g,
                )[((a as u32), v)] as int),
        decreases n - it,
    {
        let mut best: usize = n;
        let mut bd: u32 = 0;
        let mut j: usize = 0;
        while j < n
            invariant
                n == dist@.len(),
                n == seen@.len(),
                j <= n,
                best <= n,
                best < n ==> !seen@[best as int] && bd == dist@[best as int],
                best < n ==> forall|w: int| 0 <= w < j && !seen@[w] ==> bd <= (#[trigger] dist@[w]),
                best == n ==> forall|w: int| 0 <= w < j ==> seen@[w],
            decreases n - j,
        {
            if !seen[j] {
                if best == n || dist[j] < bd {
                    best = j;
                    bd = dist[j];
                }
            }
            j += 1;
        }
        if best == n {
            proof {
                lemma_count_full(seen@);
            }
            it = n;
        } else {
            let u = best;
            let ghost seen_old = seen@;
            seen[u] = true;
            proof {
                lemma_count_update(seen_old, u as int);
                rank = rank.update(u as int, it as nat);
            }

            if dist[u] != u32::MAX {
                let es = csr_out_edges(g, u as u32);
                let du = dist[u];
                let mut e: usize = 0;
                while e < es.len()
                    invariant
                        n == csr_node_total(g),
                        1 <= n < 0x1_0000_0000,
                        it < n,
                        u < n,
                        dist@.len() == n,
                        pred@.len() == n,
                        seen@.len() == n,
                        rank.len() == n,
                        dist@[0] == 0,
                        count_true(seen@) == it + 1,
                        seen@[u as int],
                        rank[u as int] == it,
                        dist@[u as int] == du,
                        du < 0xffff_ffffu32,
                        e <= es@.len(),
                        forall|i: int|
                            0 <= i < es@.len() ==> csr_edge_map(g).contains_key(
                                (u as u32, (#[trigger] es@[i]).0),
                            ) && csr_edge_map(g)[(u as u32, es@[i].0)] == es@[i].1 && (
                            es@[i].0 as nat) < csr_node_total(g),
                        forall|v: u32|
                            #[trigger] csr_edge_map(g).contains_key((u as u32, v)) ==> exists|i: int|
                                0 <= i < es@.len() && es@[i] == (v, csr_edge_map(g)[(u as u32, v)]),
                        forall|v: int| 0 <= v < n ==> (#[trigger] rank[v]) < n,
                        forall|v: int| 0 <= v < n && (#[trigger] seen@[v]) ==> rank[v] <= it,
                        forall|v: int|
                            1 <= v < n ==> ((#[trigger] pred@[v]) is Some <==> dist@[v]
                                < 0xffff_ffffu32),
                        forall|v: int|
                            #![trigger pred@[v]]
                            0 <= v < n ==> match pred@[v] {
                                Some(w) => (w as int) < n && seen@[w as int] && csr_edge_map(
                                    g,
                                ).contains_key((w, v as u32)) && (dist@[v] as int) == (dist@[
                                    w as int
                                ] as int) + (csr_edge_map(g)[(w, v as u32)] as int) && dist@[v]
                                    < 0xffff_ffffu32,
                                None => true,
                            },
                        forall|v: int|
                            0 <= v < n && (#[trigger] seen@[v]) ==> match pred@[v] {
                                Some(w) => rank[w as int] < rank[v],
                                None => true,
                            },
                        forall|a: int, b: int|
                            0 <= a < n && 0 <= b < n && (#[trigger] seen@[a]) && !(
                            #[trigger] seen@[b]) ==> dist@[a] <= dist@[b],
                        forall|a: int, b: int|
                            0 <= a < n && 0 <= b < n && (#[trigger] seen@[a]) && (
                            #[trigger] seen@[b]) && rank[a] <= rank[b] ==> dist@[a] <= dist@[b],
                        forall|a: int, v: u32|
                            0 <= a < n && a != u && (#[trigger] seen@[a]) && (
                            #[trigger] csr_edge_map(g).contains_key(((a as u32), v))) && (v as int)
                                < n ==> (dist@[a] as int) + (csr_edge_map(g)[((a as u32), v)] as int)
                                >= 0xffff_ffff || (dist@[v as int] as int) <= (dist@[a] as int) + (
                            csr_edge_map(g)[((a as u32), v)] as int),
                        forall|t: int|
                            0 <= t < e ==> (du as int) + ((#[trigger] es@[t]).1 as int)
                                >= 0xffff_ffff || (dist@[es@[t].0 as int] as int) <= (du as int) + (
                            es@[t].1 as int),
                    decreases es@.len() - e,
                {
                    let (v, w) = es[e];
                    assert((es@[e as int].0 as int) < n);
                    let vi = v as usize;
                    if !seen[vi] {
                        match du.checked_add(w as u32) {
                            Some(alt) => {
                                if alt < dist[vi] {
                                    proof {
                                        assert forall|a: int|
                                            0 <= a < n && seen@[a] implies dist@[a] <= alt by {
                                            assert(rank[a] <= it);
                                            assert(dist@[a] <= dist@[u as int]);
                                        }
                                    }
                                    dist[vi] = alt;
                                    pred[vi] = Some(u as u32);
                                }
                            },
                            None => {},
                        }
                    } else {
                        proof {
                            assert(rank[vi as int] <= it);
                            assert(dist@[vi as int] <= dist@[u as int]);
                        }
                    }
                    e += 1;
                }
            }
            it += 1;
        }
    }
    proof {
        lemma_count_all(seen@);
        assert forall|a: int, w: u32|
            0 <= a < n && (#[trigger] csr_edge_map(g).contains_key(((a as u32), w))) && (w as int)
                < n implies (dist@[a] as int) + (csr_edge_map(g)[((a as u32), w)] as int)
            >= 0xffff_ffff || (dist@[w as int] as int) <= (dist@[a] as int) + (csr_edge_map(g)[
            ((a as u32), w)
        ] as int) by {
            assert(seen@[a]);
        }
        assert forall|w: int|
            #![trigger pred@[w]]
            0 <= w < n implies match pred@[w] {
            Some(u) => (u as int) < n && csr_edge_map(g).contains_key((u, w as u32)) && rank[
                u as int
            ] < rank[w] && (dist@[w] as int) == (dist@[u as int] as int) + (csr_edge_map(g)[
                (u, w as u32)
            ] as int) && dist@[w] < 0xffff_ffffu32,
            None => true,
        } by {
            assert(seen@[w]);
        }
    }

    let mut ps: Vec<u32> = Vec::new();
    ps.push(0);
    let mut v: usize = 1;
    while v < n
        invariant
            n == csr_node_total(g),
            1 <= n < 0x1_0000_0000,
            1 <= v <= n,
            dist@.len() == n,
            pred@.len() == n,
            seen@.len() == n,
            rank.len() == n,
            dist@[0] == 0,
            forall|w: int| 0 <= w < n ==> (#[trigger] seen@[w]),
            forall|w: int| 0 <= w < n ==> (#[trigger] rank[w]) < n,
            forall|w: int|
                1 <= w < n ==> ((#[trigger] pred@[w]) is Some <==> dist@[w] < 0xffff_ffffu32),
            forall|w: int|
                #![trigger pred@[w]]
                0 <= w < n ==> match pred@[w] {
                    Some(u) => (u as int) < n && csr_edge_map(g).contains_key((u, w as u32)) && rank[
                        u as int
                    ] < rank[w] && (dist@[w] as int) == (dist@[u as int] as int) + (csr_edge_map(g)[
                        (u, w as u32)
                    ] as int) && dist@[w] < 0xffff_ffffu32,
                    None => true,
                },
            forall|a: int, w: u32|
                0 <= a < n && (#[trigger] csr_edge_map(g).contains_key(((a as u32), w))) && (
                w as int) < n ==> (dist@[a] as int) + (csr_edge_map(g)[((a as u32), w)] as int)
                    >= 0xffff_ffff || (dist@[w as int] as int) <= (dist@[a] as int) + (csr_edge_map(
                    g,
                )[((a as u32), w)] as int),
            ps@.len() == v,
            ps@[0] == 0,
            forall|w: int| 1 <= w < v ==> (#[trigger] pred@[w]) is Some,
            forall|w: int| 1 <= w < v ==> (#[trigger] ps@[w]) == pred@[w]->0,
        decreases n - v,
    {
        let ghost ps_old = ps@;
        match pred[v] {
            Some(u) => {
                ps.push(u);
                proof {
                    assert(ps@ == ps_old.push(u));
                    assert(pred@[v as int] is Some && ps@[v as int] == pred@[v as int]->0);
                    assert forall|w: int|
                        #![trigger ps@[w]]
                        1 <= w < v + 1 implies seen@[w] && pred@[w] is Some && ps@[w] == pred@[w]->0
                        by {
                        if w < v {
                            assert(ps@[w] == ps_old[w]);
                        }
                    }
                }
            },
            None => {
                proof {
                    if complete_input(csr_edge_map(g), n as nat) {
                        assert forall|u: u32, x: u32|
                            #[trigger] csr_edge_map(g).contains_key((u, x)) implies (dist@[
                            u as int
                        ] as int) + (csr_edge_map(g)[(u, x)] as int) >= 0xffff_ffff || (dist@[
                            x as int
                        ] as int) <= (dist@[u as int] as int) + (csr_edge_map(g)[(u, x)] as int) by {
                            assert((u as nat) < n as nat && (x as nat) < n as nat);
                            let a = u as int;
                            assert((a as u32) == u);
                            assert(seen@[a]);
                            assert(csr_edge_map(g).contains_key(((a as u32), x)));
                        }
                        lemma_finite_label(
                            csr_edge_map(g),
                            pred@,
                            rank,
                            dist@,
                            n as int,
                            v as int,
                            n as nat,
                        );
                        assert(false);
                    }
                }
                return Err(TlError::Unreachable);
            },
        }
        v += 1;
    }

    proof {
        assert forall|w: int| 1 <= w < n implies (#[trigger] ps@[w] as int) < n
            && csr_edge_map(g).contains_key((ps@[w], w as u32)) && rank[ps@[w] as int]
            < rank[w] by {
            assert(seen@[w] && pred@[w] is Some && ps@[w] == pred@[w]->0);
        }
        assert forall|w: int| 0 <= w < n implies reaches_root(ps@, w, n as nat) by {
            lemma_rank_chain(ps@, rank, n as int, w);
            lemma_reaches_mono(ps@, w, (rank[w] + 1) as nat, n as nat);
        }
        assert forall|w: int| 0 <= w < n implies connected(csr_edge_map(g), w, n as nat) by {
            lemma_pred_tree_reachable(csr_edge_map(g), ps@, w, n as nat);
        }
        assert forall|w: int|
            #![trigger ps@[w]]
            1 <= w < n implies (dist@[w] as int) == (dist@[(ps@[w]) as int] as int) + (csr_edge_map(
            g,
        )[(ps@[w], w as u32)] as int) by {
            assert(seen@[w] && pred@[w] is Some && ps@[w] == pred@[w]->0);
        }
        assert forall|u: u32, x: u32|
            #[trigger] csr_edge_map(g).contains_key((u, x)) && (u as int) < dist@.len() && (
            x as int) < dist@.len() implies (dist@[u as int] as int) + (csr_edge_map(g)[
            (u, x)
        ] as int) >= 0xffff_ffff || (dist@[x as int] as int) <= (dist@[u as int] as int) + (
        csr_edge_map(g)[(u, x)] as int) by {
            let a = u as int;
            assert((a as u32) == u);
            assert(csr_edge_map(g).contains_key(((a as u32), x)));
        }
        assert(tight_labels(csr_edge_map(g), ps@, dist@));
    }
    Ok(ps)
}

} // verus!
