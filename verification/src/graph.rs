//! Building the weighted dependency graph of narrative threads.
//!
//! Threads are keyed by `(script id, thread name)`. The graph is a petgraph
//! compressed-sparse-row graph over node indices `0..=N`, where `0` is the
//! synthetic root and the thread at position `i` of the vertex enumeration is
//! node `i + 1`. A dependency `tail -> head` becomes an edge weighted by
//! `head`'s total line count; every top thread gets a root edge weighted by
//! its own line count. A duplicate `(tail, head)` pair is a fatal
//! data-integrity error.

use vstd::prelude::*;

use petgraph::csr::Csr;
use petgraph::Directed;

use crate::errors::TlError;

verus! {

/// The dependency graph: unit node weights, line-count edge weights, `u32`
/// node indices.
pub type DepGraph = Csr<(), u8, Directed, u32>;

/// The key of a narrative thread: a script id and a thread name.
#[derive(Debug, PartialEq, Eq, Hash)]
pub struct ThreadKey {
    pub script_id: u16,
    pub name: String,
}

impl View for ThreadKey {
    type V = (u16, Seq<char>);

    open spec fn view(&self) -> (u16, Seq<char>) {
        (self.script_id, self.name@)
    }
}

impl Clone for ThreadKey {
    fn clone(&self) -> (res: Self)
        ensures
            res@ == self@,
    {
        ThreadKey { script_id: self.script_id, name: self.name.clone() }
    }
}

impl ThreadKey {
    /// Whether two keys name the same thread.
    pub fn key_eq(&self, other: &ThreadKey) -> (r: bool)
        ensures
            r == (self@ == other@),
    {
        self.script_id == other.script_id && self.name == other.name
    }
}

/// A dependency fact `tail -> head`, weighted by the head's total line count.
#[derive(Debug)]
pub struct DepEdge {
    pub tail: ThreadKey,
    pub head: ThreadKey,
    pub weight: u8,
}

/// A top thread (one with no incoming dependency edge), weighted by its own
/// total line count.
#[derive(Debug)]
pub struct TopEdge {
    pub head: ThreadKey,
    pub weight: u8,
}

/// The views of a vertex enumeration, in enumeration order.
pub open spec fn key_seq(vs: Seq<ThreadKey>) -> Seq<(u16, Seq<char>)> {
    vs.map_values(|k: ThreadKey| k@)
}

/// No two positions of the enumeration hold the same key.
pub open spec fn distinct_keys(ks: Seq<(u16, Seq<char>)>) -> bool {
    forall|i: int, j: int| 0 <= i < j < ks.len() ==> ks[i] != ks[j]
}

/// The position of `k` in a distinct enumeration that contains it.
pub open spec fn idx_of(ks: Seq<(u16, Seq<char>)>, k: (u16, Seq<char>)) -> int {
    choose|i: int| 0 <= i < ks.len() && ks[i] == k
}

pub proof fn lemma_idx_of_unique(ks: Seq<(u16, Seq<char>)>, k: (u16, Seq<char>), i: int)
    requires
        distinct_keys(ks),
        0 <= i < ks.len(),
        ks[i] == k,
    ensures
        idx_of(ks, k) == i,
{
    assert(exists|j: int| 0 <= j < ks.len() && ks[j] == k);
    let c = idx_of(ks, k);
    assert(0 <= c < ks.len() && ks[c] == k);
    if c != i {
        if c < i {
            assert(ks[c] != ks[i]);
        } else {
            assert(ks[i] != ks[c]);
        }
    }
}

// --- Trusted view of petgraph's compressed-sparse-row graph ---

#[verifier::external_type_specification]
#[verifier::external_body]
#[verifier::reject_recursive_types(N)]
#[verifier::reject_recursive_types(E)]
#[verifier::reject_recursive_types(Ty)]
#[verifier::reject_recursive_types(Ix)]
pub struct ExCsr<N, E, Ty, Ix>(Csr<N, E, Ty, Ix>);

#[verifier::external_type_specification]
#[verifier::external_body]
pub struct ExDirected(Directed);

/// An edge map with nothing in it.
pub open spec fn no_edges() -> Map<(u32, u32), u8> {
    Map::empty()
}

/// What the graph holds: each directed edge `(a, b)` mapped to its weight.
pub uninterp spec fn csr_edge_map(g: &DepGraph) -> Map<(u32, u32), u8>;

/// How many nodes the graph was created with.
pub uninterp spec fn csr_node_total(g: &DepGraph) -> nat;

/// Relies on petgraph's `Csr::with_nodes`: a graph with `n` nodes and no
/// edges.
#[verifier::external_body]
pub(crate) fn csr_with_nodes(n: usize) -> (g: DepGraph)
    ensures
        csr_node_total(&g) == n,
        csr_edge_map(&g) == no_edges(),
{
    Csr::with_nodes(n)
}

/// Relies on petgraph's `Csr::node_count`: the number of nodes.
#[verifier::external_body]
pub(crate) fn csr_count(g: &DepGraph) -> (n: usize)
    ensures
        n == csr_node_total(g),
{
    g.node_count()
}

/// Relies on petgraph's `Csr::add_edge`: `false` and no change when the edge
/// already exists, otherwise the edge is recorded; parallel edges are never
/// kept. It panics on an out-of-range endpoint, which the precondition rules
/// out.
#[verifier::external_body]
pub(crate) fn csr_add_edge(g: &mut DepGraph, a: u32, b: u32, w: u8) -> (added:
    bool)
    requires
        (a as nat) < csr_node_total(old(g)),
        (b as nat) < csr_node_total(old(g)),
    ensures
        csr_node_total(final(g)) == csr_node_total(old(g)),
        added == !csr_edge_map(old(g)).contains_key((a, b)),
        csr_edge_map(final(g)) == (if added {
            csr_edge_map(old(g)).insert((a, b), w)
        } else {
            csr_edge_map(old(g))
        }),
{
    g.add_edge(a, b, w)
}

/// Relies on petgraph's `Csr::edges`: the outgoing edges of `a`, each as
/// `(target, weight)`, with pairwise distinct targets. It panics on an
/// out-of-range node, which the precondition rules out.
#[verifier::external_body]
pub(crate) fn csr_out_edges(g: &DepGraph, a: u32) -> (es: Vec<(u32, u8)>)
    requires
        (a as nat) < csr_node_total(g),
    ensures
        forall|i: int|
            0 <= i < es@.len() ==> csr_edge_map(g).contains_key((a, (#[trigger] es@[i]).0))
                && csr_edge_map(g)[(a, es@[i].0)] == es@[i].1 && (es@[i].0 as nat) < csr_node_total(
                g,
            ),
        forall|b: u32|
            #[trigger] csr_edge_map(g).contains_key((a, b)) ==> exists|i: int|
                0 <= i < es@.len() && es@[i] == (b, csr_edge_map(g)[(a, b)]),
        forall|i: int, j: int| 0 <= i < j < es@.len() ==> es@[i].0 != es@[j].0,
{
    g.edges(a).map(|e| (petgraph::visit::EdgeRef::target(&e), *petgraph::visit::EdgeRef::weight(
        &e,
    ))).collect()
}

// --- The verified graph builder ---

/// The edge map after folding the dependency facts from position `i` on into
/// `acc`: an unknown endpoint or a duplicate pair is the matching error.
pub open spec fn add_dep_edges(
    ks: Seq<(u16, Seq<char>)>,
    deps: Seq<((u16, Seq<char>), (u16, Seq<char>), u8)>,
    i: int,
    acc: Map<(u32, u32), u8>,
) -> Result<Map<(u32, u32), u8>, TlError>
    decreases deps.len() - i,
    when 0 <= i <= deps.len()
{
    if i >= deps.len() {
        Ok(acc)
    } else if !ks.contains(deps[i].0) || !ks.contains(deps[i].1) {
        Err(TlError::UnknownThread)
    } else {
        let p = ((idx_of(ks, deps[i].0) + 1) as u32, (idx_of(ks, deps[i].1) + 1) as u32);
        if acc.contains_key(p) {
            Err(TlError::DuplicateEdge)
        } else {
            add_dep_edges(ks, deps, i + 1, acc.insert(p, deps[i].2))
        }
    }
}

/// The edge map after folding the top facts from position `i` on into `acc`:
/// each becomes a root edge `(0, head)`.
pub open spec fn add_top_edges(
    ks: Seq<(u16, Seq<char>)>,
    tops: Seq<((u16, Seq<char>), u8)>,
    i: int,
    acc: Map<(u32, u32), u8>,
) -> Result<Map<(u32, u32), u8>, TlError>
    decreases tops.len() - i,
    when 0 <= i <= tops.len()
{
    if i >= tops.len() {
        Ok(acc)
    } else if !ks.contains(tops[i].0) {
        Err(TlError::UnknownThread)
    } else {
        let p = (0u32, (idx_of(ks, tops[i].0) + 1) as u32);
        if acc.contains_key(p) {
            Err(TlError::DuplicateEdge)
        } else {
            add_top_edges(ks, tops, i + 1, acc.insert(p, tops[i].1))
        }
    }
}

/// The edge map the whole build is to produce, or the first error the facts
/// force: dependency facts in order, then top facts in order.
pub open spec fn graph_spec(
    ks: Seq<(u16, Seq<char>)>,
    deps: Seq<((u16, Seq<char>), (u16, Seq<char>), u8)>,
    tops: Seq<((u16, Seq<char>), u8)>,
) -> Result<Map<(u32, u32), u8>, TlError> {
    match add_dep_edges(ks, deps, 0, Map::empty()) {
        Ok(m) => add_top_edges(ks, tops, 0, m),
        Err(e) => Err(e),
    }
}

pub open spec fn dep_views(deps: Seq<DepEdge>) -> Seq<((u16, Seq<char>), (u16, Seq<char>), u8)> {
    deps.map_values(|d: DepEdge| (d.tail@, d.head@, d.weight))
}

pub open spec fn top_views(tops: Seq<TopEdge>) -> Seq<((u16, Seq<char>), u8)> {
    tops.map_values(|t: TopEdge| (t.head@, t.weight))
}

/// Every recorded edge lies among the nodes: tails are nodes, heads are
/// non-root nodes.
pub open spec fn edges_in_range(m: Map<(u32, u32), u8>, n: int) -> bool {
    forall|p: (u32, u32)|
        #[trigger] m.contains_key(p) ==> (p.0 as int) < n && 1 <= (p.1 as int) < n
}

proof fn lemma_dep_fold_range(
    ks: Seq<(u16, Seq<char>)>,
    deps: Seq<((u16, Seq<char>), (u16, Seq<char>), u8)>,
    i: int,
    acc: Map<(u32, u32), u8>,
    m: Map<(u32, u32), u8>,
)
    requires
        0 <= i <= deps.len(),
        ks.len() + 1 < 0x1_0000_0000,
        add_dep_edges(ks, deps, i, acc) == Ok::<Map<(u32, u32), u8>, TlError>(m),
        edges_in_range(acc, ks.len() + 1 as int),
    ensures
        edges_in_range(m, ks.len() + 1 as int),
    decreases deps.len() - i,
{
    if i < deps.len() {
        assert(ks.contains(deps[i].0) && ks.contains(deps[i].1));
        let t = idx_of(ks, deps[i].0);
        let h = idx_of(ks, deps[i].1);
        assert(0 <= t < ks.len() && 0 <= h < ks.len());
        let p = (((t + 1) as u32), ((h + 1) as u32));
        assert(!acc.contains_key(p));
        lemma_dep_fold_range(ks, deps, i + 1, acc.insert(p, deps[i].2), m);
    }
}

proof fn lemma_top_fold_range(
    ks: Seq<(u16, Seq<char>)>,
    tops: Seq<((u16, Seq<char>), u8)>,
    i: int,
    acc: Map<(u32, u32), u8>,
    m: Map<(u32, u32), u8>,
)
    requires
        0 <= i <= tops.len(),
        ks.len() + 1 < 0x1_0000_0000,
        add_top_edges(ks, tops, i, acc) == Ok::<Map<(u32, u32), u8>, TlError>(m),
        edges_in_range(acc, ks.len() + 1 as int),
    ensures
        edges_in_range(m, ks.len() + 1 as int),
    decreases tops.len() - i,
{
    if i < tops.len() {
        assert(ks.contains(tops[i].0));
        let h = idx_of(ks, tops[i].0);
        assert(0 <= h < ks.len());
        let p = (0u32, ((h + 1) as u32));
        assert(!acc.contains_key(p));
        lemma_top_fold_range(ks, tops, i + 1, acc.insert(p, tops[i].1), m);
    }
}

/// Every edge a successful build records lies among the graph's nodes, with
/// the synthetic root never a head: what the scheduler needs to know that
/// its relaxations stay in bounds.
pub proof fn lemma_graph_edges_in_range(
    ks: Seq<(u16, Seq<char>)>,
    deps: Seq<((u16, Seq<char>), (u16, Seq<char>), u8)>,
    tops: Seq<((u16, Seq<char>), u8)>,
    m: Map<(u32, u32), u8>,
)
    requires
        ks.len() + 1 < 0x1_0000_0000,
        graph_spec(ks, deps, tops) == Ok::<Map<(u32, u32), u8>, TlError>(m),
    ensures
        edges_in_range(m, ks.len() + 1 as int),
{
    let mid = add_dep_edges(ks, deps, 0, Map::empty());
    assert(mid is Ok);
    let m1 = mid->Ok_0;
    assert(edges_in_range(Map::empty(), ks.len() + 1 as int));
    lemma_dep_fold_range(ks, deps, 0, Map::empty(), m1);
    lemma_top_fold_range(ks, tops, 0, m1, m);
}

/// The position of `k` in the vertex enumeration, if any: the node of thread
/// `k` is that position plus one.
pub fn key_index(vertices: &Vec<ThreadKey>, k: &ThreadKey) -> (r: Option<usize>)
    ensures
        match r {
            Some(i) => i < vertices@.len() && key_seq(vertices@)[i as int] == k@ && (forall|j: int|
                0 <= j < i ==> key_seq(vertices@)[j] != k@),
            None => forall|j: int| 0 <= j < vertices@.len() ==> key_seq(vertices@)[j] != k@,
        },
{
    let mut i: usize = 0;
    while i < vertices.len()
        invariant
            i <= vertices@.len(),
            forall|j: int| 0 <= j < i ==> key_seq(vertices@)[j] != k@,
        decreases vertices@.len() - i,
    {
        if vertices[i].key_eq(k) {
            assert(key_seq(vertices@)[i as int] == k@);
            return Some(i);
        }
        assert(key_seq(vertices@)[i as int] != k@);
        i += 1;
    }
    None
}

/// Builds the dependency graph: node `0` is the synthetic root, thread `i`
/// of the enumeration is node `i + 1`. An endpoint outside the enumeration
/// or a duplicate `(tail, head)` pair is a fatal data-integrity error.
pub fn build_graph(vertices: &Vec<ThreadKey>, deps: &Vec<DepEdge>, tops: &Vec<TopEdge>) -> (r:
    Result<DepGraph, TlError>)
    requires
        vertices@.len() + 1 < 0x1_0000_0000,
        distinct_keys(key_seq(vertices@)),
    ensures
        match r {
            Ok(g) => csr_node_total(&g) == vertices@.len() + 1 && graph_spec(
                key_seq(vertices@),
                dep_views(deps@),
                top_views(tops@),
            ) == Ok::<Map<(u32, u32), u8>, TlError>(csr_edge_map(&g)),
            Err(e) => graph_spec(key_seq(vertices@), dep_views(deps@), top_views(tops@)) == Err::<
                Map<(u32, u32), u8>,
                TlError,
            >(e),
        },
{
    let ghost ks = key_seq(vertices@);
    let ghost dvs = dep_views(deps@);
    let ghost tvs = top_views(tops@);
    let n = vertices.len();
    let mut g = csr_with_nodes(n + 1);

    let mut i: usize = 0;
    while i < deps.len()
        invariant
            0 <= i <= deps@.len(),
            n == vertices@.len(),
            vertices@.len() + 1 < 0x1_0000_0000,
            ks == key_seq(vertices@),
            dvs == dep_views(deps@),
            distinct_keys(ks),
            csr_node_total(&g) == n + 1,
            add_dep_edges(ks, dvs, 0, Map::empty()) == add_dep_edges(ks, dvs, i as int, csr_edge_map(&g)),
        decreases deps@.len() - i,
    {
        assert(dvs[i as int] == (deps@[i as int].tail@, deps@[i as int].head@, deps@[i as int].weight));
        let d = &deps[i];
        let ti = match key_index(vertices, &d.tail) {
            Some(t) => t,
            None => {
                assert(!ks.contains(dvs[i as int].0));
                return Err(TlError::UnknownThread);
            },
        };
        let hi = match key_index(vertices, &d.head) {
            Some(h) => h,
            None => {
                assert(!ks.contains(dvs[i as int].1));
                return Err(TlError::UnknownThread);
            },
        };
        proof {
            assert(ks.contains(dvs[i as int].0));
            assert(ks.contains(dvs[i as int].1));
            lemma_idx_of_unique(ks, dvs[i as int].0, ti as int);
            lemma_idx_of_unique(ks, dvs[i as int].1, hi as int);
        }
        let added = csr_add_edge(&mut g, (ti + 1) as u32, (hi + 1) as u32, d.weight);
        if !added {
            return Err(TlError::DuplicateEdge);
        }
        i += 1;
    }

    let mut j: usize = 0;
    let ghost m1 = csr_edge_map(&g);
    while j < tops.len()
        invariant
            0 <= j <= tops@.len(),
            n == vertices@.len(),
            vertices@.len() + 1 < 0x1_0000_0000,
            ks == key_seq(vertices@),
            tvs == top_views(tops@),
            distinct_keys(ks),
            csr_node_total(&g) == n + 1,
            add_top_edges(ks, tvs, 0, m1) == add_top_edges(ks, tvs, j as int, csr_edge_map(&g)),
            add_dep_edges(ks, dep_views(deps@), 0, Map::empty()) == Ok::<Map<(u32, u32), u8>, TlError>(m1),
        decreases tops@.len() - j,
    {
        assert(tvs[j as int] == (tops@[j as int].head@, tops@[j as int].weight));
        let t = &tops[j];
        let hi = match key_index(vertices, &t.head) {
            Some(h) => h,
            None => {
                assert(!ks.contains(tvs[j as int].0));
                return Err(TlError::UnknownThread);
            },
        };
        proof {
            assert(ks.contains(tvs[j as int].0));
            lemma_idx_of_unique(ks, tvs[j as int].0, hi as int);
        }
        let added = csr_add_edge(&mut g, 0, (hi + 1) as u32, t.weight);
        if !added {
            return Err(TlError::DuplicateEdge);
        }
        j += 1;
    }

    Ok(g)
}

} // verus!
