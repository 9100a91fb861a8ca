//! Directed graphs over `u64` node identifiers with a `usize` movement
//! index on each edge, backed by petgraph's `DiGraphMap`, plus the
//! path, reachability and cost-table vocabulary the engine's contracts
//! are stated in.
//!
//! The graph type and the three algorithm calls (building edges,
//! Kosaraju's strongly-connected components, Dijkstra cost propagation)
//! are trusted at the interface documented on each item; everything
//! else in this module is verified.

use vstd::prelude::*;

use crate::model::{MapModel, PathConstraints};
use petgraph::graphmap::DiGraphMap;
use std::collections::HashMap;

verus! {

/// petgraph's node-and-edge-map graph. Declared opaquely: contracts
/// speak of it only through `graph_nodes` and `graph_edges`.
#[verifier::external_type_specification]
#[verifier::external_body]
#[verifier::reject_recursive_types(N)]
#[verifier::reject_recursive_types(E)]
#[verifier::reject_recursive_types(Ty)]
#[verifier::reject_recursive_types(S)]
pub struct ExGraphMap<N, E, Ty, S>(petgraph::graphmap::GraphMap<N, E, Ty, S>)
    where S: std::hash::BuildHasher;

/// The marker petgraph uses to make a `GraphMap` directed.
#[verifier::external_type_specification]
#[verifier::external_body]
pub struct ExDirected(petgraph::Directed);

/// The node set of the graph: every endpoint of an edge added so far.
pub uninterp spec fn graph_nodes(g: DiGraphMap<u64, usize>) -> Set<u64>;

/// The edge set of the graph: each directed pair of nodes maps to the
/// weight most recently stored on that edge.
pub uninterp spec fn graph_edges(g: DiGraphMap<u64, usize>) -> Map<(u64, u64), usize>;

/// Relies on `GraphMap::new` (through the `DiGraphMap` alias): a new
/// graph has no nodes and no edges.
#[verifier::external_body]
pub(crate) fn graph_new() -> (fresh: DiGraphMap<u64, usize>)
    ensures
        graph_nodes(fresh) =~= Set::empty(),
        graph_edges(fresh) =~= Map::empty(),
{
    DiGraphMap::new()
}

/// Relies on `GraphMap::add_edge`: inserts the directed edge `a -> b`
/// with weight `w`, overwriting the weight of an existing `a -> b`
/// edge, and inserts both endpoints as nodes.
#[verifier::external_body]
pub(crate) fn graph_add_edge(g: &mut DiGraphMap<u64, usize>, a: u64, b: u64, w: usize)
    ensures
        graph_nodes(*final(g)) == graph_nodes(*old(g)).insert(a).insert(b),
        graph_edges(*final(g)) == graph_edges(*old(g)).insert((a, b), w),
{
    g.add_edge(a, b, w);
}

/// One step of a walk: consecutive nodes are joined by an edge. A
/// single node is a (trivial, cost-free) path.
pub open spec fn path_ok(edges: Map<(u64, u64), usize>, p: Seq<u64>) -> bool {
    &&& p.len() >= 1
    &&& forall|k: int| 0 <= k < p.len() - 1 ==> edges.contains_key((#[trigger] p[k], p[k + 1]))
}

/// Total cost of a path: the sum, over its edges, of the cost of the
/// movement stored on that edge.
pub open spec fn path_cost(
    edges: Map<(u64, u64), usize>,
    m: MapModel,
    c: PathConstraints,
    p: Seq<u64>,
) -> int
    decreases p.len(),
{
    if p.len() <= 1 {
        0
    } else {
        m.spec_edge_cost(edges[(p[0], p[1])] as int, c) + path_cost(edges, m, c, p.drop_first())
    }
}

/// Some path leads from `a` to `b` over `edges`. Every node reaches
/// itself by the trivial path.
#[verifier::opaque]
pub open spec fn reaches(edges: Map<(u64, u64), usize>, a: u64, b: u64) -> bool {
    exists|p: Seq<u64>| #[trigger] path_ok(edges, p) && p.first() == a && p.last() == b
}

/// The nodes that some edge touches.
pub open spec fn edge_nodes(edges: Map<(u64, u64), usize>) -> Set<u64> {
    Set::new(
        |n: u64|
            exists|e: (u64, u64)| #[trigger] edges.contains_key(e) && (e.0 == n || e.1 == n),
    )
}

/// A strongly connected component of the graph with edge set `edges`:
/// a nonempty set of mutually reachable nodes that no further mutually
/// reachable node can be added to.
pub open spec fn is_scc(edges: Map<(u64, u64), usize>, s: Set<u64>) -> bool {
    &&& !s.is_empty()
    &&& forall|a: u64, b: u64|
        #[trigger] s.contains(a) && #[trigger] s.contains(b) ==> reaches(edges, a, b)
    &&& forall|a: u64, n: u64|
        s.contains(a) && #[trigger] reaches(edges, a, n) && reaches(edges, n, a) ==> s.contains(n)
}

/// `t` is the least-cost table from `start` over `edges`: it covers
/// exactly the destinations some path reaches, no path costs less than
/// its table entry, and each entry is realized by some path.
pub open spec fn is_cost_table(
    edges: Map<(u64, u64), usize>,
    m: MapModel,
    c: PathConstraints,
    start: u64,
    t: Map<u64, u64>,
) -> bool {
    &&& forall|p: Seq<u64>|
        #[trigger] path_ok(edges, p) && p.first() == start ==> t.contains_key(p.last())
            && t[p.last()] <= path_cost(edges, m, c, p)
    &&& forall|v: u64|
        #[trigger] t.contains_key(v) ==> exists|p: Seq<u64>|
            #[trigger] path_ok(edges, p) && p.first() == start && p.last() == v && path_cost(
                edges,
                m,
                c,
                p,
            ) == t[v]
}

/// The least-cost table is unique: two tables satisfying the
/// characterization for the same edges, movement costs and start agree
/// everywhere. Every query over one graph is therefore deterministic.
pub proof fn lemma_cost_table_unique(
    edges: Map<(u64, u64), usize>,
    m: MapModel,
    c: PathConstraints,
    start: u64,
    t1: Map<u64, u64>,
    t2: Map<u64, u64>,
)
    requires
        is_cost_table(edges, m, c, start, t1),
        is_cost_table(edges, m, c, start, t2),
    ensures
        t1 == t2,
{
    assert forall|v: u64| t1.contains_key(v) implies t2.contains_key(v) && t2[v] <= t1[v] by {
        let p = choose|p: Seq<u64>|
            #[trigger] path_ok(edges, p) && p.first() == start && p.last() == v && path_cost(
                edges,
                m,
                c,
                p,
            ) == t1[v];
        assert(path_ok(edges, p));
    }
    assert forall|v: u64| t2.contains_key(v) implies t1.contains_key(v) && t1[v] <= t2[v] by {
        let p = choose|p: Seq<u64>|
            #[trigger] path_ok(edges, p) && p.first() == start && p.last() == v && path_cost(
                edges,
                m,
                c,
                p,
            ) == t2[v];
        assert(path_ok(edges, p));
    }
    assert(t1 =~= t2);
}

/// The groups partition `nodes` into strongly connected components of
/// the graph with edge set `edges`: each group is nonempty and
/// duplicate-free, together they cover every node exactly once, all
/// nodes of a group reach one another, and a group absorbs every node
/// mutually reachable with one of its members.
#[verifier::opaque]
pub open spec fn scc_partition(
    edges: Map<(u64, u64), usize>,
    nodes: Set<u64>,
    comps: Seq<Vec<u64>>,
) -> bool {
    &&& forall|i: int| 0 <= i < comps.len() ==> (#[trigger] comps[i])@.len() >= 1
    &&& forall|i: int, j: int|
        0 <= i < comps.len() && 0 <= j < comps[i]@.len() ==> nodes.contains(
            #[trigger] comps[i]@[j],
        )
    &&& forall|n: u64|
        nodes.contains(n) ==> exists|i: int, j: int|
            0 <= i < comps.len() && 0 <= j < comps[i]@.len() && #[trigger] comps[i]@[j] == n
    &&& forall|i1: int, j1: int, i2: int, j2: int|
        0 <= i1 < comps.len() && 0 <= j1 < comps[i1]@.len() && 0 <= i2 < comps.len() && 0 <= j2
            < comps[i2]@.len() && #[trigger] comps[i1]@[j1] == #[trigger] comps[i2]@[j2] ==> i1
            == i2 && j1 == j2
    &&& forall|i: int, j1: int, j2: int|
        0 <= i < comps.len() && 0 <= j1 < comps[i]@.len() && 0 <= j2 < comps[i]@.len() ==> reaches(
            edges,
            #[trigger] comps[i]@[j1],
            #[trigger] comps[i]@[j2],
        )
    &&& forall|i: int, j: int, n: u64|
        0 <= i < comps.len() && 0 <= j < comps[i]@.len() && nodes.contains(n)
            && #[trigger] reaches(edges, comps[i]@[j], n) && reaches(edges, n, comps[i]@[j])
            ==> comps[i]@.contains(n)
}

/// Relies on `petgraph::algo::kosaraju_scc`: partitions the node set of
/// the graph into its strongly connected components.
#[verifier::external_body]
pub(crate) fn graph_kosaraju_scc(g: &DiGraphMap<u64, usize>) -> (comps: Vec<Vec<u64>>)
    ensures
        scc_partition(graph_edges(*g), graph_nodes(*g), comps@),
{
    petgraph::algo::kosaraju_scc(g)
}

/// Relies on `petgraph::algo::dijkstra` with no goal node: computes the
/// least path cost from `start` to every node a path reaches (`start`
/// itself included, at cost zero, even when it is isolated). The edge
/// cost handed to it is `crate::model::edge_cost` of the movement index
/// stored on the edge. The bounds on the node count and on the stored
/// movement indices keep every accumulated sum far below `u64::MAX`, so
/// the call cannot overflow.
#[verifier::external_body]
pub(crate) fn graph_dijkstra(
    g: &DiGraphMap<u64, usize>,
    map: &MapModel,
    c: PathConstraints,
    start: u64,
) -> (r: HashMap<u64, u64>)
    requires
        map.wf(),
        c != PathConstraints::Pedestrian,
        graph_nodes(*g).finite(),
        graph_nodes(*g).len() <= 0x1000_0000,
        forall|e: (u64, u64)|
            graph_edges(*g).contains_key(e) ==> (#[trigger] graph_edges(*g)[e])
                < map.movements@.len(),
    ensures
        is_cost_table(graph_edges(*g), *map, c, start, r@),
{
    let scores = petgraph::algo::dijkstra(
        g,
        start,
        None,
        |(_, _, w): (u64, u64, &usize)| crate::model::edge_cost(map, *w, c),
    );
    scores.into_iter().collect()
}

/// Inserting one edge extends the touched-node set by exactly the two
/// endpoints of that edge.
pub proof fn lemma_edge_nodes_insert(edges: Map<(u64, u64), usize>, a: u64, b: u64, w: usize)
    ensures
        edge_nodes(edges.insert((a, b), w)) =~= edge_nodes(edges).insert(a).insert(b),
{
    let bigger = edges.insert((a, b), w);
    assert forall|n: u64| edge_nodes(bigger).contains(n) implies edge_nodes(edges).insert(
        a,
    ).insert(b).contains(n) by {
        let e = choose|e: (u64, u64)| #[trigger] bigger.contains_key(e) && (e.0 == n || e.1 == n);
        if e != ((a, b)) {
            assert(edges.contains_key(e));
        }
    }
    assert forall|n: u64| edge_nodes(edges).insert(a).insert(b).contains(n) implies edge_nodes(
        bigger,
    ).contains(n) by {
        if n == a || n == b {
            assert(bigger.contains_key((a, b)));
        } else {
            let e = choose|e: (u64, u64)| #[trigger] edges.contains_key(e) && (e.0 == n || e.1
                == n);
            assert(bigger.contains_key(e));
        }
    }
}

/// No edges, no touched nodes.
pub proof fn lemma_edge_nodes_empty()
    ensures
        edge_nodes(Map::<(u64, u64), usize>::empty()) =~= Set::<u64>::empty(),
{
}

/// A path between two distinct nodes pins both down as edge endpoints.
pub proof fn lemma_reaches_endpoints(edges: Map<(u64, u64), usize>, a: u64, n: u64)
    requires
        reaches(edges, a, n),
        a != n,
    ensures
        edge_nodes(edges).contains(a),
        edge_nodes(edges).contains(n),
{
    reveal(reaches);
    let p = choose|p: Seq<u64>| #[trigger] path_ok(edges, p) && p.first() == a && p.last() == n;
    assert(p.len() >= 2);
    let last: int = p.len() - 1;
    assert(edges.contains_key((p[0int], p[1int])));
    assert(edges.contains_key((p[last - 1], p[last])));
}

} // verus!
