//! The three queries of the engine: strongly-connected-component
//! analysis of the lane network under one travel mode (`find_scc`),
//! single-source cost propagation onto buildings
//! (`all_vehicle_costs_from`), and the cost frontier used to explain
//! route choices (`debug_vehicle_costs`).

use vstd::prelude::*;
use vstd::set_lib::lemma_len_subset;

use crate::graph::{
    edge_nodes, graph_add_edge, graph_dijkstra, graph_edges, graph_kosaraju_scc, graph_new,
    graph_nodes, is_cost_table, is_scc, lemma_edge_nodes_insert, lemma_reaches_endpoints,
    path_cost, path_ok, reaches, scc_partition,
};
use crate::model::{MapModel, PathConstraints, PathRequest, MOVEMENT_LIMIT};
use petgraph::graphmap::DiGraphMap;
use std::collections::{HashMap, HashSet};

verus! {

broadcast use vstd::std_specs::hash::group_hash_axioms;

impl MapModel {
    /// Edges of the lane-level graph derived from the first `m`
    /// movements: one edge per movement whose both endpoint lanes the
    /// mode may use, from source lane to destination lane, carrying the
    /// movement's index. A later movement between the same lanes
    /// replaces an earlier one.
    pub open spec fn lane_edges_upto(self, c: PathConstraints, m: int) -> Map<(u64, u64), usize>
        decreases m,
    {
        if m <= 0 {
            Map::empty()
        } else if self.eligible_movement(m - 1, c) {
            self.lane_edges_upto(c, m - 1).insert(
                (self.movements@[m - 1].src as u64, self.movements@[m - 1].dst as u64),
                (m - 1) as usize,
            )
        } else {
            self.lane_edges_upto(c, m - 1)
        }
    }

    /// Edges of the mode's full lane-level graph.
    pub open spec fn lane_edges(self, c: PathConstraints) -> Map<(u64, u64), usize> {
        self.lane_edges_upto(c, self.movements@.len() as int)
    }

    /// Edges of the road-level graph derived from the first `m`
    /// movements: one edge per eligible movement, from the directed
    /// road of its source lane to the directed road of its destination
    /// lane, carrying the movement's index.
    pub open spec fn road_edges_upto(self, c: PathConstraints, m: int) -> Map<(u64, u64), usize>
        decreases m,
    {
        if m <= 0 {
            Map::empty()
        } else if self.eligible_movement(m - 1, c) {
            self.road_edges_upto(c, m - 1).insert(
                (
                    self.lanes@[self.movements@[m - 1].src as int].parent,
                    self.lanes@[self.movements@[m - 1].dst as int].parent,
                ),
                (m - 1) as usize,
            )
        } else {
            self.road_edges_upto(c, m - 1)
        }
    }

    /// Edges of the mode's full road-level graph.
    pub open spec fn road_edges(self, c: PathConstraints) -> Map<(u64, u64), usize> {
        self.road_edges_upto(c, self.movements@.len() as int)
    }
}

/// Every lane-graph edge joins two eligible lanes, stores an eligible
/// movement index below `m`, and an edge exists exactly when an
/// eligible movement does.
proof fn lemma_lane_edges_upto_props(map: MapModel, c: PathConstraints, m: int)
    requires
        map.wf(),
        0 <= m <= map.movements@.len(),
    ensures
        forall|e: (u64, u64)|
            #[trigger] map.lane_edges_upto(c, m).contains_key(e) ==> map.eligible_lanes(
                c,
            ).contains(e.0) && map.eligible_lanes(c).contains(e.1),
        forall|e: (u64, u64)|
            #[trigger] map.lane_edges_upto(c, m).contains_key(e) ==> 0 <= map.lane_edges_upto(
                c,
                m,
            )[e] < m && map.eligible_movement(map.lane_edges_upto(c, m)[e] as int, c),
        (exists|i: int| 0 <= i < m && map.eligible_movement(i, c)) <==> !map.lane_edges_upto(
            c,
            m,
        ).dom().is_empty(),
    decreases m,
{
    if m > 0 {
        lemma_lane_edges_upto_props(map, c, m - 1);
        if map.eligible_movement(m - 1, c) {
            let key = (map.movements@[m - 1].src as u64, map.movements@[m - 1].dst as u64);
            assert(map.lane_edges_upto(c, m).contains_key(key));
            assert(map.eligible_lanes(c).contains(key.0));
            assert(map.eligible_lanes(c).contains(key.1));
        } else {
            assert(map.lane_edges_upto(c, m) == map.lane_edges_upto(c, m - 1));
            assert forall|i: int| 0 <= i < m && map.eligible_movement(i, c) implies exists|j: int|
                0 <= j < m - 1 && map.eligible_movement(j, c) by {
                assert(i != m - 1);
            }
        }
    }
}

/// Every road-graph edge stores an eligible movement index below `m`,
/// and an edge exists exactly when an eligible movement does.
proof fn lemma_road_edges_upto_props(map: MapModel, c: PathConstraints, m: int)
    requires
        map.wf(),
        0 <= m <= map.movements@.len(),
    ensures
        forall|e: (u64, u64)|
            #[trigger] map.road_edges_upto(c, m).contains_key(e) ==> 0 <= map.road_edges_upto(
                c,
                m,
            )[e] < m && map.eligible_movement(map.road_edges_upto(c, m)[e] as int, c),
        (exists|i: int| 0 <= i < m && map.eligible_movement(i, c)) <==> !map.road_edges_upto(
            c,
            m,
        ).dom().is_empty(),
    decreases m,
{
    if m > 0 {
        lemma_road_edges_upto_props(map, c, m - 1);
        if map.eligible_movement(m - 1, c) {
            let key = (
                map.lanes@[map.movements@[m - 1].src as int].parent,
                map.lanes@[map.movements@[m - 1].dst as int].parent,
            );
            assert(map.road_edges_upto(c, m).contains_key(key));
        } else {
            assert(map.road_edges_upto(c, m) == map.road_edges_upto(c, m - 1));
            assert forall|i: int| 0 <= i < m && map.eligible_movement(i, c) implies exists|j: int|
                0 <= j < m - 1 && map.eligible_movement(j, c) by {
                assert(i != m - 1);
            }
        }
    }
}

/// Build the mode's lane-level graph: one node per lane touched by an
/// eligible movement, one edge per eligible movement.
fn build_lane_graph(map: &MapModel, c: PathConstraints) -> (g: DiGraphMap<u64, usize>)
    requires
        map.wf(),
    ensures
        graph_edges(g) == map.lane_edges(c),
        graph_nodes(g) == edge_nodes(map.lane_edges(c)),
        graph_nodes(g).finite(),
        graph_nodes(g).len() <= 2 * map.movements@.len(),
{
    let mut g = graph_new();
    proof {
        crate::graph::lemma_edge_nodes_empty();
        assert(graph_edges(g) =~= map.lane_edges_upto(c, 0));
        assert(graph_nodes(g) =~= edge_nodes(map.lane_edges_upto(c, 0)));
    }
    let n = map.movements.len();
    for i in 0..n
        invariant
            n == map.movements@.len(),
            map.wf(),
            graph_edges(g) == map.lane_edges_upto(c, i as int),
            graph_nodes(g) == edge_nodes(map.lane_edges_upto(c, i as int)),
            graph_nodes(g).finite(),
            graph_nodes(g).len() <= 2 * i,
    {
        let mv = &map.movements[i];
        if c.can_use(&map.lanes[mv.src]) && c.can_use(&map.lanes[mv.dst]) {
            let a = mv.src as u64;
            let b = mv.dst as u64;
            proof {
                assert(map.eligible_movement(i as int, c));
                lemma_edge_nodes_insert(map.lane_edges_upto(c, i as int), a, b, i);
            }
            graph_add_edge(&mut g, a, b, i);
            proof {
                assert(graph_edges(g) =~= map.lane_edges_upto(c, i + 1));
                assert(graph_nodes(g) =~= edge_nodes(map.lane_edges_upto(c, i + 1)));
            }
        } else {
            proof {
                assert(!map.eligible_movement(i as int, c));
                assert(graph_edges(g) =~= map.lane_edges_upto(c, i + 1));
                assert(graph_nodes(g) =~= edge_nodes(map.lane_edges_upto(c, i + 1)));
            }
        }
    }
    g
}

/// Build the directed graph the vehicle cost queries run over: one node
/// per directed road reachable through an eligible lane, one edge per
/// movement whose both endpoint lanes the mode may use.
pub fn build_graph_for_vehicles(map: &MapModel, constraints: PathConstraints) -> (g: DiGraphMap<
    u64,
    usize,
>)
    requires
        map.wf(),
    ensures
        graph_edges(g) == map.road_edges(constraints),
        graph_nodes(g) == edge_nodes(map.road_edges(constraints)),
        graph_nodes(g).finite(),
        graph_nodes(g).len() <= 2 * map.movements@.len(),
{
    let mut g = graph_new();
    proof {
        crate::graph::lemma_edge_nodes_empty();
        assert(graph_edges(g) =~= map.road_edges_upto(constraints, 0));
        assert(graph_nodes(g) =~= edge_nodes(map.road_edges_upto(constraints, 0)));
    }
    let n = map.movements.len();
    for i in 0..n
        invariant
            n == map.movements@.len(),
            map.wf(),
            graph_edges(g) == map.road_edges_upto(constraints, i as int),
            graph_nodes(g) == edge_nodes(map.road_edges_upto(constraints, i as int)),
            graph_nodes(g).finite(),
            graph_nodes(g).len() <= 2 * i,
    {
        let mv = &map.movements[i];
        if constraints.can_use(&map.lanes[mv.src]) && constraints.can_use(&map.lanes[mv.dst]) {
            let a = map.lanes[mv.src].parent;
            let b = map.lanes[mv.dst].parent;
            proof {
                assert(map.eligible_movement(i as int, constraints));
                lemma_edge_nodes_insert(map.road_edges_upto(constraints, i as int), a, b, i);
            }
            graph_add_edge(&mut g, a, b, i);
            proof {
                assert(graph_edges(g) =~= map.road_edges_upto(constraints, i + 1));
                assert(graph_nodes(g) =~= edge_nodes(map.road_edges_upto(constraints, i + 1)));
            }
        } else {
            proof {
                assert(!map.eligible_movement(i as int, constraints));
                assert(graph_edges(g) =~= map.road_edges_upto(constraints, i + 1));
                assert(graph_nodes(g) =~= edge_nodes(map.road_edges_upto(constraints, i + 1)));
            }
        }
    }
    g
}


/// With no strongly connected component at all, the lane graph has no
/// node, hence no edge, hence no eligible movement — and conversely.
proof fn lemma_components_empty_iff(map: MapModel, c: PathConstraints, comps: Seq<Vec<u64>>)
    requires
        map.wf(),
        scc_partition(map.lane_edges(c), edge_nodes(map.lane_edges(c)), comps),
    ensures
        comps.len() == 0 <==> !map.has_eligible_movement(c),
{
    reveal(crate::graph::scc_partition);
    lemma_lane_edges_upto_props(map, c, map.movements@.len() as int);
    let edges = map.lane_edges(c);
    if comps.len() == 0 {
        if map.has_eligible_movement(c) {
            assert(!edges.dom().is_empty());
            assert(exists|e: (u64, u64)| edges.dom().contains(e)) by {
                assert(!(edges.dom() =~= Set::<(u64, u64)>::empty()));
            }
            let e = choose|e: (u64, u64)| edges.dom().contains(e);
            assert(edge_nodes(edges).contains(e.0)) by {
                assert(edges.contains_key(e));
            }
            assert(false);
        }
    } else {
        assert(comps[0]@.len() >= 1);
        let n0 = comps[0]@[0];
        assert(edge_nodes(edges).contains(n0));
        let e = choose|e: (u64, u64)| #[trigger] edges.contains_key(e) && (e.0 == n0 || e.1 == n0);
        assert(edges.dom().contains(e));
        assert(!edges.dom().is_empty());
        assert(map.has_eligible_movement(c));
    }
}

/// Every lane of a strongly connected component is eligible: each is an
/// endpoint of an edge, and edges join only eligible lanes.
proof fn lemma_component_lanes_eligible(
    map: MapModel,
    c: PathConstraints,
    comps: Seq<Vec<u64>>,
    best: int,
)
    requires
        map.wf(),
        scc_partition(map.lane_edges(c), edge_nodes(map.lane_edges(c)), comps),
        0 <= best < comps.len(),
    ensures
        comps[best]@.to_set().subset_of(map.eligible_lanes(c)),
{
    reveal(crate::graph::scc_partition);
    lemma_lane_edges_upto_props(map, c, map.movements@.len() as int);
    let edges = map.lane_edges(c);
    let mainv = comps[best]@;
    assert forall|x: u64| mainv.to_set().contains(x) implies map.eligible_lanes(c).contains(
        x,
    ) by {
        let j = choose|j: int| 0 <= j < mainv.len() && mainv[j] == x;
        assert(edge_nodes(edges).contains(comps[best]@[j]));
        let e = choose|e: (u64, u64)| #[trigger] edges.contains_key(e) && (e.0 == x || e.1 == x);
        assert(map.eligible_lanes(c).contains(e.0) && map.eligible_lanes(c).contains(e.1));
    }
}

/// A group of the partition, as a set, is a strongly connected
/// component of the lane graph, with as many lanes as the group lists.
#[verifier::rlimit(100)]
proof fn lemma_component_is_scc(
    map: MapModel,
    c: PathConstraints,
    comps: Seq<Vec<u64>>,
    best: int,
)
    requires
        map.wf(),
        scc_partition(map.lane_edges(c), edge_nodes(map.lane_edges(c)), comps),
        0 <= best < comps.len(),
    ensures
        is_scc(map.lane_edges(c), comps[best]@.to_set()),
        comps[best]@.to_set().len() == comps[best]@.len(),
        comps[best]@.to_set().finite(),
{
    reveal(crate::graph::scc_partition);
    let edges = map.lane_edges(c);
    let mainv = comps[best]@;
    let ms = mainv.to_set();
    assert(mainv.len() >= 1);
    assert(ms.contains(mainv[0]));
    assert(!ms.is_empty());
    assert forall|a: u64, b: u64|
        #[trigger] ms.contains(a) && #[trigger] ms.contains(b) implies reaches(edges, a, b) by {
        let j1 = choose|j: int| 0 <= j < mainv.len() && mainv[j] == a;
        let j2 = choose|j: int| 0 <= j < mainv.len() && mainv[j] == b;
        assert(reaches(edges, comps[best]@[j1], comps[best]@[j2]));
    }
    assert forall|a: u64, n: u64|
        ms.contains(a) && #[trigger] reaches(edges, a, n) && reaches(edges, n, a) implies
        ms.contains(n) by {
        if n != a {
            lemma_reaches_endpoints(edges, a, n);
            assert(edge_nodes(edges).contains(n));
            let j = choose|j: int| 0 <= j < mainv.len() && mainv[j] == a;
            assert(reaches(edges, comps[best]@[j], n));
            assert(comps[best]@.contains(n));
        }
    }
    assert(mainv.no_duplicates()) by {
        assert forall|j1: int, j2: int|
            0 <= j1 < mainv.len() && 0 <= j2 < mainv.len() && j1 != j2 implies mainv[j1]
            != mainv[j2] by {
            assert(comps[best]@[j1] == mainv[j1]);
            assert(comps[best]@[j2] == mainv[j2]);
        }
    }
    mainv.unique_seq_to_set();
    vstd::seq_lib::seq_to_set_is_finite(mainv);
}

/// A group of the partition lists no lane twice, so as a set it is
/// finite, nonempty, and exactly as large as its length.
proof fn lemma_component_card(map: MapModel, c: PathConstraints, comps: Seq<Vec<u64>>, i: int)
    requires
        map.wf(),
        scc_partition(map.lane_edges(c), edge_nodes(map.lane_edges(c)), comps),
        0 <= i < comps.len(),
    ensures
        comps[i]@.to_set().len() == comps[i]@.len(),
        comps[i]@.to_set().finite(),
        comps[i]@.len() >= 1,
{
    reveal(crate::graph::scc_partition);
    let mainv = comps[i]@;
    assert(mainv.no_duplicates()) by {
        assert forall|j1: int, j2: int|
            0 <= j1 < mainv.len() && 0 <= j2 < mainv.len() && j1 != j2 implies mainv[j1]
            != mainv[j2] by {
            assert(comps[i]@[j1] == mainv[j1]);
            assert(comps[i]@[j2] == mainv[j2]);
        }
    }
    mainv.unique_seq_to_set();
    vstd::seq_lib::seq_to_set_is_finite(mainv);
}

/// A strongly connected set holding a member of one group of the
/// partition lies inside that group, so its cardinality is bounded by
/// the group's length.
#[verifier::rlimit(100)]
proof fn lemma_scc_within_component(
    map: MapModel,
    c: PathConstraints,
    comps: Seq<Vec<u64>>,
    t: Set<u64>,
    a: u64,
    i: int,
    j: int,
)
    requires
        map.wf(),
        scc_partition(map.lane_edges(c), edge_nodes(map.lane_edges(c)), comps),
        is_scc(map.lane_edges(c), t),
        t.finite(),
        t.contains(a),
        0 <= i < comps.len(),
        0 <= j < comps[i]@.len(),
        comps[i]@[j] == a,
    ensures
        t.len() <= comps[i]@.len(),
{
    reveal(crate::graph::scc_partition);
    let edges = map.lane_edges(c);
    let ci = comps[i]@.to_set();
    assert forall|x: u64| t.contains(x) implies ci.contains(x) by {
        if x != a {
            assert(reaches(edges, a, x) && reaches(edges, x, a));
            lemma_reaches_endpoints(edges, a, x);
            assert(edge_nodes(edges).contains(x));
            assert(reaches(edges, comps[i]@[j], x));
            assert(comps[i]@.contains(x));
        } else {
            assert(comps[i]@.contains(a));
        }
    }
    vstd::seq_lib::seq_to_set_is_finite(comps[i]@);
    lemma_len_subset(t, ci);
    comps[i]@.lemma_cardinality_of_set();
}

/// No strongly connected component of the lane graph outnumbers the
/// chosen largest group of the partition.
#[verifier::rlimit(100)]
proof fn lemma_component_largest(
    map: MapModel,
    c: PathConstraints,
    comps: Seq<Vec<u64>>,
    best: int,
)
    requires
        map.wf(),
        scc_partition(map.lane_edges(c), edge_nodes(map.lane_edges(c)), comps),
        0 <= best < comps.len(),
        forall|k: int| 0 <= k < comps.len() ==> (#[trigger] comps[k])@.len() <= comps[best]@.len(),
    ensures
        forall|t: Set<u64>|
            #[trigger] is_scc(map.lane_edges(c), t) && t.finite() ==> t.len()
                <= comps[best]@.to_set().len(),
{
    assert forall|t: Set<u64>|
        #[trigger] is_scc(map.lane_edges(c), t) && t.finite() implies t.len()
        <= comps[best]@.to_set().len() by {
        lemma_scc_card_bound(map, c, comps, best, t);
    }
}

/// One strongly connected set is no larger than the chosen largest
/// group of the partition.
#[verifier::rlimit(100)]
proof fn lemma_scc_card_bound(
    map: MapModel,
    c: PathConstraints,
    comps: Seq<Vec<u64>>,
    best: int,
    t: Set<u64>,
)
    requires
        map.wf(),
        scc_partition(map.lane_edges(c), edge_nodes(map.lane_edges(c)), comps),
        0 <= best < comps.len(),
        forall|k: int| 0 <= k < comps.len() ==> (#[trigger] comps[k])@.len() <= comps[best]@.len(),
        is_scc(map.lane_edges(c), t),
        t.finite(),
    ensures
        t.len() <= comps[best]@.to_set().len(),
{
    lemma_component_card(map, c, comps, best);
    let edges = map.lane_edges(c);
    let mainv = comps[best]@;
    let ms = mainv.to_set();
    assert(exists|x: u64| t.contains(x)) by {
        assert(!(t =~= Set::<u64>::empty()));
    }
    let a = choose|x: u64| t.contains(x);
    if exists|b: u64| #[trigger] t.contains(b) && b != a {
        let b = choose|b: u64| #[trigger] t.contains(b) && b != a;
        assert(reaches(edges, a, b) && reaches(edges, b, a));
        lemma_reaches_endpoints(edges, a, b);
        assert(edge_nodes(edges).contains(a));
        assert(exists|i: int, j: int|
            0 <= i < comps.len() && 0 <= j < comps[i]@.len() && #[trigger] comps[i]@[j] == a) by {
            reveal(crate::graph::scc_partition);
        }
        let (i, j): (int, int) = choose|i: int, j: int|
            0 <= i < comps.len() && 0 <= j < comps[i]@.len() && #[trigger] comps[i]@[j] == a;
        lemma_scc_within_component(map, c, comps, t, a, i, j);
        assert(comps[i]@.len() <= mainv.len());
    } else {
        assert forall|x: u64| t.contains(x) implies Set::empty().insert(a).contains(x) by {}
        assert(t =~= Set::empty().insert(a));
        assert(t.len() == 1);
    }
}

/// Calculate the strongly connected components of the part of the map
/// accessible by `constraints` (the lane-level graph of the mode's
/// eligible movements). The largest component is the "main" network;
/// every other eligible lane is disconnected. Returns (lanes in the
/// largest component, all other eligible lanes). On a tie the earliest
/// component in the algorithm's output order wins. If no movement at
/// all is eligible, both sets come back empty, even if eligible lanes
/// exist.
pub fn find_scc(map: &MapModel, constraints: PathConstraints) -> (r: (HashSet<u64>, HashSet<u64>))
    requires
        map.wf(),
    ensures
        !map.has_eligible_movement(constraints) ==> r.0@.is_empty() && r.1@.is_empty(),
        map.has_eligible_movement(constraints) ==> {
            &&& is_scc(map.lane_edges(constraints), r.0@)
            &&& forall|t: Set<u64>|
                #[trigger] is_scc(map.lane_edges(constraints), t) && t.finite() ==> t.len()
                    <= r.0@.len()
            &&& r.0@.subset_of(map.eligible_lanes(constraints))
            &&& r.1@ == map.eligible_lanes(constraints).difference(r.0@)
            &&& r.0@.intersect(r.1@).is_empty()
            &&& r.0@.union(r.1@) == map.eligible_lanes(constraints)
        },
{
    let g = build_lane_graph(map, constraints);
    let comps = graph_kosaraju_scc(&g);
    proof {
        lemma_components_empty_iff(*map, constraints, comps@);
    }

    if comps.len() == 0 {
        return (HashSet::new(), HashSet::new());
    }

    // Pick the largest component; the earliest wins a tie.
    let mut best: usize = 0;
    let mut k: usize = 1;
    while k < comps.len()
        invariant
            1 <= comps@.len(),
            best < comps@.len(),
            k <= comps@.len(),
            forall|k2: int|
                0 <= k2 < k ==> (#[trigger] comps@[k2])@.len() <= comps@[best as int]@.len(),
        decreases comps@.len() - k,
    {
        if comps[k].len() > comps[best].len() {
            best = k;
        }
        k = k + 1;
    }
    let ghost mainv = comps@[best as int]@;

    // The dominant component, as a set of lanes.
    let comp = &comps[best];
    let mut main_set: HashSet<u64> = HashSet::new();
    let m = comp.len();
    proof {
        assert(main_set@ =~= mainv.take(0).to_set());
    }
    for j in 0..m
        invariant
            m == mainv.len(),
            comp@ == mainv,
            main_set@ == mainv.take(j as int).to_set(),
            vstd::std_specs::hash::obeys_key_model::<u64>(),
    {
        main_set.insert(comp[j]);
        proof {
            assert(mainv.take(j + 1) =~= mainv.take(j as int).push(mainv[j as int]));
            mainv.take(j as int).lemma_push_to_set_commute(mainv[j as int]);
            assert(main_set@ =~= mainv.take(j + 1).to_set());
        }
    }
    let ghost ms = main_set@;
    proof {
        assert(mainv.take(m as int) =~= mainv);
        assert(ms == mainv.to_set());
        lemma_component_is_scc(*map, constraints, comps@, best as int);
        lemma_component_lanes_eligible(*map, constraints, comps@, best as int);
        lemma_component_largest(*map, constraints, comps@, best as int);
    }

    // Every other eligible lane is disconnected, including lanes with
    // no incident eligible movement at all.
    let mut disc: HashSet<u64> = HashSet::new();
    let nl = map.lanes.len();
    proof {
        assert(disc@ =~= Set::new(
            |x: u64|
                (x as int) < 0 && constraints.spec_can_use(map.lanes@[x as int]) && !ms.contains(
                    x,
                ),
        ));
    }
    for l in 0..nl
        invariant
            nl == map.lanes@.len(),
            map.wf(),
            main_set@ == ms,
            disc@ == Set::new(
                |x: u64|
                    (x as int) < (l as int) && constraints.spec_can_use(map.lanes@[x as int])
                        && !ms.contains(x),
            ),
            vstd::std_specs::hash::obeys_key_model::<u64>(),
    {
        if constraints.can_use(&map.lanes[l]) && !main_set.contains(&(l as u64)) {
            disc.insert(l as u64);
        }
        proof {
            assert(disc@ =~= Set::new(
                |x: u64|
                    ((x as int) < (l as int) + 1 && constraints.spec_can_use(
                        map.lanes@[x as int],
                    ) && !ms.contains(x)),
            ));
        }
    }

    proof {
        let elig = map.eligible_lanes(constraints);
        assert(disc@ =~= elig.difference(ms));
        assert(ms.intersect(disc@) =~= Set::<u64>::empty());
        assert(ms.union(disc@) =~= elig);
    }

    (main_set, disc)
}


/// The buildings reached within the budget: a building is included
/// exactly when it has an anchor road for the mode, the cost table
/// covers that road, and the cost respects the limit; its cost is the
/// table's cost at its anchor road.
pub open spec fn building_cost_included(
    m: MapModel,
    c: PathConstraints,
    t: Map<u64, u64>,
    limit: u64,
    b: u64,
) -> bool {
    &&& b < m.buildings@.len()
    &&& m.spec_anchor_road(b as int, c) matches Some(rd) && t.contains_key(rd) && t[rd] <= limit
}

/// Project a road cost table onto buildings, keeping only costs within
/// the limit. Buildings sharing an anchor road share a cost.
pub open spec fn building_costs(
    m: MapModel,
    c: PathConstraints,
    t: Map<u64, u64>,
    limit: u64,
) -> Map<u64, u64> {
    Map::new(
        |b: u64| building_cost_included(m, c, t, limit, b),
        |b: u64| t[m.spec_anchor_road(b as int, c).unwrap()],
    )
}

/// Starting from one building, calculate the cost to all others over
/// the mode's road-level graph. A destination that is unreachable, or
/// that has no anchor for the mode, is not included in the results;
/// neither is a result greater than `time_limit`. The start building
/// itself, when anchored, comes back at cost zero. Only vehicle modes
/// are supported: calling this for pedestrians is a programming error,
/// which the precondition rules out.
pub fn all_vehicle_costs_from(
    map: &MapModel,
    start: usize,
    time_limit: u64,
    constraints: PathConstraints,
) -> (results: HashMap<u64, u64>)
    requires
        map.wf(),
        constraints != PathConstraints::Pedestrian,
        start < map.buildings@.len(),
    ensures
        forall|b: u64| #[trigger] results@.contains_key(b) ==> results@[b] <= time_limit,
        map.spec_anchor_road(start as int, constraints) is None ==> results@ == Map::<
            u64,
            u64,
        >::empty(),
        map.spec_anchor_road(start as int, constraints) matches Some(sr) ==> exists|t: Map<u64, u64>|
            #[trigger] is_cost_table(map.road_edges(constraints), *map, constraints, sr, t)
                && results@ == building_costs(*map, constraints, t, time_limit),
        map.spec_anchor_road(start as int, constraints) is Some ==> results@.contains_key(
            start as u64,
        ) && results@[start as u64] == 0,
{
    let mut results: HashMap<u64, u64> = HashMap::new();
    let anchor = map.buildings[start].anchor_lane(constraints);
    match anchor {
        None => {
            proof {
                assert(results@ =~= Map::<u64, u64>::empty());
            }
            results
        },
        Some(anchor_lane) => {
            let sr = map.lanes[anchor_lane].parent;
            let g = build_graph_for_vehicles(map, constraints);
            proof {
                lemma_road_edges_upto_props(*map, constraints, map.movements@.len() as int);
                assert(map.movements@.len() <= MOVEMENT_LIMIT);
                assert(graph_nodes(g).len() <= 0x1000_0000);
            }
            let table = graph_dijkstra(&g, map, constraints, sr);
            let nb = map.buildings.len();
            for b in 0..nb
                invariant
                    nb == map.buildings@.len(),
                    map.wf(),
                    constraints != PathConstraints::Pedestrian,
                    forall|bb: u64|
                        #[trigger] results@.contains_key(bb) <==> ((bb as int) < b
                            && building_cost_included(*map, constraints, table@, time_limit, bb)),
                    forall|bb: u64|
                        #[trigger] results@.contains_key(bb) ==> results@[bb] == table@[
                            map.spec_anchor_road(bb as int, constraints).unwrap()
                        ],
                    vstd::std_specs::hash::obeys_key_model::<u64>(),
            {
                match map.buildings[b].anchor_lane(constraints) {
                    Some(l2) => {
                        let rd = map.lanes[l2].parent;
                        if let Some(cost) = table.get(&rd) {
                            let cv = *cost;
                            if cv <= time_limit {
                                results.insert(b as u64, cv);
                            }
                        }
                    },
                    None => {},
                }
            }
            proof {
                assert(results@ =~= building_costs(*map, constraints, table@, time_limit));
                assert(is_cost_table(
                    map.road_edges(constraints),
                    *map,
                    constraints,
                    map.spec_anchor_road(start as int, constraints).unwrap(),
                    table@,
                ));
                // The start building itself comes back at cost zero:
                // the trivial path pins its anchor road's table entry.
                let edges = map.road_edges(constraints);
                let trivial = seq![sr];
                assert(path_ok(edges, trivial));
                assert(trivial.first() == sr && trivial.last() == sr);
                assert(path_cost(edges, *map, constraints, trivial) == 0);
                assert(table@.contains_key(sr) && table@[sr] <= 0);
                assert(building_cost_included(*map, constraints, table@, time_limit, start as u64));
                assert(results@[start as u64] == 0);
            }
            results
        },
    }
}

/// Return the realized cost of one concrete path (as the full
/// pathfinder, an external collaborator, reported it for the request)
/// together with the cost frontier: a mapping from every reachable
/// directed road to the cost of getting there from the request's start.
/// Callers compare the frontier at a competing road against the
/// realized cost to understand why an alternative route was not chosen.
/// Pedestrian requests are unsupported (their graph has a different
/// node structure) and come back as no result, as does a request the
/// pathfinder found no path for.
pub fn debug_vehicle_costs(req: PathRequest, map: &MapModel, realized_cost: Option<u64>) -> (r:
    Option<(u64, HashMap<u64, u64>)>)
    requires
        map.wf(),
        req.start_lane < map.lanes@.len(),
    ensures
        req.constraints == PathConstraints::Pedestrian ==> r is None,
        realized_cost is None ==> r is None,
        req.constraints != PathConstraints::Pedestrian && realized_cost is Some ==> {
            &&& r is Some
            &&& r.unwrap().0 == realized_cost.unwrap()
            &&& is_cost_table(
                map.road_edges(req.constraints),
                *map,
                req.constraints,
                map.lanes@[req.start_lane as int].parent,
                r.unwrap().1@,
            )
        },
{
    if req.constraints == PathConstraints::Pedestrian {
        return None;
    }
    let cost = match realized_cost {
        None => {
            return None;
        },
        Some(c0) => c0,
    };
    let g = build_graph_for_vehicles(map, req.constraints);
    proof {
        lemma_road_edges_upto_props(*map, req.constraints, map.movements@.len() as int);
        assert(map.movements@.len() <= MOVEMENT_LIMIT);
        assert(graph_nodes(g).len() <= 0x1000_0000);
    }
    let start_road = map.lanes[req.start_lane].parent;
    let road_costs = graph_dijkstra(&g, map, req.constraints, start_road);
    Some((cost, road_costs))
}

/// The frontier is a relaxation lower bound: for any reachable
/// destination, the frontier lists a cost at most the total cost of any
/// concrete path from the same start — in particular at most the
/// realized cost of the path the full pathfinder chose, whenever that
/// cost is the cost of a path of the road graph.
pub proof fn lemma_frontier_lower_bound(
    edges: Map<(u64, u64), usize>,
    m: MapModel,
    c: PathConstraints,
    start: u64,
    table: Map<u64, u64>,
    p: Seq<u64>,
)
    requires
        is_cost_table(edges, m, c, start, table),
        path_ok(edges, p),
        p.first() == start,
    ensures
        table.contains_key(p.last()),
        table[p.last()] <= path_cost(edges, m, c, p),
{
}

} // verus!
