use vstd::prelude::*;

verus! {

broadcast use vstd::set::group_set_axioms;

/// The connection topology: an undirected graph over satellite ids whose
/// edge weights are distances in meters at the time the edge was created.
pub type ConnectionGraph = petgraph::graphmap::GraphMap<
    usize,
    u64,
    petgraph::Undirected,
    std::collections::hash_map::RandomState,
>;

/// Declares petgraph's `GraphMap` to the verifier; its contents are seen
/// only through `graph_nodes` and `graph_edges` below.
#[verifier::external_type_specification]
#[verifier::external_body]
#[verifier::reject_recursive_types(N)]
#[verifier::reject_recursive_types(E)]
#[verifier::reject_recursive_types(Ty)]
#[verifier::reject_recursive_types(S)]
pub struct ExGraphMap<N, E, Ty, S>(petgraph::graphmap::GraphMap<N, E, Ty, S>) where
    S: std::hash::BuildHasher;

/// Declares petgraph's `Undirected` edge-type marker to the verifier.
#[verifier::external_type_specification]
#[verifier::external_body]
pub struct ExUndirected(petgraph::Undirected);

/// The nodes a graph holds.
pub uninterp spec fn graph_nodes(g: ConnectionGraph) -> Set<usize>;

/// The edge relation a graph holds, as a map from ordered node pairs to
/// weights; an undirected edge between `a` and `b` appears under both
/// `(a, b)` and `(b, a)`, and a self loop once.
pub uninterp spec fn graph_edges(g: ConnectionGraph) -> Map<(usize, usize), u64>;

/// The ordered pairs that touch the node `n`: the edges removing a node
/// removes.
pub open spec fn incident_pairs(n: usize) -> Set<(usize, usize)> {
    Set::new(|p: (usize, usize)| p.0 == n || p.1 == n)
}

/// The edges of `edges` that leave `v`.
pub open spec fn incident_from(edges: Map<(usize, usize), u64>, v: usize) -> Set<(usize, usize)> {
    Set::new(|p: (usize, usize)| edges.dom().contains(p) && p.0 == v)
}

/// Degree of `v` in an edge relation: the number of edges incident to `v`.
pub open spec fn deg_of(edges: Map<(usize, usize), u64>, v: usize) -> nat {
    incident_from(edges, v).len()
}

/// Degree of `v`: the number of edges incident to `v`.
pub open spec fn graph_deg(g: ConnectionGraph, v: usize) -> nat {
    deg_of(graph_edges(g), v)
}

/// How inserting the undirected edge `(a, b)` changes each degree: `a` and
/// `b` gain at most one, every other node keeps its degree, and no degree
/// shrinks.
pub proof fn lemma_deg_of_insert_pair(
    edges: Map<(usize, usize), u64>,
    a: usize,
    b: usize,
    w: u64,
    v: usize,
)
    requires
        edges.dom().finite(),
        a != b,
    ensures
        ({
            let e2 = edges.insert((a, b), w).insert((b, a), w);
            &&& e2.dom().finite()
            &&& deg_of(e2, v) >= deg_of(edges, v)
            &&& v != a && v != b ==> deg_of(e2, v) == deg_of(edges, v)
            &&& deg_of(e2, v) <= deg_of(edges, v) + 1
        }),
{
    let e2 = edges.insert((a, b), w).insert((b, a), w);
    assert(e2.dom() =~= edges.dom().insert((a, b)).insert((b, a)));
    assert(incident_from(edges, v).subset_of(edges.dom()));
    vstd::set_lib::lemma_len_subset(incident_from(edges, v), edges.dom());
    if v != a && v != b {
        assert(incident_from(e2, v) =~= incident_from(edges, v));
    } else if v == a {
        assert(incident_from(e2, v) =~= incident_from(edges, v).insert((a, b)));
    } else {
        assert(incident_from(e2, v) =~= incident_from(edges, v).insert((b, a)));
    }
}

/// Removing every edge incident to one node never raises a degree, and
/// empties the degree of the removed node.
pub proof fn lemma_deg_of_remove_node(edges: Map<(usize, usize), u64>, n: usize, v: usize)
    requires
        edges.dom().finite(),
    ensures
        ({
            let e2 = edges.remove_keys(incident_pairs(n));
            &&& e2.dom().finite()
            &&& deg_of(e2, v) <= deg_of(edges, v)
            &&& v == n ==> deg_of(e2, v) == 0
        }),
{
    let e2 = edges.remove_keys(incident_pairs(n));
    assert(e2.dom().subset_of(edges.dom()));
    assert(incident_from(edges, v).subset_of(edges.dom()));
    vstd::set_lib::lemma_len_subset(incident_from(edges, v), edges.dom());
    assert(incident_from(e2, v).subset_of(incident_from(edges, v)));
    vstd::set_lib::lemma_len_subset(incident_from(e2, v), incident_from(edges, v));
    if v == n {
        assert(incident_from(e2, v) =~= Set::<(usize, usize)>::empty());
        assert(Set::<(usize, usize)>::empty().len() == 0);
    }
}

/// The set of machine integers below `n` has exactly `n` members.
pub proof fn lemma_usize_range_len(n: usize)
    ensures
        Set::new(|v: usize| v < n).finite(),
        Set::new(|v: usize| v < n).len() == n,
    decreases n,
{
    if n == 0 {
        assert(Set::new(|v: usize| v < n) =~= Set::<usize>::empty());
    } else {
        lemma_usize_range_len((n - 1) as usize);
        assert(Set::new(|v: usize| v < n) =~= Set::new(|v: usize| v < (n - 1) as usize).insert(
            (n - 1) as usize,
        ));
    }
}

/// A graph whose nodes all index into the satellites of `n_sats` holds at
/// most `n_sats` nodes.
pub proof fn lemma_node_count_bound(g: ConnectionGraph, n_sats: usize)
    requires
        graph_nodes(g).finite(),
        forall|v: usize| #[trigger] graph_nodes(g).contains(v) ==> v < n_sats,
    ensures
        graph_nodes(g).len() <= n_sats,
{
    lemma_usize_range_len(n_sats);
    assert(graph_nodes(g).subset_of(Set::new(|v: usize| v < n_sats)));
    vstd::set_lib::lemma_len_subset(graph_nodes(g), Set::new(|v: usize| v < n_sats));
}

/// An edge relation without members gives every node degree zero.
pub proof fn lemma_deg_of_empty(edges: Map<(usize, usize), u64>, v: usize)
    requires
        forall|p: (usize, usize)| !edges.dom().contains(p),
    ensures
        deg_of(edges, v) == 0,
{
    assert(incident_from(edges, v) =~= Set::<(usize, usize)>::empty());
    assert(Set::<(usize, usize)>::empty().len() == 0);
}

/// The well-formedness every topology this library builds maintains: the
/// edge relation is symmetric with matching weights, has no self loops, and
/// every endpoint is a node of the graph.
pub open spec fn graph_wf(g: ConnectionGraph) -> bool {
    &&& graph_nodes(g).finite()
    &&& graph_edges(g).dom().finite()
    &&& forall|a: usize, b: usize| #[trigger]
        graph_edges(g).dom().contains((a, b)) ==> {
            &&& a != b
            &&& graph_edges(g).dom().contains((b, a))
            &&& graph_edges(g)[(b, a)] == graph_edges(g)[(a, b)]
            &&& graph_nodes(g).contains(a)
            &&& graph_nodes(g).contains(b)
        }
}

/// `s` walks from `a` to `b` along edges of `edges`.
pub open spec fn is_path(
    edges: Map<(usize, usize), u64>,
    s: Seq<usize>,
    a: usize,
    b: usize,
) -> bool {
    &&& s.len() >= 1
    &&& s[0] == a
    &&& s[s.len() - 1] == b
    &&& forall|i: int| 0 <= i < s.len() - 1 ==> edges.dom().contains((#[trigger] s[i], s[i + 1]))
}

/// Total weight of the walk `s`.
pub open spec fn path_cost(edges: Map<(usize, usize), u64>, s: Seq<usize>) -> int
    decreases s.len(),
{
    if s.len() <= 1 {
        0
    } else {
        edges[(s[0], s[1])] + path_cost(edges, s.subrange(1, s.len() as int))
    }
}

/// Some walk of `edges` joins `a` to `b` (in particular every node is
/// connected to itself).
pub open spec fn connected(edges: Map<(usize, usize), u64>, a: usize, b: usize) -> bool {
    exists|s: Seq<usize>| is_path(edges, s, a, b)
}

/// `v` is the least node of its connected component.
pub open spec fn is_component_rep(
    nodes: Set<usize>,
    edges: Map<(usize, usize), u64>,
    v: usize,
) -> bool {
    forall|u: usize| nodes.contains(u) && #[trigger] connected(edges, v, u) ==> v <= u
}

/// The number of connected components: every component holds exactly one
/// least node, so counting least nodes counts components.
pub open spec fn component_count(nodes: Set<usize>, edges: Map<(usize, usize), u64>) -> nat {
    nodes.filter(|v: usize| is_component_rep(nodes, edges, v)).len()
}

/// Relies on petgraph's `GraphMap::new`: a new graph has no nodes and no
/// edges.
#[verifier::external_body]
pub(crate) fn graph_new() -> (r: ConnectionGraph)
    ensures
        graph_nodes(r).finite(),
        graph_edges(r).dom().finite(),
        forall|n: usize| !graph_nodes(r).contains(n),
        forall|p: (usize, usize)| !graph_edges(r).dom().contains(p),
{
    petgraph::graphmap::GraphMap::new()
}

/// Relies on petgraph's `GraphMap::clone` (derived): the copy holds the same
/// nodes and edges.
#[verifier::external_body]
pub(crate) fn graph_clone(g: &ConnectionGraph) -> (r: ConnectionGraph)
    ensures
        graph_nodes(r) == graph_nodes(*g),
        graph_edges(r) == graph_edges(*g),
{
    g.clone()
}

/// Relies on petgraph's `GraphMap::add_node`: inserts the node and touches
/// no edge.
#[verifier::external_body]
pub(crate) fn graph_add_node(g: &mut ConnectionGraph, n: usize)
    ensures
        graph_nodes(*final(g)) == graph_nodes(*old(g)).insert(n),
        graph_edges(*final(g)) == graph_edges(*old(g)),
{
    g.add_node(n);
}

/// Relies on petgraph's `GraphMap::add_edge`: inserts an undirected edge
/// (both endpoints become nodes if they were not), or updates the weight of
/// an existing one.
#[verifier::external_body]
pub(crate) fn graph_add_edge(g: &mut ConnectionGraph, a: usize, b: usize, w: u64)
    requires
        a != b,
    ensures
        graph_nodes(*final(g)) == graph_nodes(*old(g)).insert(a).insert(b),
        graph_edges(*final(g)) == graph_edges(*old(g)).insert((a, b), w).insert((b, a), w),
{
    g.add_edge(a, b, w);
}

/// Relies on petgraph's `GraphMap::remove_node`: removes the node and every
/// edge incident to it.
#[verifier::external_body]
pub(crate) fn graph_remove_node(g: &mut ConnectionGraph, n: usize)
    ensures
        graph_nodes(*final(g)) == graph_nodes(*old(g)).remove(n),
        graph_edges(*final(g)) == graph_edges(*old(g)).remove_keys(incident_pairs(n)),
{
    g.remove_node(n);
}

/// Relies on petgraph's `GraphMap::node_count`: the number of nodes.
#[verifier::external_body]
pub(crate) fn graph_node_count(g: &ConnectionGraph) -> (r: usize)
    ensures
        r == graph_nodes(*g).len(),
{
    g.node_count()
}

/// Relies on petgraph's `GraphMap::edge_count`: the number of undirected
/// edges, each counted once while the edge relation holds it twice; a
/// graph without parallel edges has at most one edge per ordered node
/// pair.
#[verifier::external_body]
pub(crate) fn graph_edge_count(g: &ConnectionGraph) -> (r: usize)
    requires
        graph_wf(*g),
    ensures
        r * 2 == graph_edges(*g).dom().len(),
        r as int <= graph_nodes(*g).len() * graph_nodes(*g).len(),
{
    g.edge_count()
}

/// Relies on petgraph's `GraphMap::edges`: the edges incident to `a`, here
/// only counted, which is the degree of `a` (zero for an absent node).
#[verifier::external_body]
pub(crate) fn graph_degree(g: &ConnectionGraph, a: usize) -> (r: usize)
    ensures
        r == graph_deg(*g, a),
{
    g.edges(a).count()
}

/// Relies on petgraph's `GraphMap::neighbors`: every neighbor of `a`, each
/// exactly once (empty for an absent node).
#[verifier::external_body]
pub(crate) fn graph_neighbors(g: &ConnectionGraph, a: usize) -> (r: Vec<usize>)
    ensures
        forall|i: int, j: int| 0 <= i < j < r@.len() ==> r@[i] != r@[j],
        forall|i: int| 0 <= i < r@.len() ==> graph_edges(*g).dom().contains((a, #[trigger] r@[i])),
        forall|b: usize| #[trigger]
            graph_edges(*g).dom().contains((a, b)) ==> r@.contains(b),
{
    g.neighbors(a).collect()
}

/// Relies on petgraph's `GraphMap::nodes`: every node of the graph, each
/// exactly once.
#[verifier::external_body]
pub(crate) fn graph_node_list(g: &ConnectionGraph) -> (r: Vec<usize>)
    ensures
        forall|i: int, j: int| 0 <= i < j < r@.len() ==> r@[i] != r@[j],
        forall|i: int| 0 <= i < r@.len() ==> graph_nodes(*g).contains(#[trigger] r@[i]),
        forall|n: usize| #[trigger] graph_nodes(*g).contains(n) ==> r@.contains(n),
{
    g.nodes().collect()
}

/// Relies on petgraph's `GraphMap::all_edges`: every undirected edge exactly
/// once, under one of its two orientations.
#[verifier::external_body]
pub(crate) fn graph_edge_list(g: &ConnectionGraph) -> (r: Vec<(usize, usize)>)
    ensures
        forall|i: int| 0 <= i < r@.len() ==> graph_edges(*g).dom().contains(#[trigger] r@[i]),
        forall|i: int, j: int|
            0 <= i < j < r@.len() ==> #[trigger] r@[i] != #[trigger] r@[j] && r@[i] != (
            r@[j].1, r@[j].0),
        forall|a: usize, b: usize| #[trigger]
            graph_edges(*g).dom().contains((a, b)) ==> r@.contains((a, b)) || r@.contains((b, a)),
{
    g.all_edges().map(|(a, b, _)| (a, b)).collect()
}

/// Relies on petgraph's `algo::connected_components`: the number of
/// connected components of the graph.
#[verifier::external_body]
pub(crate) fn graph_connected_components(g: &ConnectionGraph) -> (r: usize)
    requires
        graph_wf(*g),
    ensures
        r == component_count(graph_nodes(*g), graph_edges(*g)),
{
    petgraph::algo::connected_components(&*g)
}

/// Relies on petgraph's `algo::astar`, called with a zero cost estimate,
/// which is admissible, so the returned cost is the cost of a shortest
/// path; the path the algorithm reconstructs is simple, so that cost is at
/// most the node count times the largest weight. `None` exactly when no
/// walk joins `start` to `goal`. The bounds on the graph keep every
/// intermediate cost below `2^52`, so the additions inside the algorithm
/// cannot overflow.
#[verifier::external_body]
pub(crate) fn graph_shortest_path_cost(g: &ConnectionGraph, start: usize, goal: usize) -> (r:
    Option<u64>)
    requires
        graph_wf(*g),
        graph_nodes(*g).len() <= 0x10_0000,
        forall|p: (usize, usize)| #[trigger]
            graph_edges(*g).dom().contains(p) ==> graph_edges(*g)[p] <= 0x1_0000_0000u64,
    ensures
        r is Some <==> connected(graph_edges(*g), start, goal),
        r matches Some(c) ==> {
            &&& exists|s: Seq<usize>|
                is_path(graph_edges(*g), s, start, goal) && path_cost(graph_edges(*g), s)
                    == c as int
            &&& forall|s: Seq<usize>|
                is_path(graph_edges(*g), s, start, goal) ==> path_cost(graph_edges(*g), s)
                    >= c as int
            &&& c as int <= graph_nodes(*g).len() * 0x1_0000_0000
        },
{
    petgraph::algo::astar(&*g, start, |n| n == goal, |e| *petgraph::visit::EdgeRef::weight(&e), |_| 0u64).map(
        |(c, _)| c,
    )
}

} // verus!
