use vstd::prelude::*;
use crate::graph::{ConnectionGraph, graph_nodes, graph_edges, graph_wf, graph_clone,
    graph_node_list, graph_neighbors, graph_node_count, graph_edge_count, graph_remove_node,
    graph_connected_components, component_count, lemma_node_count_bound, incident_pairs};
use crate::model::Satellite;
use crate::simulation::Simulation;
use crate::strategy::sat_alive;
use crate::vec3::Vec3;

verus! {

broadcast use vstd::set::group_set_axioms, vstd::map::group_map_axioms;

/// Working arrays of the articulation-point search, one slot per satellite
/// id: discovery depth, low link, visit mark, and DFS parent.
pub struct TarjanInformation {
    pub visited: Vec<bool>,
    pub depth: Vec<u64>,
    pub low: Vec<u64>,
    pub parent: Vec<Option<usize>>,
}

impl TarjanInformation {
    pub fn new(node_count: usize) -> (r: TarjanInformation)
        ensures
            r.visited@.len() == node_count,
            r.depth@.len() == node_count,
            r.low@.len() == node_count,
            r.parent@.len() == node_count,
            forall|i: int| 0 <= i < node_count ==> #[trigger] r.visited@[i] == false,
            forall|i: int| 0 <= i < node_count ==> #[trigger] r.depth@[i] == 0,
            forall|i: int| 0 <= i < node_count ==> #[trigger] r.low@[i] == 0,
            forall|i: int| 0 <= i < node_count ==> #[trigger] r.parent@[i] == None::<usize>,
    {
        let mut visited: Vec<bool> = Vec::new();
        let mut depth: Vec<u64> = Vec::new();
        let mut low: Vec<u64> = Vec::new();
        let mut parent: Vec<Option<usize>> = Vec::new();
        let mut i: usize = 0;
        while i < node_count
            invariant
                i <= node_count,
                visited@.len() == i,
                depth@.len() == i,
                low@.len() == i,
                parent@.len() == i,
                forall|j: int| 0 <= j < i ==> #[trigger] visited@[j] == false,
                forall|j: int| 0 <= j < i ==> #[trigger] depth@[j] == 0,
                forall|j: int| 0 <= j < i ==> #[trigger] low@[j] == 0,
                forall|j: int| 0 <= j < i ==> #[trigger] parent@[j] == None::<usize>,
            decreases node_count - i,
        {
            visited.push(false);
            depth.push(0);
            low.push(0);
            parent.push(None);
            i += 1;
        }
        TarjanInformation { visited, depth, low, parent }
    }
}

/// One suspended visit of the iterative depth-first search: the node, its
/// neighbor list, the cursor into it, how many DFS children it has seen
/// (saturated at two, since only "more than one" matters), and whether a
/// finished child already proved it an articulation point.
struct SearchFrame {
    v: usize,
    nbrs: Vec<usize>,
    idx: usize,
    children: usize,
    artic: bool,
}

/// Counts the articulation points of the graph by an iterative Tarjan
/// low-link depth-first search over every component, with an explicit
/// stack: the recursion of the textbook version would not fit the call
/// stack for larger constellations. A non-root node is an articulation
/// point iff some DFS child's low link reaches no higher than the node's
/// depth; a root iff it has at least two DFS children.
pub fn count_articulation_points(num_satellites: usize, g: &ConnectionGraph) -> (r: usize)
    requires
        graph_wf(*g),
        forall|v: usize| #[trigger] graph_nodes(*g).contains(v) ==> v < num_satellites,
    ensures
        r <= num_satellites,
        graph_nodes(*g).len() == 0 ==> r == 0,
{
    let node_list = graph_node_list(g);
    if node_list.len() == 0 {
        return 0;
    }
    proof {
        assert(graph_nodes(*g).contains(node_list@[0]));
    }
    let mut info = TarjanInformation::new(num_satellites);
    let mut is_artic: Vec<bool> = Vec::new();
    let mut i: usize = 0;
    while i < num_satellites
        invariant
            i <= num_satellites,
            is_artic@.len() == i,
        decreases num_satellites - i,
    {
        is_artic.push(false);
        i += 1;
    }
    let mut root_i: usize = 0;
    while root_i < node_list.len()
        invariant
            graph_wf(*g),
            forall|v: usize| #[trigger] graph_nodes(*g).contains(v) ==> v < num_satellites,
            forall|j: int|
                0 <= j < node_list@.len() ==> graph_nodes(*g).contains(#[trigger] node_list@[j]),
            root_i <= node_list@.len(),
            info.visited@.len() == num_satellites,
            info.depth@.len() == num_satellites,
            info.low@.len() == num_satellites,
            info.parent@.len() == num_satellites,
            is_artic@.len() == num_satellites,
        decreases node_list@.len() - root_i,
    {
        let root: usize = node_list[root_i];
        if !info.visited[root] {
            info.visited[root] = true;
            info.depth[root] = 0;
            info.low[root] = 0;
            info.parent[root] = None;
            let root_nbrs = graph_neighbors(g, root);
            let mut stack: Vec<SearchFrame> = Vec::new();
            stack.push(SearchFrame { v: root, nbrs: root_nbrs, idx: 0, children: 0, artic: false });
            // Every iteration either advances a neighbor cursor, pushes a
            // node that was never visited before, or pops a frame, so the
            // search ends long before this counter does; the counter only
            // hands the verifier a decreasing measure.
            let mut fuel: u64 = 0xFFFF_FFFF_FFFF_FFFF;
            while stack.len() > 0 && fuel > 0
                invariant
                    graph_wf(*g),
                    forall|v: usize| #[trigger]
                        graph_nodes(*g).contains(v) ==> v < num_satellites,
                    info.visited@.len() == num_satellites,
                    info.depth@.len() == num_satellites,
                    info.low@.len() == num_satellites,
                    info.parent@.len() == num_satellites,
                    is_artic@.len() == num_satellites,
                    forall|j: int|
                        0 <= j < stack@.len() ==> (#[trigger] stack@[j]).v < num_satellites,
                    forall|j: int|
                        0 <= j < stack@.len() ==> (#[trigger] stack@[j]).idx
                            <= stack@[j].nbrs@.len(),
                    forall|j: int, k: int|
                        0 <= j < stack@.len() && 0 <= k < stack@[j].nbrs@.len()
                            ==> graph_edges(*g).dom().contains(
                            (stack@[j].v, #[trigger] stack@[j].nbrs@[k]),
                        ) && stack@[j].nbrs@[k] < num_satellites,
                    forall|j: int|
                        0 <= j < stack@.len() ==> info.visited@[(#[trigger] stack@[j]).v as int],
                    forall|j: int|
                        0 <= j < stack@.len() ==> info.depth@[(#[trigger] stack@[j]).v as int]
                            == j as u64,
                decreases fuel,
            {
                fuel = fuel - 1;
                let top: usize = stack.len() - 1;
                let v: usize = stack[top].v;
                if stack[top].idx < stack[top].nbrs.len() {
                    let u: usize = stack[top].nbrs[stack[top].idx];
                    stack[top].idx = stack[top].idx + 1;
                    if !info.visited[u] {
                        info.visited[u] = true;
                        info.parent[u] = Some(v);
                        let du: u64 = info.depth[v] + 1;
                        info.depth[u] = du;
                        info.low[u] = du;
                        let u_nbrs = graph_neighbors(g, u);
                        proof {
                            assert(graph_edges(*g).dom().contains((stack@[top as int].v, u)));
                            assert(graph_nodes(*g).contains(u));
                        }
                        stack.push(
                            SearchFrame { v: u, nbrs: u_nbrs, idx: 0, children: 0, artic: false },
                        );
                    } else {
                        let is_parent: bool = match info.parent[v] {
                            None => false,
                            Some(p) => p == u,
                        };
                        if !is_parent {
                            if info.depth[u] < info.low[v] {
                                info.low[v] = info.depth[u];
                            }
                        }
                    }
                } else {
                    let f = stack.pop().unwrap();
                    if stack.len() > 0 {
                        let p_top: usize = stack.len() - 1;
                        let p: usize = stack[p_top].v;
                        if stack[p_top].children < 2 {
                            stack[p_top].children = stack[p_top].children + 1;
                        }
                        if info.low[f.v] >= info.depth[p] {
                            stack[p_top].artic = true;
                        }
                        if info.low[f.v] < info.low[p] {
                            info.low[p] = info.low[f.v];
                        }
                        if f.artic {
                            is_artic[f.v] = true;
                        }
                    } else {
                        if f.children > 1 {
                            is_artic[f.v] = true;
                        }
                    }
                }
            }
        }
        root_i += 1;
    }
    let mut count: usize = 0;
    let mut k: usize = 0;
    while k < num_satellites
        invariant
            k <= num_satellites,
            is_artic@.len() == num_satellites,
            count <= k,
        decreases num_satellites - k,
    {
        if is_artic[k] {
            count = count + 1;
        }
        k += 1;
    }
    count
}

/// Removing `v` (with its incident edges) leaves the remaining graph with
/// more connected components than the whole graph has: the defining
/// property of an articulation point.
pub open spec fn removal_disconnects(g: ConnectionGraph, v: usize) -> bool {
    component_count(
        graph_nodes(g).remove(v),
        graph_edges(g).remove_keys(incident_pairs(v)),
    ) > component_count(graph_nodes(g), graph_edges(g))
}

/// The nodes among the first `i` of `list` whose removal disconnects `g`.
pub open spec fn processed_disconnectors(g: ConnectionGraph, list: Seq<usize>, i: int) -> Set<
    usize,
> {
    Set::new(
        |u: usize| (exists|j: int| 0 <= j < i && list[j] == u) && removal_disconnects(g, u),
    )
}

/// Counts the vertices whose removal increases the number of connected
/// components, by removing each node in turn from a copy of the graph and
/// comparing component counts: the brute-force articulation-point count.
#[verifier::rlimit(60)]
pub fn articulation_point_oracle(g: &ConnectionGraph) -> (r: usize)
    requires
        graph_wf(*g),
    ensures
        r == graph_nodes(*g).filter(|v: usize| removal_disconnects(*g, v)).len(),
{
    let base: usize = graph_connected_components(g);
    let node_list = graph_node_list(g);
    proof {
        assert(processed_disconnectors(*g, node_list@, 0) =~= Set::<usize>::empty());
        assert(Set::<usize>::empty().len() == 0);
    }
    let mut count: usize = 0;
    let mut i: usize = 0;
    while i < node_list.len()
        invariant
            graph_wf(*g),
            base == component_count(graph_nodes(*g), graph_edges(*g)),
            i <= node_list@.len(),
            forall|j: int|
                0 <= j < node_list@.len() ==> graph_nodes(*g).contains(#[trigger] node_list@[j]),
            forall|v: usize| #[trigger] graph_nodes(*g).contains(v) ==> node_list@.contains(v),
            forall|j: int, k: int| 0 <= j < k < node_list@.len() ==> node_list@[j] != node_list@[k],
            count <= i,
            count == processed_disconnectors(*g, node_list@, i as int).len(),
        decreases node_list@.len() - i,
    {
        let v: usize = node_list[i];
        let ghost processed = processed_disconnectors(*g, node_list@, i as int);
        proof {
            assert forall|u: usize| #[trigger] processed.contains(u) implies graph_nodes(
                *g,
            ).contains(u) by {
                let j = choose|j: int| 0 <= j < i && node_list@[j] == u;
            }
            vstd::set_lib::lemma_len_subset(processed, graph_nodes(*g));
        }
        let mut h = graph_clone(g);
        graph_remove_node(&mut h, v);
        proof {
            let keys = incident_pairs(v);
            assert(graph_edges(h).dom() =~= graph_edges(*g).dom().difference(keys));
            vstd::set_lib::lemma_len_subset(graph_edges(h).dom(), graph_edges(*g).dom());
            vstd::set_lib::lemma_len_subset(graph_nodes(h), graph_nodes(*g));
            assert forall|a: usize, b: usize| #[trigger]
                graph_edges(h).dom().contains((a, b)) implies {
                &&& a != b
                &&& graph_edges(h).dom().contains((b, a))
                &&& graph_edges(h)[(b, a)] == graph_edges(h)[(a, b)]
                &&& graph_nodes(h).contains(a)
                &&& graph_nodes(h).contains(b)
            } by {
                assert(graph_edges(*g).dom().contains((a, b)));
            }
        }
        let c: usize = graph_connected_components(&h);
        proof {
            assert((c > base) == removal_disconnects(*g, v));
            assert forall|u: usize| #[trigger]
                processed_disconnectors(*g, node_list@, i + 1).contains(u) implies
                processed.contains(u) || (u == v && removal_disconnects(*g, u)) by {
                let j = choose|j: int| 0 <= j < i + 1 && node_list@[j] == u;
                if j < i {
                    assert(processed.contains(u));
                } else {
                    assert(u == v);
                }
            }
            if removal_disconnects(*g, v) {
                assert(!processed.contains(v)) by {
                    if processed.contains(v) {
                        let j = choose|j: int| 0 <= j < i && node_list@[j] == v;
                        assert(node_list@[j] != node_list@[i as int]);
                    }
                }
                assert(processed_disconnectors(*g, node_list@, i + 1) =~= processed.insert(v))
                    by {
                    assert forall|u: usize| #[trigger]
                        processed.insert(v).contains(u) implies processed_disconnectors(
                        *g,
                        node_list@,
                        i + 1,
                    ).contains(u) by {
                        if u == v {
                            assert(node_list@[i as int] == u);
                            assert(exists|j: int| 0 <= j < i + 1 && node_list@[j] == u);
                        } else {
                            let j = choose|j: int| 0 <= j < i && node_list@[j] == u;
                            assert(exists|j2: int| 0 <= j2 < i + 1 && node_list@[j2] == u);
                        }
                    }
                }
            } else {
                assert(processed_disconnectors(*g, node_list@, i + 1) =~= processed) by {
                    assert forall|u: usize| #[trigger] processed.contains(u) implies
                        processed_disconnectors(*g, node_list@, i + 1).contains(u) by {
                        let j = choose|j: int| 0 <= j < i && node_list@[j] == u;
                        assert(exists|j2: int| 0 <= j2 < i + 1 && node_list@[j2] == u);
                    }
                }
            }
        }
        if c > base {
            count = count + 1;
        }
        i += 1;
    }
    proof {
        assert(processed_disconnectors(*g, node_list@, node_list@.len() as int)
            =~= graph_nodes(*g).filter(|v: usize| removal_disconnects(*g, v))) by {
            assert forall|u: usize| #[trigger]
                processed_disconnectors(*g, node_list@, node_list@.len() as int).contains(
                u,
            ) implies graph_nodes(*g).contains(u) && removal_disconnects(*g, u) by {
                let j = choose|j: int| 0 <= j < node_list@.len() && node_list@[j] == u;
            }
            assert forall|u: usize|
                graph_nodes(*g).contains(u) && #[trigger] removal_disconnects(*g, u) implies
                processed_disconnectors(*g, node_list@, node_list@.len() as int).contains(u) by {
                assert(node_list@.contains(u));
                let j = choose|j: int| 0 <= j < node_list@.len() && node_list@[j] == u;
                assert(exists|j2: int| 0 <= j2 < node_list@.len() && node_list@[j2] == u);
            }
        }
    }
    count
}

/// The number of dead satellites in a roster.
pub open spec fn spec_failed_count(s: Seq<Satellite>) -> int
    decreases s.len(),
{
    if s.len() == 0 {
        0
    } else {
        spec_failed_count(s.drop_last()) + if s.last().status {
            0int
        } else {
            1int
        }
    }
}

/// The surface points of the four fixed cities whose round-trip times the
/// statistics report, at the current simulated time.
pub struct GroundPoints {
    pub london: Vec3,
    pub nyc: Vec3,
    pub singapore: Vec3,
    pub johannesburg: Vec3,
}

/// One statistics record, published at every topology refresh. Distances
/// are integer meters; `t` is in microseconds; the density fraction is
/// `density_num / density_den` with a zero denominator for graphs of less
/// than two nodes.
#[derive(Clone, Copy, PartialEq, Eq, Debug)]
pub struct StatisticsRecord {
    pub t: u64,
    pub connected_components: usize,
    pub articulation_points: usize,
    pub active_connections: usize,
    pub node_count: usize,
    pub density_num: u64,
    pub density_den: u64,
    pub total_satellites: usize,
    pub failed_satellites: usize,
    pub rtt_nyc: Option<u64>,
    pub rtt_singapore: Option<u64>,
    pub rtt_johannesburg: Option<u64>,
}

impl Simulation {
    /// Computes the statistics record for the current state: the exact
    /// component count and graph size, the articulation-point count (by
    /// the removal-count search, whose contract pins the number exactly;
    /// `count_articulation_points` computes the same number by the faster
    /// Tarjan search, and the tests hold the two to each other), the
    /// failure tally, the exact density fraction `2|E| / (|V| (|V|-1))`,
    /// and the three round-trip distances from London.
    pub fn statistics_record(&self, ground: &GroundPoints) -> (r: StatisticsRecord)
        requires
            self.wf(),
            ground.london.in_range(),
            ground.nyc.in_range(),
            ground.singapore.in_range(),
            ground.johannesburg.in_range(),
            self.model.satellites@.len() + 2 <= 0x10_0000,
        ensures
            r.t == self.model.t,
            r.connected_components == component_count(
                graph_nodes(self.topology),
                graph_edges(self.topology),
            ),
            r.articulation_points == graph_nodes(self.topology).filter(
                |v: usize| removal_disconnects(self.topology, v),
            ).len(),
            r.active_connections * 2 == graph_edges(self.topology).dom().len(),
            r.node_count == graph_nodes(self.topology).len(),
            r.density_num == 2 * r.active_connections,
            r.density_den == if r.node_count < 2 {
                0int
            } else {
                r.node_count * (r.node_count - 1)
            },
            r.total_satellites == self.model.satellites@.len(),
            r.failed_satellites == spec_failed_count(self.model.satellites@),
            self.rtt_result_ok(ground.london, ground.nyc, r.rtt_nyc),
            self.rtt_result_ok(ground.london, ground.singapore, r.rtt_singapore),
            self.rtt_result_ok(ground.london, ground.johannesburg, r.rtt_johannesburg),
    {
        let n: usize = self.model.satellites.len();
        let node_count: usize = graph_node_count(self.topology());
        let edge_count: usize = graph_edge_count(self.topology());
        proof {
            lemma_node_count_bound(self.topology, n);
            assert forall|v: usize| #[trigger]
                graph_nodes(self.topology).contains(v) implies v < n by {
                assert(sat_alive(self.model, v));
            }
            assert((node_count as int) * ((node_count as int) - 1) < 0x10_0000 * 0x10_0000)
                by (nonlinear_arith)
                requires
                    0 <= node_count as int <= 0x10_0000,
            ;
        }
        let density_den: u64 = if node_count < 2 {
            0
        } else {
            (node_count as u64) * ((node_count as u64) - 1)
        };
        let mut failed: usize = 0;
        let mut k: usize = 0;
        while k < n
            invariant
                n == self.model.satellites@.len(),
                k <= n,
                failed <= k,
                failed == spec_failed_count(self.model.satellites@.subrange(0, k as int)),
            decreases n - k,
        {
            if !self.model.satellites[k].status {
                failed = failed + 1;
            }
            proof {
                assert(self.model.satellites@.subrange(0, k + 1).drop_last()
                    =~= self.model.satellites@.subrange(0, k as int));
            }
            k += 1;
        }
        proof {
            assert(self.model.satellites@.subrange(0, n as int) =~= self.model.satellites@);
        }
        let articulation_points: usize = articulation_point_oracle(self.topology());
        let connected: usize = graph_connected_components(self.topology());
        let rtt_nyc = self.calc_rtt(&ground.london, &ground.nyc);
        let rtt_singapore = self.calc_rtt(&ground.london, &ground.singapore);
        let rtt_johannesburg = self.calc_rtt(&ground.london, &ground.johannesburg);
        proof {
            assert(self.rtt_result_ok(ground.london, ground.nyc, rtt_nyc));
            assert(self.rtt_result_ok(ground.london, ground.singapore, rtt_singapore));
            assert(self.rtt_result_ok(ground.london, ground.johannesburg, rtt_johannesburg));
        }
        proof {
            assert((node_count as int) * (node_count as int) <= 0x10_0000 * 0x10_0000)
                by (nonlinear_arith)
                requires
                    0 <= node_count as int <= 0x10_0000,
            ;
        }
        StatisticsRecord {
            t: self.t(),
            connected_components: connected,
            articulation_points,
            active_connections: edge_count,
            node_count,
            density_num: 2 * (edge_count as u64),
            density_den,
            total_satellites: n,
            failed_satellites: failed,
            rtt_nyc,
            rtt_singapore,
            rtt_johannesburg,
        }
    }
}

} // verus!
