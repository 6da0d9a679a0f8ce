use vstd::prelude::*;
use crate::graph::{ConnectionGraph, graph_nodes, graph_edges, graph_wf, graph_deg, deg_of,
    graph_new, graph_add_node, graph_add_edge, graph_degree, lemma_deg_of_insert_pair,
    lemma_deg_of_empty};
use crate::model::Model;
use crate::geometry::{spec_line_of_sight, is_sqrt_floor, dist_m, lemma_line_of_sight_symmetric,
    EARTH_RADIUS_SQ_M2};
use crate::vec3::lemma_dist_sq_symmetric;

verus! {

broadcast use vstd::set::group_set_axioms, vstd::map::group_map_axioms;

/// Satellite `v` exists and is alive in `m`.
pub open spec fn sat_alive(m: Model, v: usize) -> bool {
    v < m.satellites@.len() && m.satellites@[v as int].status
}

/// The static part of edge validity: distinct, both alive, and the first
/// has line of sight to the second's position. These facts do not change
/// while a strategy runs, whatever edges it adds.
pub open spec fn spec_link_possible(m: Model, a: usize, b: usize) -> bool {
    &&& a != b
    &&& sat_alive(m, a)
    &&& sat_alive(m, b)
    &&& spec_line_of_sight(m.satellites@[a as int].position, m.satellites@[b as int].position)
}

/// The edge-validity predicate: an edge `(a, b)` may enter `g` when both
/// endpoints are alive and distinct, neither is already at the degree
/// limit, and `a` has line of sight to `b`.
pub open spec fn spec_edge_valid(g: ConnectionGraph, m: Model, a: usize, b: usize) -> bool {
    &&& spec_link_possible(m, a, b)
    &&& graph_deg(g, a) < m.max_connections
    &&& graph_deg(g, b) < m.max_connections
}

/// The invariants every topology of this library keeps at refresh time:
/// the graph is well formed, every node and every edge endpoint is an alive
/// satellite, every edge joins satellites that had line of sight when the
/// edge was made, each weight is the Euclidean distance (in meters, rounded
/// down) between its endpoints at that moment, and no degree exceeds
/// `max_connections`.
pub open spec fn topology_ok(g: ConnectionGraph, m: Model) -> bool {
    &&& graph_wf(g)
    &&& forall|v: usize| #[trigger] graph_nodes(g).contains(v) ==> sat_alive(m, v)
    &&& forall|a: usize, b: usize| #[trigger]
        graph_edges(g).dom().contains((a, b)) ==> {
            &&& sat_alive(m, a)
            &&& sat_alive(m, b)
            &&& spec_line_of_sight(
                m.satellites@[a as int].position,
                m.satellites@[b as int].position,
            )
            &&& is_sqrt_floor(
                m.satellites@[a as int].position.spec_dist_sq(m.satellites@[b as int].position),
                graph_edges(g)[(a, b)] as int,
            )
        }
    &&& forall|v: usize| #[trigger] graph_deg(g, v) <= m.max_connections
}

/// Edge `(a, b)` no longer needs attention from a strategy: it is in the
/// graph, or it can never be added, or one of its endpoints is full. Each
/// disjunct is stable as the graph grows, so attempted edges stay attempted.
pub open spec fn attempted(g: ConnectionGraph, m: Model, a: usize, b: usize) -> bool {
    ||| graph_edges(g).dom().contains((a, b))
    ||| !spec_link_possible(m, a, b)
    ||| graph_deg(g, a) >= m.max_connections
    ||| graph_deg(g, b) >= m.max_connections
}

/// Returns whether the edge-validity predicate admits `(a, b)` into `g`.
pub fn is_edge_valid(topology: &ConnectionGraph, model: &Model, a: usize, b: usize) -> (r: bool)
    requires
        model.wf(),
        a < model.satellites@.len(),
        b < model.satellites@.len(),
    ensures
        r == spec_edge_valid(*topology, *model, a, b),
{
    let sat_a = &model.satellites[a];
    let sat_b = &model.satellites[b];
    let both_alive = sat_a.status && sat_b.status;
    let connections_available = graph_degree(topology, a) < model.max_connections
        && graph_degree(topology, b) < model.max_connections;
    a != b && both_alive && connections_available && sat_a.has_line_of_sight(&sat_b.position)
}

/// Adds the edge `(a, b)` to the topology when the validity predicate
/// admits it, weighted with the endpoint distance in meters; otherwise
/// leaves the topology unchanged. Keeps every topology invariant, and
/// never lowers a degree.
pub fn add_edge(topology: &mut ConnectionGraph, model: &Model, a: usize, b: usize)
    requires
        model.wf(),
        a < model.satellites@.len(),
        b < model.satellites@.len(),
        topology_ok(*old(topology), *model),
    ensures
        topology_ok(*final(topology), *model),
        forall|v: usize| #[trigger] graph_deg(*final(topology), v) >= graph_deg(*old(topology), v),
        spec_edge_valid(*old(topology), *model, a, b) ==> {
            &&& graph_nodes(*final(topology)) == graph_nodes(*old(topology)).insert(a).insert(b)
            &&& graph_edges(*final(topology)).dom() == graph_edges(*old(topology)).dom().insert(
                (a, b),
            ).insert((b, a))
        },
        !spec_edge_valid(*old(topology), *model, a, b) ==> {
            &&& graph_nodes(*final(topology)) == graph_nodes(*old(topology))
            &&& graph_edges(*final(topology)) == graph_edges(*old(topology))
        },
        attempted(*final(topology), *model, a, b),
{
    if is_edge_valid(topology, model, a, b) {
        let w: u64 = dist_m(&model.satellites[a].position, &model.satellites[b].position);
        let ghost old_edges = graph_edges(*topology);
        graph_add_edge(topology, a, b, w);
        proof {
            assert(graph_edges(*topology).dom() =~= old_edges.dom().insert((a, b)).insert(
                (b, a),
            ));
            assert forall|v: usize| #[trigger] graph_deg(*topology, v) <= model.max_connections
                && graph_deg(*topology, v) >= graph_deg(*old(topology), v) by {
                assert(graph_deg(*old(topology), v) == deg_of(old_edges, v));
                assert(graph_deg(*old(topology), v) <= model.max_connections);
                lemma_deg_of_insert_pair(old_edges, a, b, w, v);
            }
            let m = *model;
            assert forall|x: usize, y: usize| #[trigger]
                graph_edges(*topology).dom().contains((x, y)) implies {
                &&& sat_alive(m, x)
                &&& sat_alive(m, y)
                &&& spec_line_of_sight(
                    m.satellites@[x as int].position,
                    m.satellites@[y as int].position,
                )
                &&& is_sqrt_floor(
                    m.satellites@[x as int].position.spec_dist_sq(
                        m.satellites@[y as int].position,
                    ),
                    graph_edges(*topology)[(x, y)] as int,
                )
            } by {
                let pa = m.satellites@[a as int].position;
                let pb = m.satellites@[b as int].position;
                if x == a && y == b {
                    assert(graph_edges(*topology)[(x, y)] == w);
                } else if x == b && y == a {
                    assert(graph_edges(*topology)[(x, y)] == w);
                    lemma_line_of_sight_symmetric(pa, pb, EARTH_RADIUS_SQ_M2 as int);
                    lemma_dist_sq_symmetric(pa, pb);
                } else {
                    assert(old_edges.dom().contains((x, y)));
                    assert(graph_edges(*topology)[(x, y)] == old_edges[(x, y)]);
                    assert(graph_edges(*old(topology)).dom().contains((x, y)));
                }
            }
        }
    }
}

/// Number of satellites in each plane, read off a model whose satellite
/// count divides evenly among its planes.
pub open spec fn grid_sats_per_plane(m: Model) -> int {
    m.satellites@.len() as int / m.orbital_planes@.len() as int
}

/// The successor of `a` along its intra-plane ring.
pub open spec fn ring_partner(m: Model, a: usize) -> usize {
    let s = grid_sats_per_plane(m);
    ((a as int / s) * s + ((a as int % s) + 1) % s) as usize
}

/// The satellite the grid seam joins to `a` in the next plane, `off` slots
/// ahead.
pub open spec fn seam_partner(m: Model, off: int, a: usize) -> usize {
    let s = grid_sats_per_plane(m);
    let p = m.orbital_planes@.len() as int;
    (((a as int / s + 1) % p) * s + ((a as int % s) + off) % s) as usize
}

/// `(x, y)` is one of the pairs the grid strategy with offset `off`
/// attempts: a ring edge within a plane, or a seam edge to the next plane.
pub open spec fn is_grid_pair(m: Model, off: int, x: usize, y: usize) -> bool {
    x < m.satellites@.len() && (y == ring_partner(m, x) || y == seam_partner(m, off, x))
}

/// Index arithmetic of a plane-major grid: slot `st` of plane `pl` has a
/// valid index whose division recovers the pair.
proof fn lemma_grid_index(p: int, s: int, pl: int, st: int)
    requires
        0 <= pl < p,
        0 <= st < s,
    ensures
        0 <= pl * s + st < p * s,
        (pl * s + st) / s == pl,
        (pl * s + st) % s == st,
{
    assert(0 <= pl * s + st < p * s) by (nonlinear_arith)
        requires
            0 <= pl < p,
            0 <= st < s,
    ;
    vstd::arithmetic::div_mod::lemma_fundamental_div_mod_converse(pl * s + st, s, pl, st);
}

/// A fresh topology holding one node for every alive satellite and no
/// edges.
pub fn alive_nodes_topology(model: &Model) -> (g: ConnectionGraph)
    requires
        model.wf(),
    ensures
        topology_ok(g, *model),
        forall|v: usize| #[trigger] graph_nodes(g).contains(v) <==> sat_alive(*model, v),
        forall|p: (usize, usize)| !graph_edges(g).dom().contains(p),
{
    let mut topology = graph_new();
    let n: usize = model.satellites.len();
    let mut k: usize = 0;
    while k < n
        invariant
            model.wf(),
            n == model.satellites@.len(),
            k <= n,
            graph_nodes(topology).finite(),
            graph_edges(topology).dom().finite(),
            forall|p: (usize, usize)| !graph_edges(topology).dom().contains(p),
            forall|v: usize| #[trigger]
                graph_nodes(topology).contains(v) <==> (v < k && sat_alive(*model, v)),
        decreases n - k,
    {
        if model.satellites[k].status {
            graph_add_node(&mut topology, k);
        }
        k += 1;
    }
    proof {
        assert forall|v: usize| #[trigger] graph_deg(topology, v) == 0 by {
            lemma_deg_of_empty(graph_edges(topology), v);
        }
    }
    topology
}

/// The grid connection strategy: an intra-plane ring plus an inter-plane
/// seam shifted by `offset` slots.
pub struct GridStrategy {
    pub offset: usize,
}

impl GridStrategy {
    pub fn new(offset: usize) -> (r: GridStrategy)
        ensures
            r.offset == offset,
    {
        GridStrategy { offset }
    }

    /// Builds a fresh topology over the alive satellites: for each plane a
    /// ring through its satellites, and for each slot a seam to the next
    /// plane `offset` slots ahead; each candidate edge enters only if the
    /// validity predicate admits it. The result keeps every topology
    /// invariant, holds only grid pairs, and every grid pair was attempted:
    /// it is in the graph, or it never was addable, or an endpoint is full.
    pub fn run(&self, model: &Model) -> (g: ConnectionGraph)
        requires
            model.wf(),
            1 <= model.orbital_planes@.len() <= model.satellites@.len(),
            model.satellites@.len() % model.orbital_planes@.len() == 0,
            model.satellites@.len() <= 0x10_0000,
            self.offset <= 0x10_0000,
        ensures
            topology_ok(g, *model),
            forall|v: usize| #[trigger] graph_nodes(g).contains(v) <==> sat_alive(*model, v),
            forall|x: usize, y: usize| #[trigger]
                graph_edges(g).dom().contains((x, y)) ==> is_grid_pair(
                    *model,
                    self.offset as int,
                    x,
                    y,
                ) || is_grid_pair(*model, self.offset as int, y, x),
            forall|x: usize, y: usize| #[trigger]
                is_grid_pair(*model, self.offset as int, x, y) ==> attempted(g, *model, x, y),
    {
        let n: usize = model.satellites.len();
        let num_planes: usize = model.orbital_planes.len();
        let sats_per_plane: usize = n / num_planes;
        let ghost m = *model;
        let ghost off = self.offset as int;
        proof {
            vstd::arithmetic::div_mod::lemma_fundamental_div_mod(n as int, num_planes as int);
            assert(sats_per_plane >= 1 && n == num_planes * sats_per_plane) by (nonlinear_arith)
                requires
                    1 <= num_planes as int <= n as int,
                    n as int == (num_planes as int) * (n as int / num_planes as int) + (n as int)
                        % (num_planes as int),
                    n as int % (num_planes as int) == 0,
                    sats_per_plane as int == n as int / num_planes as int,
            ;
        }
        let mut topology = alive_nodes_topology(model);
        let mut plane: usize = 0;
        while plane < num_planes
            invariant
                m == *model,
                off == self.offset as int,
                model.wf(),
                n == m.satellites@.len(),
                num_planes == m.orbital_planes@.len(),
                1 <= num_planes <= n,
                n <= 0x10_0000,
                self.offset <= 0x10_0000,
                sats_per_plane == grid_sats_per_plane(m),
                1 <= sats_per_plane,
                n == num_planes * sats_per_plane,
                plane <= num_planes,
                topology_ok(topology, m),
                forall|v: usize| #[trigger] graph_nodes(topology).contains(v) <==> sat_alive(m, v),
                forall|x: usize, y: usize| #[trigger]
                    graph_edges(topology).dom().contains((x, y)) ==> is_grid_pair(m, off, x, y)
                        || is_grid_pair(m, off, y, x),
                forall|x: usize|
                    x < plane * sats_per_plane ==> #[trigger] attempted(
                        topology,
                        m,
                        x,
                        ring_partner(m, x),
                    ),
            decreases num_planes - plane,
        {
            proof {
                assert((plane as int) * (sats_per_plane as int) + sats_per_plane as int <= n as int)
                    by (nonlinear_arith)
                    requires
                        (plane as int) < (num_planes as int),
                        n as int == (num_planes as int) * (sats_per_plane as int),
                        0 <= sats_per_plane as int,
                ;
            }
            let start: usize = plane * sats_per_plane;
            let mut sat: usize = 0;
            while sat < sats_per_plane
                invariant
                    m == *model,
                    off == self.offset as int,
                    model.wf(),
                    n == m.satellites@.len(),
                    num_planes == m.orbital_planes@.len(),
                    1 <= num_planes <= n,
                    n <= 0x10_0000,
                    self.offset <= 0x10_0000,
                    sats_per_plane == grid_sats_per_plane(m),
                    1 <= sats_per_plane,
                    n == num_planes * sats_per_plane,
                    plane < num_planes,
                    start == plane * sats_per_plane,
                    sat <= sats_per_plane,
                    topology_ok(topology, m),
                    forall|v: usize| #[trigger]
                        graph_nodes(topology).contains(v) <==> sat_alive(m, v),
                    forall|x: usize, y: usize| #[trigger]
                        graph_edges(topology).dom().contains((x, y)) ==> is_grid_pair(m, off, x, y)
                            || is_grid_pair(m, off, y, x),
                    forall|x: usize|
                        x < plane * sats_per_plane + sat ==> #[trigger] attempted(
                            topology,
                            m,
                            x,
                            ring_partner(m, x),
                        ),
                decreases sats_per_plane - sat,
            {
                proof {
                    lemma_grid_index(
                        num_planes as int,
                        sats_per_plane as int,
                        plane as int,
                        sat as int,
                    );
                    lemma_grid_index(
                        num_planes as int,
                        sats_per_plane as int,
                        plane as int,
                        (sat as int + 1) % (sats_per_plane as int),
                    );
                }
                let a: usize = start + sat;
                let b: usize = start + (sat + 1) % sats_per_plane;
                proof {
                    assert(ring_partner(m, a) == b);
                }
                let ghost pre = topology;
                add_edge(&mut topology, model, a, b);
                proof {
                    self.lemma_after_attempt(pre, topology, m, a, b);
                    assert(is_grid_pair(m, off, a, b));
                    assert forall|x: usize| x < plane * sats_per_plane + sat + 1 implies
                        #[trigger] attempted(topology, m, x, ring_partner(m, x)) by {
                        if x < plane * sats_per_plane + sat {
                            assert(attempted(pre, m, x, ring_partner(m, x)));
                            lemma_attempted_monotone(pre, topology, m, x, ring_partner(m, x));
                        } else {
                            assert(x == a);
                        }
                    }
                }
                sat += 1;
            }
            proof {
                assert((plane + 1) * sats_per_plane == plane * sats_per_plane + sats_per_plane)
                    by (nonlinear_arith);
            }
            plane += 1;
        }
        let mut sat: usize = 0;
        while sat < sats_per_plane
            invariant
                m == *model,
                off == self.offset as int,
                model.wf(),
                n == m.satellites@.len(),
                num_planes == m.orbital_planes@.len(),
                1 <= num_planes <= n,
                n <= 0x10_0000,
                self.offset <= 0x10_0000,
                sats_per_plane == grid_sats_per_plane(m),
                1 <= sats_per_plane,
                n == num_planes * sats_per_plane,
                sat <= sats_per_plane,
                topology_ok(topology, m),
                forall|v: usize| #[trigger] graph_nodes(topology).contains(v) <==> sat_alive(m, v),
                forall|x: usize, y: usize| #[trigger]
                    graph_edges(topology).dom().contains((x, y)) ==> is_grid_pair(m, off, x, y)
                        || is_grid_pair(m, off, y, x),
                forall|x: usize|
                    x < n ==> #[trigger] attempted(topology, m, x, ring_partner(m, x)),
                forall|x: usize|
                    x < n && x as int % (sats_per_plane as int) < sat ==> #[trigger] attempted(
                        topology,
                        m,
                        x,
                        seam_partner(m, off, x),
                    ),
            decreases sats_per_plane - sat,
        {
            let mut plane: usize = 0;
            while plane < num_planes
                invariant
                    m == *model,
                    off == self.offset as int,
                    model.wf(),
                    n == m.satellites@.len(),
                    num_planes == m.orbital_planes@.len(),
                    1 <= num_planes <= n,
                    n <= 0x10_0000,
                    self.offset <= 0x10_0000,
                    sats_per_plane == grid_sats_per_plane(m),
                    1 <= sats_per_plane,
                    n == num_planes * sats_per_plane,
                    sat < sats_per_plane,
                    plane <= num_planes,
                    topology_ok(topology, m),
                    forall|v: usize| #[trigger]
                        graph_nodes(topology).contains(v) <==> sat_alive(m, v),
                    forall|x: usize, y: usize| #[trigger]
                        graph_edges(topology).dom().contains((x, y)) ==> is_grid_pair(m, off, x, y)
                            || is_grid_pair(m, off, y, x),
                    forall|x: usize|
                        x < n ==> #[trigger] attempted(topology, m, x, ring_partner(m, x)),
                    forall|x: usize|
                        x < n && (x as int % (sats_per_plane as int) < sat || (x as int % (
                        sats_per_plane as int) == sat && x as int / (sats_per_plane as int)
                            < plane)) ==> #[trigger] attempted(
                            topology,
                            m,
                            x,
                            seam_partner(m, off, x),
                        ),
                decreases num_planes - plane,
            {
                proof {
                    lemma_grid_index(
                        num_planes as int,
                        sats_per_plane as int,
                        plane as int,
                        sat as int,
                    );
                    lemma_grid_index(
                        num_planes as int,
                        sats_per_plane as int,
                        (plane as int + 1) % (num_planes as int),
                        (sat as int + self.offset as int) % (sats_per_plane as int),
                    );
                }
                let a: usize = plane * sats_per_plane + sat;
                let b: usize = ((plane + 1) % num_planes) * sats_per_plane + (sat + self.offset)
                    % sats_per_plane;
                proof {
                    assert(seam_partner(m, off, a) == b);
                }
                let ghost pre = topology;
                add_edge(&mut topology, model, a, b);
                proof {
                    self.lemma_after_attempt(pre, topology, m, a, b);
                    assert(is_grid_pair(m, off, a, b));
                    assert forall|x: usize|
                        x < n && (x as int % (sats_per_plane as int) < sat || (x as int % (
                        sats_per_plane as int) == sat && x as int / (sats_per_plane as int) < plane
                            + 1)) implies #[trigger] attempted(
                        topology,
                        m,
                        x,
                        seam_partner(m, off, x),
                    ) by {
                        if x as int % (sats_per_plane as int) < sat || (x as int % (
                        sats_per_plane as int) == sat && x as int / (sats_per_plane as int)
                            < plane) {
                            assert(attempted(pre, m, x, seam_partner(m, off, x)));
                            lemma_attempted_monotone(pre, topology, m, x, seam_partner(m, off, x));
                        } else {
                            vstd::arithmetic::div_mod::lemma_fundamental_div_mod(
                                x as int,
                                sats_per_plane as int,
                            );
                            vstd::arithmetic::mul::lemma_mul_is_commutative(
                                sats_per_plane as int,
                                plane as int,
                            );
                            assert(x == a);
                        }
                    }
                    assert forall|x: usize| x < n implies #[trigger] attempted(
                        topology,
                        m,
                        x,
                        ring_partner(m, x),
                    ) by {
                        assert(attempted(pre, m, x, ring_partner(m, x)));
                        lemma_attempted_monotone(pre, topology, m, x, ring_partner(m, x));
                    }
                }
                plane += 1;
            }
            proof {
                assert forall|x: usize| x < n implies #[trigger] (x as int / (
                sats_per_plane as int)) < num_planes as int by {
                    vstd::arithmetic::mul::lemma_mul_is_commutative(
                        sats_per_plane as int,
                        num_planes as int,
                    );
                    vstd::arithmetic::div_mod::lemma_multiply_divide_lt(
                        x as int,
                        sats_per_plane as int,
                        num_planes as int,
                    );
                }
            }
            sat += 1;
        }
        proof {
            assert forall|x: usize, y: usize| #[trigger]
                is_grid_pair(m, off, x, y) implies attempted(topology, m, x, y) by {
                assert(0 <= x as int % (sats_per_plane as int) < sats_per_plane as int);
            }
        }
        topology
    }

    /// The bookkeeping shared by every grid attempt: after `add_edge`, the
    /// node set still holds exactly the alive satellites, and every edge in
    /// the graph is still a grid pair, provided the newly attempted pair is
    /// one.
    proof fn lemma_after_attempt(
        &self,
        pre: ConnectionGraph,
        post: ConnectionGraph,
        m: Model,
        a: usize,
        b: usize,
    )
        requires
            topology_ok(pre, m),
            topology_ok(post, m),
            a < m.satellites@.len(),
            b < m.satellites@.len(),
            is_grid_pair(m, self.offset as int, a, b),
            forall|v: usize| #[trigger] graph_nodes(pre).contains(v) <==> sat_alive(m, v),
            forall|x: usize, y: usize| #[trigger]
                graph_edges(pre).dom().contains((x, y)) ==> is_grid_pair(m, self.offset as int, x, y)
                    || is_grid_pair(m, self.offset as int, y, x),
            spec_edge_valid(pre, m, a, b) ==> {
                &&& graph_nodes(post) == graph_nodes(pre).insert(a).insert(b)
                &&& graph_edges(post).dom() == graph_edges(pre).dom().insert((a, b)).insert((b, a))
            },
            !spec_edge_valid(pre, m, a, b) ==> {
                &&& graph_nodes(post) == graph_nodes(pre)
                &&& graph_edges(post) == graph_edges(pre)
            },
        ensures
            forall|v: usize| #[trigger] graph_nodes(post).contains(v) <==> sat_alive(m, v),
            forall|x: usize, y: usize| #[trigger]
                graph_edges(post).dom().contains((x, y)) ==> is_grid_pair(
                    m,
                    self.offset as int,
                    x,
                    y,
                ) || is_grid_pair(m, self.offset as int, y, x),
    {
        if spec_edge_valid(pre, m, a, b) {
            assert forall|v: usize| #[trigger] graph_nodes(post).contains(v) <==> sat_alive(m, v)
                by {
                assert(graph_nodes(pre).contains(a));
                assert(graph_nodes(pre).contains(b));
            }
            assert forall|x: usize, y: usize| #[trigger]
                graph_edges(post).dom().contains((x, y)) implies is_grid_pair(
                m,
                self.offset as int,
                x,
                y,
            ) || is_grid_pair(m, self.offset as int, y, x) by {
                if !((x == a && y == b) || (x == b && y == a)) {
                    assert(graph_edges(pre).dom().contains((x, y)));
                }
            }
        }
    }
}

/// Candidate order of the nearest-neighbor strategy: ascending squared
/// distance, ties broken by ascending satellite id.
pub open spec fn pair_le(a: (u64, usize), b: (u64, usize)) -> bool {
    a.0 < b.0 || (a.0 == b.0 && a.1 <= b.1)
}

/// Swapping two positions of a sequence keeps the same members.
proof fn lemma_swap_contains(s1: Seq<(u64, usize)>, s2: Seq<(u64, usize)>, a: int, b: int)
    requires
        0 <= a < s1.len(),
        0 <= b < s1.len(),
        s2 == s1.update(a, s1[b]).update(b, s1[a]),
    ensures
        forall|x: (u64, usize)| s1.contains(x) <==> s2.contains(x),
{
    assert forall|x: (u64, usize)| s1.contains(x) implies s2.contains(x) by {
        let i = choose|i: int| 0 <= i < s1.len() && s1[i] == x;
        if i == a {
            assert(s2[b] == x);
        } else if i == b {
            assert(s2[a] == x);
        } else {
            assert(s2[i] == x);
        }
    }
    assert forall|x: (u64, usize)| s2.contains(x) implies s1.contains(x) by {
        let i = choose|i: int| 0 <= i < s2.len() && s2[i] == x;
        if i == a {
            assert(s1[b] == x);
        } else if i == b {
            assert(s1[a] == x);
        } else {
            assert(s1[i] == x);
        }
    }
}

/// Sorts the candidate list by ascending squared distance, ties by
/// ascending id (insertion sort). The members are unchanged.
fn sort_candidates(v: &mut Vec<(u64, usize)>)
    ensures
        final(v)@.len() == old(v)@.len(),
        forall|i: int, j: int| 0 <= i < j < final(v)@.len() ==> pair_le(
            #[trigger] final(v)@[i],
            #[trigger] final(v)@[j],
        ),
        forall|x: (u64, usize)| #[trigger] final(v)@.contains(x) <==> old(v)@.contains(x),
{
    let n: usize = v.len();
    if n < 2 {
        return ;
    }
    let mut i: usize = 1;
    while i < n
        invariant
            n == v@.len(),
            n == old(v)@.len(),
            1 <= i <= n,
            forall|p: int, q: int| 0 <= p < q < i ==> pair_le(#[trigger] v@[p], #[trigger] v@[q]),
            forall|x: (u64, usize)| #[trigger] v@.contains(x) <==> old(v)@.contains(x),
        decreases n - i,
    {
        let mut j: usize = i;
        while j > 0 && (v[j].0 < v[j - 1].0 || (v[j].0 == v[j - 1].0 && v[j].1 < v[j - 1].1))
            invariant
                n == v@.len(),
                n == old(v)@.len(),
                0 <= j <= i < n,
                forall|p: int, q: int|
                    0 <= p < q <= i as int && q != j ==> pair_le(
                        #[trigger] v@[p],
                        #[trigger] v@[q],
                    ),
                forall|x: (u64, usize)| #[trigger] v@.contains(x) <==> old(v)@.contains(x),
            decreases j,
        {
            let here: (u64, usize) = v[j];
            let there: (u64, usize) = v[j - 1];
            let ghost before = v@;
            v[j - 1] = here;
            v[j] = there;
            proof {
                assert(v@ == before.update(j - 1, before[j as int]).update(j as int, before[j - 1]));
                lemma_swap_contains(before, v@, j - 1, j as int);
            }
            j -= 1;
        }
        proof {
            assert forall|p: int, q: int| 0 <= p < q <= i as int implies pair_le(
                #[trigger] v@[p],
                #[trigger] v@[q],
            ) by {
                if q == j as int && p < j - 1 {
                    assert(pair_le(v@[p], v@[j - 1]));
                    assert(pair_le(v@[j - 1], v@[j as int]));
                }
            }
        }
        i += 1;
    }
}

/// After one attempt, the node set still holds exactly the alive
/// satellites: an admitted edge only re-inserts nodes that were already
/// there.
proof fn lemma_nodes_iff_after_attempt(
    pre: ConnectionGraph,
    post: ConnectionGraph,
    m: Model,
    a: usize,
    b: usize,
)
    requires
        forall|v: usize| #[trigger] graph_nodes(pre).contains(v) <==> sat_alive(m, v),
        graph_nodes(post) == graph_nodes(pre) || (sat_alive(m, a) && sat_alive(m, b)
            && graph_nodes(post) == graph_nodes(pre).insert(a).insert(b)),
    ensures
        forall|v: usize| #[trigger] graph_nodes(post).contains(v) <==> sat_alive(m, v),
{
}

/// The nearest-neighbor connection strategy: each satellite greedily links
/// to its closest valid neighbors until it reaches the degree limit.
pub struct NearestNeighborStrategy {}

impl NearestNeighborStrategy {
    pub fn new() -> (r: NearestNeighborStrategy) {
        NearestNeighborStrategy {  }
    }

    /// Builds a fresh topology over the alive satellites: each satellite,
    /// in id order, walks the other alive satellites in order of ascending
    /// squared distance (ties by ascending id) and adds every edge the
    /// validity predicate admits, until its degree reaches the limit. In
    /// the result no addable edge is left: for every pair that is alive,
    /// distinct and in sight, either the edge is present or one endpoint
    /// is at the degree limit.
    pub fn run(&self, model: &Model) -> (g: ConnectionGraph)
        requires
            model.wf(),
        ensures
            topology_ok(g, *model),
            forall|v: usize| #[trigger] graph_nodes(g).contains(v) <==> sat_alive(*model, v),
            forall|x: usize, y: usize| #[trigger]
                spec_link_possible(*model, x, y) ==> attempted(g, *model, x, y),
    {
        let n: usize = model.satellites.len();
        let ghost m = *model;
        let mut topology = alive_nodes_topology(model);
        let mut a: usize = 0;
        while a < n
            invariant
                m == *model,
                model.wf(),
                n == m.satellites@.len(),
                a <= n,
                topology_ok(topology, m),
                forall|v: usize| #[trigger] graph_nodes(topology).contains(v) <==> sat_alive(m, v),
                forall|x: usize, y: usize|
                    x < a && #[trigger] spec_link_possible(m, x, y) ==> attempted(
                        topology,
                        m,
                        x,
                        y,
                    ),
            decreases n - a,
        {
            if model.satellites[a].status {
                let mut cands: Vec<(u64, usize)> = Vec::new();
                let mut b: usize = 0;
                while b < n
                    invariant
                        m == *model,
                        model.wf(),
                        n == m.satellites@.len(),
                        a < n,
                        b <= n,
                        forall|i: int|
                            0 <= i < cands@.len() ==> sat_alive(m, (#[trigger] cands@[i]).1)
                                && cands@[i].1 != a,
                        forall|y: usize|
                            y < b && #[trigger] sat_alive(m, y) && y != a ==> exists|i: int|
                                0 <= i < cands@.len() && (#[trigger] cands@[i]).1 == y,
                    decreases n - b,
                {
                    if b != a && model.satellites[b].status {
                        let d: u64 = model.satellites[a].position.dist_sq(
                            &model.satellites[b].position,
                        );
                        let ghost pre_push = cands@;
                        cands.push((d, b));
                        proof {
                            assert forall|y: usize|
                                y < b + 1 && #[trigger] sat_alive(m, y) && y != a implies exists|
                                i: int,
                            | 0 <= i < cands@.len() && (#[trigger] cands@[i]).1 == y by {
                                if y == b {
                                    assert(cands@[cands@.len() - 1].1 == y);
                                } else {
                                    let i0 = choose|i0: int|
                                        0 <= i0 < pre_push.len() && (#[trigger] pre_push[i0]).1
                                            == y;
                                    assert(cands@[i0].1 == y);
                                }
                            }
                        }
                    }
                    b += 1;
                }
                let ghost unsorted = cands@;
                sort_candidates(&mut cands);
                proof {
                    assert forall|i: int|
                        0 <= i < cands@.len() implies sat_alive(m, (#[trigger] cands@[i]).1)
                        && cands@[i].1 != a by {
                        assert(cands@.contains(cands@[i]));
                    }
                    assert forall|y: usize|
                        #[trigger] sat_alive(m, y) && y < n && y != a implies exists|i: int|
                        0 <= i < cands@.len() && (#[trigger] cands@[i]).1 == y by {
                        let i0 = choose|i0: int| 0 <= i0 < unsorted.len() && (unsorted[i0]).1
                            == y;
                        assert(unsorted.contains(unsorted[i0]));
                        assert(cands@.contains(unsorted[i0]));
                        let i1 = choose|i1: int| 0 <= i1 < cands@.len() && cands@[i1]
                            == unsorted[i0];
                        assert(cands@[i1].1 == y);
                    }
                }
                let mut j: usize = 0;
                while j < cands.len() && graph_degree(&topology, a) < model.max_connections
                    invariant
                        m == *model,
                        model.wf(),
                        n == m.satellites@.len(),
                        a < n,
                        j <= cands@.len(),
                        forall|i: int|
                            0 <= i < cands@.len() ==> sat_alive(m, (#[trigger] cands@[i]).1)
                                && cands@[i].1 != a,
                        topology_ok(topology, m),
                        forall|v: usize| #[trigger]
                            graph_nodes(topology).contains(v) <==> sat_alive(m, v),
                        forall|x: usize, y: usize|
                            x < a && #[trigger] spec_link_possible(m, x, y) ==> attempted(
                                topology,
                                m,
                                x,
                                y,
                            ),
                        forall|i: int|
                            0 <= i < j ==> attempted(topology, m, a, (#[trigger] cands@[i]).1),
                    decreases cands@.len() - j,
                {
                    let cb: usize = cands[j].1;
                    let ghost pre = topology;
                    add_edge(&mut topology, model, a, cb);
                    proof {
                        lemma_nodes_iff_after_attempt(pre, topology, m, a, cb);
                        assert forall|x: usize, y: usize|
                            x < a && #[trigger] spec_link_possible(m, x, y) implies attempted(
                            topology,
                            m,
                            x,
                            y,
                        ) by {
                            assert(attempted(pre, m, x, y));
                            lemma_attempted_monotone(pre, topology, m, x, y);
                        }
                        assert forall|i: int| 0 <= i < j + 1 implies attempted(
                            topology,
                            m,
                            a,
                            (#[trigger] cands@[i]).1,
                        ) by {
                            if i < j {
                                assert(attempted(pre, m, a, cands@[i].1));
                                lemma_attempted_monotone(pre, topology, m, a, cands@[i].1);
                            }
                        }
                    }
                    j += 1;
                }
                proof {
                    assert forall|x: usize, y: usize|
                        x < a + 1 && #[trigger] spec_link_possible(m, x, y) implies attempted(
                        topology,
                        m,
                        x,
                        y,
                    ) by {
                        if x == a {
                            if graph_deg(topology, a) >= m.max_connections {
                            } else {
                                let i = choose|i: int|
                                    0 <= i < cands@.len() && (#[trigger] cands@[i]).1 == y;
                                assert(attempted(topology, m, a, cands@[i].1));
                            }
                        }
                    }
                }
            } else {
                proof {
                    assert forall|x: usize, y: usize|
                        x < a + 1 && #[trigger] spec_link_possible(m, x, y) implies attempted(
                        topology,
                        m,
                        x,
                        y,
                    ) by {}
                }
            }
            a += 1;
        }
        topology
    }
}

impl Default for NearestNeighborStrategy {
    fn default() -> (r: NearestNeighborStrategy) {
        NearestNeighborStrategy::new()
    }
}

/// Every disjunct of `attempted` is stable as a topology grows: edges stay,
/// impossibility is static, and degrees never shrink.
pub proof fn lemma_attempted_monotone(
    pre: ConnectionGraph,
    post: ConnectionGraph,
    m: Model,
    x: usize,
    y: usize,
)
    requires
        attempted(pre, m, x, y),
        forall|p: (usize, usize)| #[trigger]
            graph_edges(pre).dom().contains(p) ==> graph_edges(post).dom().contains(p),
        graph_deg(post, x) >= graph_deg(pre, x),
        graph_deg(post, y) >= graph_deg(pre, y),
    ensures
        attempted(post, m, x, y),
{
}

/// After every refresh, no satellite's degree exceeds `max_connections`.
pub proof fn lemma_refresh_degree_bound(g: ConnectionGraph, m: Model, v: usize)
    requires
        topology_ok(g, m),
    ensures
        graph_deg(g, v) <= m.max_connections,
{
}

/// After every refresh, both endpoints of every edge are alive.
pub proof fn lemma_refresh_endpoints_alive(g: ConnectionGraph, m: Model, a: usize, b: usize)
    requires
        topology_ok(g, m),
        graph_edges(g).dom().contains((a, b)),
    ensures
        sat_alive(m, a),
        sat_alive(m, b),
{
}

/// After every refresh, the endpoints of every edge had line of sight at
/// refresh time, and the edge weight is their distance in meters at that
/// moment.
pub proof fn lemma_refresh_line_of_sight(g: ConnectionGraph, m: Model, a: usize, b: usize)
    requires
        topology_ok(g, m),
        graph_edges(g).dom().contains((a, b)),
    ensures
        spec_line_of_sight(m.satellites@[a as int].position, m.satellites@[b as int].position),
        is_sqrt_floor(
            m.satellites@[a as int].position.spec_dist_sq(m.satellites@[b as int].position),
            graph_edges(g)[(a, b)] as int,
        ),
{
}

/// The part of the topology invariant that outlives position updates: the
/// graph is well formed, every node and edge endpoint is an alive
/// satellite, and no degree exceeds the limit. Line-of-sight and weights
/// speak of positions at refresh time, so they are not carried here.
pub open spec fn topology_live_ok(g: ConnectionGraph, m: Model) -> bool {
    &&& graph_wf(g)
    &&& forall|v: usize| #[trigger] graph_nodes(g).contains(v) ==> sat_alive(m, v)
    &&& forall|a: usize, b: usize| #[trigger]
        graph_edges(g).dom().contains((a, b)) ==> sat_alive(m, a) && sat_alive(m, b)
    &&& forall|v: usize| #[trigger] graph_deg(g, v) <= m.max_connections
}

/// The refresh-time invariant implies the persistent one.
pub proof fn lemma_topology_ok_live(g: ConnectionGraph, m: Model)
    requires
        topology_ok(g, m),
    ensures
        topology_live_ok(g, m),
{
}

/// No work the strategy owes is left undone in `g`: for the grid, every
/// grid pair was attempted and every edge is a grid pair; for the
/// nearest-neighbor strategy, every addable pair was attempted. An
/// edge-free graph over the alive satellites never satisfies this while
/// an addable pair exists.
pub open spec fn strategy_saturated(s: ConnectionStrategy, m: Model, g: ConnectionGraph) -> bool {
    match s {
        ConnectionStrategy::Grid(gs) => {
            &&& forall|x: usize, y: usize| #[trigger]
                graph_edges(g).dom().contains((x, y)) ==> is_grid_pair(m, gs.offset as int, x, y)
                    || is_grid_pair(m, gs.offset as int, y, x)
            &&& forall|x: usize, y: usize| #[trigger]
                is_grid_pair(m, gs.offset as int, x, y) ==> attempted(g, m, x, y)
        },
        ConnectionStrategy::NearestNeighbor(_) => forall|x: usize, y: usize| #[trigger]
            spec_link_possible(m, x, y) ==> attempted(g, m, x, y),
    }
}

/// The connection strategy in use: one operation over the model returning
/// a fresh graph.
pub enum ConnectionStrategy {
    Grid(GridStrategy),
    NearestNeighbor(NearestNeighborStrategy),
}

impl ConnectionStrategy {
    /// What a strategy asks of the model it runs over: the grid needs the
    /// satellites to divide evenly among the planes and bounded sizes; the
    /// nearest-neighbor strategy runs over any well-formed model.
    pub open spec fn fits(self, m: Model) -> bool {
        match self {
            ConnectionStrategy::Grid(gs) => {
                &&& 1 <= m.orbital_planes@.len() <= m.satellites@.len()
                &&& m.satellites@.len() % m.orbital_planes@.len() == 0
                &&& m.satellites@.len() <= 0x10_0000
                &&& gs.offset <= 0x10_0000
            },
            ConnectionStrategy::NearestNeighbor(_) => true,
        }
    }

    /// Produces a fresh, valid connection graph from the current model.
    pub fn run(&self, model: &Model) -> (g: ConnectionGraph)
        requires
            model.wf(),
            self.fits(*model),
        ensures
            topology_ok(g, *model),
            forall|v: usize| #[trigger] graph_nodes(g).contains(v) <==> sat_alive(*model, v),
            strategy_saturated(*self, *model, g),
    {
        match self {
            ConnectionStrategy::Grid(gs) => gs.run(model),
            ConnectionStrategy::NearestNeighbor(ns) => ns.run(model),
        }
    }
}

} // verus!
