use vstd::prelude::*;
use crate::graph::{ConnectionGraph, graph_nodes, graph_edges, graph_wf, graph_deg,
    graph_remove_node, lemma_deg_of_remove_node, deg_of, graph_clone, graph_edge_list,
    graph_node_list, graph_add_edge, graph_shortest_path_cost, lemma_node_count_bound, is_path,
    path_cost, connected, incident_pairs};
use crate::model::{Model, Satellite, OrbitalPlane};
use crate::strategy::{ConnectionStrategy, topology_ok, topology_live_ok, lemma_topology_ok_live,
    sat_alive, strategy_saturated};
use crate::rng::{rng_from_seed, rng_next_u64};
use crate::geometry::{spec_in_view_cone, sqrt_floor, lemma_sqrt_floor_eq, lemma_sqrt_floor_bound,
    dist_m};
use crate::vec3::{Vec3, lemma_dist_sq_symmetric, lemma_dist_sq_range};

verus! {

broadcast use vstd::set::group_set_axioms, vstd::map::group_map_axioms;

/// Largest admissible failure threshold: draws are 53-bit, so this
/// threshold makes failure certain.
pub const FAILURE_CERTAIN: u64 = 0x20_0000_0000_0000;

/// The authoritative simulation state: the model, the clock parameters,
/// the failure model, and the current connection topology.
pub struct Simulation {
    pub model: Model,
    /// Simulated time per tick, in microseconds.
    pub time_step: u64,
    /// Simulated time between topology refreshes, in microseconds.
    pub connection_refresh_interval: u64,
    /// Time of the last topology refresh, in microseconds.
    pub last_update_timestamp: u64,
    /// Per-refresh chance for an alive satellite to fail, as a threshold
    /// against a 53-bit draw: a draw below it kills the satellite.
    pub recurrent_failure_threshold: u64,
    pub rng: rand::rngs::StdRng,
    pub topology: ConnectionGraph,
    pub strategy: ConnectionStrategy,
}

impl Simulation {
    /// The state invariant: a well-formed model the strategy can run over,
    /// a topology whose nodes and edges join alive satellites within the
    /// degree limit, and a refresh clock that never runs ahead of time.
    pub open spec fn wf(self) -> bool {
        &&& self.model.wf()
        &&& self.strategy.fits(self.model)
        &&& topology_live_ok(self.topology, self.model)
        &&& self.last_update_timestamp <= self.model.t
        &&& self.recurrent_failure_threshold <= FAILURE_CERTAIN
    }

    /// Builds the simulation: seeds the generator, kills each satellite
    /// independently with the starting-failure chance, and computes the
    /// initial topology. Failures only turn satellites dead; everything
    /// else of the model is kept.
    pub fn new(
        model: Model,
        time_step: u64,
        connection_refresh_interval: u64,
        rng_seed: u64,
        starting_failure_threshold: u64,
        recurrent_failure_threshold: u64,
        strategy: ConnectionStrategy,
    ) -> (r: Simulation)
        requires
            model.wf(),
            strategy.fits(model),
            starting_failure_threshold <= FAILURE_CERTAIN,
            recurrent_failure_threshold <= FAILURE_CERTAIN,
        ensures
            r.wf(),
            topology_ok(r.topology, r.model),
            forall|v: usize| #[trigger] graph_nodes(r.topology).contains(v) <==> sat_alive(
                r.model,
                v,
            ),
            r.model.t == model.t,
            r.model.orbital_planes == model.orbital_planes,
            r.model.max_connections == model.max_connections,
            r.model.satellites@.len() == model.satellites@.len(),
            forall|k: int|
                0 <= k < model.satellites@.len() ==> #[trigger] r.model.satellites@[k]
                    == model.satellites@[k] || r.model.satellites@[k] == (Satellite {
                    status: false,
                    ..model.satellites@[k]
                }),
            starting_failure_threshold == 0 ==> r.model.satellites@ == model.satellites@,
            starting_failure_threshold == FAILURE_CERTAIN ==> forall|k: int|
                0 <= k < model.satellites@.len() ==> !(#[trigger] r.model.satellites@[k]).status,
            strategy_saturated(r.strategy, r.model, r.topology),
            r.time_step == time_step,
            r.connection_refresh_interval == connection_refresh_interval,
            r.last_update_timestamp == model.t,
            r.recurrent_failure_threshold == recurrent_failure_threshold,
            r.strategy == strategy,
    {
        let ghost m0 = model;
        let mut model = model;
        let mut rng = rng_from_seed(rng_seed);
        if starting_failure_threshold > 0 {
            let n: usize = model.satellites.len();
            let mut k: usize = 0;
            while k < n
                invariant
                    starting_failure_threshold <= FAILURE_CERTAIN,
                    n == model.satellites@.len(),
                    n == m0.satellites@.len(),
                    k <= n,
                    model.wf(),
                    model.t == m0.t,
                    model.orbital_planes == m0.orbital_planes,
                    model.max_connections == m0.max_connections,
                    forall|j: int|
                        0 <= j < n ==> #[trigger] model.satellites@[j] == m0.satellites@[j]
                            || model.satellites@[j] == (Satellite {
                            status: false,
                            ..m0.satellites@[j]
                        }),
                    starting_failure_threshold == FAILURE_CERTAIN ==> forall|j: int|
                        0 <= j < k ==> !(#[trigger] model.satellites@[j]).status,
                decreases n - k,
            {
                let raw: u64 = rng_next_u64(&mut rng);
                let draw: u64 = raw >> 11;
                proof {
                    assert(raw >> 11 < 0x20_0000_0000_0000u64) by (bit_vector);
                }
                if draw < starting_failure_threshold {
                    model.set_status(k, false);
                }
                k += 1;
            }
        }
        let topology = strategy.run(&model);
        let r = Simulation {
            last_update_timestamp: model.t,
            model,
            time_step,
            connection_refresh_interval,
            recurrent_failure_threshold,
            rng,
            topology,
            strategy,
        };
        proof {
            lemma_topology_ok_live(r.topology, r.model);
        }
        r
    }

    pub fn t(&self) -> (r: u64)
        ensures
            r == self.model.t,
    {
        self.model.t
    }

    pub fn connection_refresh_interval(&self) -> (r: u64)
        ensures
            r == self.connection_refresh_interval,
    {
        self.connection_refresh_interval
    }

    pub fn satellites(&self) -> (r: &Vec<Satellite>)
        ensures
            r == &self.model.satellites,
    {
        &self.model.satellites
    }

    pub fn orbital_planes(&self) -> (r: &Vec<OrbitalPlane>)
        ensures
            r == &self.model.orbital_planes,
    {
        &self.model.orbital_planes
    }

    pub fn topology(&self) -> (r: &ConnectionGraph)
        ensures
            r == &self.topology,
    {
        &self.topology
    }

    /// One tick: the clock advances by one time step and the satellites
    /// take the freshly propagated positions; when a refresh is due, alive
    /// satellites fail with the recurrent-failure chance, the topology is
    /// rebuilt by the strategy, and the refresh clock catches up. Dead
    /// satellites never recover, and `t` never decreases.
    pub fn step(&mut self, new_positions: &Vec<Vec3>) -> (refreshed: bool)
        requires
            old(self).wf(),
            new_positions@.len() == old(self).model.satellites@.len(),
            forall|k: int| 0 <= k < new_positions@.len() ==> (#[trigger] new_positions@[k]).in_range(),
            old(self).model.t + old(self).time_step <= u64::MAX,
        ensures
            final(self).wf(),
            final(self).model.t == old(self).model.t + old(self).time_step,
            final(self).time_step == old(self).time_step,
            final(self).connection_refresh_interval == old(self).connection_refresh_interval,
            final(self).recurrent_failure_threshold == old(self).recurrent_failure_threshold,
            final(self).strategy == old(self).strategy,
            final(self).model.orbital_planes == old(self).model.orbital_planes,
            final(self).model.max_connections == old(self).model.max_connections,
            final(self).model.satellites@.len() == old(self).model.satellites@.len(),
            forall|k: int|
                0 <= k < old(self).model.satellites@.len()
                    && !(#[trigger] old(self).model.satellites@[k]).status
                    ==> !final(self).model.satellites@[k].status,
            forall|k: int|
                0 <= k < old(self).model.satellites@.len()
                    ==> #[trigger] final(self).model.satellites@[k] == (Satellite {
                    position: new_positions@[k],
                    status: final(self).model.satellites@[k].status,
                    ..old(self).model.satellites@[k]
                }),
            old(self).recurrent_failure_threshold == 0 ==> forall|k: int|
                0 <= k < old(self).model.satellites@.len()
                    ==> #[trigger] final(self).model.satellites@[k].status == old(
                    self,
                ).model.satellites@[k].status,
            refreshed == (old(self).model.t + old(self).time_step - old(
                self,
            ).last_update_timestamp >= old(self).connection_refresh_interval),
            refreshed ==> {
                &&& topology_ok(final(self).topology, final(self).model)
                &&& final(self).last_update_timestamp == final(self).model.t
                &&& strategy_saturated(
                    final(self).strategy,
                    final(self).model,
                    final(self).topology,
                )
                &&& forall|v: usize| #[trigger]
                    graph_nodes(final(self).topology).contains(v) <==> sat_alive(
                        final(self).model,
                        v,
                    )
            },
            !refreshed ==> {
                &&& graph_nodes(final(self).topology) == graph_nodes(old(self).topology)
                &&& graph_edges(final(self).topology) == graph_edges(old(self).topology)
                &&& final(self).last_update_timestamp == old(self).last_update_timestamp
                &&& forall|k: int|
                    0 <= k < old(self).model.satellites@.len()
                        ==> #[trigger] final(self).model.satellites@[k].status == old(
                        self,
                    ).model.satellites@[k].status
            },
    {
        let ghost pre = *self;
        self.model.increment_t(self.time_step, new_positions);
        let t: u64 = self.model.t;
        if t - self.last_update_timestamp >= self.connection_refresh_interval {
            if self.recurrent_failure_threshold > 0 {
                let n: usize = self.model.satellites.len();
                let ghost m1 = self.model;
                let mut k: usize = 0;
                while k < n
                    invariant
                        self.recurrent_failure_threshold <= FAILURE_CERTAIN,
                        n == self.model.satellites@.len(),
                        n == m1.satellites@.len(),
                        k <= n,
                        self.model.wf(),
                        self.model.t == m1.t,
                        self.model.orbital_planes == m1.orbital_planes,
                        self.model.max_connections == m1.max_connections,
                        self.time_step == pre.time_step,
                        self.connection_refresh_interval == pre.connection_refresh_interval,
                        self.last_update_timestamp == pre.last_update_timestamp,
                        self.recurrent_failure_threshold == pre.recurrent_failure_threshold,
                        self.strategy == pre.strategy,
                        forall|j: int|
                            0 <= j < n ==> #[trigger] self.model.satellites@[j]
                                == m1.satellites@[j] || self.model.satellites@[j] == (Satellite {
                                status: false,
                                ..m1.satellites@[j]
                            }),
                    decreases n - k,
                {
                    if self.model.satellites[k].status {
                        let raw: u64 = rng_next_u64(&mut self.rng);
                        let draw: u64 = raw >> 11;
                        if draw < self.recurrent_failure_threshold {
                            self.model.set_status(k, false);
                        }
                    }
                    k += 1;
                }
            }
            self.update_connections();
            proof {
                lemma_topology_ok_live(self.topology, self.model);
            }
            true
        } else {
            proof {
                assert forall|v: usize| #[trigger]
                    graph_nodes(self.topology).contains(v) implies sat_alive(self.model, v) by {
                    assert(sat_alive(pre.model, v));
                }
                assert forall|a: usize, b: usize| #[trigger]
                    graph_edges(self.topology).dom().contains((a, b)) implies sat_alive(
                    self.model,
                    a,
                ) && sat_alive(self.model, b) by {
                    assert(sat_alive(pre.model, a) && sat_alive(pre.model, b));
                }
            }
            false
        }
    }

    /// Replaces the topology with a fresh run of the strategy over the
    /// current model and marks the refresh time.
    pub fn update_connections(&mut self)
        requires
            old(self).model.wf(),
            old(self).strategy.fits(old(self).model),
        ensures
            final(self).model == old(self).model,
            final(self).time_step == old(self).time_step,
            final(self).connection_refresh_interval == old(self).connection_refresh_interval,
            final(self).recurrent_failure_threshold == old(self).recurrent_failure_threshold,
            final(self).strategy == old(self).strategy,
            topology_ok(final(self).topology, final(self).model),
            forall|v: usize| #[trigger]
                graph_nodes(final(self).topology).contains(v) <==> sat_alive(final(self).model, v),
            strategy_saturated(final(self).strategy, final(self).model, final(self).topology),
            final(self).last_update_timestamp == final(self).model.t,
    {
        self.last_update_timestamp = self.model.t;
        self.topology = self.strategy.run(&self.model);
    }

    /// Satellite `s` can carry a ground link to the surface point `p`: it
    /// is a node of the current topology and `p` lies in its footprint
    /// cone.
    pub open spec fn ground_link(self, p: Vec3, s: usize) -> bool {
        &&& s < self.model.satellites@.len()
        &&& graph_nodes(self.topology).contains(s)
        &&& spec_in_view_cone(
            self.model.satellites@[s as int].position,
            self.model.satellites@[s as int].semimajor_axis,
            p,
        )
    }

    /// The weight an edge of the round-trip graph carries: the current
    /// distance in meters (rounded down) between its two endpoints, where
    /// the virtual node `n` stands at `p1` and the virtual node `n + 1` at
    /// `p2`.
    pub open spec fn rtt_edge_weight(self, p1: Vec3, p2: Vec3, x: usize, y: usize) -> u64 {
        let n = self.model.satellites@.len() as int;
        if x == n {
            sqrt_floor(p1.spec_dist_sq(self.model.satellites@[y as int].position)) as u64
        } else if y == n {
            sqrt_floor(p1.spec_dist_sq(self.model.satellites@[x as int].position)) as u64
        } else if x == n + 1 {
            sqrt_floor(p2.spec_dist_sq(self.model.satellites@[y as int].position)) as u64
        } else if y == n + 1 {
            sqrt_floor(p2.spec_dist_sq(self.model.satellites@[x as int].position)) as u64
        } else {
            sqrt_floor(
                self.model.satellites@[x as int].position.spec_dist_sq(
                    self.model.satellites@[y as int].position,
                ),
            ) as u64
        }
    }

    /// The graph the round-trip computation runs over: the current
    /// topology with every edge re-weighted to the current distance of its
    /// endpoints, plus a virtual node `n` at `p1` and a virtual node
    /// `n + 1` at `p2`, each joined to every satellite of the topology
    /// whose footprint cone contains it.
    pub open spec fn rtt_edges(self, p1: Vec3, p2: Vec3) -> Map<(usize, usize), u64> {
        let n = self.model.satellites@.len() as int;
        Map::new(
            |p: (usize, usize)|
                {
                    ||| graph_edges(self.topology).dom().contains(p)
                    ||| (p.0 == n && self.ground_link(p1, p.1))
                    ||| (p.1 == n && self.ground_link(p1, p.0))
                    ||| (p.0 == n + 1 && self.ground_link(p2, p.1))
                    ||| (p.1 == n + 1 && self.ground_link(p2, p.0))
                },
            |p: (usize, usize)| self.rtt_edge_weight(p1, p2, p.0, p.1),
        )
    }

    /// What the round-trip computation promises of its result: `Some`
    /// exactly when the two virtual nodes are connected in the round-trip
    /// graph, and a `Some` value is twice the cost of a shortest path
    /// between them.
    pub open spec fn rtt_result_ok(self, p1: Vec3, p2: Vec3, r: Option<u64>) -> bool {
        let edges = self.rtt_edges(p1, p2);
        let src = self.model.satellites@.len() as usize;
        let dst = (self.model.satellites@.len() + 1) as usize;
        &&& r is Some <==> connected(edges, src, dst)
        &&& r matches Some(d) ==> {
            &&& exists|s: Seq<usize>|
                is_path(edges, s, src, dst) && 2 * path_cost(edges, s) == d as int
            &&& forall|s: Seq<usize>|
                is_path(edges, s, src, dst) ==> 2 * path_cost(edges, s) >= d as int
        }
    }

    /// Round-trip distance in meters between the surface points `p1` and
    /// `p2` through the satellite network, or `None` when they are not
    /// connected: twice the cost of a shortest path between the two
    /// virtual nodes of the round-trip graph. The caller divides by the
    /// speed of light for a round-trip time. The canonical topology is
    /// never altered: the search runs on a re-weighted clone.
    pub fn calc_rtt(&self, p1: &Vec3, p2: &Vec3) -> (r: Option<u64>)
        requires
            self.wf(),
            p1.in_range(),
            p2.in_range(),
            self.model.satellites@.len() + 2 <= 0x10_0000,
        ensures
            ({
                let edges = self.rtt_edges(*p1, *p2);
                let src = self.model.satellites@.len();
                &&& r is Some <==> connected(edges, src as usize, (src + 1) as usize)
                &&& r matches Some(d) ==> {
                    &&& exists|s: Seq<usize>|
                        is_path(edges, s, src as usize, (src + 1) as usize) && 2 * path_cost(
                            edges,
                            s,
                        ) == d as int
                    &&& forall|s: Seq<usize>|
                        is_path(edges, s, src as usize, (src + 1) as usize) ==> 2 * path_cost(
                            edges,
                            s,
                        ) >= d as int
                }
            }),
    {
        let n: usize = self.model.satellites.len();
        let id1: usize = n;
        let id2: usize = n + 1;
        let ghost edges_spec = self.rtt_edges(*p1, *p2);
        let ghost dom0 = graph_edges(self.topology).dom();
        let ghost nodes0 = graph_nodes(self.topology);
        proof {
            lemma_node_count_bound(self.topology, n);
            assert forall|x: usize, y: usize| #[trigger]
                dom0.contains((x, y)) implies edges_spec.dom().contains((x, y)) && x < n && y
                < n by {
                assert(sat_alive(self.model, x) && sat_alive(self.model, y));
            }
        }
        let mut topo = graph_clone(&self.topology);
        let edge_list = graph_edge_list(&topo);
        let mut i: usize = 0;
        while i < edge_list.len()
            invariant
                self.wf(),
                p1.in_range(),
                p2.in_range(),
                n == self.model.satellites@.len(),
                n + 2 <= 0x10_0000,
                id1 == n,
                id2 == n + 1,
                i <= edge_list@.len(),
                edges_spec == self.rtt_edges(*p1, *p2),
                dom0 == graph_edges(self.topology).dom(),
                nodes0 == graph_nodes(self.topology),
                forall|j: int| 0 <= j < edge_list@.len() ==> dom0.contains(#[trigger] edge_list@[j]),
                forall|x: usize, y: usize| #[trigger]
                    dom0.contains((x, y)) ==> edge_list@.contains((x, y)) || edge_list@.contains(
                        (y, x),
                    ),
                graph_nodes(topo) == nodes0,
                graph_edges(topo).dom() == dom0,
                graph_wf(topo),
                forall|x: usize, y: usize| #[trigger]
                    dom0.contains((x, y)) ==> (edge_list@.subrange(0, i as int).contains((x, y))
                        || edge_list@.subrange(0, i as int).contains((y, x)) ==> graph_edges(
                        topo,
                    )[(x, y)] == edges_spec[(x, y)] && graph_edges(topo)[(x, y)]
                        <= 0x1_0000_0000u64),
            decreases edge_list@.len() - i,
        {
            let a: usize = edge_list[i].0;
            let b: usize = edge_list[i].1;
            proof {
                assert(dom0.contains((a, b)));
            }
            let w: u64 = dist_m(
                &self.model.satellites[a].position,
                &self.model.satellites[b].position,
            );
            let ghost pre = topo;
            graph_add_edge(&mut topo, a, b, w);
            proof {
                let pa = self.model.satellites@[a as int].position;
                let pb = self.model.satellites@[b as int].position;
                lemma_sqrt_floor_eq(pa.spec_dist_sq(pb), w as int);
                lemma_dist_sq_symmetric(pa, pb);
                lemma_sqrt_floor_eq(pb.spec_dist_sq(pa), w as int);
                lemma_dist_sq_range(pa, pb);
                lemma_sqrt_floor_bound(pa.spec_dist_sq(pb), w as int, 0x8000_0000);
                assert(graph_nodes(topo) =~= nodes0);
                assert(graph_edges(topo).dom() =~= dom0);
                assert(w == edges_spec[(a, b)] && w == edges_spec[(b, a)]);
                assert forall|x: usize, y: usize| #[trigger]
                    dom0.contains((x, y)) && (edge_list@.subrange(0, i + 1).contains((x, y))
                        || edge_list@.subrange(0, i + 1).contains((y, x))) implies graph_edges(
                    topo,
                )[(x, y)] == edges_spec[(x, y)] && graph_edges(topo)[(x, y)]
                    <= 0x1_0000_0000u64 by {
                    if (x == a && y == b) || (x == b && y == a) {
                    } else {
                        assert(graph_edges(topo)[(x, y)] == graph_edges(pre)[(x, y)]);
                        let sub = edge_list@.subrange(0, i + 1);
                        if sub.contains((x, y)) {
                            let j = choose|j: int| 0 <= j < sub.len() && sub[j] == (x, y);
                            assert(j < i);
                            assert(edge_list@.subrange(0, i as int)[j] == (x, y));
                        } else {
                            let j = choose|j: int| 0 <= j < sub.len() && sub[j] == (y, x);
                            assert(j < i);
                            assert(edge_list@.subrange(0, i as int)[j] == (y, x));
                        }
                    }
                }
            }
            i += 1;
        }
        proof {
            assert forall|p: (usize, usize)| #[trigger]
                dom0.contains(p) implies graph_edges(topo)[p] == edges_spec[p] && graph_edges(
                topo,
            )[p] <= 0x1_0000_0000u64 by {
                let x = p.0;
                let y = p.1;
                assert(edge_list@.subrange(0, edge_list@.len() as int) == edge_list@);
                assert(dom0.contains((x, y)));
            }
            assert(!nodes0.contains(id1) && !nodes0.contains(id2)) by {
                if nodes0.contains(id1) {
                    assert(sat_alive(self.model, id1));
                }
                if nodes0.contains(id2) {
                    assert(sat_alive(self.model, id2));
                }
            }
        }
        let node_list = graph_node_list(&topo);
        let mut i: usize = 0;
        while i < node_list.len()
            invariant
                self.wf(),
                p1.in_range(),
                p2.in_range(),
                n == self.model.satellites@.len(),
                n + 2 <= 0x10_0000,
                id1 == n,
                id2 == n + 1,
                i <= node_list@.len(),
                edges_spec == self.rtt_edges(*p1, *p2),
                dom0 == graph_edges(self.topology).dom(),
                nodes0 == graph_nodes(self.topology),
                nodes0.finite(),
                nodes0.len() <= n,
                !nodes0.contains(id1),
                !nodes0.contains(id2),
                forall|j: int| 0 <= j < node_list@.len() ==> nodes0.contains(#[trigger] node_list@[j]),
                forall|v: usize| #[trigger] nodes0.contains(v) ==> node_list@.contains(v) && v < n,
                graph_wf(topo),
                forall|v: usize| #[trigger]
                    graph_nodes(topo).contains(v) ==> nodes0.contains(v) || v == id1 || v == id2,
                forall|v: usize| #[trigger] nodes0.contains(v) ==> graph_nodes(topo).contains(v),
                graph_nodes(topo).len() + (if graph_nodes(topo).contains(id1) {
                    0int
                } else {
                    1
                }) + (if graph_nodes(topo).contains(id2) {
                    0int
                } else {
                    1
                }) <= nodes0.len() + 2,
                forall|p: (usize, usize)| #[trigger]
                    dom0.contains(p) ==> graph_edges(topo).dom().contains(p),
                forall|p: (usize, usize)| #[trigger]
                    graph_edges(topo).dom().contains(p) ==> edges_spec.dom().contains(p)
                        && graph_edges(topo)[p] == edges_spec[p] && graph_edges(topo)[p]
                        <= 0x1_0000_0000u64,
                forall|j: int|
                    0 <= j < i ==> {
                        let s = #[trigger] node_list@[j];
                        &&& (self.ground_link(*p1, s) ==> graph_edges(topo).dom().contains(
                            (id1, s),
                        ))
                        &&& (self.ground_link(*p2, s) ==> graph_edges(topo).dom().contains(
                            (s, id2),
                        ))
                    },
            decreases node_list@.len() - i,
        {
            let s: usize = node_list[i];
            proof {
                assert(nodes0.contains(s));
                assert(sat_alive(self.model, s));
            }
            if self.model.satellites[s].is_in_view_cone(p1) {
                let w: u64 = dist_m(p1, &self.model.satellites[s].position);
                let ghost pre = topo;
                graph_add_edge(&mut topo, id1, s, w);
                proof {
                    let ps = self.model.satellites@[s as int].position;
                    lemma_sqrt_floor_eq(p1.spec_dist_sq(ps), w as int);
                    lemma_dist_sq_range(*p1, ps);
                    lemma_sqrt_floor_bound(p1.spec_dist_sq(ps), w as int, 0x8000_0000);
                    assert(edges_spec.dom().contains((id1, s)) && edges_spec.dom().contains(
                        (s, id1),
                    ));
                    assert(edges_spec[(id1, s)] == w && edges_spec[(s, id1)] == w);
                    lemma_rtt_ground_step(
                        pre,
                        topo,
                        edges_spec,
                        nodes0,
                        dom0,
                        id1,
                        id2,
                        id1,
                        s,
                        w,
                    );
                }
            }
            if self.model.satellites[s].is_in_view_cone(p2) {
                let w: u64 = dist_m(&self.model.satellites[s].position, p2);
                let ghost pre = topo;
                graph_add_edge(&mut topo, s, id2, w);
                proof {
                    let ps = self.model.satellites@[s as int].position;
                    lemma_dist_sq_symmetric(ps, *p2);
                    lemma_sqrt_floor_eq(p2.spec_dist_sq(ps), w as int);
                    lemma_dist_sq_range(*p2, ps);
                    lemma_sqrt_floor_bound(p2.spec_dist_sq(ps), w as int, 0x8000_0000);
                    assert(edges_spec.dom().contains((s, id2)) && edges_spec.dom().contains(
                        (id2, s),
                    ));
                    assert(edges_spec[(s, id2)] == w && edges_spec[(id2, s)] == w);
                    lemma_rtt_ground_step(
                        pre,
                        topo,
                        edges_spec,
                        nodes0,
                        dom0,
                        id1,
                        id2,
                        s,
                        id2,
                        w,
                    );
                }
            }
            i += 1;
        }
        proof {
            assert forall|p: (usize, usize)| #[trigger]
                edges_spec.dom().contains(p) implies graph_edges(topo).dom().contains(p) by {
                let x = p.0;
                let y = p.1;
                if dom0.contains(p) {
                } else if x == id1 && self.ground_link(*p1, y) {
                    let j = choose|j: int| 0 <= j < node_list@.len() && node_list@[j] == y;
                } else if y == id1 && self.ground_link(*p1, x) {
                    let j = choose|j: int| 0 <= j < node_list@.len() && node_list@[j] == x;
                    assert(graph_edges(topo).dom().contains((id1, x)));
                } else if x == id2 && self.ground_link(*p2, y) {
                    let j = choose|j: int| 0 <= j < node_list@.len() && node_list@[j] == y;
                    assert(graph_edges(topo).dom().contains((y, id2)));
                } else {
                    assert(y == id2 && self.ground_link(*p2, x));
                    let j = choose|j: int| 0 <= j < node_list@.len() && node_list@[j] == x;
                    assert(graph_edges(topo).dom().contains((x, id2)));
                }
            }
            assert(graph_edges(topo) =~= edges_spec);
            assert(graph_nodes(topo).len() <= nodes0.len() + 2);
        }
        let result = graph_shortest_path_cost(&topo, id1, id2);
        match result {
            Some(c) => {
                proof {
                    assert(c as int <= graph_nodes(topo).len() * 0x1_0000_0000);
                    vstd::arithmetic::mul::lemma_mul_inequality(
                        graph_nodes(topo).len() as int,
                        0x10_0000,
                        0x1_0000_0000,
                    );
                }
                Some(2 * c)
            },
            None => None,
        }
    }

    /// An out-of-band failure: the satellite is marked dead and its node
    /// and incident edges leave the current topology at once; the next
    /// refresh rebuilds from scratch.
    pub fn simulate_failure(&mut self, id: usize)
        requires
            old(self).wf(),
            id < old(self).model.satellites@.len(),
        ensures
            final(self).wf(),
            final(self).model.satellites@ == old(self).model.satellites@.update(
                id as int,
                Satellite { status: false, ..old(self).model.satellites@[id as int] },
            ),
            final(self).model.t == old(self).model.t,
            final(self).model.orbital_planes == old(self).model.orbital_planes,
            final(self).model.max_connections == old(self).model.max_connections,
            final(self).time_step == old(self).time_step,
            final(self).connection_refresh_interval == old(self).connection_refresh_interval,
            final(self).last_update_timestamp == old(self).last_update_timestamp,
            final(self).recurrent_failure_threshold == old(self).recurrent_failure_threshold,
            final(self).strategy == old(self).strategy,
            graph_nodes(final(self).topology) == graph_nodes(old(self).topology).remove(id),
            graph_edges(final(self).topology) == graph_edges(old(self).topology).remove_keys(
                incident_pairs(id),
            ),
            graph_deg(final(self).topology, id) == 0,
    {
        let ghost pre = *self;
        self.model.set_status(id, false);
        graph_remove_node(&mut self.topology, id);
        proof {
            let old_edges = graph_edges(pre.topology);
            let keys = incident_pairs(id);
            assert(graph_edges(self.topology).dom() =~= old_edges.dom().difference(keys));
            assert(graph_edges(self.topology).dom().subset_of(old_edges.dom()));
            vstd::set_lib::lemma_len_subset(graph_edges(self.topology).dom(), old_edges.dom());
            assert forall|v: usize| #[trigger] graph_deg(self.topology, v)
                <= self.model.max_connections && graph_deg(self.topology, v) <= graph_deg(
                pre.topology,
                v,
            ) by {
                assert(graph_deg(pre.topology, v) == deg_of(old_edges, v));
                assert(graph_deg(pre.topology, v) <= pre.model.max_connections);
                lemma_deg_of_remove_node(old_edges, id, v);
            }
            lemma_deg_of_remove_node(old_edges, id, id);
            assert forall|v: usize| #[trigger]
                graph_nodes(self.topology).contains(v) implies sat_alive(self.model, v) by {
                assert(sat_alive(pre.model, v));
                assert(v != id);
            }
            assert forall|a: usize, b: usize| #[trigger]
                graph_edges(self.topology).dom().contains((a, b)) implies sat_alive(self.model, a)
                && sat_alive(self.model, b) && a != b && graph_edges(self.topology).dom().contains(
                (b, a),
            ) && graph_edges(self.topology)[(b, a)] == graph_edges(self.topology)[(a, b)]
                && graph_nodes(self.topology).contains(a) && graph_nodes(self.topology).contains(
                b,
            ) by {
                assert(old_edges.dom().contains((a, b)));
                assert(a != id && b != id);
                assert(sat_alive(pre.model, a) && sat_alive(pre.model, b));
            }
        }
    }
}

/// One ground-link insertion of the round-trip graph construction: the
/// edge joins a satellite of the topology's node set to one of the two
/// virtual nodes, carries the weight the round-trip graph prescribes, and
/// every invariant of the construction survives.
proof fn lemma_rtt_ground_step(
    pre: ConnectionGraph,
    post: ConnectionGraph,
    e_spec: Map<(usize, usize), u64>,
    nodes0: Set<usize>,
    dom0: Set<(usize, usize)>,
    id1: usize,
    id2: usize,
    a: usize,
    b: usize,
    w: u64,
)
    requires
        a != b,
        id1 != id2,
        !nodes0.contains(id1),
        !nodes0.contains(id2),
        nodes0.finite(),
        e_spec.dom().contains((a, b)),
        e_spec.dom().contains((b, a)),
        e_spec[(a, b)] == w,
        e_spec[(b, a)] == w,
        w <= 0x1_0000_0000u64,
        graph_wf(pre),
        graph_nodes(post) == graph_nodes(pre).insert(a).insert(b),
        graph_edges(post) == graph_edges(pre).insert((a, b), w).insert((b, a), w),
        forall|v: usize| #[trigger]
            graph_nodes(pre).contains(v) ==> nodes0.contains(v) || v == id1 || v == id2,
        forall|v: usize| #[trigger] nodes0.contains(v) ==> graph_nodes(pre).contains(v),
        graph_nodes(pre).len() + (if graph_nodes(pre).contains(id1) {
            0int
        } else {
            1
        }) + (if graph_nodes(pre).contains(id2) {
            0int
        } else {
            1
        }) <= nodes0.len() + 2,
        forall|p: (usize, usize)| #[trigger] dom0.contains(p) ==> graph_edges(pre).dom().contains(p),
        forall|p: (usize, usize)| #[trigger]
            graph_edges(pre).dom().contains(p) ==> e_spec.dom().contains(p) && graph_edges(pre)[p]
                == e_spec[p] && graph_edges(pre)[p] <= 0x1_0000_0000u64,
        a == id1 || a == id2 || graph_nodes(pre).contains(a),
        b == id1 || b == id2 || graph_nodes(pre).contains(b),
        graph_nodes(pre).contains(a) || graph_nodes(pre).contains(b),
    ensures
        graph_wf(post),
        forall|v: usize| #[trigger]
            graph_nodes(post).contains(v) ==> nodes0.contains(v) || v == id1 || v == id2,
        forall|v: usize| #[trigger] nodes0.contains(v) ==> graph_nodes(post).contains(v),
        graph_nodes(post).len() + (if graph_nodes(post).contains(id1) {
            0int
        } else {
            1
        }) + (if graph_nodes(post).contains(id2) {
            0int
        } else {
            1
        }) <= nodes0.len() + 2,
        forall|p: (usize, usize)| #[trigger] dom0.contains(p) ==> graph_edges(post).dom().contains(p),
        forall|p: (usize, usize)| #[trigger]
            graph_edges(post).dom().contains(p) ==> e_spec.dom().contains(p) && graph_edges(
                post,
            )[p] == e_spec[p] && graph_edges(post)[p] <= 0x1_0000_0000u64,
        forall|p: (usize, usize)| #[trigger]
            graph_edges(pre).dom().contains(p) ==> graph_edges(post).dom().contains(p),
{
    assert(graph_edges(post).dom() =~= graph_edges(pre).dom().insert((a, b)).insert((b, a)));
    assert forall|x: usize, y: usize| #[trigger]
        graph_edges(post).dom().contains((x, y)) implies {
        &&& x != y
        &&& graph_edges(post).dom().contains((y, x))
        &&& graph_edges(post)[(y, x)] == graph_edges(post)[(x, y)]
        &&& graph_nodes(post).contains(x)
        &&& graph_nodes(post).contains(y)
    } by {
        if (x == a && y == b) || (x == b && y == a) {
        } else {
            assert(graph_edges(pre).dom().contains((x, y)));
            assert(graph_edges(post)[(x, y)] == graph_edges(pre)[(x, y)]);
            assert(graph_edges(post)[(y, x)] == graph_edges(pre)[(y, x)]);
        }
    }
    let n1 = graph_nodes(pre);
    if n1.contains(a) && n1.contains(b) {
        assert(graph_nodes(post) =~= n1);
    } else if n1.contains(a) {
        assert(graph_nodes(post) =~= n1.insert(b));
    } else {
        assert(graph_nodes(post) =~= n1.insert(a));
    }
}

} // verus!
