use petgraph::visit::EdgeRef;
use satsim::geometry::line_of_sight;
use satsim::model::{Model, ConstellationType};
use satsim::simulation::Simulation;
use satsim::stats::{GroundPoints, StatisticsRecord};
use satsim::strategy::{ConnectionStrategy, GridStrategy, NearestNeighborStrategy};
use satsim::vec3::Vec3;

const GM: f64 = 3.986004418e14;
const EARTH_RADIUS: f64 = 6.371e6;
const EARTH_ROTATION_PERIOD: f64 = 86400.0;
const LIGHT_SPEED: f64 = 299792458.0;
const PI: f64 = std::f64::consts::PI;

fn rot_y(t: f64, v: [f64; 3]) -> [f64; 3] {
    let (s, c) = t.sin_cos();
    [c * v[0] + s * v[2], v[1], -s * v[0] + c * v[2]]
}

fn rot_x(t: f64, v: [f64; 3]) -> [f64; 3] {
    let (s, c) = t.sin_cos();
    [v[0], c * v[1] - s * v[2], s * v[1] + c * v[2]]
}

fn rot_z(t: f64, v: [f64; 3]) -> [f64; 3] {
    let (s, c) = t.sin_cos();
    [c * v[0] - s * v[1], s * v[0] + c * v[1], v[2]]
}

fn to_vec3(v: [f64; 3]) -> Vec3 {
    Vec3 { x: v[0].round() as i64, y: v[1].round() as i64, z: v[2].round() as i64 }
}

/// The Keplerian position of every satellite at `t_us` microseconds,
/// computed from the model's own orbital elements.
fn positions_at(sim_model: &Model, t_us: u64) -> Vec<Vec3> {
    let t = t_us as f64 * 1e-6;
    let mut out = Vec::new();
    for sat in sim_model.satellites.iter() {
        let plane = &sim_model.orbital_planes[sat.orbital_plane()];
        let a = plane.semimajor_axis() as f64;
        let incl = (plane.inclination() as f64 * 1e-6).to_radians();
        let lon = PI * plane.longitude().num as f64 / plane.longitude().den as f64;
        let arg = PI * sat.arg_periapsis().num as f64 / sat.arg_periapsis().den as f64;
        let angular_speed = (GM / a).sqrt() / a;
        let anomaly = (t * angular_speed) % (2.0 * PI);
        let p = rot_y(lon, rot_x(incl, rot_y(arg + anomaly, [a, 0.0, 0.0])));
        out.push(to_vec3(p));
    }
    out
}

/// The Earth-fixed surface point of a latitude/longitude (degrees) at
/// `t_us`, accounting for the Earth's rotation.
fn surface_point(t_us: u64, latitude: f64, longitude: f64) -> Vec3 {
    let t = t_us as f64 * 1e-6;
    let angle_y = ((t / EARTH_ROTATION_PERIOD) * 2.0 * PI + longitude.to_radians()) % (2.0 * PI);
    let angle_z = latitude.to_radians();
    to_vec3(rot_z(angle_z, rot_y(angle_y, [EARTH_RADIUS, 0.0, 0.0])))
}

fn ground_points(t_us: u64) -> GroundPoints {
    GroundPoints {
        london: surface_point(t_us, 51.507222, -0.1275),
        nyc: surface_point(t_us, 40.712778, -74.006111),
        singapore: surface_point(t_us, 1.291667, 103.85),
        johannesburg: surface_point(t_us, -26.204444, 28.045556),
    }
}

/// A probability as a threshold against a 53-bit draw.
fn threshold(p: f64) -> u64 {
    (p * 9007199254740992.0).ceil() as u64
}

const TIME_STEP_US: u64 = 1_000_000;
const REFRESH_US: u64 = 10_000_000;

fn standard_model() -> Model {
    // P=10, S=20, inclination 60 degrees, altitude 550 km.
    let mut model = Model::new(10, 20, 60_000_000, ConstellationType::Delta, 0, 6_921_000, 4);
    let positions = positions_at(&model, 0);
    model.increment_t(0, &positions);
    model
}

fn standard_sim(offset: usize, seed: u64, start_p: f64, recur_p: f64) -> Simulation {
    Simulation::new(
        standard_model(),
        TIME_STEP_US,
        REFRESH_US,
        seed,
        threshold(start_p),
        threshold(recur_p),
        ConnectionStrategy::Grid(GridStrategy::new(offset)),
    )
}

fn advance_one_tick(sim: &mut Simulation) -> bool {
    let positions = positions_at(&sim.model, sim.model.t + sim.time_step);
    sim.step(&positions)
}

#[test]
fn s1_grid_topology_closure() {
    let sim = standard_sim(0, 7, 0.0, 0.0);
    let topo = sim.topology();
    assert_eq!(topo.node_count(), 200);
    assert_eq!(topo.edge_count(), 400);
    for v in topo.nodes() {
        assert_eq!(topo.edges(v).count(), 4);
    }
    assert_eq!(petgraph::algo::connected_components(topo), 1);
}

#[test]
fn s2_phasing_seam() {
    let sim = standard_sim(1, 7, 0.0, 0.0);
    let topo = sim.topology();
    // The full intra-plane rings are present.
    let mut expected = 0usize;
    for i in 0..10usize {
        for j in 0..20usize {
            let a = i * 20 + j;
            let b = i * 20 + (j + 1) % 20;
            assert!(topo.contains_edge(a, b));
            expected += 1;
        }
    }
    // The seam joins (i, j) to ((i + 1) mod 10, (j + 1) mod 20), exactly
    // when the two satellites are in sight of each other.
    for i in 0..10usize {
        for j in 0..20usize {
            let a = i * 20 + j;
            let b = ((i + 1) % 10) * 20 + (j + 1) % 20;
            let visible = line_of_sight(
                &sim.model.satellites[a].position(),
                &sim.model.satellites[b].position(),
            );
            assert_eq!(topo.contains_edge(a, b), visible);
            if visible {
                expected += 1;
            }
        }
    }
    assert_eq!(topo.edge_count(), expected);
    for v in topo.nodes() {
        assert!(topo.edges(v).count() <= 4);
    }
}

#[test]
fn s3_line_of_sight_rejection() {
    // Two satellites on opposite sides of the Earth at t = 0.
    let mut model = Model::new(1, 2, 0, ConstellationType::Delta, 0, 7_000_000, 4);
    let positions = vec![Vec3 { x: 7_000_000, y: 0, z: 0 }, Vec3 { x: -7_000_000, y: 0, z: 0 }];
    model.increment_t(0, &positions);
    assert!(!line_of_sight(&positions[0], &positions[1]));
    let sim = Simulation::new(
        model,
        TIME_STEP_US,
        REFRESH_US,
        1,
        0,
        0,
        ConnectionStrategy::Grid(GridStrategy::new(0)),
    );
    assert_eq!(sim.topology().edge_count(), 0);
}

#[test]
fn s4_failure_propagation() {
    let mut sim = standard_sim(0, 7, 0.0, 0.0);
    assert!(sim.topology().edges(5).count() > 0);
    sim.simulate_failure(5);
    assert!(!sim.model.satellites[5].status());
    assert_eq!(sim.topology().edges(5).count(), 0);
    assert_eq!(sim.topology().node_count(), 199);
    // The next refresh rebuilds without satellite 5.
    let mut refreshed = false;
    for _ in 0..10 {
        refreshed = advance_one_tick(&mut sim);
    }
    assert!(refreshed);
    for e in sim.topology().all_edges() {
        assert!(e.source() != 5 && e.target() != 5);
    }
    assert!(!sim.model.satellites[5].status());
}

#[test]
fn s5_deterministic_rng() {
    let sim1 = standard_sim(0, 42, 0.1, 0.0);
    let sim2 = standard_sim(0, 42, 0.1, 0.0);
    let dead1: Vec<usize> =
        sim1.model.satellites.iter().filter(|s| !s.status()).map(|s| s.id()).collect();
    let dead2: Vec<usize> =
        sim2.model.satellites.iter().filter(|s| !s.status()).map(|s| s.id()).collect();
    assert_eq!(dead1, dead2);
    assert!(!dead1.is_empty());
    assert!(dead1.len() < 200);
    let sim3 = standard_sim(0, 43, 0.1, 0.0);
    let dead3: Vec<usize> =
        sim3.model.satellites.iter().filter(|s| !s.status()).map(|s| s.id()).collect();
    assert_ne!(dead1, dead3);
}

#[test]
fn s6_rtt_sanity() {
    let sim = standard_sim(0, 7, 0.0, 0.0);
    let g = ground_points(0);
    let rtt = sim.calc_rtt(&g.london, &g.nyc);
    let meters = rtt.expect("fully alive constellation should route London to NYC");
    let ms = meters as f64 / LIGHT_SPEED * 1e3;
    // The round trip can be no faster than light along twice the
    // great-circle distance (about 37 ms). This sparse ten-by-twenty grid
    // detours the route at t = 0 to about 103 ms, so the check allows the
    // grid detour but nothing slower than half again as much.
    let floor_ms = 2.0 * 5.57e6 / LIGHT_SPEED * 1e3;
    assert!(ms >= floor_ms, "rtt {ms} ms beats light");
    assert!(ms <= 150.0, "rtt {ms} ms out of range");
}

#[test]
fn deterministic_statistics_records() {
    // With a fixed seed, two runs produce identical statistics records.
    let run = || -> Vec<StatisticsRecord> {
        let mut sim = standard_sim(0, 42, 0.05, 0.01);
        let mut records = vec![sim.statistics_record(&ground_points(sim.model.t))];
        for _ in 0..25 {
            if advance_one_tick(&mut sim) {
                records.push(sim.statistics_record(&ground_points(sim.model.t)));
            }
        }
        records
    };
    let a = run();
    let b = run();
    assert!(a.len() >= 3);
    assert_eq!(a, b);
}

#[test]
fn position_magnitude_matches_semimajor_axis() {
    let model = standard_model();
    for sat in model.satellites.iter() {
        let p = sat.position();
        let norm = ((p.x as f64).powi(2) + (p.y as f64).powi(2) + (p.z as f64).powi(2)).sqrt();
        let rel = (norm - 6_921_000.0).abs() / 6_921_000.0;
        assert!(rel < 1e-6, "relative error {rel}");
    }
}

#[test]
fn refresh_invariants_hold() {
    // After every refresh: degrees within the limit, endpoints alive, and
    // endpoints in sight of each other.
    let mut sim = standard_sim(0, 9, 0.05, 0.02);
    for _ in 0..30 {
        let refreshed = advance_one_tick(&mut sim);
        if refreshed {
            let topo = sim.topology();
            for v in topo.nodes() {
                assert!(topo.edges(v).count() <= 4);
                assert!(sim.model.satellites[v].status());
            }
            for e in topo.all_edges() {
                let a = &sim.model.satellites[e.source()];
                let b = &sim.model.satellites[e.target()];
                assert!(a.status() && b.status());
                assert!(line_of_sight(&a.position(), &b.position()));
            }
        }
    }
}

#[test]
fn t_is_non_decreasing() {
    let mut sim = standard_sim(0, 7, 0.0, 0.0);
    let mut last = sim.model.t;
    for _ in 0..15 {
        advance_one_tick(&mut sim);
        assert!(sim.model.t >= last);
        last = sim.model.t;
    }
    assert_eq!(last, 15 * TIME_STEP_US);
}

#[test]
fn density_formula() {
    let sim = standard_sim(0, 7, 0.0, 0.0);
    let record = sim.statistics_record(&ground_points(0));
    assert_eq!(record.total_satellites, 200);
    assert_eq!(record.failed_satellites, 0);
    assert_eq!(record.node_count, 200);
    assert_eq!(record.active_connections, 400);
    assert_eq!(record.density_num, 800);
    assert_eq!(record.density_den, 200 * 199);
    assert_eq!(record.connected_components, 1);
    assert_eq!(record.t, 0);
}

#[test]
fn nearest_neighbor_respects_degree_limit() {
    let mut model = standard_model();
    let positions = positions_at(&model, 0);
    model.increment_t(0, &positions);
    let sim = Simulation::new(
        model,
        TIME_STEP_US,
        REFRESH_US,
        7,
        0,
        0,
        ConnectionStrategy::NearestNeighbor(NearestNeighborStrategy::new()),
    );
    let topo = sim.topology();
    assert_eq!(topo.node_count(), 200);
    assert!(topo.edge_count() > 0);
    for v in topo.nodes() {
        assert!(topo.edges(v).count() <= 4);
    }
    // Every satellite that still has room is out of valid partners: the
    // greedy pass leaves no addable pair behind, so most reach the limit.
    let full = topo.nodes().filter(|v| topo.edges(*v).count() == 4).count();
    assert!(full > 100);
}

#[test]
fn recurrent_failures_are_permanent() {
    let mut sim = standard_sim(0, 11, 0.0, 0.2);
    let mut dead_before: Vec<usize> = Vec::new();
    for _ in 0..30 {
        advance_one_tick(&mut sim);
        let dead_now: Vec<usize> =
            sim.model.satellites.iter().filter(|s| !s.status()).map(|s| s.id()).collect();
        for d in &dead_before {
            assert!(dead_now.contains(d));
        }
        dead_before = dead_now;
    }
    assert!(!dead_before.is_empty());
}

#[test]
fn smallest_constellation_has_no_links() {
    // One plane with one satellite: the ring and the seam both degenerate
    // to self edges, which the validity predicate rejects.
    let mut model = Model::new(1, 1, 0, ConstellationType::Delta, 0, 7_000_000, 4);
    let positions = positions_at(&model, 0);
    model.increment_t(0, &positions);
    let sim = Simulation::new(
        model,
        TIME_STEP_US,
        REFRESH_US,
        1,
        0,
        0,
        ConnectionStrategy::Grid(GridStrategy::new(0)),
    );
    assert_eq!(sim.topology().node_count(), 1);
    assert_eq!(sim.topology().edge_count(), 0);
    let record = sim.statistics_record(&ground_points(0));
    assert_eq!(record.connected_components, 1);
    assert_eq!(record.articulation_points, 0);
    assert_eq!(record.active_connections, 0);
    assert_eq!(record.density_den, 0);
}

#[test]
fn nearest_neighbor_links_closest_first() {
    // Four satellites on a line, one link each: the greedy pass pairs each
    // satellite with its nearest partner that still has room.
    let mut model = Model::new(1, 4, 0, ConstellationType::Delta, 0, 7_000_000, 1);
    let positions = vec![
        Vec3 { x: 7_000_000, y: 0, z: 0 },
        Vec3 { x: 7_000_000, y: 100_000, z: 0 },
        Vec3 { x: 7_000_000, y: 300_000, z: 0 },
        Vec3 { x: 7_000_000, y: -200_000, z: 0 },
    ];
    model.increment_t(0, &positions);
    let sim = Simulation::new(
        model,
        TIME_STEP_US,
        REFRESH_US,
        1,
        0,
        0,
        ConnectionStrategy::NearestNeighbor(NearestNeighborStrategy::new()),
    );
    let topo = sim.topology();
    assert_eq!(topo.edge_count(), 2);
    assert!(topo.contains_edge(0, 1));
    assert!(topo.contains_edge(2, 3));
}

#[test]
fn all_dead_constellation_routes_nothing() {
    // A starting-failure probability of one kills every satellite: the
    // topology is empty and no route exists.
    let sim = standard_sim(0, 5, 1.0, 0.0);
    assert!(sim.model.satellites.iter().all(|s| !s.status()));
    assert_eq!(sim.topology().node_count(), 0);
    assert_eq!(sim.topology().edge_count(), 0);
    let g = ground_points(0);
    assert!(sim.calc_rtt(&g.london, &g.nyc).is_none());
    let record = sim.statistics_record(&g);
    assert_eq!(record.failed_satellites, 200);
    assert_eq!(record.node_count, 0);
    assert_eq!(record.connected_components, 0);
    assert_eq!(record.density_den, 0);
    assert_eq!(record.rtt_nyc, None);
}
