use petgraph::graphmap::GraphMap;
use satsim::graph::ConnectionGraph;
use satsim::model::{Model, ConstellationType};
use satsim::stats::{count_articulation_points, articulation_point_oracle, TarjanInformation};
use satsim::vec3::Vec3;

fn graph_of(edges: &[(usize, usize)]) -> ConnectionGraph {
    let mut g: ConnectionGraph = GraphMap::default();
    for &(a, b) in edges {
        g.add_edge(a, b, 1u64);
    }
    g
}

fn check_articulation(n: usize, edges: &[(usize, usize)], expected: usize) {
    let g = graph_of(edges);
    assert_eq!(count_articulation_points(n, &g), expected);
    assert_eq!(articulation_point_oracle(&g), expected);
}

#[test]
fn articulation_points_of_a_path() {
    // 0 - 1 - 2 - 3 - 4: the three inner vertices are articulation points.
    check_articulation(5, &[(0, 1), (1, 2), (2, 3), (3, 4)], 3);
}

#[test]
fn articulation_points_of_a_cycle() {
    check_articulation(5, &[(0, 1), (1, 2), (2, 3), (3, 4), (4, 0)], 0);
}

#[test]
fn articulation_points_of_a_star() {
    check_articulation(5, &[(0, 1), (0, 2), (0, 3), (0, 4)], 1);
}

#[test]
fn articulation_points_of_a_bridge_between_triangles() {
    // Two triangles joined by a bridge: both bridge endpoints cut.
    check_articulation(
        6,
        &[(0, 1), (1, 2), (2, 0), (3, 4), (4, 5), (5, 3), (2, 3)],
        2,
    );
}

#[test]
fn articulation_points_across_components() {
    // A path component and a cycle component.
    check_articulation(7, &[(0, 1), (1, 2), (3, 4), (4, 5), (5, 6), (6, 3)], 1);
}

#[test]
fn articulation_points_of_an_empty_graph() {
    check_articulation(4, &[], 0);
}

#[test]
fn tarjan_information_sizes() {
    let info = TarjanInformation::new(7);
    assert_eq!(info.visited.len(), 7);
    assert_eq!(info.depth.len(), 7);
    assert_eq!(info.low.len(), 7);
    assert_eq!(info.parent.len(), 7);
    assert!(info.visited.iter().all(|v| !v));
}

#[test]
fn constellation_type_angles() {
    assert_eq!(ConstellationType::Delta.angle(), 2);
    assert_eq!(ConstellationType::Star.angle(), 1);
}

#[test]
fn constellation_type_from_name() {
    assert_eq!(
        ConstellationType::from_name(&"delta".to_owned()),
        Some(ConstellationType::Delta)
    );
    assert_eq!(ConstellationType::from_name(&"star".to_owned()), Some(ConstellationType::Star));
    assert_eq!(ConstellationType::from_name(&"walker".to_owned()), None);
    assert_eq!(ConstellationType::from_name(&"Delta".to_owned()), None);
    assert_eq!(ConstellationType::from_name(&String::new()), None);
}

#[test]
fn builder_ids_are_contiguous_and_plane_major() {
    let p = 10usize;
    let s = 20usize;
    let model = Model::new(p, s, 60_000_000, ConstellationType::Delta, 0, 6_921_000, 4);
    assert_eq!(model.orbital_planes.len(), p);
    assert_eq!(model.satellites.len(), p * s);
    for (k, sat) in model.satellites.iter().enumerate() {
        assert_eq!(sat.id(), k);
        assert_eq!(sat.orbital_plane(), k / s);
        assert!(sat.status());
    }
    for (i, plane) in model.orbital_planes.iter().enumerate() {
        assert_eq!(plane.id(), i);
        assert_eq!(plane.semimajor_axis(), 6_921_000);
        // Delta constellation: ascending nodes spread over two pi.
        assert_eq!(plane.longitude().num, 2 * i as u64);
        assert_eq!(plane.longitude().den, p as u64);
    }
}

#[test]
fn builder_phasing_shifts_successive_planes() {
    let p = 4usize;
    let s = 3usize;
    let phasing = 2usize;
    let model = Model::new(p, s, 53_000_000, ConstellationType::Star, phasing, 6_921_000, 4);
    for i in 0..p {
        for j in 0..s {
            let sat = &model.satellites[i * s + j];
            // arg_periapsis = (phasing*i + 2*j*p) / (p*s), in units of pi.
            assert_eq!(sat.arg_periapsis().num, (phasing * i + 2 * j * p) as u64);
            assert_eq!(sat.arg_periapsis().den, (p * s) as u64);
        }
    }
}

#[test]
fn increment_t_stores_positions_and_advances_clock() {
    let mut model = Model::new(1, 2, 0, ConstellationType::Delta, 0, 7_000_000, 4);
    let positions = vec![Vec3 { x: 7_000_000, y: 0, z: 0 }, Vec3 { x: -7_000_000, y: 0, z: 0 }];
    model.increment_t(1_000_000, &positions);
    assert_eq!(model.t, 1_000_000);
    assert_eq!(model.satellites[0].position(), positions[0]);
    assert_eq!(model.satellites[1].position(), positions[1]);
}

#[test]
fn closest_active_satellite_prefers_alive_and_near() {
    let mut model = Model::new(1, 3, 0, ConstellationType::Delta, 0, 7_000_000, 4);
    let positions = vec![
        Vec3 { x: 7_000_000, y: 0, z: 0 },
        Vec3 { x: 0, y: 7_000_000, z: 0 },
        Vec3 { x: 0, y: 0, z: 7_000_000 },
    ];
    model.increment_t(0, &positions);
    let near_first = Vec3 { x: 6_900_000, y: 0, z: 0 };
    assert_eq!(model.closest_active_satellite(&near_first), Some(0));
    model.set_status(0, false);
    let second_best = model.closest_active_satellite(&near_first);
    assert!(second_best == Some(1) || second_best == Some(2));
    model.set_status(1, false);
    model.set_status(2, false);
    assert_eq!(model.closest_active_satellite(&near_first), None);
}

#[test]
fn distance_between_satellites_is_in_meters() {
    let mut model = Model::new(1, 2, 0, ConstellationType::Delta, 0, 7_000_000, 4);
    let positions = vec![Vec3 { x: 0, y: 30, z: 0 }, Vec3 { x: 40, y: 0, z: 0 }];
    model.increment_t(0, &positions);
    assert_eq!(model.distance_between_satellites(0, 1), 50);
}
