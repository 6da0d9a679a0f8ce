use satsim::vec3::Vec3;
use satsim::geometry::{line_of_sight, in_view_cone, isqrt64, dist_m, EARTH_RADIUS_M};
use satsim::framing::{frame_message, parse_frame_len};

fn v(x: i64, y: i64, z: i64) -> Vec3 {
    Vec3 { x, y, z }
}

#[test]
fn opposite_sides_of_earth_are_blocked() {
    let a = v(7_000_000, 0, 0);
    let b = v(-7_000_000, 0, 0);
    assert!(!line_of_sight(&a, &b));
    assert!(!line_of_sight(&b, &a));
}

#[test]
fn neighbors_on_one_side_are_visible() {
    let a = v(7_000_000, 0, 0);
    let b = v(6_900_000, 1_000_000, 0);
    assert!(line_of_sight(&a, &b));
    assert!(line_of_sight(&b, &a));
}

#[test]
fn grazing_segment_is_blocked() {
    // The segment between two antipodal points lifted well above the
    // surface at its endpoints still dips through the sphere.
    let a = v(6_300_000, 5_000_000, 0);
    let b = v(6_300_000, -5_000_000, 0);
    assert!(!line_of_sight(&a, &b));
}

#[test]
fn high_chord_passes() {
    // A chord whose closest approach stays above the surface.
    let a = v(7_000_000, 2_000_000, 0);
    let b = v(7_000_000, -2_000_000, 0);
    assert!(line_of_sight(&a, &b));
}

#[test]
fn point_below_satellite_is_in_cone() {
    let sm_axis: i64 = 6_921_000;
    let sat = v(sm_axis, 0, 0);
    let ground = v(EARTH_RADIUS_M, 0, 0);
    assert!(in_view_cone(&sat, sm_axis, &ground));
}

#[test]
fn point_behind_earth_is_not_in_cone() {
    let sm_axis: i64 = 6_921_000;
    let sat = v(sm_axis, 0, 0);
    let ground = v(-EARTH_RADIUS_M, 0, 0);
    assert!(!in_view_cone(&sat, sm_axis, &ground));
}

#[test]
fn point_to_the_side_beyond_half_angle_is_not_in_cone() {
    let sm_axis: i64 = 6_921_000;
    let sat = v(sm_axis, 0, 0);
    // Ninety degrees off the axis.
    let ground = v(sm_axis, 2_000_000, 0);
    assert!(!in_view_cone(&sat, sm_axis, &ground));
}

#[test]
fn integer_square_roots_are_exact() {
    assert_eq!(isqrt64(0), 0);
    assert_eq!(isqrt64(1), 1);
    assert_eq!(isqrt64(3), 1);
    assert_eq!(isqrt64(4), 2);
    assert_eq!(isqrt64(24), 4);
    assert_eq!(isqrt64(25), 5);
    assert_eq!(isqrt64(u64::MAX), 0xFFFF_FFFF);
}

#[test]
fn distances_are_rounded_down_meters() {
    let a = v(0, 0, 0);
    let b = v(3, 4, 0);
    assert_eq!(dist_m(&a, &b), 5);
    let c = v(1, 1, 0);
    assert_eq!(dist_m(&a, &c), 1);
}

#[test]
fn framing_round_trip() {
    let payload: Vec<u8> = b"{\"msg_type\":\"update\"}".to_vec();
    let framed = frame_message(&payload);
    assert_eq!(framed.len(), payload.len() + 4);
    assert_eq!(
        &framed[0..4],
        &(payload.len() as u32).to_le_bytes()[..]
    );
    assert_eq!(&framed[4..], &payload[..]);
    let n = parse_frame_len(&framed).unwrap();
    assert_eq!(n as usize, payload.len());
}

#[test]
fn short_header_has_no_length() {
    let header: Vec<u8> = vec![1, 2, 3];
    assert!(parse_frame_len(&header).is_none());
}

#[test]
fn framing_larger_length() {
    let payload: Vec<u8> = vec![7u8; 70000];
    let framed = frame_message(&payload);
    let n = parse_frame_len(&framed).unwrap();
    assert_eq!(n, 70000);
}
