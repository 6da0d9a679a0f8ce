use vstd::prelude::*;
use crate::vec3::{Vec3, POS_LIMIT, lemma_sq_bound, lemma_mul_bound};

verus! {

/// Radius of the Earth, in meters.
pub const EARTH_RADIUS_M: i64 = 6_371_000;

/// Square of the Earth's radius, in square meters.
pub const EARTH_RADIUS_SQ_M2: i64 = EARTH_RADIUS_M * EARTH_RADIUS_M;

/// Whether the open segment from `p0` to `p1` meets the sphere of squared
/// radius `rsq` centered at the origin.
///
/// Writing `d = p1 - p0` and `f(s) = |p0 + s*d|^2 - rsq`, the segment meets
/// the sphere exactly when the quadratic `f(s) = a*s^2 + 2*b*s + c` (with
/// `a = |d|^2`, `b = p0*d`, `c = |p0|^2 - rsq`) has a real root with
/// `0 < s < 1`. Because `f` is convex, that holds exactly when `f` is
/// nonpositive somewhere on the open interval — below, the minimum over the
/// interval is taken at the vertex `-b/a` when that lies inside, and is
/// approached at an endpoint otherwise — and `f` is positive at an endpoint
/// (a convex function that is nonpositive at both endpoints has an interior
/// zero only if it vanishes identically, which for `a != 0` is impossible).
pub open spec fn segment_hits_sphere(p0: Vec3, p1: Vec3, rsq: int) -> bool {
    let a = (p1.x - p0.x) * (p1.x - p0.x) + (p1.y - p0.y) * (p1.y - p0.y) + (p1.z - p0.z) * (
    p1.z - p0.z);
    let b = p0.x * (p1.x - p0.x) + p0.y * (p1.y - p0.y) + p0.z * (p1.z - p0.z);
    let c = p0.spec_norm_sq() - rsq;
    if a == 0 {
        c == 0
    } else {
        let reaches_sphere = if b >= 0 {
            c < 0
        } else if a + b <= 0 {
            a + 2 * b + c < 0
        } else {
            b * b >= a * c
        };
        reaches_sphere && (c > 0 || a + 2 * b + c > 0)
    }
}

/// There is an unobstructed line of sight from `p0` to `p1`: the open
/// segment between them does not cross the Earth's surface.
pub open spec fn spec_line_of_sight(p0: Vec3, p1: Vec3) -> bool {
    !segment_hits_sphere(p0, p1, EARTH_RADIUS_SQ_M2 as int)
}

/// Returns true iff the open segment from `p0` to `p1` does not intersect
/// the Earth sphere. Exact integer arithmetic; no rounding.
pub fn line_of_sight(p0: &Vec3, p1: &Vec3) -> (r: bool)
    requires
        p0.in_range(),
        p1.in_range(),
    ensures
        r == spec_line_of_sight(*p0, *p1),
{
    let dx: i64 = p1.x - p0.x;
    let dy: i64 = p1.y - p0.y;
    let dz: i64 = p1.z - p0.z;
    proof {
        lemma_sq_bound(dx as int, 2 * POS_LIMIT as int);
        lemma_sq_bound(dy as int, 2 * POS_LIMIT as int);
        lemma_sq_bound(dz as int, 2 * POS_LIMIT as int);
        lemma_sq_bound(p0.x as int, POS_LIMIT as int);
        lemma_sq_bound(p0.y as int, POS_LIMIT as int);
        lemma_sq_bound(p0.z as int, POS_LIMIT as int);
        lemma_mul_bound(p0.x as int, dx as int, POS_LIMIT as int, 2 * POS_LIMIT as int);
        lemma_mul_bound(p0.y as int, dy as int, POS_LIMIT as int, 2 * POS_LIMIT as int);
        lemma_mul_bound(p0.z as int, dz as int, POS_LIMIT as int, 2 * POS_LIMIT as int);
    }
    let a: i128 = (dx as i128) * (dx as i128) + (dy as i128) * (dy as i128) + (dz as i128) * (
    dz as i128);
    let b: i128 = (p0.x as i128) * (dx as i128) + (p0.y as i128) * (dy as i128) + (p0.z as i128)
        * (dz as i128);
    let c: i128 = (p0.x as i128) * (p0.x as i128) + (p0.y as i128) * (p0.y as i128) + (
    p0.z as i128) * (p0.z as i128) - (EARTH_RADIUS_SQ_M2 as i128);
    let blocked: bool = if a == 0 {
        c == 0
    } else {
        proof {
            lemma_mul_bound(b as int, b as int, 0x4000_0000_0000_0000, 0x4000_0000_0000_0000);
            lemma_mul_bound(a as int, c as int, 0x4000_0000_0000_0000, 0x4000_0000_0000_0000);
        }
        let reaches_sphere: bool = if b >= 0 {
            c < 0
        } else if a + b <= 0 {
            a + 2 * b + c < 0
        } else {
            b * b >= a * c
        };
        reaches_sphere && (c > 0 || a + 2 * b + c > 0)
    };
    !blocked
}

/// Whether `point` lies in the ground-link footprint cone of a satellite at
/// position `pos` on an orbit of semimajor axis `sm_axis` (meters): the cone
/// has its apex at the satellite, its axis points toward the Earth's center,
/// its half-angle is 60 degrees, and its slant range is `sm_axis * cos(60°)`,
/// that is `sm_axis / 2`. With `u = point - pos`, membership says
/// `u * (-pos) >= |u| * |pos| / 2` (the angle between `u` and the axis is at
/// most 60 degrees) and `|u| <= sm_axis / 2`; both are squared below to stay
/// in integers.
pub open spec fn spec_in_view_cone(pos: Vec3, sm_axis: i64, point: Vec3) -> bool {
    let usq = (point.x - pos.x) * (point.x - pos.x) + (point.y - pos.y) * (point.y - pos.y) + (
    point.z - pos.z) * (point.z - pos.z);
    let d = -(pos.x * (point.x - pos.x) + pos.y * (point.y - pos.y) + pos.z * (point.z - pos.z));
    pos.spec_norm_sq() > 0
        && d >= 0
        && 4 * (d * d) >= usq * pos.spec_norm_sq()
        && 4 * usq <= sm_axis * sm_axis
}

/// Returns true iff `point` is inside the 60-degree footprint cone of a
/// satellite at `pos` with semimajor axis `sm_axis`. Exact integer
/// arithmetic; the 60-degree half-angle makes both comparisons exact.
pub fn in_view_cone(pos: &Vec3, sm_axis: i64, point: &Vec3) -> (r: bool)
    requires
        pos.in_range(),
        point.in_range(),
        0 <= sm_axis <= POS_LIMIT,
    ensures
        r == spec_in_view_cone(*pos, sm_axis, *point),
{
    let ux: i64 = point.x - pos.x;
    let uy: i64 = point.y - pos.y;
    let uz: i64 = point.z - pos.z;
    proof {
        lemma_sq_bound(ux as int, 2 * POS_LIMIT as int);
        lemma_sq_bound(uy as int, 2 * POS_LIMIT as int);
        lemma_sq_bound(uz as int, 2 * POS_LIMIT as int);
        lemma_sq_bound(pos.x as int, POS_LIMIT as int);
        lemma_sq_bound(pos.y as int, POS_LIMIT as int);
        lemma_sq_bound(pos.z as int, POS_LIMIT as int);
        lemma_sq_bound(sm_axis as int, POS_LIMIT as int);
        lemma_mul_bound(pos.x as int, ux as int, POS_LIMIT as int, 2 * POS_LIMIT as int);
        lemma_mul_bound(pos.y as int, uy as int, POS_LIMIT as int, 2 * POS_LIMIT as int);
        lemma_mul_bound(pos.z as int, uz as int, POS_LIMIT as int, 2 * POS_LIMIT as int);
    }
    let usq: i128 = (ux as i128) * (ux as i128) + (uy as i128) * (uy as i128) + (uz as i128) * (
    uz as i128);
    let psq: i128 = (pos.x as i128) * (pos.x as i128) + (pos.y as i128) * (pos.y as i128) + (
    pos.z as i128) * (pos.z as i128);
    let d: i128 = -((pos.x as i128) * (ux as i128) + (pos.y as i128) * (uy as i128) + (
    pos.z as i128) * (uz as i128));
    proof {
        lemma_mul_bound(d as int, d as int, 0x4000_0000_0000_0000, 0x4000_0000_0000_0000);
        lemma_mul_bound(usq as int, psq as int, 0x4000_0000_0000_0000, 0x4000_0000_0000_0000);
    }
    psq > 0 && d >= 0 && 4 * (d * d) >= usq * psq && 4 * usq <= (sm_axis as i128) * (
    sm_axis as i128)
}

/// Line of sight does not depend on the order of its endpoints: the
/// quadratic seen from `p1` is the one seen from `p0` under the change of
/// variable `s -> 1 - s`, which maps the open unit interval onto itself.
pub proof fn lemma_line_of_sight_symmetric(p0: Vec3, p1: Vec3, rsq: int)
    ensures
        segment_hits_sphere(p0, p1, rsq) == segment_hits_sphere(p1, p0, rsq),
{
    let a = (p1.x - p0.x) * (p1.x - p0.x) + (p1.y - p0.y) * (p1.y - p0.y) + (p1.z - p0.z) * (
    p1.z - p0.z);
    let b = p0.x * (p1.x - p0.x) + p0.y * (p1.y - p0.y) + p0.z * (p1.z - p0.z);
    let c = p0.spec_norm_sq() - rsq;
    let a2 = (p0.x - p1.x) * (p0.x - p1.x) + (p0.y - p1.y) * (p0.y - p1.y) + (p0.z - p1.z) * (
    p0.z - p1.z);
    let b2 = p1.x * (p0.x - p1.x) + p1.y * (p0.y - p1.y) + p1.z * (p0.z - p1.z);
    let c2 = p1.spec_norm_sq() - rsq;
    assert(a >= 0 && a2 == a && b2 == -b - a && c2 == a + 2 * b + c) by (nonlinear_arith)
        requires
            a == (p1.x - p0.x) * (p1.x - p0.x) + (p1.y - p0.y) * (p1.y - p0.y) + (p1.z - p0.z)
                * (p1.z - p0.z),
            b == p0.x * (p1.x - p0.x) + p0.y * (p1.y - p0.y) + p0.z * (p1.z - p0.z),
            c == p0.x * p0.x + p0.y * p0.y + p0.z * p0.z - rsq,
            a2 == (p0.x - p1.x) * (p0.x - p1.x) + (p0.y - p1.y) * (p0.y - p1.y) + (p0.z - p1.z)
                * (p0.z - p1.z),
            b2 == p1.x * (p0.x - p1.x) + p1.y * (p0.y - p1.y) + p1.z * (p0.z - p1.z),
            c2 == p1.x * p1.x + p1.y * p1.y + p1.z * p1.z - rsq,
    ;
    if a == 0 {
        assert(b == 0 && c2 == c) by (nonlinear_arith)
            requires
                a == (p1.x - p0.x) * (p1.x - p0.x) + (p1.y - p0.y) * (p1.y - p0.y) + (p1.z
                    - p0.z) * (p1.z - p0.z),
                b == p0.x * (p1.x - p0.x) + p0.y * (p1.y - p0.y) + p0.z * (p1.z - p0.z),
                a == 0,
                c2 == a + 2 * b + c,
        ;
    } else {
        assert((b2 * b2 >= a2 * c2) == (b * b >= a * c)) by (nonlinear_arith)
            requires
                a2 == a,
                b2 == -b - a,
                c2 == a + 2 * b + c,
        ;
    }
}

/// `r` is the integer square root (rounded down) of `x`.
pub open spec fn is_sqrt_floor(x: int, r: int) -> bool {
    0 <= r && r * r <= x < (r + 1) * (r + 1)
}

/// Two satellites at diametrically opposite points above the surface
/// never see each other: their segment runs through the Earth's center,
/// so a grid refresh between them adds no edge.
pub proof fn lemma_antipodal_blocked(p: Vec3, q: Vec3)
    requires
        q.x + p.x == 0,
        q.y + p.y == 0,
        q.z + p.z == 0,
        p.spec_norm_sq() > EARTH_RADIUS_SQ_M2,
    ensures
        !spec_line_of_sight(p, q),
{
    let n = p.spec_norm_sq();
    let rsq = EARTH_RADIUS_SQ_M2 as int;
    let a = (q.x - p.x) * (q.x - p.x) + (q.y - p.y) * (q.y - p.y) + (q.z - p.z) * (q.z - p.z);
    let b = p.x * (q.x - p.x) + p.y * (q.y - p.y) + p.z * (q.z - p.z);
    let c = n - rsq;
    assert(a == 4 * n && b == -2 * n) by (nonlinear_arith)
        requires
            q.x + p.x == 0,
            q.y + p.y == 0,
            q.z + p.z == 0,
            n == p.x * p.x + p.y * p.y + p.z * p.z,
            a == (q.x - p.x) * (q.x - p.x) + (q.y - p.y) * (q.y - p.y) + (q.z - p.z) * (q.z
                - p.z),
            b == p.x * (q.x - p.x) + p.y * (q.y - p.y) + p.z * (q.z - p.z),
    ;
    assert(b * b >= a * c) by (nonlinear_arith)
        requires
            a == 4 * n,
            b == -2 * n,
            c == n - rsq,
            0 < rsq < n,
    ;
}

/// The integer square root of `x`, rounded down, as a function.
pub open spec fn sqrt_floor(x: int) -> int {
    choose|r: int| is_sqrt_floor(x, r)
}

/// Any witness of `is_sqrt_floor` is the square root: the floor of a square
/// root is unique.
pub proof fn lemma_sqrt_floor_eq(x: int, r: int)
    requires
        is_sqrt_floor(x, r),
    ensures
        sqrt_floor(x) == r,
{
    assert(exists|c: int| is_sqrt_floor(x, c));
    let c = sqrt_floor(x);
    assert(is_sqrt_floor(x, c));
    assert(r == c) by (nonlinear_arith)
        requires
            0 <= r,
            r * r <= x < (r + 1) * (r + 1),
            0 <= c,
            c * c <= x < (c + 1) * (c + 1),
    ;
}

/// A square root of a bounded number is bounded: `x < m * m` forces the
/// floor of its root below `m`.
pub proof fn lemma_sqrt_floor_bound(x: int, r: int, m: int)
    requires
        is_sqrt_floor(x, r),
        0 <= m,
        x < m * m,
    ensures
        r < m,
{
    assert(r < m) by (nonlinear_arith)
        requires
            0 <= r,
            r * r <= x,
            0 <= m,
            x < m * m,
    ;
}

/// Integer square root, rounded down, by bisection.
pub fn isqrt64(x: u64) -> (r: u64)
    ensures
        is_sqrt_floor(x as int, r as int),
{
    let mut lo: u64 = 0;
    let mut hi: u64 = 0x1_0000_0000;
    proof {
        assert((0x1_0000_0000 as int) * (0x1_0000_0000 as int) > u64::MAX as int);
    }
    while hi - lo > 1
        invariant
            lo < hi <= 0x1_0000_0000,
            (lo as int) * (lo as int) <= x as int,
            (hi as int) * (hi as int) > x as int,
        decreases hi - lo,
    {
        let mid: u64 = lo + (hi - lo) / 2;
        proof {
            lemma_sq_bound(mid as int, 0x1_0000_0000);
        }
        let sq: u128 = (mid as u128) * (mid as u128);
        if sq <= x as u128 {
            lo = mid;
        } else {
            hi = mid;
        }
    }
    lo
}

/// Euclidean distance in meters between two in-range points, rounded down.
pub fn dist_m(p0: &Vec3, p1: &Vec3) -> (r: u64)
    requires
        p0.in_range(),
        p1.in_range(),
    ensures
        is_sqrt_floor(p0.spec_dist_sq(*p1), r as int),
{
    isqrt64(p0.dist_sq(p1))
}

} // verus!
