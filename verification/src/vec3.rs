use vstd::prelude::*;

verus! {

/// Largest coordinate magnitude (in meters) the geometry routines accept.
/// Keeping every coordinate within `2^29` meters lets every intermediate
/// product of the exact integer geometry fit in `i128`.
pub const POS_LIMIT: i64 = 0x2000_0000;

/// A position in meters, in an Earth-centered inertial frame.
#[derive(Clone, Copy, PartialEq, Eq, Structural, Debug)]
pub struct Vec3 {
    pub x: i64,
    pub y: i64,
    pub z: i64,
}

impl Vec3 {
    /// All coordinates within the range the geometry routines accept.
    pub open spec fn in_range(self) -> bool {
        -POS_LIMIT <= self.x <= POS_LIMIT
            && -POS_LIMIT <= self.y <= POS_LIMIT
            && -POS_LIMIT <= self.z <= POS_LIMIT
    }

    pub open spec fn spec_norm_sq(self) -> int {
        self.x * self.x + self.y * self.y + self.z * self.z
    }

    pub open spec fn spec_dot(self, other: Vec3) -> int {
        self.x * other.x + self.y * other.y + self.z * other.z
    }

    /// Squared Euclidean distance between two points, as a mathematical integer.
    pub open spec fn spec_dist_sq(self, other: Vec3) -> int {
        (self.x - other.x) * (self.x - other.x)
            + (self.y - other.y) * (self.y - other.y)
            + (self.z - other.z) * (self.z - other.z)
    }

    pub fn new(x: i64, y: i64, z: i64) -> (r: Vec3)
        ensures
            r == (Vec3 { x, y, z }),
    {
        Vec3 { x, y, z }
    }

    pub fn norm_sq(&self) -> (r: u64)
        requires
            self.in_range(),
        ensures
            r == self.spec_norm_sq(),
    {
        proof {
            lemma_sq_bound(self.x as int, POS_LIMIT as int);
            lemma_sq_bound(self.y as int, POS_LIMIT as int);
            lemma_sq_bound(self.z as int, POS_LIMIT as int);
        }
        let xx: i128 = (self.x as i128) * (self.x as i128);
        let yy: i128 = (self.y as i128) * (self.y as i128);
        let zz: i128 = (self.z as i128) * (self.z as i128);
        (xx + yy + zz) as u64
    }

    /// Squared Euclidean distance; exact, never overflows for in-range points.
    pub fn dist_sq(&self, other: &Vec3) -> (r: u64)
        requires
            self.in_range(),
            other.in_range(),
        ensures
            r == self.spec_dist_sq(*other),
    {
        let dx: i64 = self.x - other.x;
        let dy: i64 = self.y - other.y;
        let dz: i64 = self.z - other.z;
        proof {
            lemma_sq_bound(dx as int, 2 * POS_LIMIT as int);
            lemma_sq_bound(dy as int, 2 * POS_LIMIT as int);
            lemma_sq_bound(dz as int, 2 * POS_LIMIT as int);
        }
        let xx: i128 = (dx as i128) * (dx as i128);
        let yy: i128 = (dy as i128) * (dy as i128);
        let zz: i128 = (dz as i128) * (dz as i128);
        (xx + yy + zz) as u64
    }
}

/// The squared distance of two in-range points is nonnegative and fits
/// well below `2^62`.
pub proof fn lemma_dist_sq_range(p: Vec3, q: Vec3)
    requires
        p.in_range(),
        q.in_range(),
    ensures
        0 <= p.spec_dist_sq(q) < 0x4000_0000_0000_0000,
{
    lemma_sq_bound((p.x - q.x) as int, 2 * POS_LIMIT as int);
    lemma_sq_bound((p.y - q.y) as int, 2 * POS_LIMIT as int);
    lemma_sq_bound((p.z - q.z) as int, 2 * POS_LIMIT as int);
    assert((2 * POS_LIMIT as int) * (2 * POS_LIMIT as int) == 0x1000_0000_0000_0000)
        by (nonlinear_arith);
}

/// Squared distance does not depend on the order of its endpoints.
pub proof fn lemma_dist_sq_symmetric(p: Vec3, q: Vec3)
    ensures
        p.spec_dist_sq(q) == q.spec_dist_sq(p),
{
    assert((p.x - q.x) * (p.x - q.x) == (q.x - p.x) * (q.x - p.x)) by (nonlinear_arith);
    assert((p.y - q.y) * (p.y - q.y) == (q.y - p.y) * (q.y - p.y)) by (nonlinear_arith);
    assert((p.z - q.z) * (p.z - q.z) == (q.z - p.z) * (q.z - p.z)) by (nonlinear_arith);
}

/// `|a| <= m` bounds the square `a * a` by `m * m`.
pub proof fn lemma_sq_bound(a: int, m: int)
    requires
        -m <= a <= m,
        0 <= m,
    ensures
        0 <= a * a <= m * m,
{
    assert(0 <= a * a <= m * m) by (nonlinear_arith)
        requires
            -m <= a <= m,
            0 <= m,
    ;
}

/// `|a| <= m` and `|b| <= n` bound the product `a * b` by `m * n` in magnitude.
pub proof fn lemma_mul_bound(a: int, b: int, m: int, n: int)
    requires
        -m <= a <= m,
        -n <= b <= n,
        0 <= m,
        0 <= n,
    ensures
        -(m * n) <= a * b <= m * n,
{
    assert(-(m * n) <= a * b <= m * n) by (nonlinear_arith)
        requires
            -m <= a <= m,
            -n <= b <= n,
            0 <= m,
            0 <= n,
    ;
}

} // verus!
