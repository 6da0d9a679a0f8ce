use vstd::prelude::*;
use vstd::arithmetic::div_mod::lemma_fundamental_div_mod_converse;
use crate::vec3::{Vec3, POS_LIMIT};
use crate::geometry::{line_of_sight, in_view_cone, dist_m, spec_line_of_sight, spec_in_view_cone,
    is_sqrt_floor};

verus! {

/// An angle, held exactly as the rational multiple `num / den` of pi
/// radians. All angles the constellation builder produces are such
/// multiples, so no rounding enters the model.
#[derive(Clone, Copy, PartialEq, Eq, Structural, Debug)]
pub struct Angle {
    pub num: u64,
    pub den: u64,
}

/// An invariant circular orbit: all satellites of one plane share it.
#[derive(Clone, Copy, PartialEq, Eq, Structural, Debug)]
pub struct OrbitalPlane {
    pub id: usize,
    /// Orbit radius, in meters.
    pub semimajor_axis: i64,
    /// Inclination, in millionths of a degree.
    pub inclination: i64,
    /// Longitude of the ascending node, as a multiple of pi.
    pub longitude: Angle,
}

impl OrbitalPlane {
    pub fn id(&self) -> (r: usize)
        ensures
            r == self.id,
    {
        self.id
    }

    pub fn semimajor_axis(&self) -> (r: i64)
        ensures
            r == self.semimajor_axis,
    {
        self.semimajor_axis
    }

    pub fn inclination(&self) -> (r: i64)
        ensures
            r == self.inclination,
    {
        self.inclination
    }

    pub fn longitude(&self) -> (r: Angle)
        ensures
            r == self.longitude,
    {
        self.longitude
    }
}

/// One satellite: its place in the constellation, its phase within its
/// plane, its cached position, and whether it is still alive.
#[derive(Clone, Copy, PartialEq, Eq, Structural, Debug)]
pub struct Satellite {
    pub id: usize,
    /// Index of the plane this satellite belongs to (a back-reference).
    pub orbital_plane: usize,
    /// Orbit radius of that plane, in meters (kept alongside the plane
    /// index so the footprint test needs no plane lookup).
    pub semimajor_axis: i64,
    /// Angular offset within the plane at `t = 0`, as a multiple of pi.
    pub arg_periapsis: Angle,
    /// Cached position, recomputed by the caller each tick.
    pub position: Vec3,
    /// `true` while the satellite is alive.
    pub status: bool,
}

impl Satellite {
    pub fn id(&self) -> (r: usize)
        ensures
            r == self.id,
    {
        self.id
    }

    pub fn orbital_plane(&self) -> (r: usize)
        ensures
            r == self.orbital_plane,
    {
        self.orbital_plane
    }

    pub fn arg_periapsis(&self) -> (r: Angle)
        ensures
            r == self.arg_periapsis,
    {
        self.arg_periapsis
    }

    pub fn position(&self) -> (r: Vec3)
        ensures
            r == self.position,
    {
        self.position
    }

    pub fn status(&self) -> (r: bool)
        ensures
            r == self.status,
    {
        self.status
    }

    pub fn set_status(&mut self, status: bool)
        ensures
            *final(self) == (Satellite { status, ..*old(self) }),
    {
        self.status = status;
    }

    /// True iff the satellite has an unobstructed line of sight towards a
    /// given point (it is not blocked by the Earth).
    pub fn has_line_of_sight(&self, point: &Vec3) -> (r: bool)
        requires
            self.position.in_range(),
            point.in_range(),
        ensures
            r == spec_line_of_sight(self.position, *point),
    {
        line_of_sight(&self.position, point)
    }

    /// True iff `point` lies in this satellite's ground-link footprint cone.
    pub fn is_in_view_cone(&self, point: &Vec3) -> (r: bool)
        requires
            self.position.in_range(),
            point.in_range(),
            0 <= self.semimajor_axis <= POS_LIMIT,
        ensures
            r == spec_in_view_cone(self.position, self.semimajor_axis, *point),
    {
        in_view_cone(&self.position, self.semimajor_axis, point)
    }
}

/// How the planes' ascending nodes are spread: over a full turn (Delta) or
/// over half a turn (Star).
#[derive(Clone, Copy, PartialEq, Eq, Structural, Debug)]
pub enum ConstellationType {
    Delta,
    Star,
}

impl ConstellationType {
    /// The spread of the ascending nodes, as a multiple of pi.
    pub open spec fn spec_angle(self) -> u64 {
        match self {
            ConstellationType::Delta => 2,
            ConstellationType::Star => 1,
        }
    }

    /// The spread of the ascending nodes, as a multiple of pi: `2 * pi` for
    /// Delta, `pi` for Star.
    pub fn angle(&self) -> (r: u64)
        ensures
            r == self.spec_angle(),
    {
        match self {
            ConstellationType::Delta => 2,
            ConstellationType::Star => 1,
        }
    }

    /// The constellation type a configuration names: `"delta"`, `"star"`,
    /// or nothing.
    pub fn from_name(name: &String) -> (r: Option<ConstellationType>)
        ensures
            r == (if name@ == "delta"@ {
                Some(ConstellationType::Delta)
            } else if name@ == "star"@ {
                Some(ConstellationType::Star)
            } else {
                None::<ConstellationType>
            }),
    {
        let delta: String = "delta".to_owned();
        let star: String = "star".to_owned();
        if *name == delta {
            Some(ConstellationType::Delta)
        } else if *name == star {
            Some(ConstellationType::Star)
        } else {
            None
        }
    }
}

/// The satellite constellation and the simulated clock.
pub struct Model {
    pub orbital_planes: Vec<OrbitalPlane>,
    pub satellites: Vec<Satellite>,
    /// Simulated time, in microseconds.
    pub t: u64,
    /// Largest degree any satellite may reach in the connection graph.
    pub max_connections: usize,
}

/// The plane at index `i` of a well-formed model built from these
/// parameters.
pub open spec fn plane_ok(
    p: OrbitalPlane,
    i: int,
    num_orbital_planes: int,
    inclination: int,
    kind: ConstellationType,
    semimajor_axis: int,
) -> bool {
    &&& p.id == i
    &&& p.semimajor_axis == semimajor_axis
    &&& p.inclination == inclination
    &&& p.arg_longitude_num() == kind.spec_angle() * i
    &&& p.longitude.den == num_orbital_planes
}

/// The satellite at index `k` of a well-formed model built from these
/// parameters: ids are contiguous and plane-major, and the phase within the
/// plane advances by `2 * pi / S` per slot plus the cross-plane phasing
/// offset `phasing * pi / (P * S)` per plane.
pub open spec fn satellite_ok(
    s: Satellite,
    k: int,
    num_orbital_planes: int,
    satellites_per_plane: int,
    phasing: int,
    semimajor_axis: int,
) -> bool {
    &&& s.id == k
    &&& s.orbital_plane == k / satellites_per_plane
    &&& s.semimajor_axis == semimajor_axis
    &&& s.arg_periapsis.num == phasing * (k / satellites_per_plane) + 2 * ((k
        % satellites_per_plane) * num_orbital_planes)
    &&& s.arg_periapsis.den == num_orbital_planes * satellites_per_plane
    &&& s.position == (Vec3 { x: 0, y: 0, z: 0 })
    &&& s.status == true
}

impl OrbitalPlane {
    /// Numerator of the ascending-node longitude, as a multiple of pi.
    pub open spec fn arg_longitude_num(self) -> int {
        self.longitude.num as int
    }
}

impl Model {
    /// Structural well-formedness: plane ids match their indices, satellite
    /// ids are contiguous, every back-reference resolves, every cached
    /// position is in range of the exact geometry, and every satellite
    /// carries its plane's orbit radius.
    pub open spec fn wf(self) -> bool {
        &&& forall|i: int|
            0 <= i < self.orbital_planes@.len() ==> {
                let p = #[trigger] self.orbital_planes@[i];
                p.id == i && 0 < p.semimajor_axis <= POS_LIMIT
            }
        &&& forall|k: int|
            0 <= k < self.satellites@.len() ==> {
                let s = #[trigger] self.satellites@[k];
                &&& s.id == k
                &&& s.orbital_plane < self.orbital_planes@.len()
                &&& s.semimajor_axis == self.orbital_planes@[s.orbital_plane as int].semimajor_axis
                &&& s.position.in_range()
            }
    }

    /// Builds the constellation: `num_orbital_planes` planes whose
    /// ascending nodes spread over the constellation type's angle, each
    /// holding `satellites_per_plane` satellites, ids plane-major, all
    /// alive, all positions at the origin until the first tick.
    pub fn new(
        num_orbital_planes: usize,
        satellites_per_plane: usize,
        inclination: i64,
        constellation_type: ConstellationType,
        phasing: usize,
        semimajor_axis: i64,
        max_connections: usize,
    ) -> (r: Model)
        requires
            1 <= num_orbital_planes,
            1 <= satellites_per_plane,
            num_orbital_planes * satellites_per_plane <= 0x10_0000,
            phasing < num_orbital_planes,
            0 < semimajor_axis <= POS_LIMIT,
        ensures
            r.wf(),
            r.orbital_planes@.len() == num_orbital_planes,
            r.satellites@.len() == num_orbital_planes * satellites_per_plane,
            r.t == 0,
            r.max_connections == max_connections,
            forall|i: int|
                0 <= i < num_orbital_planes ==> plane_ok(
                    #[trigger] r.orbital_planes@[i],
                    i,
                    num_orbital_planes as int,
                    inclination as int,
                    constellation_type,
                    semimajor_axis as int,
                ),
            forall|k: int|
                0 <= k < num_orbital_planes * satellites_per_plane ==> satellite_ok(
                    #[trigger] r.satellites@[k],
                    k,
                    num_orbital_planes as int,
                    satellites_per_plane as int,
                    phasing as int,
                    semimajor_axis as int,
                ),
    {
        proof {
            assert(num_orbital_planes <= 0x10_0000 && satellites_per_plane <= 0x10_0000)
                by (nonlinear_arith)
                requires
                    1 <= num_orbital_planes as int,
                    1 <= satellites_per_plane as int,
                    (num_orbital_planes as int) * (satellites_per_plane as int) <= 0x10_0000,
            ;
        }
        let total: usize = num_orbital_planes * satellites_per_plane;
        let mut orbital_planes: Vec<OrbitalPlane> = Vec::new();
        let mut satellites: Vec<Satellite> = Vec::new();
        let mut i: usize = 0;
        while i < num_orbital_planes
            invariant
                i <= num_orbital_planes,
                total == num_orbital_planes * satellites_per_plane,
                1 <= satellites_per_plane,
                num_orbital_planes <= 0x10_0000,
                satellites_per_plane <= 0x10_0000,
                num_orbital_planes * satellites_per_plane <= 0x10_0000,
                phasing < num_orbital_planes,
                0 < semimajor_axis <= POS_LIMIT,
                orbital_planes@.len() == i,
                satellites@.len() == i * satellites_per_plane,
                forall|i0: int|
                    0 <= i0 < i ==> plane_ok(
                        #[trigger] orbital_planes@[i0],
                        i0,
                        num_orbital_planes as int,
                        inclination as int,
                        constellation_type,
                        semimajor_axis as int,
                    ),
                forall|k: int|
                    0 <= k < satellites@.len() ==> satellite_ok(
                        #[trigger] satellites@[k],
                        k,
                        num_orbital_planes as int,
                        satellites_per_plane as int,
                        phasing as int,
                        semimajor_axis as int,
                    ),
            decreases num_orbital_planes - i,
        {
            proof {
                vstd::arithmetic::mul::lemma_mul_inequality(
                    i + 1,
                    num_orbital_planes as int,
                    satellites_per_plane as int,
                );
                assert((i + 1) * satellites_per_plane == i * satellites_per_plane
                    + satellites_per_plane) by (nonlinear_arith);
            }
            let ang: u64 = constellation_type.angle();
            proof {
                assert((ang as int) * (i as int) <= 0x20_0000) by (nonlinear_arith)
                    requires
                        0 <= ang as int <= 2,
                        0 <= i as int <= 0x10_0000,
                ;
            }
            orbital_planes.push(
                OrbitalPlane {
                    id: i,
                    semimajor_axis,
                    inclination,
                    longitude: Angle { num: ang * (i as u64), den: num_orbital_planes as u64 },
                },
            );
            let mut j: usize = 0;
            while j < satellites_per_plane
                invariant
                    i < num_orbital_planes,
                    j <= satellites_per_plane,
                    1 <= satellites_per_plane,
                    num_orbital_planes <= 0x10_0000,
                    satellites_per_plane <= 0x10_0000,
                    num_orbital_planes * satellites_per_plane <= 0x10_0000,
                    phasing < num_orbital_planes,
                    0 < semimajor_axis <= POS_LIMIT,
                    satellites@.len() == i * satellites_per_plane + j,
                    forall|k: int|
                        0 <= k < satellites@.len() ==> satellite_ok(
                            #[trigger] satellites@[k],
                            k,
                            num_orbital_planes as int,
                            satellites_per_plane as int,
                            phasing as int,
                            semimajor_axis as int,
                        ),
                decreases satellites_per_plane - j,
            {
                let id: usize = satellites.len();
                proof {
                    lemma_fundamental_div_mod_converse(
                        id as int,
                        satellites_per_plane as int,
                        i as int,
                        j as int,
                    );
                    assert((phasing as int) * (i as int) <= 0x100_0000_0000) by (nonlinear_arith)
                        requires
                            0 <= phasing as int <= 0x10_0000,
                            0 <= i as int <= 0x10_0000,
                    ;
                    assert((j as int) * (num_orbital_planes as int) <= 0x100_0000_0000)
                        by (nonlinear_arith)
                        requires
                            0 <= j as int <= 0x10_0000,
                            0 <= num_orbital_planes as int <= 0x10_0000,
                    ;
                }
                satellites.push(
                    Satellite {
                        id,
                        orbital_plane: i,
                        semimajor_axis,
                        arg_periapsis: Angle {
                            num: (phasing as u64) * (i as u64) + 2 * ((j as u64) * (
                            num_orbital_planes as u64)),
                            den: (num_orbital_planes as u64) * (satellites_per_plane as u64),
                        },
                        position: Vec3 { x: 0, y: 0, z: 0 },
                        status: true,
                    },
                );
                j += 1;
            }
            i += 1;
        }
        proof {
            assert forall|k: int| 0 <= k < satellites@.len() implies #[trigger] (k / (
            satellites_per_plane as int)) < num_orbital_planes as int by {
                assert((satellites_per_plane as int) * (num_orbital_planes as int) == (
                num_orbital_planes as int) * (satellites_per_plane as int)) by (nonlinear_arith);
                vstd::arithmetic::div_mod::lemma_multiply_divide_lt(
                    k,
                    satellites_per_plane as int,
                    num_orbital_planes as int,
                );
            }
        }
        Model { orbital_planes, satellites, t: 0, max_connections }
    }

    pub fn orbital_planes(&self) -> (r: &Vec<OrbitalPlane>)
        ensures
            r == &self.orbital_planes,
    {
        &self.orbital_planes
    }

    pub fn satellites(&self) -> (r: &Vec<Satellite>)
        ensures
            r == &self.satellites,
    {
        &self.satellites
    }

    pub fn t(&self) -> (r: u64)
        ensures
            r == self.t,
    {
        self.t
    }

    pub fn max_connections(&self) -> (r: usize)
        ensures
            r == self.max_connections,
    {
        self.max_connections
    }

    /// Advances the clock by `time_step` microseconds and stores the
    /// positions the caller's orbital propagator computed for the new time.
    pub fn increment_t(&mut self, time_step: u64, new_positions: &Vec<Vec3>)
        requires
            old(self).wf(),
            old(self).t + time_step <= u64::MAX,
            new_positions@.len() == old(self).satellites@.len(),
            forall|k: int| 0 <= k < new_positions@.len() ==> (#[trigger] new_positions@[k]).in_range(),
        ensures
            final(self).wf(),
            final(self).t == old(self).t + time_step,
            final(self).orbital_planes == old(self).orbital_planes,
            final(self).max_connections == old(self).max_connections,
            final(self).satellites@.len() == old(self).satellites@.len(),
            forall|k: int|
                0 <= k < old(self).satellites@.len() ==> #[trigger] final(self).satellites@[k] == (
                Satellite { position: new_positions@[k], ..old(self).satellites@[k] }),
    {
        self.t = self.t + time_step;
        let n: usize = self.satellites.len();
        let mut k: usize = 0;
        while k < n
            invariant
                n == self.satellites@.len(),
                n == old(self).satellites@.len(),
                k <= n,
                new_positions@.len() == n,
                self.orbital_planes == old(self).orbital_planes,
                self.max_connections == old(self).max_connections,
                self.t == old(self).t + time_step,
                forall|m: int|
                    0 <= m < k ==> #[trigger] self.satellites@[m] == (Satellite {
                        position: new_positions@[m],
                        ..old(self).satellites@[m]
                    }),
                forall|m: int|
                    k <= m < n ==> #[trigger] self.satellites@[m] == old(self).satellites@[m],
            decreases n - k,
        {
            self.satellites[k].position = *(&new_positions[k]);
            k += 1;
        }
    }

    /// Marks one satellite alive or dead; nothing else changes.
    pub fn set_status(&mut self, k: usize, status: bool)
        requires
            k < old(self).satellites@.len(),
        ensures
            final(self).orbital_planes == old(self).orbital_planes,
            final(self).t == old(self).t,
            final(self).max_connections == old(self).max_connections,
            final(self).satellites@ == old(self).satellites@.update(
                k as int,
                Satellite { status, ..old(self).satellites@[k as int] },
            ),
            old(self).wf() ==> final(self).wf(),
    {
        self.satellites[k].status = status;
        proof {
            assert(final(self).satellites@ =~= old(self).satellites@.update(
                k as int,
                Satellite { status, ..old(self).satellites@[k as int] },
            ));
        }
    }

    /// Euclidean distance in meters (rounded down) between two satellites'
    /// current positions.
    pub fn distance_between_satellites(&self, a: usize, b: usize) -> (r: u64)
        requires
            self.wf(),
            a < self.satellites@.len(),
            b < self.satellites@.len(),
        ensures
            is_sqrt_floor(self.satellites@[a as int].position.spec_dist_sq(
                self.satellites@[b as int].position,
            ), r as int),
    {
        dist_m(&self.satellites[a].position, &self.satellites[b].position)
    }

    /// The alive satellite closest to `point` (ties to the lowest index),
    /// or `None` when every satellite is dead.
    pub fn closest_active_satellite(&self, point: &Vec3) -> (r: Option<usize>)
        requires
            self.wf(),
            point.in_range(),
        ensures
            match r {
                Some(k) => {
                    &&& k < self.satellites@.len()
                    &&& self.satellites@[k as int].status
                    &&& forall|m: int|
                        0 <= m < self.satellites@.len() && (#[trigger] self.satellites@[m]).status
                            ==> point.spec_dist_sq(self.satellites@[k as int].position)
                            <= point.spec_dist_sq(self.satellites@[m].position)
                    &&& forall|m: int|
                        0 <= m < k && (#[trigger] self.satellites@[m]).status
                            ==> point.spec_dist_sq(self.satellites@[k as int].position)
                            < point.spec_dist_sq(self.satellites@[m].position)
                },
                None => forall|m: int|
                    0 <= m < self.satellites@.len() ==> !(#[trigger] self.satellites@[m]).status,
            },
    {
        let n: usize = self.satellites.len();
        let mut best: Option<usize> = None;
        let mut best_d: u64 = 0;
        let mut k: usize = 0;
        while k < n
            invariant
                self.wf(),
                point.in_range(),
                n == self.satellites@.len(),
                k <= n,
                match best {
                    Some(b) => {
                        &&& b < k
                        &&& self.satellites@[b as int].status
                        &&& best_d == point.spec_dist_sq(self.satellites@[b as int].position)
                        &&& forall|m: int|
                            0 <= m < k && (#[trigger] self.satellites@[m]).status ==> best_d
                                <= point.spec_dist_sq(self.satellites@[m].position)
                        &&& forall|m: int|
                            0 <= m < b && (#[trigger] self.satellites@[m]).status ==> best_d
                                < point.spec_dist_sq(self.satellites@[m].position)
                    },
                    None => forall|m: int|
                        0 <= m < k ==> !(#[trigger] self.satellites@[m]).status,
                },
            decreases n - k,
        {
            if self.satellites[k].status {
                let d: u64 = point.dist_sq(&self.satellites[k].position);
                match best {
                    Some(_) => {
                        if d < best_d {
                            best = Some(k);
                            best_d = d;
                        }
                    },
                    None => {
                        best = Some(k);
                        best_d = d;
                    },
                }
            }
            k += 1;
        }
        best
    }
}

} // verus!
