//! A verified core for a low-Earth-orbit constellation simulator: an exact
//! integer model of satellite positions and line-of-sight geometry, a
//! constellation builder over rational angles, connection strategies that
//! keep every topology invariant, a simulation driver with a deterministic
//! seeded failure model, round-trip-time search over a re-weighted copy of
//! the topology, network statistics, and the wire framing of the update
//! streams. The orbital trigonometry, the JSON encoding and all I/O live
//! with the callers; this crate states and proves what is computed on the
//! values they hand in.
use vstd::prelude::*;

pub mod framing;
pub mod geometry;
pub mod graph;
pub mod model;
pub mod rng;
pub mod simulation;
pub mod stats;
pub mod strategy;
pub mod vec3;

verus! {

} // verus!
