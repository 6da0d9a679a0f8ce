use vstd::prelude::*;

verus! {

/// Declares rand's `StdRng` to the verifier: an opaque generator state.
#[verifier::external_type_specification]
#[verifier::external_body]
pub struct ExStdRng(rand::rngs::StdRng);

/// Relies on rand's `SeedableRng::seed_from_u64` for `StdRng`: builds a
/// generator from the seed. Nothing is promised about the values it will
/// yield; the library states only what holds of every draw.
#[verifier::external_body]
pub(crate) fn rng_from_seed(seed: u64) -> rand::rngs::StdRng {
    <rand::rngs::StdRng as rand::SeedableRng>::seed_from_u64(seed)
}

/// Relies on rand's `RngCore::next_u64`: one draw of the generator.
/// Nothing can be promised of a random value.
#[verifier::external_body]
pub(crate) fn rng_next_u64(rng: &mut rand::rngs::StdRng) -> u64 {
    rand::RngCore::next_u64(rng)
}

} // verus!
