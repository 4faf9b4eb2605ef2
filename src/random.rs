//! The random generator behind draws from an exhausted shoe.
use rand_chacha::rand_core::{RngCore, SeedableRng};
use rand_chacha::ChaCha8Rng;
use vstd::prelude::*;

verus! {

#[verifier::external_type_specification]
#[verifier::external_body]
pub struct ExChaCha8Rng(ChaCha8Rng);

/// Relies on rand_core's `SeedableRng::seed_from_u64` for `ChaCha8Rng`: a
/// generator seeded from one integer. Nothing is assumed of its output.
#[verifier::external_body]
pub(crate) fn seeded_rng(seed: u64) -> ChaCha8Rng {
    ChaCha8Rng::seed_from_u64(seed)
}

/// Relies on rand_core's `RngCore::next_u32` for `ChaCha8Rng`: the next 32 bits
/// of the generator's stream. Nothing is assumed of them.
#[verifier::external_body]
pub(crate) fn next_random(rng: &mut ChaCha8Rng) -> u32 {
    rng.next_u32()
}

} // verus!
