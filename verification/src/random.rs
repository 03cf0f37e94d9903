//! The random numbers of a run. One generator serves a whole run: it is
//! seeded when the run begins and handed to every call of a behaviour.

use rand::rngs::StdRng;
use rand::SeedableRng;
use vstd::prelude::*;

verus! {

#[verifier::external_type_specification]
#[verifier::external_body]
pub struct ExStdRng(rand::rngs::StdRng);

/// The generator that the seed `seed` gives.
pub uninterp spec fn seeded_rng(seed: u64) -> rand::rngs::StdRng;

/// A generator for the seed `seed`. This is `rand`'s
/// `SeedableRng::seed_from_u64` for `StdRng`, which computes the generator
/// from the seed alone: one seed gives one generator.
#[verifier::external_body]
pub(crate) fn seed_rng(seed: u64) -> (rng: StdRng)
    ensures
        rng == seeded_rng(seed),
{
    StdRng::seed_from_u64(seed)
}

} // verus!
