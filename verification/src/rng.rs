//! The pseudorandom source of the simulation: a seeded generator threaded
//! explicitly through the tick, so a run is reproducible from its seed.
//! The generator itself comes from the `rand` crate and is trusted; every
//! use of a drawn value is verified for all values the contract admits.

use vstd::prelude::*;

verus! {

#[verifier::external_type_specification]
#[verifier::external_body]
pub struct ExStdRng(rand::rngs::StdRng);

/// Relies on rand's `SeedableRng::seed_from_u64`: builds a generator whose
/// stream is a function of the seed alone.
#[verifier::external_body]
pub(crate) fn rng_from_seed(seed: u64) -> rand::rngs::StdRng {
    <rand::rngs::StdRng as rand::SeedableRng>::seed_from_u64(seed)
}

/// Relies on rand's `RngExt::random_range` over `lo..hi`: it returns a value
/// of the half-open range and panics only when the range is empty, which the
/// precondition rules out. Nothing more is assumed of which value comes out.
#[verifier::external_body]
pub(crate) fn rng_range(rng: &mut rand::rngs::StdRng, lo: i64, hi: i64) -> (r: i64)
    requires
        lo < hi,
    ensures
        lo <= r < hi,
{
    rand::RngExt::random_range(rng, lo..hi)
}

} // verus!
