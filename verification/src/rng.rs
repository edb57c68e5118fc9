//! A seedable source of uniform unit-interval draws, threaded through the
//! constructors of the virtual machine and the memory allocator so that a
//! run is reproducible from its seed.

use vstd::prelude::*;

verus! {

#[verifier::external_type_specification]
#[verifier::external_body]
pub struct ExStdRng(rand::rngs::StdRng);

/// Relies on rand's `SeedableRng::seed_from_u64`: builds a generator whose
/// sequence of draws is determined by the seed.
#[verifier::external_body]
pub(crate) fn rng_from_seed(seed: u64) -> rand::rngs::StdRng {
    <rand::rngs::StdRng as rand::SeedableRng>::seed_from_u64(seed)
}

/// Relies on rand's `Rng::gen_range`: returns a uniform draw from the given
/// range, here the half-open unit interval `[0.0, 1.0)` in Q16.16.
#[verifier::external_body]
pub(crate) fn next_unit(rng: &mut rand::rngs::StdRng) -> (r: i64)
    ensures
        0 <= r < 65536,
{
    rand::Rng::gen_range(rng, 0i64..65536i64)
}

} // verus!
