//! Trusted boundary to the `rand` crate: the one source of randomness that
//! both the noise lattice and the per-call perturbation draw from.

use vstd::prelude::*;

verus! {

#[verifier::external_type_specification]
#[verifier::external_body]
pub struct ExStdRng(rand::rngs::StdRng);

/// Relies on `rand::RngExt::random_range` over `0..n`: the range is nonempty
/// since `n >= 1`, and every value drawn from it lies below `n`.
#[verifier::external_body]
pub(crate) fn rand_below(rng: &mut rand::rngs::StdRng, n: u32) -> (r: u32)
    requires
        n >= 1,
    ensures
        r < n,
{
    rand::RngExt::random_range(rng, 0..n)
}

/// Relies on `rand::make_rng`, which seeds a fresh `StdRng` from the
/// thread-local generator.
#[verifier::external_body]
pub(crate) fn fresh_rng() -> rand::rngs::StdRng {
    rand::make_rng()
}

} // verus!
