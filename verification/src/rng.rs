//! Randomness for the engine, supplied by the `rand` crate.
//!
//! All randomness enters the library through the two `rng_below` draws.  A
//! draw is never assumed to be reproducible; the only promise is that a draw
//! from `0..n` is strictly below `n`.

use vstd::prelude::*;

verus! {

/// The `rand` generator the engine uses, opaque to verification.
#[verifier::external_type_specification]
#[verifier::external_body]
pub struct ExSmallRng(rand::rngs::SmallRng);

/// Relies on rand's `SeedableRng::from_entropy`: builds a fresh `SmallRng`
/// seeded from the operating system.  Nothing is promised about its stream.
#[verifier::external_body]
pub(crate) fn new_rng() -> rand::rngs::SmallRng {
    <rand::rngs::SmallRng as rand::SeedableRng>::from_entropy()
}

/// Relies on rand's `Rng::gen_range` over `0..n`: a uniform draw strictly
/// below `n`.  `gen_range` panics only on an empty range, which the
/// `requires` rules out.
#[verifier::external_body]
pub(crate) fn rng_below(rng: &mut rand::rngs::SmallRng, n: u64) -> (r: u64)
    requires
        n >= 1,
    ensures
        r < n,
{
    rand::Rng::gen_range(rng, 0..n)
}

/// Relies on rand's `Rng::gen_range` over `0..n` for `u128` bounds, used for
/// roulette weight sums too large for `u64`.  As above, the range is
/// non-empty by `requires`.
#[verifier::external_body]
pub(crate) fn rng_below_u128(rng: &mut rand::rngs::SmallRng, n: u128) -> (r: u128)
    requires
        n >= 1,
    ensures
        r < n,
{
    rand::Rng::gen_range(rng, 0..n)
}

} // verus!
