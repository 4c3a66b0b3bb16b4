//! Random draws for the simulation, backed by the `rand` crate.
//!
//! All randomness flows through an explicit `StdRng` value handed in by the
//! caller, so a run can be reproduced from its seed.  Verified code never
//! relies on more than the range of a draw.

use vstd::prelude::*;

pub use rand::rngs::StdRng;

verus! {

#[verifier::external_type_specification]
#[verifier::external_body]
pub struct ExStdRng(rand::rngs::StdRng);

/// Relies on rand's `SeedableRng::seed_from_u64`: builds a generator
/// deterministically from a 64-bit seed.
#[verifier::external_body]
pub fn rng_from_seed(seed: u64) -> rand::rngs::StdRng {
    <rand::rngs::StdRng as rand::SeedableRng>::seed_from_u64(seed)
}

/// Relies on rand's `RngExt::random_range` over `lo..hi`: returns a value in
/// `[lo, hi)`.  The range is nonempty by precondition, so the call cannot
/// panic; nothing further is assumed about which value comes back.
#[verifier::external_body]
pub fn rand_range(rng: &mut rand::rngs::StdRng, lo: i64, hi: i64) -> (r: i64)
    requires
        lo < hi,
    ensures
        lo <= r < hi,
{
    rand::RngExt::random_range(rng, lo..hi)
}

} // verus!
