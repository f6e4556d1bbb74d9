//! The pseudo-random generator behind the population of a region.
//!
//! The generator is `rand`'s `SmallRng`. Nothing in this file is proved: each
//! item states what the crate's documentation and source say of the call
//! that it makes.

use vstd::prelude::*;
use rand::rngs::SmallRng;
use rand::{Rng, SeedableRng};

verus! {

/// `rand::rngs::SmallRng`, whose state is opaque to the proofs.
#[verifier::external_type_specification]
#[verifier::external_body]
pub struct ExSmallRng(rand::rngs::SmallRng);

/// Calls `SmallRng::seed_from_u64`, which makes a generator whose output
/// follows from `seed` on a given platform. Nothing is claimed of the
/// generator: the algorithm behind `SmallRng` differs between platforms.
#[verifier::external_body]
pub(crate) fn seeded_rng(seed: u64) -> SmallRng {
    SmallRng::seed_from_u64(seed)
}

/// Calls `Rng::gen_range` on the inclusive range `low..=high`. The call
/// panics on an empty range, hence the precondition; its result lies in the
/// range. Which value of the range comes out is not stated.
#[verifier::external_body]
pub(crate) fn gen_range_inclusive(rng: &mut SmallRng, low: i32, high: i32) -> (v: i32)
    requires
        low <= high,
    ensures
        low <= v <= high,
{
    rng.gen_range(low..=high)
}

} // verus!
