//! The random source: a seedable generator, injected by the caller so that a
//! render can be reproduced, handing out fixed-point draws.

use vstd::prelude::*;
use rand::Rng;
use rand::SeedableRng;
use crate::fixed::ONE;

verus! {

#[verifier::external_type_specification]
#[verifier::external_body]
pub struct ExStdRng(rand::rngs::StdRng);

/// Relies on rand's `SeedableRng::seed_from_u64`: builds a generator from a
/// word-sized seed. Nothing is assumed of the stream it will produce.
#[verifier::external_body]
pub fn rng_from_seed(seed: u64) -> rand::rngs::StdRng {
    rand::rngs::StdRng::seed_from_u64(seed)
}

/// Relies on rand's `Rng::gen_range`: a draw from `lo..hi` lies in that
/// half-open range. The range must not be empty, or the call would panic.
#[verifier::external_body]
pub fn rand_range(rng: &mut rand::rngs::StdRng, lo: i64, hi: i64) -> (r: i64)
    requires
        lo < hi,
    ensures
        lo <= r < hi,
{
    rng.gen_range(lo..hi)
}

/// A draw from `[0, 1)` in fixed-point: one call of the ranged draw over the
/// unit interval.
pub fn rand_unit(rng: &mut rand::rngs::StdRng) -> (r: i64)
    ensures
        0 <= r < ONE,
{
    rand_range(rng, 0, ONE)
}

} // verus!
