//! The crate's only randomness source: a caller-supplied `rand::rngs::StdRng`
//! handle, reached through two trusted wrappers.  Everything derived from a
//! draw is computed, and verified, inside this crate.

use vstd::prelude::*;

verus! {

#[verifier::external_type_specification]
#[verifier::external_body]
pub struct ExStdRng(rand::rngs::StdRng);

/// Relies on rand's `Rng::gen_range` over an `i64` range: it panics only on
/// an empty range and returns a member of the range.
#[verifier::external_body]
pub(crate) fn rng_range_i64(rng: &mut rand::rngs::StdRng, lo: i64, hi: i64) -> (r: i64)
    requires
        lo < hi,
    ensures
        lo <= r < hi,
{
    rand::Rng::gen_range(rng, lo..hi)
}

/// Relies on rand's `Rng::gen_range` over a `usize` range: it panics only on
/// an empty range and returns a member of the range.
#[verifier::external_body]
pub(crate) fn rng_range_usize(rng: &mut rand::rngs::StdRng, lo: usize, hi: usize) -> (r: usize)
    requires
        lo < hi,
    ensures
        lo <= r < hi,
{
    rand::Rng::gen_range(rng, lo..hi)
}

} // verus!
