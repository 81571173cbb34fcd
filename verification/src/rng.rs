//! The trusted boundary to the `rand` crate. The random source is
//! passed into every system that draws from it, so runs are
//! reproducible from a seed; nothing is assumed of a drawn value
//! except its range.

use vstd::prelude::*;

verus! {

/// `rand`'s standard generator, opaque to verification.
#[verifier::external_type_specification]
#[verifier::external_body]
pub struct ExStdRng(rand::rngs::StdRng);

/// Relies on rand::Rng::gen_range (rand 0.7): a draw in `[low, high)`;
/// its sampler asserts `low < high`, which the precondition rules out,
/// and produces `low + (v * range >> 64)` with the high word strictly
/// below the range. Nothing more is assumed of the value.
#[verifier::external_body]
pub fn gen_range_i64(rng: &mut rand::rngs::StdRng, low: i64, high: i64) -> (r: i64)
    requires
        low < high,
    ensures
        low <= r < high,
{
    rand::Rng::gen_range(rng, low, high)
}

/// Relies on rand::Rng::gen with the standard distribution on `bool`:
/// a coin flip, of which nothing is assumed.
#[verifier::external_body]
pub fn gen_bool(rng: &mut rand::rngs::StdRng) -> (r: bool)
{
    rand::Rng::gen(rng)
}

} // verus!
