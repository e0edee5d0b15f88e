//! Random numbers, drawn from a generator of the `rand` crate.

use vstd::prelude::*;

verus! {

#[verifier::external_type_specification]
#[verifier::external_body]
pub struct ExStdRng(rand::rngs::StdRng);

/// Draws a number between `low` and `high`, both included, with
/// `rand::Rng::gen_range`.
///
/// Not proved: that the call returns a number of the range it is given. The
/// call panics on an empty range, which `requires` leaves out.
#[verifier::external_body]
pub(crate) fn draw_inclusive(rng: &mut rand::rngs::StdRng, low: i64, high: i64) -> (r: i64)
    requires
        low <= high,
    ensures
        low <= r <= high,
{
    rand::Rng::gen_range(rng, low..=high)
}

} // verus!
