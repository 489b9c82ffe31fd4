//! The random draws that the city is spread with, taken from `fastrand`.
//!
//! Nothing in this file is proved. The contracts say of `fastrand`'s
//! generator what its source shows, and the functions that draw are verified
//! for whatever comes back.

use vstd::prelude::*;

verus! {

/// `fastrand::Rng`, a seeded generator. Nothing is said of its state: two
/// draws from one generator may differ.
#[verifier::external_type_specification]
#[verifier::external_body]
pub struct ExRng(fastrand::Rng);

/// Calls `fastrand::Rng::usize` with the range from zero up to and without
/// `bound`. The generator returns a number of the range it is given, so one
/// below `bound`; it panics on an empty range, which `bound > 0` leaves out.
#[verifier::external_body]
pub(crate) fn draw_below(rng: &fastrand::Rng, bound: usize) -> (drawn: usize)
    requires
        bound > 0,
    ensures
        drawn < bound,
{
    rng.usize(0..bound)
}

/// Calls `fastrand::Rng::bool`. Either value may come back.
#[verifier::external_body]
pub(crate) fn draw_bool(rng: &fastrand::Rng) -> (drawn: bool) {
    rng.bool()
}

} // verus!
