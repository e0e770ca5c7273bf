//! Random numbers, drawn from the `fastrand` crate's thread-local generator.
//!
//! Nothing is known of a drawn number but its bounds, so whatever is built on
//! one is verified for every number that could have been drawn.

use vstd::prelude::*;

verus! {

/// Draws a number between `low` and `high`, both included, with
/// `fastrand::usize`.
///
/// Trusted: the number lies within the bounds. An empty range, on which the
/// generator panics, is ruled out.
#[verifier::external_body]
pub(crate) fn random_usize(low: usize, high: usize) -> (drawn: usize)
    requires
        low <= high,
    ensures
        low <= drawn <= high,
{
    fastrand::usize(low..=high)
}

/// Draws a number between `low` and `high`, both included, with
/// `fastrand::u8`.
///
/// Trusted: the number lies within the bounds. An empty range, on which the
/// generator panics, is ruled out.
#[verifier::external_body]
pub(crate) fn random_u8(low: u8, high: u8) -> (drawn: u8)
    requires
        low <= high,
    ensures
        low <= drawn <= high,
{
    fastrand::u8(low..=high)
}

} // verus!
