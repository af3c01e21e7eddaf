//! Random draws, taken from the `rand` crate.

use vstd::prelude::*;

verus! {

/// Draws a `usize` with `rand::random`, which asks the calling thread's own
/// generator for a value spread evenly over the whole type. Any value can
/// come back, and two calls need not agree, so nothing is promised of the
/// result. The generator seeds itself from the operating system on a thread's
/// first draw and gives up only where the system has no entropy to offer.
#[verifier::external_body]
pub(crate) fn random_usize() -> (draw: usize) {
    rand::random::<usize>()
}

/// Draws a `u8` with `rand::random`, in the same way as [`random_usize`].
/// Nothing is promised of the result.
#[verifier::external_body]
pub(crate) fn random_u8() -> (draw: u8) {
    rand::random::<u8>()
}

} // verus!
