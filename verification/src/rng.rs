//! The engine's one source of randomness, behind a trusted wrapper.

use vstd::prelude::*;

verus! {

/// Relies on rand::random_range: a uniformly random value in the given
/// range, from the thread-local generator; it panics only on an empty range,
/// which the precondition rules out. Nothing more can be promised of a
/// random draw than its bound.
#[verifier::external_body]
pub(crate) fn random_below(n: usize) -> (r: usize)
    requires
        1 <= n,
    ensures
        r < n,
{
    rand::random_range(0..n)
}

} // verus!
