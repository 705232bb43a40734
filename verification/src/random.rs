//! The one source of randomness: bomb placement samples it through here.

use vstd::prelude::*;
use rand::RngExt;

verus! {

/// Relies on `rand::rng` and `rand::RngExt::random_range`: sampling the
/// range `0..n` returns a value strictly below `n`. `random_range` panics
/// only on an empty range, which `1 <= n` rules out. Nothing more is
/// assumed: the result is random, so every value below `n` must be handled.
#[verifier::external_body]
pub(crate) fn random_below(n: usize) -> (r: usize)
    requires
        1 <= n,
    ensures
        r < n,
{
    rand::rng().random_range(0..n)
}

} // verus!
