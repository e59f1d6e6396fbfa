//! The randomness the generators draw on, behind two trusted wrappers.
//! Every contract downstream holds for every outcome these may return.

use vstd::prelude::*;
use rand::Rng;

verus! {

/// Relies on `rand::Rng::gen_range` over a half-open `usize` range: returns
/// a value in `[lo, hi)`; it panics only on an empty range, which the
/// precondition rules out.
#[verifier::external_body]
pub(crate) fn rand_below(lo: usize, hi: usize) -> (r: usize)
    requires
        lo < hi,
    ensures
        lo <= r < hi,
{
    rand::thread_rng().gen_range(lo..hi)
}

/// Relies on `rand::Rng::gen::<bool>` through the `Standard` distribution:
/// an independent coin flip. Nothing is assumed of the outcome.
#[verifier::external_body]
pub(crate) fn rand_coin() -> bool {
    rand::thread_rng().gen()
}

} // verus!
