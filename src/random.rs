//! Random draws, taken from the thread-local generator of `rand`.

use vstd::prelude::*;
use rand::Rng;

verus! {

/// Relies on `rand::Rng::gen_range` over an inclusive range, drawn from
/// `rand::thread_rng()`: the result lies in `[lo, hi]` (the range is never
/// empty here, so the call does not panic).
#[verifier::external_body]
pub(crate) fn random_between(lo: i64, hi: i64) -> (r: i64)
    requires
        lo <= hi,
    ensures
        lo <= r <= hi,
{
    rand::thread_rng().gen_range(lo..=hi)
}

} // verus!
