//! The controller's one source of randomness: timer-spawn positions.

use rand::Rng;
use vstd::prelude::*;

verus! {

/// Relies on `rand::Rng::gen_range` over the non-empty inclusive range
/// `lo..=hi`: the sampled value lies within the range's bounds. Nothing more
/// is assumed of it; callers must hold for every value it may return.
#[verifier::external_body]
pub(crate) fn random_in_range(lo: i64, hi: i64) -> (r: i64)
    requires
        lo <= hi,
    ensures
        lo <= r <= hi,
{
    rand::thread_rng().gen_range(lo..=hi)
}

} // verus!
