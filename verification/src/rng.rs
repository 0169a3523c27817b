//! The one source of randomness: `Math.random_int` draws through here.

use vstd::prelude::*;

verus! {

/// Relies on `rand::random_range` over `lo..=hi`: a sample from the inclusive
/// range, which panics only on an empty range. Nothing more is assumed of the
/// outcome; the callers handle every value between the bounds.
#[verifier::external_body]
pub(crate) fn random_in(lo: i64, hi: i64) -> (r: i64)
    requires
        lo <= hi,
    ensures
        lo <= r <= hi,
{
    rand::random_range(lo..=hi)
}

} // verus!
