//! The source of chance.

use vstd::prelude::*;

verus! {

/// Draws an integer with `rand::Rng::gen_range` from the thread-local
/// generator of `rand::thread_rng`, over the inclusive range from `lo` to
/// `hi`. All that is claimed is that the draw lies in that range; an empty
/// range, on which the generator panics, is excluded.
#[verifier::external_body]
pub(crate) fn random_in(lo: u64, hi: u64) -> (r: u64)
    requires
        lo <= hi,
    ensures
        lo <= r <= hi,
{
    rand::Rng::gen_range(&mut rand::thread_rng(), lo..=hi)
}

} // verus!
