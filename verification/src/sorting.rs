//! The order in which relays are considered.

use crate::node_selection::Router;
use vstd::prelude::*;

verus! {

/// Whether the relays of `rs` stand in order of falling bandwidth.
pub open spec fn by_falling_bandwidth(rs: Seq<Router>) -> bool {
    forall|i: int, j: int| 0 <= i < j < rs.len() ==> (#[trigger] rs[i])@.bw() >= (#[trigger] rs[j])@.bw()
}

/// Sorts the relays with the standard library's `sort_by` on slices, under
/// a comparison that puts the greater bandwidth first. As the standard
/// library documents, the sort rearranges the elements, none lost and none
/// added, into the order of the comparison.
#[verifier::external_body]
pub(crate) fn sort_by_bandwidth(routers: &mut Vec<Router>)
    ensures
        final(routers)@.to_multiset() == old(routers)@.to_multiset(),
        by_falling_bandwidth(final(routers)@),
{
    routers.sort_by(|a, b| b.bw().cmp(&a.bw()));
}

} // verus!
