//! Verdicts of the rendezvous-point monitor.

use vstd::prelude::*;

verus! {

/// The key under which the uses of relays outside the consensus are counted
/// together.
pub const NOT_IN_CONSENSUS_ID: &'static str = "NOT_IN_CONSENSUS";

/// What the monitor says of one use of a rendezvous point.
#[derive(Debug, Clone, PartialEq)]
pub enum RendCheckResult {
    /// The use is within what the relay's bandwidth predicts.
    Valid,
    /// The relay is used more often than its bandwidth predicts.
    Overused {
        /// The relay's fingerprint.
        fingerprint: String,
        /// The relay's share of all uses, in percent and fixed point.
        usage_rate: u128,
        /// The relay's share of bandwidth, in percent and fixed point.
        expected_weight: u128,
    },
}

} // verus!
