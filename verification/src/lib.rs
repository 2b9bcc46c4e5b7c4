//! Core of a permissioned blockchain platform: authenticated storage,
//! message framing and signing, and the decision logic of a round-based
//! Byzantine-fault-tolerant consensus engine.

use vstd::prelude::*;

pub mod blockchain;
pub mod crypto;
pub mod encoding;
pub mod messages;
pub mod node;
pub mod services;
pub mod storage;

verus! {

/// Number of votes that a quorum requires among `validators` validators:
/// strictly more than two thirds.
pub open spec fn spec_byzantine_majority(validators: nat) -> nat {
    validators * 2 / 3 + 1
}

/// Smallest count of concurring validators that guarantees agreement,
/// `2f + 1` where `f` is the number of tolerated faults among `3f + 1`.
pub fn byzantine_majority_count(validators: usize) -> (r: usize)
    requires
        validators < usize::MAX / 2,
    ensures
        r == spec_byzantine_majority(validators as nat),
{
    validators * 2 / 3 + 1
}

} // verus!
