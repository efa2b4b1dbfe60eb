//! Classification of a connection counterpart by its stake.

use vstd::prelude::*;

verus! {

/// Whether the peer on the other end of a connection carries any stake, and
/// if so how much. The stake is expected to be drawn from the same snapshot
/// that the stake statistics were computed from.
#[derive(Clone, Copy, Debug, PartialEq, Eq, Structural)]
pub enum ConnectionPeerType {
    Unstaked,
    Staked(u64),
}

} // verus!
