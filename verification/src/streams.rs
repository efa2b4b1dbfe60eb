//! Stake-proportional allocation of concurrent unidirectional streams.

use vstd::arithmetic::div_mod::{lemma_div_is_ordered, lemma_div_multiples_vanish};
use vstd::arithmetic::mul::lemma_mul_inequality;
use vstd::prelude::*;

use crate::peer::ConnectionPeerType;

verus! {

/// Protocol-level stream budget. The allocator interpolates between
/// `min_staked_streams` and the full budget `total_staked_streams`, then
/// clamps the result to at most `max_staked_streams`; unstaked peers always
/// get `max_unstaked_streams`.
#[derive(Clone, Copy, Debug, PartialEq, Eq, Structural)]
pub struct StreamLimits {
    pub min_staked_streams: usize,
    pub max_staked_streams: usize,
    pub total_staked_streams: usize,
    pub max_unstaked_streams: usize,
}

impl StreamLimits {
    /// All limits are positive, and the interpolation range is ordered:
    /// the floor never exceeds the cap, and the cap fits inside the budget.
    pub open spec fn wf(self) -> bool {
        &&& 0 < self.min_staked_streams
        &&& self.min_staked_streams <= self.max_staked_streams
        &&& self.max_staked_streams <= self.total_staked_streams
        &&& 0 < self.max_unstaked_streams
    }
}

/// Number of concurrent unidirectional streams allowed for `peer_type` under
/// `limits`, given the network-wide `total_stake`: unstaked peers get the
/// fixed unstaked allowance; a staked peer gets the floor when the inputs are
/// degenerate (zero total, or a stake exceeding it), and otherwise a share of
/// the budget linear in its stake, clamped to the configured cap.
pub open spec fn spec_max_allowed_uni_streams(
    peer_type: ConnectionPeerType,
    total_stake: u64,
    limits: StreamLimits,
) -> int {
    match peer_type {
        ConnectionPeerType::Staked(peer_stake) => {
            if total_stake == 0 || peer_stake > total_stake {
                limits.min_staked_streams as int
            } else {
                let delta = limits.total_staked_streams - limits.min_staked_streams;
                let raw = (peer_stake * delta) / (total_stake as int) + limits.min_staked_streams;
                if raw > limits.max_staked_streams {
                    limits.max_staked_streams as int
                } else {
                    raw
                }
            }
        },
        ConnectionPeerType::Unstaked => limits.max_unstaked_streams as int,
    }
}

/// Maps a peer's stake to its allowed concurrent unidirectional stream count.
///
/// Degenerate staked inputs (`total_stake == 0`, or a stake larger than the
/// total, both possible with a stale snapshot) are clamped to the configured
/// floor rather than rejected.
pub fn compute_max_allowed_uni_streams(
    peer_type: ConnectionPeerType,
    total_stake: u64,
    limits: &StreamLimits,
) -> (r: usize)
    requires
        limits.wf(),
    ensures
        r == spec_max_allowed_uni_streams(peer_type, total_stake, *limits),
        peer_type matches ConnectionPeerType::Staked(s) && (total_stake == 0 || s > total_stake)
            ==> r == limits.min_staked_streams,
        peer_type matches ConnectionPeerType::Staked(s) && s == total_stake && total_stake > 0
            ==> r == limits.max_staked_streams,
        peer_type is Staked ==> limits.min_staked_streams <= r <= limits.max_staked_streams,
{
    match peer_type {
        ConnectionPeerType::Staked(peer_stake) => {
            if total_stake == 0 || peer_stake > total_stake {
                limits.min_staked_streams
            } else {
                let delta: usize = limits.total_staked_streams - limits.min_staked_streams;
                proof {
                    assert((peer_stake as u128) * (delta as u128) <= u128::MAX) by (nonlinear_arith);
                }
                let num: u128 = (peer_stake as u128) * (delta as u128);
                let share: u128 = num / (total_stake as u128);
                proof {
                    lemma_mul_inequality(peer_stake as int, total_stake as int, delta as int);
                    lemma_div_is_ordered(
                        (peer_stake as int) * (delta as int),
                        (total_stake as int) * (delta as int),
                        total_stake as int,
                    );
                    lemma_div_multiples_vanish(delta as int, total_stake as int);
                }
                let raw: usize = (share as usize) + limits.min_staked_streams;
                if raw > limits.max_staked_streams {
                    limits.max_staked_streams
                } else {
                    raw
                }
            }
        },
        ConnectionPeerType::Unstaked => limits.max_unstaked_streams,
    }
}

/// For a fixed total stake and fixed limits, the stream allowance never
/// decreases as the peer's stake grows over the valid domain
/// `[0, total_stake]`.
pub proof fn lemma_max_streams_monotonic(
    limits: StreamLimits,
    total_stake: u64,
    s1: u64,
    s2: u64,
)
    requires
        limits.wf(),
        s1 <= s2,
        s2 <= total_stake,
    ensures
        spec_max_allowed_uni_streams(ConnectionPeerType::Staked(s1), total_stake, limits)
            <= spec_max_allowed_uni_streams(ConnectionPeerType::Staked(s2), total_stake, limits),
{
    if total_stake > 0 {
        let delta = limits.total_staked_streams - limits.min_staked_streams;
        lemma_mul_inequality(s1 as int, s2 as int, delta);
        lemma_div_is_ordered((s1 as int) * delta, (s2 as int) * delta, total_stake as int);
    }
}

} // verus!
