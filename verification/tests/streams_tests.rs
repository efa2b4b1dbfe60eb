use solana_quic_definitions::{
    QUIC_MAX_STAKED_CONCURRENT_STREAMS, QUIC_MAX_UNSTAKED_CONCURRENT_STREAMS,
    QUIC_MIN_STAKED_CONCURRENT_STREAMS, QUIC_TOTAL_STAKED_CONCURRENT_STREAMS,
};
use stake_flow::{compute_max_allowed_uni_streams, ConnectionPeerType, StreamLimits};

fn quic_limits() -> StreamLimits {
    StreamLimits {
        min_staked_streams: QUIC_MIN_STAKED_CONCURRENT_STREAMS,
        max_staked_streams: QUIC_MAX_STAKED_CONCURRENT_STREAMS,
        total_staked_streams: QUIC_TOTAL_STAKED_CONCURRENT_STREAMS,
        max_unstaked_streams: QUIC_MAX_UNSTAKED_CONCURRENT_STREAMS,
    }
}

#[test]
fn streams_unstaked_gets_fixed_allowance() {
    let limits = quic_limits();
    assert_eq!(
        compute_max_allowed_uni_streams(ConnectionPeerType::Unstaked, 0, &limits),
        QUIC_MAX_UNSTAKED_CONCURRENT_STREAMS
    );
    assert_eq!(
        compute_max_allowed_uni_streams(ConnectionPeerType::Unstaked, 1000, &limits),
        QUIC_MAX_UNSTAKED_CONCURRENT_STREAMS
    );
}

#[test]
fn streams_zero_total_clamps_to_floor() {
    let limits = quic_limits();
    assert_eq!(
        compute_max_allowed_uni_streams(ConnectionPeerType::Staked(10), 0, &limits),
        QUIC_MIN_STAKED_CONCURRENT_STREAMS
    );
}

#[test]
fn streams_stake_above_total_clamps_to_floor() {
    let limits = quic_limits();
    assert_eq!(
        compute_max_allowed_uni_streams(ConnectionPeerType::Staked(1001), 1000, &limits),
        QUIC_MIN_STAKED_CONCURRENT_STREAMS
    );
}

#[test]
fn streams_full_stake_reaches_cap() {
    let limits = quic_limits();
    assert_eq!(
        compute_max_allowed_uni_streams(ConnectionPeerType::Staked(1000), 1000, &limits),
        QUIC_MAX_STAKED_CONCURRENT_STREAMS
    );
}

#[test]
fn streams_small_share_interpolates_exactly() {
    let limits = quic_limits();
    // floor(1 * (100000 - 128) / 1000) + 128 = 99 + 128
    assert_eq!(
        compute_max_allowed_uni_streams(ConnectionPeerType::Staked(1), 1000, &limits),
        227
    );
}

#[test]
fn streams_synthetic_budget_interpolates_exactly() {
    let limits = StreamLimits {
        min_staked_streams: 10,
        max_staked_streams: 1000,
        total_staked_streams: 1000,
        max_unstaked_streams: 5,
    };
    // floor(10 * 990 / 100) + 10 = 109
    assert_eq!(
        compute_max_allowed_uni_streams(ConnectionPeerType::Staked(10), 100, &limits),
        109
    );
    // floor(20 * 990 / 100) + 10 = 208
    assert_eq!(
        compute_max_allowed_uni_streams(ConnectionPeerType::Staked(20), 100, &limits),
        208
    );
}

#[test]
fn streams_nondecreasing_in_stake() {
    let limits = quic_limits();
    let total = 100_000u64;
    let mut last = 0usize;
    for stake in [0u64, 1, 5, 77, 1000, 50_000, 100_000] {
        let r = compute_max_allowed_uni_streams(ConnectionPeerType::Staked(stake), total, &limits);
        assert!(r >= last);
        last = r;
    }
}
