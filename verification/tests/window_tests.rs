use solana_packet::PACKET_DATA_SIZE;
use solana_quic_definitions::{
    QUIC_MAX_STAKED_RECEIVE_WINDOW_RATIO, QUIC_MIN_STAKED_RECEIVE_WINDOW_RATIO,
    QUIC_UNSTAKED_RECEIVE_WINDOW_RATIO,
};
use stake_flow::window::VARINT_MAX;
use stake_flow::{
    compute_receive_window_ratio_for_staked_node, compute_recieve_window, BoundsExceeded,
    ConnectionPeerType, WindowConfig,
};

fn quic_window_config() -> WindowConfig {
    WindowConfig {
        min_staked_ratio: QUIC_MIN_STAKED_RECEIVE_WINDOW_RATIO,
        max_staked_ratio: QUIC_MAX_STAKED_RECEIVE_WINDOW_RATIO,
        unstaked_ratio: QUIC_UNSTAKED_RECEIVE_WINDOW_RATIO,
        packet_size: PACKET_DATA_SIZE as u64,
    }
}

#[test]
fn ratio_stake_above_max_is_capped() {
    let cfg = quic_window_config();
    assert_eq!(
        compute_receive_window_ratio_for_staked_node(&cfg, 200, 100, 300),
        QUIC_MAX_STAKED_RECEIVE_WINDOW_RATIO
    );
}

#[test]
fn ratio_degenerate_range_defaults_to_max() {
    let cfg = quic_window_config();
    assert_eq!(
        compute_receive_window_ratio_for_staked_node(&cfg, 50, 50, 1),
        QUIC_MAX_STAKED_RECEIVE_WINDOW_RATIO
    );
    assert_eq!(
        compute_receive_window_ratio_for_staked_node(&cfg, 50, 50, 50),
        QUIC_MAX_STAKED_RECEIVE_WINDOW_RATIO
    );
}

#[test]
fn ratio_hits_extremes_at_observed_extremes() {
    let cfg = quic_window_config();
    assert_eq!(
        compute_receive_window_ratio_for_staked_node(&cfg, 200, 100, 200),
        QUIC_MAX_STAKED_RECEIVE_WINDOW_RATIO
    );
    assert_eq!(
        compute_receive_window_ratio_for_staked_node(&cfg, 200, 100, 100),
        QUIC_MIN_STAKED_RECEIVE_WINDOW_RATIO
    );
}

#[test]
fn ratio_midpoint_interpolates_exactly() {
    let cfg = quic_window_config();
    // 512 - 50 * (512 - 128) / 100 = 320
    assert_eq!(compute_receive_window_ratio_for_staked_node(&cfg, 200, 100, 150), 320);
}

#[test]
fn ratio_rounds_half_away_from_zero() {
    let cfg = WindowConfig { min_staked_ratio: 1, max_staked_ratio: 2, unstaked_ratio: 1, packet_size: 1 };
    // exact value 1.5 rounds up to 2
    assert_eq!(compute_receive_window_ratio_for_staked_node(&cfg, 102, 100, 101), 2);
    // exact value 1.25 rounds down to 1
    assert_eq!(compute_receive_window_ratio_for_staked_node(&cfg, 104, 100, 101), 1);
}

#[test]
fn ratio_far_below_min_saturates_to_zero() {
    let cfg = quic_window_config();
    // exact value 512 - 1000 * 384 / 100 is negative
    assert_eq!(compute_receive_window_ratio_for_staked_node(&cfg, 1000, 900, 0), 0);
}

#[test]
fn window_unstaked_is_packet_size_times_ratio() {
    let cfg = quic_window_config();
    assert_eq!(
        compute_recieve_window(&cfg, 0, 0, ConnectionPeerType::Unstaked),
        Ok(PACKET_DATA_SIZE as u64 * QUIC_UNSTAKED_RECEIVE_WINDOW_RATIO)
    );
    // independent of whatever stake statistics are passed in
    assert_eq!(
        compute_recieve_window(&cfg, 200, 100, ConnectionPeerType::Unstaked),
        Ok(PACKET_DATA_SIZE as u64 * QUIC_UNSTAKED_RECEIVE_WINDOW_RATIO)
    );
}

#[test]
fn window_staked_uses_computed_ratio() {
    let cfg = quic_window_config();
    assert_eq!(
        compute_recieve_window(&cfg, 200, 100, ConnectionPeerType::Staked(200)),
        Ok(PACKET_DATA_SIZE as u64 * QUIC_MAX_STAKED_RECEIVE_WINDOW_RATIO)
    );
}

#[test]
fn window_at_varint_boundary_is_ok() {
    let cfg = WindowConfig {
        min_staked_ratio: 1,
        max_staked_ratio: 1,
        unstaked_ratio: VARINT_MAX,
        packet_size: 1,
    };
    assert_eq!(
        compute_recieve_window(&cfg, 0, 0, ConnectionPeerType::Unstaked),
        Ok(VARINT_MAX)
    );
}

#[test]
fn window_past_varint_boundary_is_rejected() {
    let cfg = WindowConfig {
        min_staked_ratio: 1,
        max_staked_ratio: 1,
        unstaked_ratio: 1u64 << 31,
        packet_size: 1u64 << 32,
    };
    assert_eq!(
        compute_recieve_window(&cfg, 0, 0, ConnectionPeerType::Unstaked),
        Err(BoundsExceeded)
    );
}
