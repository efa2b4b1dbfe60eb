//! Stake-weighted flow-control parameters for a QUIC-style transport.
//!
//! Given a point-in-time snapshot of every participant's stake, the library
//! reduces the snapshot to `(total, min, max)` statistics over the positive
//! stakes, maps a peer's stake to the number of concurrent unidirectional
//! streams its connection may open, and maps the observed stake range to a
//! per-connection receive window in bytes.

pub mod peer;
pub mod stats;
pub mod streams;
pub mod window;

pub use peer::ConnectionPeerType;
pub use stats::{calculate_stake_stats, Pubkey, StakeMap};
pub use streams::{compute_max_allowed_uni_streams, StreamLimits};
pub use window::{
    compute_receive_window_ratio_for_staked_node, compute_recieve_window, BoundsExceeded,
    WindowConfig,
};
