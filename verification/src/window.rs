//! Stake-proportional per-connection receive window.

use vstd::arithmetic::div_mod::{
    lemma_div_is_ordered, lemma_div_multiples_vanish, lemma_fundamental_div_mod,
    lemma_fundamental_div_mod_converse, lemma_mod_division_less_than_divisor,
};
use vstd::arithmetic::mul::lemma_mul_inequality;
use vstd::prelude::*;

use crate::peer::ConnectionPeerType;

verus! {

/// The largest value a QUIC variable-length integer can encode.
pub const VARINT_MAX: u64 = 0x3fff_ffff_ffff_ffff;

/// The requested receive window cannot be represented as a variable-length
/// integer on the wire.
#[derive(Clone, Copy, Debug, PartialEq, Eq, Structural)]
pub struct BoundsExceeded;

/// Protocol-level receive-window configuration: the ratio range that staked
/// peers are mapped onto, the fixed ratio for unstaked peers, and the packet
/// size the ratio multiplies.
#[derive(Clone, Copy, Debug, PartialEq, Eq, Structural)]
pub struct WindowConfig {
    pub min_staked_ratio: u64,
    pub max_staked_ratio: u64,
    pub unstaked_ratio: u64,
    pub packet_size: u64,
}

impl WindowConfig {
    /// All parts are positive, the ratio range is ordered, and the largest
    /// window the configuration can produce fits in a `u64`.
    pub open spec fn wf(self) -> bool {
        &&& 0 < self.min_staked_ratio <= self.max_staked_ratio
        &&& 0 < self.unstaked_ratio
        &&& 0 < self.packet_size
        &&& self.packet_size * self.max_staked_ratio <= u64::MAX
        &&& self.packet_size * self.unstaked_ratio <= u64::MAX
    }
}

/// The window ratio for a staked peer. The stake is mapped linearly from the
/// observed stake range `[min_stake, max_stake]` onto
/// `[min_staked_ratio, max_staked_ratio]`, as the exact rational
/// `max_ratio - (max_stake - stake) * (max_ratio - min_ratio) / (max_stake - min_stake)`,
/// rounded half away from zero, with negative results (a stake far below the
/// observed minimum) saturating to 0. A stake above the observed maximum, or
/// a degenerate range (`max_stake <= min_stake`), yields the maximum ratio:
/// when the snapshot cannot discriminate, the peer is provisioned generously
/// rather than penalized.
pub open spec fn spec_receive_window_ratio(
    cfg: WindowConfig,
    max_stake: u64,
    min_stake: u64,
    stake: u64,
) -> int {
    if stake > max_stake {
        cfg.max_staked_ratio as int
    } else if max_stake > min_stake {
        let den = max_stake - min_stake;
        let t = cfg.max_staked_ratio * den - (max_stake - stake) * (cfg.max_staked_ratio
            - cfg.min_staked_ratio);
        if t <= 0 {
            0
        } else {
            (2 * t + den) / (2 * den)
        }
    } else {
        cfg.max_staked_ratio as int
    }
}

/// Rounding half away from zero of the non-negative rational `t / den` can
/// be computed from the quotient and the remainder.
proof fn lemma_round_half_away(t: int, den: int)
    requires
        den > 0,
        t >= 0,
    ensures
        (2 * t + den) / (2 * den) == t / den + (if 2 * (t % den) >= den {
            1int
        } else {
            0int
        }),
{
    let q = t / den;
    let r = t % den;
    lemma_fundamental_div_mod(t, den);
    lemma_mod_division_less_than_divisor(t, den);
    if 2 * r >= den {
        assert(2 * t + den == (q + 1) * (2 * den) + (2 * r - den)) by (nonlinear_arith)
            requires
                t == den * q + r,
        ;
        lemma_fundamental_div_mod_converse(2 * t + den, 2 * den, q + 1, 2 * r - den);
    } else {
        assert(2 * t + den == q * (2 * den) + (2 * r + den)) by (nonlinear_arith)
            requires
                t == den * q + r,
        ;
        lemma_fundamental_div_mod_converse(2 * t + den, 2 * den, q, 2 * r + den);
    }
}

/// Ratio for the per-connection receive window of a staked peer, computed
/// from the observed extremes of the stake distribution.
pub fn compute_receive_window_ratio_for_staked_node(
    cfg: &WindowConfig,
    max_stake: u64,
    min_stake: u64,
    stake: u64,
) -> (r: u64)
    requires
        cfg.wf(),
    ensures
        r == spec_receive_window_ratio(*cfg, max_stake, min_stake, stake),
        r <= cfg.max_staked_ratio,
        stake > max_stake ==> r == cfg.max_staked_ratio,
        min_stake >= max_stake ==> r == cfg.max_staked_ratio,
        max_stake > min_stake && stake == max_stake ==> r == cfg.max_staked_ratio,
        max_stake > min_stake && stake == min_stake ==> r == cfg.min_staked_ratio,
{
    if stake > max_stake {
        return cfg.max_staked_ratio;
    }
    if max_stake > min_stake {
        let den: u128 = (max_stake - min_stake) as u128;
        let dr: u128 = (cfg.max_staked_ratio - cfg.min_staked_ratio) as u128;
        proof {
            assert(((max_stake - stake) as u128) * dr <= u128::MAX) by (nonlinear_arith)
                requires
                    (max_stake - stake) as u128 <= u64::MAX,
                    dr <= u64::MAX,
            ;
            assert((cfg.max_staked_ratio as u128) * den <= u128::MAX) by (nonlinear_arith)
                requires
                    den <= u64::MAX,
            ;
        }
        let num: u128 = ((max_stake - stake) as u128) * dr;
        let scaled: u128 = (cfg.max_staked_ratio as u128) * den;
        if num >= scaled {
            proof {
                assert(scaled > 0) by (nonlinear_arith)
                    requires
                        scaled == (cfg.max_staked_ratio as u128) * den,
                        cfg.max_staked_ratio > 0,
                        den > 0,
                ;
                // a stake at either observed extreme always lands strictly
                // inside the representable range, so this branch is never
                // taken for it
                if stake == min_stake {
                    assert(false) by (nonlinear_arith)
                        requires
                            num as int == (den as int) * (dr as int),
                            scaled as int == (den as int) * (cfg.max_staked_ratio as int),
                            num >= scaled,
                            den > 0,
                            dr as int == cfg.max_staked_ratio - cfg.min_staked_ratio,
                            cfg.min_staked_ratio > 0,
                    ;
                }
            }
            0
        } else {
            let t: u128 = scaled - num;
            let q: u128 = t / den;
            let rem: u128 = t % den;
            proof {
                let ti = t as int;
                let deni = den as int;
                let big = cfg.max_staked_ratio as int;
                lemma_fundamental_div_mod(ti, deni);
                lemma_mod_division_less_than_divisor(ti, deni);
                lemma_round_half_away(ti, deni);
                lemma_div_is_ordered(ti, big * deni, deni);
                lemma_div_multiples_vanish(big, deni);
                assert(big * deni == deni * big) by (nonlinear_arith);
                // the quotient reaches the maximum ratio only with remainder
                // zero, so rounding never pushes the result past it
                if 2 * (ti % deni) >= deni && q as int == big {
                    assert(ti == deni * big + (ti % deni));
                    assert(false);
                }
                if stake == min_stake {
                    assert(ti == cfg.min_staked_ratio * deni) by (nonlinear_arith)
                        requires
                            ti == deni * big - deni * (big - cfg.min_staked_ratio),
                    ;
                    lemma_fundamental_div_mod_converse(
                        ti,
                        deni,
                        cfg.min_staked_ratio as int,
                        0,
                    );
                }
                if stake == max_stake {
                    lemma_fundamental_div_mod_converse(ti, deni, big, 0);
                }
            }
            let bump: u64 = if 2 * rem >= den {
                1
            } else {
                0
            };
            (q as u64) + bump
        }
    } else {
        cfg.max_staked_ratio
    }
}

/// The receive window owed to a peer: the packet size times the peer's
/// ratio, or `BoundsExceeded` exactly when that product cannot be encoded as
/// a variable-length integer.
pub open spec fn spec_receive_window(
    cfg: WindowConfig,
    max_stake: u64,
    min_stake: u64,
    peer_type: ConnectionPeerType,
) -> Result<u64, BoundsExceeded> {
    let ratio = match peer_type {
        ConnectionPeerType::Unstaked => cfg.unstaked_ratio as int,
        ConnectionPeerType::Staked(stake) => spec_receive_window_ratio(
            cfg,
            max_stake,
            min_stake,
            stake,
        ),
    };
    let window = cfg.packet_size * ratio;
    if window <= VARINT_MAX {
        Ok(window as u64)
    } else {
        Err(BoundsExceeded)
    }
}

/// Relies on quinn's `VarInt::from_u64`, which succeeds exactly for values
/// below `1 << 62`, and `VarInt::into_inner`, which returns the wrapped
/// value unchanged.
#[verifier::external_body]
fn varint_from_u64(value: u64) -> (r: Result<u64, BoundsExceeded>)
    ensures
        r == (if value <= VARINT_MAX {
            Ok::<u64, BoundsExceeded>(value)
        } else {
            Err::<u64, BoundsExceeded>(BoundsExceeded)
        }),
{
    match quinn::VarInt::from_u64(value) {
        Ok(v) => Ok(v.into_inner()),
        Err(_) => Err(BoundsExceeded),
    }
}

/// Per-connection receive window in bytes for `peer_type`, given the
/// observed extremes of the stake distribution. Fails with `BoundsExceeded`
/// exactly when the window cannot be encoded as a variable-length integer.
pub fn compute_recieve_window(
    cfg: &WindowConfig,
    max_stake: u64,
    min_stake: u64,
    peer_type: ConnectionPeerType,
) -> (r: Result<u64, BoundsExceeded>)
    requires
        cfg.wf(),
    ensures
        r == spec_receive_window(*cfg, max_stake, min_stake, peer_type),
        r matches Ok(window) ==> window <= VARINT_MAX,
{
    match peer_type {
        ConnectionPeerType::Unstaked => {
            let window = cfg.packet_size * cfg.unstaked_ratio;
            varint_from_u64(window)
        },
        ConnectionPeerType::Staked(stake) => {
            let ratio = compute_receive_window_ratio_for_staked_node(
                cfg,
                max_stake,
                min_stake,
                stake,
            );
            proof {
                lemma_mul_inequality(
                    ratio as int,
                    cfg.max_staked_ratio as int,
                    cfg.packet_size as int,
                );
                assert((ratio as int) * (cfg.packet_size as int) == (cfg.packet_size as int) * (
                ratio as int)) by (nonlinear_arith);
                assert((cfg.max_staked_ratio as int) * (cfg.packet_size as int) == (
                cfg.packet_size as int) * (cfg.max_staked_ratio as int)) by (nonlinear_arith);
            }
            let window = cfg.packet_size * ratio;
            varint_from_u64(window)
        },
    }
}

} // verus!
