//! Adaptive difficulty retargeting.
//!
//! Difficulty has two components:
//! 1. **Retarget**: every `EPOCH` blocks the difficulty is scaled by the
//!    ratio of expected to observed epoch time; there is no clamp.
//! 2. **Consensus floor**: `total_issued / bonded_stake`.
//!
//! The effective difficulty is the maximum of both and `MIN_DIFFICULTY`.
use crate::constants::{BLOCK_TARGET_TIME_MS, EPOCH, MIN_DIFFICULTY};
use crate::types::BlockHeight;
use vstd::prelude::*;

verus! {

/// The maximum of two numbers.
pub open spec fn max_u64(a: u64, b: u64) -> u64 {
    if a >= b {
        a
    } else {
        b
    }
}

/// The computed difficulty target for a block.
#[derive(Clone, Copy, Debug)]
pub struct DifficultyTarget {
    /// Numerical hash target a valid PoW must be below.
    pub target: u64,
    /// Difficulty from the retarget algorithm alone.
    pub retarget: u64,
    /// Difficulty floor derived from `total_issued / bonded_stake`.
    pub consensus_floor: u64,
}

impl DifficultyTarget {
    /// `max(retarget, consensus_floor, MIN_DIFFICULTY)`.
    pub open spec fn spec_effective_difficulty(&self) -> u64 {
        max_u64(max_u64(self.retarget, self.consensus_floor), MIN_DIFFICULTY)
    }

    /// The effective difficulty: the maximum of retarget, consensus floor
    /// and `MIN_DIFFICULTY`.
    pub fn effective_difficulty(&self) -> (d: u64)
        ensures
            d == self.spec_effective_difficulty(),
            d >= self.retarget,
            d >= self.consensus_floor,
            d >= MIN_DIFFICULTY,
    {
        let a = if self.retarget >= self.consensus_floor {
            self.retarget
        } else {
            self.consensus_floor
        };
        if a >= MIN_DIFFICULTY {
            a
        } else {
            MIN_DIFFICULTY
        }
    }
}

/// `total_issued / bonded_stake`, or 0 when nothing is bonded.
pub open spec fn consensus_floor_spec(total_issued: u64, bonded_stake: u64) -> u64 {
    if bonded_stake == 0 {
        0
    } else {
        total_issued / bonded_stake
    }
}

/// The consensus floor difficulty from issued supply and bonded stake.
pub fn compute_consensus_floor(total_issued: u64, bonded_stake: u64) -> (f: u64)
    ensures
        f == consensus_floor_spec(total_issued, bonded_stake),
{
    if bonded_stake == 0 {
        return 0;
    }
    total_issued / bonded_stake
}

/// `u64::MAX / difficulty`, or `u64::MAX` for difficulty 0.
pub open spec fn target_spec(difficulty: u64) -> u64 {
    if difficulty == 0 {
        u64::MAX
    } else {
        (u64::MAX / difficulty) as u64
    }
}

/// The numerical hash target of a difficulty: `u64::MAX / difficulty`
/// (`u64::MAX` for difficulty 0).
pub fn compute_target(difficulty: u64) -> (t: u64)
    ensures
        t == target_spec(difficulty),
{
    if difficulty == 0 {
        return u64::MAX;
    }
    u64::MAX / difficulty
}

/// The retargeted difficulty (see `compute_retarget`).
pub open spec fn retarget_spec(
    current_difficulty: u64,
    current_height: u64,
    timestamps: Seq<u64>,
) -> u64 {
    let held = max_u64(current_difficulty, MIN_DIFFICULTY);
    if current_height < EPOCH {
        held
    } else {
        let start = current_height - EPOCH;
        if start >= timestamps.len() {
            held
        } else {
            let end: int = if current_height < timestamps.len() {
                current_height as int
            } else {
                timestamps.len() - 1
            };
            if end <= start {
                held
            } else {
                let actual: int = if timestamps[end] >= timestamps[start as int] {
                    timestamps[end] - timestamps[start as int]
                } else {
                    0
                };
                let actual_ms: int = if actual * 1000 > u64::MAX {
                    u64::MAX as int
                } else {
                    actual * 1000
                };
                if actual_ms == 0 {
                    if current_difficulty * 4 > u64::MAX {
                        u64::MAX
                    } else {
                        (current_difficulty * 4) as u64
                    }
                } else {
                    let expected_ms: int = EPOCH * BLOCK_TARGET_TIME_MS;
                    max_u64(
                        ((current_difficulty * expected_ms / actual_ms) as u128) as u64,
                        MIN_DIFFICULTY,
                    )
                }
            }
        }
    }
}

/// Retarget every `EPOCH` blocks by comparing the observed epoch time with
/// the expected `EPOCH × BLOCK_TARGET_TIME_MS`: too fast raises difficulty,
/// too slow lowers it, with no clamp. Degenerate zero elapsed time
/// quadruples the difficulty (saturating). The scaled value is taken modulo
/// 2^64 before the `MIN_DIFFICULTY` floor.
pub fn compute_retarget(
    current_difficulty: u64,
    current_height: BlockHeight,
    block_timestamps: &[u64],
) -> (d: u64)
    ensures
        d == retarget_spec(current_difficulty, current_height, block_timestamps@),
{
    let held = if current_difficulty >= MIN_DIFFICULTY {
        current_difficulty
    } else {
        MIN_DIFFICULTY
    };
    if current_height < EPOCH {
        return held;
    }
    let epoch_start = current_height - EPOCH;
    if epoch_start >= block_timestamps.len() as u64 {
        return held;
    }
    let start_idx = epoch_start as usize;
    let end_idx: usize = if current_height < block_timestamps.len() as u64 {
        current_height as usize
    } else {
        block_timestamps.len() - 1
    };
    if end_idx <= start_idx {
        return held;
    }
    let actual_time = if block_timestamps[end_idx] >= block_timestamps[start_idx] {
        block_timestamps[end_idx] - block_timestamps[start_idx]
    } else {
        0
    };
    let expected_time_ms = EPOCH * BLOCK_TARGET_TIME_MS;
    let actual_time_ms = if actual_time > u64::MAX / 1000 {
        u64::MAX
    } else {
        actual_time * 1000
    };
    if actual_time_ms == 0 {
        return if current_difficulty > u64::MAX / 4 {
            u64::MAX
        } else {
            current_difficulty * 4
        };
    }
    assert((current_difficulty as u128) * (expected_time_ms as u128) <= (u64::MAX as u128) * (
    u64::MAX as u128)) by (nonlinear_arith);
    let numerator = current_difficulty as u128 * expected_time_ms as u128;
    let denominator = actual_time_ms as u128;
    let new_difficulty = (numerator / denominator) as u64;
    if new_difficulty >= MIN_DIFFICULTY {
        new_difficulty
    } else {
        MIN_DIFFICULTY
    }
}

/// The retarget scales the difficulty by how fast the last epoch went: with
/// the epoch's elapsed time `a` (ms, positive and at most 2^64 - 1) against
/// the expected `e = EPOCH · BLOCK_TARGET_TIME_MS`, the new difficulty is
/// `max(current · e / a, MIN_DIFFICULTY)` whenever that quotient fits a
/// `u64`. So an epoch twice as fast as expected (or faster) raises a
/// difficulty of at least 1, one that took exactly the expected time keeps
/// it, and a slower one never raises it.
pub proof fn lemma_retarget_scales_with_epoch_time(current_difficulty: u64, current_height: u64, timestamps: Seq<u64>)
    requires
        current_height >= EPOCH,
        current_height < timestamps.len(),
        timestamps[current_height as int] > timestamps[current_height - EPOCH],
        (timestamps[current_height as int] - timestamps[current_height - EPOCH]) * 1000 <= u64::MAX,
        current_difficulty * (EPOCH * BLOCK_TARGET_TIME_MS) / ((timestamps[current_height as int]
            - timestamps[current_height - EPOCH]) * 1000) <= u64::MAX,
    ensures
        ({
            let a = (timestamps[current_height as int] - timestamps[current_height - EPOCH]) * 1000;
            let e = EPOCH * BLOCK_TARGET_TIME_MS;
            let scaled = current_difficulty * e / a;
            &&& retarget_spec(current_difficulty, current_height, timestamps) == (if scaled < MIN_DIFFICULTY {
                MIN_DIFFICULTY as int
            } else {
                scaled
            })
            &&& (2 * a <= e && current_difficulty >= 1 ==> retarget_spec(current_difficulty, current_height, timestamps) > current_difficulty)
            &&& (a == e ==> retarget_spec(current_difficulty, current_height, timestamps) == (if current_difficulty < MIN_DIFFICULTY {
                MIN_DIFFICULTY
            } else {
                current_difficulty
            }))
            &&& (a >= e ==> retarget_spec(current_difficulty, current_height, timestamps) <= (if current_difficulty < MIN_DIFFICULTY {
                MIN_DIFFICULTY
            } else {
                current_difficulty
            }))
        }),
{
    let a = (timestamps[current_height as int] - timestamps[current_height - EPOCH]) * 1000;
    let e = EPOCH * BLOCK_TARGET_TIME_MS;
    let cur = current_difficulty as int;
    let scaled = cur * e / a;
    assert(a > 0);
    assert(scaled >= 0) by (nonlinear_arith)
        requires
            cur >= 0,
            e > 0,
            a > 0,
            scaled == cur * e / a,
    ;
    assert(((scaled as u128) as u64) == scaled);
    if 2 * a <= e && cur >= 1 {
        assert(scaled >= 2 * cur) by (nonlinear_arith)
            requires
                cur >= 1,
                a > 0,
                2 * a <= e,
                scaled == cur * e / a,
        {
            assert(cur * e >= cur * (2 * a));
            assert(cur * (2 * a) == (2 * cur) * a);
        }
    }
    if a == e {
        assert(scaled == cur) by (nonlinear_arith)
            requires
                a == e,
                a > 0,
                scaled == cur * e / a,
        ;
    }
    if a >= e {
        assert(scaled <= cur) by (nonlinear_arith)
            requires
                a >= e,
                e > 0,
                cur >= 0,
                scaled == cur * e / a,
        {
            assert(cur * e <= cur * a);
        }
    }
}

/// Before the first full epoch, or without the timestamps to measure the
/// epoch, the difficulty is kept (raised to `MIN_DIFFICULTY` if below it);
/// an epoch measured as taking no time at all quadruples it (capped at
/// `u64::MAX`).
pub proof fn lemma_retarget_edges(current_difficulty: u64, current_height: u64, timestamps: Seq<u64>)
    ensures
        current_height < EPOCH || current_height - EPOCH >= timestamps.len() ==> retarget_spec(
            current_difficulty,
            current_height,
            timestamps,
        ) == (if current_difficulty < MIN_DIFFICULTY {
            MIN_DIFFICULTY
        } else {
            current_difficulty
        }),
        current_height >= EPOCH && current_height < timestamps.len() && timestamps[current_height as int]
            <= timestamps[current_height - EPOCH] ==> retarget_spec(current_difficulty, current_height, timestamps)
            == (if current_difficulty * 4 > u64::MAX {
            u64::MAX as int
        } else {
            current_difficulty * 4
        }),
{
}

/// The next block's difficulty target: retarget combined with the consensus
/// floor; the hash target is that of the effective difficulty.
pub fn compute_next_difficulty(
    current_difficulty: u64,
    current_height: BlockHeight,
    block_timestamps: &[u64],
    total_issued: u64,
    bonded_stake: u64,
) -> (t: DifficultyTarget)
    ensures
        t.retarget == retarget_spec(current_difficulty, current_height, block_timestamps@),
        t.consensus_floor == consensus_floor_spec(total_issued, bonded_stake),
        t.target == target_spec(t.spec_effective_difficulty()),
{
    let retarget = compute_retarget(current_difficulty, current_height, block_timestamps);
    let consensus_floor = compute_consensus_floor(total_issued, bonded_stake);
    let partial = DifficultyTarget { target: 0, retarget, consensus_floor };
    let effective = partial.effective_difficulty();
    DifficultyTarget { target: compute_target(effective), retarget, consensus_floor }
}

/// Whether a hash value meets the difficulty: `hash_value < target(difficulty)`.
pub fn check_proof_of_work(hash_value: u64, difficulty: u64) -> (ok: bool)
    ensures
        ok == (hash_value < target_spec(difficulty)),
{
    let target = compute_target(difficulty);
    hash_value < target
}

} // verus!
