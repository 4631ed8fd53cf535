use opolys::constants::{
    BASE_REWARD, BLOCK_TARGET_TIME_MS, BLOCK_VERSION, DECIMAL_PLACES, EPOCH, FLAKES_PER_OPL,
    GENESIS_DIFFICULTY, MIN_BOND_STAKE, MIN_DIFFICULTY, MIN_FEE, SIGNATURE_TYPE_ED25519,
    UNBONDING_DELAY_BLOCKS,
};
use opolys::difficulty::{
    check_proof_of_work, compute_consensus_floor, compute_next_difficulty, compute_retarget,
    DifficultyTarget,
};
use opolys::emission::{
    compute_base_reward, compute_block_reward, compute_refiner_weight, compute_stake_coverage,
    compute_suggested_fee, compute_vein_yield, difficulty_to_target, ln_milli,
};
use opolys::types::{flake_to_opl, format_flake_as_opl, opl_to_flake, ObjectId, TransactionAction};

// ─── constants ───

#[test]
fn constants_are_consistent() {
    assert_eq!(FLAKES_PER_OPL, 1_000_000);
    assert_eq!(DECIMAL_PLACES, 6);
}

#[test]
fn constants_base_reward_is_332_opl() {
    assert_eq!(BASE_REWARD, 332 * FLAKES_PER_OPL);
    let base_reward_opl = BASE_REWARD / FLAKES_PER_OPL;
    assert_eq!(base_reward_opl, 332);
}

#[test]
fn emission_base_reward_is_332_opl() {
    assert_eq!(BASE_REWARD, 332 * FLAKES_PER_OPL);
}

#[test]
fn block_target_time_produces_24h_epochs() {
    let epoch_ms = EPOCH * BLOCK_TARGET_TIME_MS;
    assert_eq!(epoch_ms, 86_400_000);
}

#[test]
fn min_bond_stake_is_one_opl() {
    assert_eq!(MIN_BOND_STAKE, FLAKES_PER_OPL);
}

#[test]
fn epoch_equals_unbonding_delay() {
    assert_eq!(UNBONDING_DELAY_BLOCKS, EPOCH);
}

#[test]
fn min_fee_is_one_flake() {
    assert_eq!(MIN_FEE, 1);
}

#[test]
fn block_version_is_one() {
    assert_eq!(BLOCK_VERSION, 1);
}

#[test]
fn signature_type_ed25519_is_zero() {
    assert_eq!(SIGNATURE_TYPE_ED25519, 0);
}

#[test]
fn min_difficulty_is_mathematical_floor() {
    assert_eq!(MIN_DIFFICULTY, 1);
}

// ─── types ───

#[test]
fn hash_zero_is_deterministic() {
    let h1 = opolys::types::Hash::zero();
    let h2 = opolys::types::Hash::zero();
    assert_eq!(h1, h2);
    assert_eq!(h1.0.len(), 32);
}

#[test]
fn opl_flake_roundtrip() {
    assert_eq!(opl_to_flake(1), 1_000_000);
    assert_eq!(flake_to_opl(opl_to_flake(1)), 1);
    assert_eq!(opl_to_flake(0), 0);
}

#[test]
fn opl_to_flake_saturates() {
    assert_eq!(opl_to_flake(u64::MAX), u64::MAX);
    assert_eq!(flake_to_opl(2_500_000), 2);
}

#[test]
fn transaction_action_variants() {
    let _transfer = TransactionAction::Transfer { recipient: ObjectId::zero(), amount: 100 };
    let bond = TransactionAction::ValidatorBond { amount: 10_000_000 };
    let unbond = TransactionAction::ValidatorUnbond { amount: 5_000_000 };
    assert_ne!(bond, unbond);
}

#[test]
fn hash_to_hex_is_64_chars() {
    let h = opolys::types::Hash::from_bytes([42u8; 32]);
    assert_eq!(h.to_hex().len(), 64);
    assert_eq!(h.to_hex(), "2a".repeat(32));
}

#[test]
fn types_format_flake_amounts() {
    assert_eq!(format_flake_as_opl(1_000_000), "1.000000 OPL");
    assert_eq!(format_flake_as_opl(0), "0.000000 OPL");
    assert_eq!(format_flake_as_opl(1), "0.000001 OPL");
    assert_eq!(format_flake_as_opl(440 * 1_000_000), "440.000000 OPL");
}

#[test]
fn object_id_from_hex_rejects_bad_input() {
    let id = ObjectId(opolys::types::Hash::from_bytes([7u8; 32]));
    assert_eq!(ObjectId::from_hex(&id.to_hex()).unwrap(), id);
    assert_eq!(
        ObjectId::from_hex("abcd").unwrap_err(),
        "ObjectId hex must be 64 characters, got 4"
    );
    assert!(ObjectId::from_hex(&"zz".repeat(32)).unwrap_err().starts_with("Invalid hex: "));
}

// ─── difficulty ───

#[test]
fn consensus_floor_zero_bonded() {
    assert_eq!(compute_consensus_floor(1_000_000, 0), 0);
}

#[test]
fn consensus_floor_balanced() {
    let floor = compute_consensus_floor(1_000_000, 1_000_000);
    assert_eq!(floor, 1);
}

#[test]
fn consensus_floor_more_issued_than_stake() {
    let floor = compute_consensus_floor(10_000_000, 1_000_000);
    assert_eq!(floor, 10);
}

#[test]
fn effective_difficulty_max() {
    let dt = DifficultyTarget { target: 100, retarget: 50, consensus_floor: 200 };
    assert_eq!(dt.effective_difficulty(), 200);
}

#[test]
fn check_pow_easy_difficulty() {
    assert!(check_proof_of_work(0, 1));
    assert!(!check_proof_of_work(u64::MAX, 1));
}

#[test]
fn retarget_at_epoch_boundary() {
    let timestamps: Vec<u64> = (0..=2000).map(|i| i * 84).collect();
    let new_diff = compute_retarget(100, 1024, &timestamps);
    assert!(new_diff >= MIN_DIFFICULTY);
}

#[test]
fn retarget_no_clamp_max() {
    let timestamps: Vec<u64> = (0..=2000).map(|i| i * 840).collect();
    let new_diff = compute_retarget(100, 1024, &timestamps);
    assert!(new_diff < 100, "Difficulty should drop when blocks are too slow: got {}", new_diff);
}

#[test]
fn compute_next_difficulty_integrates_consensus_floor() {
    let timestamps: Vec<u64> = (0..=2000).map(|i| i * 84).collect();
    let result = compute_next_difficulty(100, 1024, &timestamps, 10_000_000, 1_000_000);
    assert!(result.effective_difficulty() >= 10);
}

// ─── emission ───

#[test]
fn difficulty_to_target_at_1() {
    assert_eq!(difficulty_to_target(1), (1u128 << 63) as u64 - 1);
}

#[test]
fn difficulty_to_target_at_10() {
    assert_eq!(difficulty_to_target(10), (1u128 << 54) as u64 - 1);
}

#[test]
fn difficulty_to_target_at_20() {
    assert_eq!(difficulty_to_target(20), (1u128 << 44) as u64 - 1);
}

#[test]
fn difficulty_to_target_at_64() {
    assert_eq!(difficulty_to_target(64), 0);
}

#[test]
fn difficulty_to_target_zero_returns_0() {
    assert_eq!(difficulty_to_target(0), 0);
}

#[test]
fn difficulty_to_target_above_64_returns_0() {
    assert_eq!(difficulty_to_target(65), 0);
    assert_eq!(difficulty_to_target(128), 0);
}

#[test]
fn difficulty_to_target_monotonically_decreasing() {
    let mut prev = difficulty_to_target(1);
    for d in 2..=64 {
        let curr = difficulty_to_target(d);
        assert!(curr <= prev, "target({}) = {} > target({}) = {}", d, curr, d - 1, prev);
        prev = curr;
    }
}

#[test]
fn vein_yield_at_min_difficulty() {
    let yield_val = compute_vein_yield(1, 1);
    assert!(yield_val > 1000, "yield should exceed 1.0x for a very good hash");
}

#[test]
fn vein_yield_minimum_for_valid_pow() {
    let target_10 = difficulty_to_target(10);
    let yield_val = compute_vein_yield(10, target_10 / 20);
    assert!(yield_val >= 1000);
}

#[test]
fn vein_yield_at_target_boundary() {
    let target_10 = difficulty_to_target(10);
    let yield_val = compute_vein_yield(10, target_10);
    assert_eq!(yield_val, 1000, "hash at target should give minimum yield");
}

#[test]
fn vein_yield_above_target_gives_minimum() {
    let yield_val = compute_vein_yield(10, u64::MAX);
    assert_eq!(yield_val, 1000);
}

#[test]
fn vein_yield_zero_hash_returns_minimum() {
    let yield_val = compute_vein_yield(10, 0);
    assert_eq!(yield_val, 1000);
}

#[test]
fn vein_yield_zero_difficulty_returns_minimum() {
    let yield_val = compute_vein_yield(0, 100);
    assert_eq!(yield_val, 1000);
}

#[test]
fn block_reward_with_vein_yield() {
    let base = compute_base_reward(BASE_REWARD, 1);
    let with_yield = compute_block_reward(BASE_REWARD, 1, 1);
    assert!(with_yield >= base);
}

#[test]
fn reward_math_saturates_instead_of_truncating() {
    assert_eq!(compute_block_reward(u64::MAX, 1, 1), u64::MAX);
    assert_eq!(compute_refiner_weight(u64::MAX, u64::MAX), u64::MAX);
}

#[test]
fn base_reward_at_min_difficulty() {
    let reward = compute_base_reward(BASE_REWARD, 1);
    assert_eq!(reward, BASE_REWARD);
}

#[test]
fn reward_decreases_with_difficulty() {
    let r1 = compute_base_reward(BASE_REWARD, 1);
    let r10 = compute_base_reward(BASE_REWARD, 10);
    let r100 = compute_base_reward(BASE_REWARD, 100);
    assert!(r1 > r10);
    assert!(r10 > r100);
}

#[test]
fn ln_milli_known_values() {
    assert!(ln_milli(1000) < 5);
    let ln2 = ln_milli(2000);
    assert!(ln2 > 680 && ln2 < 710, "ln(2) = {} milli, expected ~693", ln2);
    let ln10 = ln_milli(10000);
    assert!(ln10 > 2280 && ln10 < 2330, "ln(10) = {} milli, expected ~2303", ln10);
}

#[test]
fn ln_milli_below_threshold() {
    assert_eq!(ln_milli(999), 0);
    assert_eq!(ln_milli(0), 0);
}

#[test]
fn refiner_weight_ignores_age() {
    assert_eq!(compute_refiner_weight(100_000, 500), 100_000);
    assert_eq!(compute_refiner_weight(100_000, 2000), 100_000);
    assert_eq!(compute_refiner_weight(100_000, 5000), 100_000);
}

#[test]
fn refiner_weight_zero_age() {
    assert_eq!(compute_refiner_weight(100_000, 0), 100_000);
}

#[test]
fn stake_coverage_calculation() {
    assert_eq!(compute_stake_coverage(500, 1000), 500);
    assert_eq!(compute_stake_coverage(0, 1000), 0);
    assert_eq!(compute_stake_coverage(1000, 1000), 1000);
    assert_eq!(compute_stake_coverage(2000, 1000), 1000);
}

#[test]
fn suggested_fee_starts_at_minimum() {
    assert_eq!(compute_suggested_fee(0, 0, 0), 1);
}

#[test]
fn suggested_fee_updates_via_ema() {
    assert_eq!(compute_suggested_fee(10_000, 1, 1_000), 1900);
}

#[test]
fn suggested_fee_uses_average_burned_fee_not_total_block_fees() {
    assert_eq!(compute_suggested_fee(100_000, 100, 1_000), 1_000);
}

#[test]
fn suggested_fee_empty_block_drifts_toward_min_fee() {
    assert_eq!(compute_suggested_fee(0, 0, 1_000), 900);
}

#[test]
fn suggested_fee_floors_at_min_fee() {
    assert_eq!(compute_suggested_fee(0, 0, 0), 1);
}

#[test]
fn vein_yield_uses_leading_zero_bits_difficulty() {
    let yield_val = compute_vein_yield(10, 1);
    assert!(yield_val > 5000, "difficulty 10 with hash 1 should give significant yield, got {}", yield_val);
    let yield_val = compute_vein_yield(1, 1);
    assert!(yield_val > 5500, "difficulty 1 with hash 1 should give significant yield, got {}", yield_val);
}

#[test]
fn genesis_difficulty_constant() {
    assert_eq!(GENESIS_DIFFICULTY, 7);
}

#[test]
fn integer_sqrt_round_covers_all_of_u128() {
    assert_eq!(opolys::emission::integer_sqrt_round(0), 0);
    assert_eq!(opolys::emission::integer_sqrt_round(12), 3);
    assert_eq!(opolys::emission::integer_sqrt_round(13), 4);
    assert_eq!(opolys::emission::integer_sqrt_round(u64::MAX as u128), 1u128 << 32);
    assert_eq!(opolys::emission::integer_sqrt_round(u128::MAX), 1u128 << 64);
    let f = u64::MAX as u128;
    assert_eq!(opolys::emission::integer_sqrt_round(f * f), f);
    assert_eq!(opolys::emission::integer_sqrt_round(f * f + f), f);
    assert_eq!(opolys::emission::integer_sqrt_round(f * f + f + 1), f + 1);
}
