use opolys::constants::{BLOCKS_PER_YEAR, EPOCH, FLAKES_PER_OPL, MIN_BOND_STAKE};
use opolys::crypto::hash_to_object_id;
use opolys::emission::{compute_stake_coverage, integer_sqrt_floor};
use opolys::refiner::mix_seed;
use opolys::refiner_set::RefinerSet;
use opolys::types::{FlakeAmount, ObjectId, RefinerStatus};

fn test_id(seed: &[u8]) -> ObjectId {
    hash_to_object_id(seed)
}

#[test]
fn bond_new_refiner() {
    let mut vs = RefinerSet::new();
    let id = test_id(b"refiner1");
    vs.bond(id.clone(), MIN_BOND_STAKE, 0, 0, 0).unwrap();
    assert_eq!(vs.refiner_count(), 1);
    assert_eq!(vs.get_refiner(&id).unwrap().total_stake(), MIN_BOND_STAKE);
    assert_eq!(vs.get_refiner(&id).unwrap().entries.len(), 1);
}

#[test]
fn refiner_bond_insufficient_stake_per_entry() {
    let mut vs = RefinerSet::new();
    let id = test_id(b"refiner1");
    assert!(vs.bond(id, 100, 0, 0, 0).is_err());
}

#[test]
fn active_refiner_limit_grows_with_issued_supply() {
    assert_eq!(RefinerSet::active_refiner_limit(0), EPOCH as usize);
    assert_eq!(RefinerSet::active_refiner_limit(1_000_000 * FLAKES_PER_OPL), EPOCH as usize + 1_000);
    assert_eq!(RefinerSet::active_refiner_limit(25_000_000 * FLAKES_PER_OPL), EPOCH as usize + 5_000);
}

#[test]
fn minimum_bond_stake_grows_with_issued_supply() {
    assert_eq!(RefinerSet::minimum_bond_stake(0), MIN_BOND_STAKE);
    assert_eq!(RefinerSet::minimum_bond_stake(1_000_000 * FLAKES_PER_OPL), 1_000 * FLAKES_PER_OPL);
    assert_eq!(RefinerSet::minimum_bond_stake(25_000_000 * FLAKES_PER_OPL), 5_000 * FLAKES_PER_OPL);
}

#[test]
fn surplus_decay_is_zero_below_security_baseline() {
    let mut vs = RefinerSet::new();
    let id = test_id(b"refiner1");
    vs.bond(id.clone(), MIN_BOND_STAKE * 10, 0, 0, 0).unwrap();
    vs.activate(&id, 1).unwrap();
    let burned = vs.decay_stake(0);
    assert_eq!(burned, 0);
    assert_eq!(vs.get_refiner(&id).unwrap().total_stake(), MIN_BOND_STAKE * 10);
}

#[test]
fn surplus_decay_burns_only_when_bonded_stake_exceeds_baseline() {
    let mut vs = RefinerSet::new();
    let id = test_id(b"refiner1");
    vs.bond(id.clone(), MIN_BOND_STAKE * 1000, 0, 0, 0).unwrap();
    vs.activate(&id, 1).unwrap();

    let baseline = RefinerSet::minimum_bond_stake(0) as u128 * RefinerSet::active_refiner_limit(0) as u128;
    let total_bonded = MIN_BOND_STAKE * 1000;
    let surplus = total_bonded as u128 - baseline;
    let active_limit_sqrt = integer_sqrt_floor(RefinerSet::active_refiner_limit(0) as u128);
    let expected = ((total_bonded as u128 * surplus / total_bonded as u128) * EPOCH as u128
        / BLOCKS_PER_YEAR as u128
        / active_limit_sqrt) as FlakeAmount;

    let burned = vs.decay_stake(0);
    assert_eq!(burned, expected);
    assert!(burned > 0);
    assert_eq!(vs.get_refiner(&id).unwrap().total_stake(), total_bonded - expected);
    assert!(vs.dirty_refiners.contains(&id));
}

#[test]
fn rerank_refiners_ties_break_by_object_id() {
    let mut vs = RefinerSet::new();
    let ids = [test_id(b"tie-refiner-c"), test_id(b"tie-refiner-a"), test_id(b"tie-refiner-b")];
    for id in &ids {
        vs.bond(id.clone(), MIN_BOND_STAKE, 0, 0, 0).unwrap();
    }
    vs.activate_matured_refiners(EPOCH);
    vs.rerank_refiners(0, 0);
    let mut expected = ids.to_vec();
    expected.sort_by_key(|id| id.0 .0);
    assert_eq!(vs.active_set_ids(), &expected);
}

#[test]
fn refiner_top_up_bond_adds_entry() {
    let mut vs = RefinerSet::new();
    let id = test_id(b"refiner1");
    vs.bond(id.clone(), MIN_BOND_STAKE, 0, 0, 0).unwrap();
    vs.activate(&id, 1).unwrap();
    vs.bond(id.clone(), MIN_BOND_STAKE * 2, 100, 1000, 0).unwrap();
    let v = vs.get_refiner(&id).unwrap();
    assert_eq!(v.entries.len(), 2);
    assert_eq!(v.total_stake(), MIN_BOND_STAKE * 3);
    assert_eq!(v.entries[0].bonded_at_timestamp, 0);
    assert_eq!(v.entries[1].bonded_at_timestamp, 1000);
    assert_eq!(v.entries[0].stake, MIN_BOND_STAKE);
    assert_eq!(v.entries[1].stake, MIN_BOND_STAKE * 2);
}

#[test]
fn refiner_auto_merge_same_timestamp() {
    let mut vs = RefinerSet::new();
    let id = test_id(b"refiner1");
    vs.bond(id.clone(), MIN_BOND_STAKE, 0, 100, 0).unwrap();
    vs.bond(id.clone(), MIN_BOND_STAKE * 2, 5, 100, 0).unwrap();
    let v = vs.get_refiner(&id).unwrap();
    assert_eq!(v.entries.len(), 1);
    assert_eq!(v.total_stake(), MIN_BOND_STAKE * 3);
}

#[test]
fn refiner_unbond_fifo_consumes_oldest_first() {
    let mut vs = RefinerSet::new();
    let id = test_id(b"refiner1");
    vs.bond(id.clone(), MIN_BOND_STAKE, 0, 0, 0).unwrap();
    vs.bond(id.clone(), MIN_BOND_STAKE * 2, 100, 1000, 0).unwrap();
    let unbonded = vs.unbond_amount(&id, MIN_BOND_STAKE + MIN_BOND_STAKE / 2, 500).unwrap();
    assert_eq!(unbonded, MIN_BOND_STAKE + MIN_BOND_STAKE / 2);
    let v = vs.get_refiner(&id).unwrap();
    assert_eq!(v.entries.len(), 1);
    assert_eq!(v.entries[0].stake, MIN_BOND_STAKE * 2 - MIN_BOND_STAKE / 2);
    assert_eq!(v.entries[0].bonded_at_timestamp, 1000);
    assert_eq!(vs.unbonding_queue.len(), 1);
    assert_eq!(vs.unbonding_queue[0].amount, MIN_BOND_STAKE + MIN_BOND_STAKE / 2);
    assert_eq!(vs.unbonding_queue[0].matures_at, 500 + EPOCH);
}

#[test]
fn unbond_fifo_marks_refiner_unbonding_when_empty() {
    let mut vs = RefinerSet::new();
    let id = test_id(b"refiner1");
    vs.bond(id.clone(), MIN_BOND_STAKE, 0, 0, 0).unwrap();
    let unbonded = vs.unbond_amount(&id, MIN_BOND_STAKE, 100).unwrap();
    assert_eq!(unbonded, MIN_BOND_STAKE);
    assert_eq!(vs.refiner_count(), 1);
    assert_eq!(vs.get_refiner(&id).unwrap().status, RefinerStatus::Unbonding);
    assert_eq!(vs.get_refiner(&id).unwrap().total_stake(), 0);
    assert_eq!(vs.unbonding_queue.len(), 1);
}

#[test]
fn refiner_unbond_more_than_stake() {
    let mut vs = RefinerSet::new();
    let id = test_id(b"refiner1");
    vs.bond(id.clone(), MIN_BOND_STAKE, 0, 0, 0).unwrap();
    let result = vs.unbond_amount(&id, MIN_BOND_STAKE * 10, 100);
    assert!(result.is_err());
    assert!(result.unwrap_err().contains("Cannot unbond more than total stake"));
    assert_eq!(vs.refiner_count(), 1);
    assert!(vs.unbonding_queue.is_empty());
}

#[test]
fn refiner_unbond_nonexistent_refiner() {
    let mut vs = RefinerSet::new();
    let id = test_id(b"refiner1");
    assert!(vs.unbond_amount(&id, MIN_BOND_STAKE, 100).is_err());
}

#[test]
fn refiner_process_matured_unbonds_returns_matured_entries() {
    let mut vs = RefinerSet::new();
    let id = test_id(b"refiner1");
    vs.bond(id.clone(), MIN_BOND_STAKE, 0, 0, 0).unwrap();
    let unbonded = vs.unbond_amount(&id, MIN_BOND_STAKE, 100).unwrap();
    assert_eq!(unbonded, MIN_BOND_STAKE);
    assert_eq!(vs.get_refiner(&id).unwrap().status, RefinerStatus::Unbonding);
    let matured = vs.process_matured_unbonds(100 + EPOCH - 1);
    assert!(matured.is_empty());
    assert_eq!(vs.unbonding_queue.len(), 1);
    assert!(vs.get_refiner(&id).is_some());
    let matured = vs.process_matured_unbonds(100 + EPOCH);
    assert_eq!(matured.len(), 1);
    assert_eq!(matured[0].0, id);
    assert_eq!(matured[0].1, MIN_BOND_STAKE);
    assert!(vs.unbonding_queue.is_empty());
    assert!(vs.get_refiner(&id).is_none());
}

#[test]
fn matured_unbonds_preview_does_not_drain_queue() {
    let mut vs = RefinerSet::new();
    let id = test_id(b"refiner1");
    vs.bond(id.clone(), MIN_BOND_STAKE, 0, 0, 0).unwrap();
    vs.unbond_amount(&id, MIN_BOND_STAKE, 100).unwrap();
    let matured = vs.matured_unbonds(100 + EPOCH);
    assert_eq!(matured, vec![(id, MIN_BOND_STAKE)]);
    assert_eq!(vs.unbonding_queue.len(), 1);
}

#[test]
fn activate_matured_refiners_transitions_after_epoch() {
    let mut vs = RefinerSet::new();
    let id = test_id(b"refiner1");
    vs.bond(id.clone(), MIN_BOND_STAKE, 0, 0, 0).unwrap();
    assert_eq!(vs.get_refiner(&id).unwrap().status, RefinerStatus::Bonding);
    let waiting = vs.activate_matured_refiners(EPOCH - 1);
    assert!(waiting.is_empty());
    assert_eq!(vs.get_refiner(&id).unwrap().status, RefinerStatus::Bonding);
    let waiting = vs.activate_matured_refiners(EPOCH);
    assert_eq!(waiting.len(), 1);
    assert_eq!(waiting[0], id);
    assert_eq!(vs.get_refiner(&id).unwrap().status, RefinerStatus::Waiting);
    let (activated, demoted) = vs.rerank_refiners(0, 0);
    assert_eq!(activated.len(), 1);
    assert!(demoted.is_empty());
    assert_eq!(vs.get_refiner(&id).unwrap().status, RefinerStatus::Active);
}

#[test]
fn dynamic_refiner_limit_holds_excess_in_waiting() {
    let mut vs = RefinerSet::new();
    let active_limit = RefinerSet::active_refiner_limit(0);
    let n = active_limit + 2;
    for i in 0..n {
        let seed = format!("refiner_{}", i);
        vs.bond(test_id(seed.as_bytes()), MIN_BOND_STAKE, 0, 0, 0).unwrap();
    }
    assert_eq!(vs.total_active_refiners(), 0);
    assert_eq!(vs.total_bonding_refiners(), n);
    let waiting = vs.activate_matured_refiners(EPOCH);
    assert_eq!(waiting.len(), n);
    assert_eq!(vs.total_active_refiners(), 0);
    assert_eq!(vs.total_waiting_refiners(), n);
    let (activated, demoted) = vs.rerank_refiners(0, 0);
    assert_eq!(activated.len(), active_limit);
    assert!(demoted.is_empty());
    assert_eq!(vs.total_active_refiners(), active_limit);
    assert_eq!(vs.total_waiting_refiners(), 2);
    let (activated2, demoted2) = vs.rerank_refiners(0, 0);
    assert!(activated2.is_empty());
    assert!(demoted2.is_empty());
    assert_eq!(vs.total_active_refiners(), active_limit);
}

#[test]
fn rerank_refiners_uses_stake_weight() {
    let mut vs = RefinerSet::new();
    let active_limit = RefinerSet::active_refiner_limit(0);
    let old_small = test_id(b"old-small-refiner");
    let fresh_large = test_id(b"fresh-large-refiner");
    vs.bond(old_small.clone(), MIN_BOND_STAKE, 0, 0, 0).unwrap();
    vs.bond(fresh_large.clone(), MIN_BOND_STAKE * 2, 0, 31_557_600, 0).unwrap();
    for i in 0..(active_limit - 1) {
        let id = test_id(format!("large-filler-{i}").as_bytes());
        vs.bond(id, MIN_BOND_STAKE * 2, 0, 31_557_600, 0).unwrap();
    }
    vs.activate_matured_refiners(EPOCH);
    vs.rerank_refiners(31_557_600, 0);
    assert_eq!(vs.get_refiner(&old_small).unwrap().status, RefinerStatus::Waiting);
    assert_eq!(vs.get_refiner(&fresh_large).unwrap().status, RefinerStatus::Active);
}

#[test]
fn slash_refiner_burns_all_stake() {
    let mut vs = RefinerSet::new();
    let id = test_id(b"refiner1");
    vs.bond(id.clone(), MIN_BOND_STAKE * 10, 0, 0, 0).unwrap();
    vs.activate(&id, 1).unwrap();
    let burned = vs.slash_refiner(&id, 100).unwrap();
    assert_eq!(burned, MIN_BOND_STAKE * 10);
    let v = vs.get_refiner(&id).unwrap();
    assert_eq!(v.total_stake(), 0);
    assert_eq!(v.status, RefinerStatus::Slashed);
}

#[test]
fn slash_refiner_burns_pending_unbonding_stake() {
    let mut vs = RefinerSet::new();
    let id = test_id(b"refiner1");
    vs.bond(id.clone(), MIN_BOND_STAKE * 10, 0, 0, 0).unwrap();
    vs.activate(&id, 1).unwrap();
    vs.unbond_amount(&id, MIN_BOND_STAKE * 4, 100).unwrap();
    assert_eq!(vs.get_refiner(&id).unwrap().total_stake(), MIN_BOND_STAKE * 6);
    assert_eq!(vs.unbonding_queue.len(), 1);
    let burned = vs.slash_refiner(&id, 200).unwrap();
    assert_eq!(burned, MIN_BOND_STAKE * 10);
    assert!(vs.unbonding_queue.is_empty());
    let v = vs.get_refiner(&id).unwrap();
    assert_eq!(v.total_stake(), 0);
    assert_eq!(v.status, RefinerStatus::Slashed);
}

#[test]
fn rebond_during_unbonding_returns_to_bonding() {
    let mut vs = RefinerSet::new();
    let id = test_id(b"refiner1");
    vs.bond(id.clone(), MIN_BOND_STAKE, 0, 0, 0).unwrap();
    vs.activate(&id, 1).unwrap();
    vs.unbond_amount(&id, MIN_BOND_STAKE, 100).unwrap();
    assert_eq!(vs.get_refiner(&id).unwrap().status, RefinerStatus::Unbonding);
    assert_eq!(vs.unbonding_queue.len(), 1);
    vs.bond(id.clone(), MIN_BOND_STAKE * 2, 200, 200, 0).unwrap();
    let refiner = vs.get_refiner(&id).unwrap();
    assert_eq!(refiner.status, RefinerStatus::Bonding);
    assert_eq!(refiner.total_stake(), MIN_BOND_STAKE * 2);
    assert_eq!(vs.unbonding_queue.len(), 1);
    let burned = vs.slash_refiner(&id, 300).unwrap();
    assert_eq!(burned, MIN_BOND_STAKE * 3);
    assert!(vs.unbonding_queue.is_empty());
}

#[test]
fn slash_refiner_already_slashed_returns_zero() {
    let mut vs = RefinerSet::new();
    let id = test_id(b"refiner1");
    vs.bond(id.clone(), MIN_BOND_STAKE, 0, 0, 0).unwrap();
    vs.activate(&id, 1).unwrap();
    vs.slash_refiner(&id, 100).unwrap();
    let burned = vs.slash_refiner(&id, 200).unwrap();
    assert_eq!(burned, 0);
}

#[test]
fn record_correct_attestation_increments_active_refiner() {
    let mut vs = RefinerSet::new();
    let id = test_id(b"attester");
    vs.bond(id.clone(), MIN_BOND_STAKE, 0, 0, 0).unwrap();
    vs.activate(&id, 1).unwrap();
    assert_eq!(vs.record_correct_attestation(&id).unwrap(), 1);
    assert_eq!(vs.record_correct_attestation(&id).unwrap(), 2);
    assert!(vs.dirty_refiners.contains(&id));
    assert_eq!(vs.get_refiner(&id).unwrap().consecutive_correct_attestations, 2);
}

#[test]
fn refiner_rebond_after_permanent_slash_rejected() {
    let mut vs = RefinerSet::new();
    let id = test_id(b"refiner1");
    vs.bond(id.clone(), MIN_BOND_STAKE, 0, 0, 0).unwrap();
    vs.activate(&id, 1).unwrap();
    vs.slash_refiner(&id, 100).unwrap();
    let result = vs.bond(id.clone(), MIN_BOND_STAKE, 400, 400, 0);
    assert!(result.is_err(), "Slashed refiners must not be able to re-bond");
}

#[test]
fn refiner_total_bonded_stake_with_multiple_entries() {
    let mut vs = RefinerSet::new();
    vs.bond(test_id(b"refiner1"), MIN_BOND_STAKE, 0, 0, 0).unwrap();
    vs.bond(test_id(b"refiner2"), MIN_BOND_STAKE * 2, 0, 0, 0).unwrap();
    assert_eq!(vs.total_bonded_stake(), MIN_BOND_STAKE * 3);
}

#[test]
fn refiner_select_block_producer() {
    let mut vs = RefinerSet::new();
    let id = test_id(b"refiner1");
    vs.bond(id.clone(), MIN_BOND_STAKE, 0, 0, 0).unwrap();
    vs.activate(&id, 1).unwrap();
    let producer = vs.select_block_producer(42);
    assert!(producer.is_some());
    assert_eq!(producer.unwrap().object_id, id);
}

#[test]
fn select_block_producer_is_total_stake_weighted() {
    let mut vs = RefinerSet::new();
    let low_stake = test_id(b"low-stake-refiner");
    let high_stake = test_id(b"high-stake-refiner");
    vs.bond(low_stake.clone(), MIN_BOND_STAKE, 0, 0, 0).unwrap();
    vs.bond(high_stake.clone(), MIN_BOND_STAKE * 100, 0, 0, 0).unwrap();
    vs.activate(&low_stake, 1).unwrap();
    vs.activate(&high_stake, 1).unwrap();
    let mut low_count = 0;
    let mut high_count = 0;
    for seed in 0..10_000 {
        let producer = vs.select_block_producer(mix_seed(seed)).unwrap();
        if producer.object_id == low_stake {
            low_count += 1;
        } else if producer.object_id == high_stake {
            high_count += 1;
        }
    }
    assert!(high_count > low_count * 20, "low={low_count}, high={high_count}");
}

#[test]
fn per_entry_age_does_not_increase_weight() {
    let mut vs = RefinerSet::new();
    let id = test_id(b"refiner1");
    vs.bond(id.clone(), MIN_BOND_STAKE, 0, 100, 0).unwrap();
    vs.activate(&id, 1).unwrap();
    let weight_at_bond = vs.total_weight(100);
    let one_year_secs = (365.25 * 24.0 * 3600.0) as u64;
    let weight_after_year = vs.total_weight(100 + one_year_secs);
    assert_eq!(weight_after_year, weight_at_bond);
}

#[test]
fn top_up_entry_age_is_metadata_only() {
    let mut vs = RefinerSet::new();
    let id = test_id(b"refiner1");
    vs.bond(id.clone(), MIN_BOND_STAKE, 0, 0, 0).unwrap();
    vs.activate(&id, 1).unwrap();
    let top_up_time: u64 = 1_000_000;
    vs.bond(id.clone(), MIN_BOND_STAKE, 100, top_up_time, 0).unwrap();
    let v = vs.get_refiner(&id).unwrap();
    let check_time: u64 = 31_557_600;
    assert!(v.entries[0].age_years_milli(check_time) > 0);
    assert!(v.entries[1].age_years_milli(check_time) > 0);
    assert_eq!(v.entries[1].age_years_milli(top_up_time), 0);
    assert_eq!(v.weight(check_time), v.total_stake());
}

#[test]
fn refiner_stake_coverage() {
    assert_eq!(compute_stake_coverage(500_000, 1_000_000), 500);
}

#[test]
fn refiner_unbond_fifo_partial_from_second_entry() {
    let mut vs = RefinerSet::new();
    let id = test_id(b"refiner1");
    vs.bond(id.clone(), MIN_BOND_STAKE, 0, 0, 0).unwrap();
    vs.bond(id.clone(), MIN_BOND_STAKE * 3, 100, 2000, 0).unwrap();
    let unbonded = vs.unbond_amount(&id, MIN_BOND_STAKE * 2, 500).unwrap();
    assert_eq!(unbonded, MIN_BOND_STAKE * 2);
    let v = vs.get_refiner(&id).unwrap();
    assert_eq!(v.entries.len(), 1);
    assert_eq!(v.entries[0].stake, MIN_BOND_STAKE * 2);
    assert_eq!(v.entries[0].bonded_at_timestamp, 2000);
}

#[test]
fn refiner_full_lifecycle() {
    let mut vs = RefinerSet::new();
    let alice = test_id(b"alice");
    let bob = test_id(b"bob");
    let charlie = test_id(b"charlie");
    vs.bond(alice.clone(), MIN_BOND_STAKE * 10, 0, 0, 0).unwrap();
    vs.bond(bob.clone(), MIN_BOND_STAKE * 20, 0, 0, 0).unwrap();
    vs.bond(charlie.clone(), MIN_BOND_STAKE * 5, 0, 0, 0).unwrap();
    assert_eq!(vs.get_refiner(&alice).unwrap().status, RefinerStatus::Bonding);
    assert_eq!(vs.get_refiner(&bob).unwrap().status, RefinerStatus::Bonding);
    assert_eq!(vs.get_refiner(&charlie).unwrap().status, RefinerStatus::Bonding);
    assert_eq!(vs.total_bonded_stake(), MIN_BOND_STAKE * 35);
    assert!(vs.activate_matured_refiners(EPOCH - 1).is_empty());
    let waiting = vs.activate_matured_refiners(EPOCH);
    assert_eq!(waiting.len(), 3);
    assert_eq!(vs.get_refiner(&alice).unwrap().status, RefinerStatus::Waiting);
    let (activated, _) = vs.rerank_refiners(0, 0);
    assert_eq!(activated.len(), 3);
    assert_eq!(vs.get_refiner(&alice).unwrap().status, RefinerStatus::Active);
    assert_eq!(vs.get_refiner(&bob).unwrap().status, RefinerStatus::Active);
    assert_eq!(vs.get_refiner(&charlie).unwrap().status, RefinerStatus::Active);
    let producer = vs.select_block_producer(42).unwrap();
    assert!(producer.object_id == alice || producer.object_id == bob || producer.object_id == charlie);
    let unbonded = vs.unbond_amount(&alice, MIN_BOND_STAKE * 3, 2000).unwrap();
    assert_eq!(unbonded, MIN_BOND_STAKE * 3);
    assert_eq!(vs.unbonding_queue.len(), 1);
    assert_eq!(vs.unbonding_queue[0].account, alice);
    assert_eq!(vs.unbonding_queue[0].amount, MIN_BOND_STAKE * 3);
    assert_eq!(vs.unbonding_queue[0].matures_at, 2000 + EPOCH);
    assert_eq!(vs.get_refiner(&alice).unwrap().total_stake(), MIN_BOND_STAKE * 7);
    assert!(vs.process_matured_unbonds(2000 + EPOCH - 1).is_empty());
    let matured = vs.process_matured_unbonds(2000 + EPOCH);
    assert_eq!(matured.len(), 1);
    assert_eq!(matured[0].0, alice);
    assert_eq!(matured[0].1, MIN_BOND_STAKE * 3);
    assert!(vs.unbonding_queue.is_empty());
    assert_eq!(vs.get_refiner(&charlie).unwrap().status, RefinerStatus::Active);
    let burn = vs.slash_refiner(&charlie, 2100).unwrap();
    assert_eq!(burn, MIN_BOND_STAKE * 5);
    assert_eq!(vs.get_refiner(&charlie).unwrap().status, RefinerStatus::Slashed);
    assert_eq!(vs.get_refiner(&charlie).unwrap().total_stake(), 0);
    assert_eq!(vs.active_refiners().len(), 2);
    assert_eq!(vs.total_bonded_stake(), MIN_BOND_STAKE * 7 + MIN_BOND_STAKE * 20);
}
