use ed25519_dalek::{Signer, SigningKey};
use opolys::account::AccountStore;
use opolys::constants::{
    ANNUAL_ATTRITION_PERMILLE, EPOCH, MAINNET_CHAIN_ID, MIN_BOND_STAKE, SIGNATURE_TYPE_ED25519,
};
use opolys::crypto::{ed25519_public_key_to_object_id, hash_to_object_id};
use opolys::dispatcher::{
    compute_tx_id, transaction_signing_payload, validate_transaction_basic, TransactionDispatcher,
};
use opolys::refiner_set::RefinerSet;
use opolys::types::{opl_to_flake, FlakeAmount, ObjectId, Transaction, TransactionAction};

fn test_keypair(seed: u8) -> (SigningKey, ObjectId, Vec<u8>) {
    let signing_key = SigningKey::from_bytes(&[seed; 32]);
    let pk = signing_key.verifying_key();
    let pk_bytes = pk.as_bytes().to_vec();
    let id = ed25519_public_key_to_object_id(pk.as_bytes());
    (signing_key, id, pk_bytes)
}

fn signed(sk: &SigningKey, sender: &ObjectId, pk: Vec<u8>, action: TransactionAction, fee: FlakeAmount, nonce: u64) -> Transaction {
    let tx_id = compute_tx_id(sender, &action, fee, nonce, MAINNET_CHAIN_ID);
    let msg = transaction_signing_payload(sender, &action, fee, nonce, MAINNET_CHAIN_ID);
    Transaction {
        tx_id,
        sender: sender.clone(),
        action,
        fee,
        signature: sk.sign(&msg).to_bytes().to_vec(),
        signature_type: SIGNATURE_TYPE_ED25519,
        nonce,
        chain_id: MAINNET_CHAIN_ID,
        data: vec![],
        public_key: pk,
    }
}

fn signed_transfer(sk: &SigningKey, sender: &ObjectId, pk: Vec<u8>, to: &ObjectId, amount: FlakeAmount, fee: FlakeAmount, nonce: u64) -> Transaction {
    signed(sk, sender, pk, TransactionAction::Transfer { recipient: to.clone(), amount }, fee, nonce)
}

fn signed_bond(sk: &SigningKey, sender: &ObjectId, pk: Vec<u8>, amount: FlakeAmount, fee: FlakeAmount, nonce: u64) -> Transaction {
    signed(sk, sender, pk, TransactionAction::ValidatorBond { amount }, fee, nonce)
}

fn signed_unbond(sk: &SigningKey, sender: &ObjectId, pk: Vec<u8>, amount: FlakeAmount, fee: FlakeAmount, nonce: u64) -> Transaction {
    signed(sk, sender, pk, TransactionAction::ValidatorUnbond { amount }, fee, nonce)
}

fn unsigned(sender: &ObjectId, action: TransactionAction, fee: FlakeAmount, nonce: u64) -> Transaction {
    let tx_id = compute_tx_id(sender, &action, fee, nonce, MAINNET_CHAIN_ID);
    Transaction {
        tx_id,
        sender: sender.clone(),
        action,
        fee,
        signature: vec![],
        signature_type: SIGNATURE_TYPE_ED25519,
        nonce,
        chain_id: MAINNET_CHAIN_ID,
        data: vec![],
        public_key: vec![],
    }
}

fn assay(amount: FlakeAmount) -> FlakeAmount {
    (amount as u128 * ANNUAL_ATTRITION_PERMILLE as u128 / 4 / 1000) as FlakeAmount
}

#[test]
fn dispatcher_transfer_success() {
    let mut accounts = AccountStore::new();
    let mut refiners = RefinerSet::new();
    let (sk, alice, pk) = test_keypair(1);
    let (_, bob, _) = test_keypair(2);
    accounts.create_account(alice.clone()).unwrap();
    accounts.credit(&alice, opl_to_flake(1000)).unwrap();
    let tx = signed_transfer(&sk, &alice, pk, &bob, opl_to_flake(10), opl_to_flake(1), 0);
    let result = TransactionDispatcher::apply_transaction(&tx, &mut accounts, &mut refiners, 1, 100, MAINNET_CHAIN_ID);
    assert!(result.success, "Transfer should succeed: {:?}", result.error);
    assert_eq!(result.fee_burned, opl_to_flake(1));
    assert_eq!(accounts.get_account(&alice).unwrap().balance, opl_to_flake(989));
    assert_eq!(accounts.get_account(&bob).unwrap().balance, opl_to_flake(10));
    assert_eq!(accounts.get_account(&alice).unwrap().nonce, 1);
}

#[test]
fn transfer_insufficient_balance() {
    let mut accounts = AccountStore::new();
    let mut refiners = RefinerSet::new();
    let (sk, alice, pk) = test_keypair(1);
    let (_, bob, _) = test_keypair(2);
    accounts.create_account(alice.clone()).unwrap();
    accounts.credit(&alice, 100).unwrap();
    let tx = signed_transfer(&sk, &alice, pk, &bob, 200, 10, 0);
    let result = TransactionDispatcher::apply_transaction(&tx, &mut accounts, &mut refiners, 1, 100, MAINNET_CHAIN_ID);
    assert!(!result.success);
    assert_eq!(result.fee_burned, 0);
    assert_eq!(accounts.get_account(&alice).unwrap().balance, 100);
}

#[test]
fn bond_refiner_success() {
    let mut accounts = AccountStore::new();
    let mut refiners = RefinerSet::new();
    let (sk, alice, pk) = test_keypair(1);
    accounts.create_account(alice.clone()).unwrap();
    accounts.credit(&alice, opl_to_flake(200)).unwrap();
    let tx = signed_bond(&sk, &alice, pk, MIN_BOND_STAKE, opl_to_flake(1), 0);
    let result = TransactionDispatcher::apply_transaction(&tx, &mut accounts, &mut refiners, 1, 100, MAINNET_CHAIN_ID);
    assert!(result.success, "Bond should succeed: {:?}", result.error);
    assert_eq!(refiners.refiner_count(), 1);
    assert_eq!(
        accounts.get_account(&alice).unwrap().balance,
        opl_to_flake(200) - MIN_BOND_STAKE - opl_to_flake(1) - assay(MIN_BOND_STAKE)
    );
}

#[test]
fn bond_refiner_below_minimum() {
    let mut accounts = AccountStore::new();
    let mut refiners = RefinerSet::new();
    let (sk, alice, pk) = test_keypair(1);
    accounts.create_account(alice.clone()).unwrap();
    accounts.credit(&alice, opl_to_flake(200)).unwrap();
    let tx = signed_bond(&sk, &alice, pk, 50, opl_to_flake(1), 0);
    let result = TransactionDispatcher::apply_transaction(&tx, &mut accounts, &mut refiners, 1, 100, MAINNET_CHAIN_ID);
    assert!(!result.success);
    assert_eq!(refiners.refiner_count(), 0);
}

#[test]
fn bond_top_up_creates_new_entry() {
    let mut accounts = AccountStore::new();
    let mut refiners = RefinerSet::new();
    let (sk, alice, pk) = test_keypair(1);
    accounts.create_account(alice.clone()).unwrap();
    accounts.credit(&alice, opl_to_flake(500)).unwrap();
    let tx1 = signed_bond(&sk, &alice, pk.clone(), MIN_BOND_STAKE, opl_to_flake(1), 0);
    assert!(TransactionDispatcher::apply_transaction(&tx1, &mut accounts, &mut refiners, 1, 100, MAINNET_CHAIN_ID).success);
    let tx2 = signed_bond(&sk, &alice, pk, MIN_BOND_STAKE * 2, opl_to_flake(1), 1);
    let result2 = TransactionDispatcher::apply_transaction(&tx2, &mut accounts, &mut refiners, 2, 200, MAINNET_CHAIN_ID);
    assert!(result2.success, "Top-up bond should succeed: {:?}", result2.error);
    let v = refiners.get_refiner(&alice).unwrap();
    assert_eq!(v.entries.len(), 2);
    assert_eq!(v.total_stake(), MIN_BOND_STAKE * 3);
    assert_eq!(refiners.refiner_count(), 1);
}

#[test]
fn unbond_fifo_partial() {
    let mut accounts = AccountStore::new();
    let mut refiners = RefinerSet::new();
    let (sk, alice, pk) = test_keypair(1);
    accounts.create_account(alice.clone()).unwrap();
    accounts.credit(&alice, opl_to_flake(500)).unwrap();
    let tx1 = signed_bond(&sk, &alice, pk.clone(), MIN_BOND_STAKE, opl_to_flake(1), 0);
    let r1 = TransactionDispatcher::apply_transaction(&tx1, &mut accounts, &mut refiners, 1, 100, MAINNET_CHAIN_ID);
    assert!(r1.success, "First bond should succeed: {:?}", r1.error);
    let tx2 = signed_bond(&sk, &alice, pk.clone(), MIN_BOND_STAKE * 2, opl_to_flake(1), 1);
    let r2 = TransactionDispatcher::apply_transaction(&tx2, &mut accounts, &mut refiners, 2, 1000, MAINNET_CHAIN_ID);
    assert!(r2.success, "Second bond (top-up) should succeed: {:?}", r2.error);
    let prev_balance = opl_to_flake(500) - MIN_BOND_STAKE - opl_to_flake(1) - assay(MIN_BOND_STAKE)
        - MIN_BOND_STAKE * 2 - opl_to_flake(1) - assay(MIN_BOND_STAKE * 2);
    assert_eq!(accounts.get_account(&alice).unwrap().balance, prev_balance);
    let tx3 = signed_unbond(&sk, &alice, pk, MIN_BOND_STAKE + MIN_BOND_STAKE / 2, opl_to_flake(1), 2);
    let result = TransactionDispatcher::apply_transaction(&tx3, &mut accounts, &mut refiners, 3, 300, MAINNET_CHAIN_ID);
    assert!(result.success, "Unbond should succeed: {:?}", result.error);
    let v = refiners.get_refiner(&alice).unwrap();
    assert_eq!(v.entries.len(), 1);
    assert_eq!(v.total_stake(), MIN_BOND_STAKE * 3 / 2);
    assert_eq!(refiners.unbonding_queue.len(), 1);
    assert_eq!(refiners.unbonding_queue[0].amount, MIN_BOND_STAKE + MIN_BOND_STAKE / 2);
    assert_eq!(refiners.unbonding_queue[0].matures_at, 3 + EPOCH as u64);
    let unbond_amount = MIN_BOND_STAKE + MIN_BOND_STAKE / 2;
    assert_eq!(
        accounts.get_account(&alice).unwrap().balance,
        prev_balance - opl_to_flake(1) - assay(unbond_amount)
    );
}

#[test]
fn dispatcher_unbond_nonexistent_refiner() {
    let mut accounts = AccountStore::new();
    let mut refiners = RefinerSet::new();
    let (sk, alice, pk) = test_keypair(1);
    let tx = signed_unbond(&sk, &alice, pk, MIN_BOND_STAKE, opl_to_flake(1), 0);
    let result = TransactionDispatcher::apply_transaction(&tx, &mut accounts, &mut refiners, 1, 100, MAINNET_CHAIN_ID);
    assert!(!result.success);
}

#[test]
fn validate_transaction_basic_transfer() {
    let alice = hash_to_object_id(b"alice");
    let bob = hash_to_object_id(b"bob");
    let tx = unsigned(&alice, TransactionAction::Transfer { recipient: bob, amount: 100 }, 10, 0);
    assert!(validate_transaction_basic(&tx, 200, 0).is_ok());
    assert!(validate_transaction_basic(&tx, 50, 0).is_err());
}

#[test]
fn validate_transaction_basic_bond() {
    let alice = hash_to_object_id(b"alice");
    let tx = unsigned(&alice, TransactionAction::ValidatorBond { amount: MIN_BOND_STAKE }, opl_to_flake(1), 0);
    let total_cost = MIN_BOND_STAKE + opl_to_flake(1) + assay(MIN_BOND_STAKE);
    assert!(validate_transaction_basic(&tx, total_cost, 0).is_ok());
    assert!(validate_transaction_basic(&tx, total_cost - 1, 0).is_err());
}

#[test]
fn bond_stores_public_key_in_account() {
    let mut accounts = AccountStore::new();
    let mut refiners = RefinerSet::new();
    let (sk, alice, pk) = test_keypair(42);
    accounts.create_account(alice.clone()).unwrap();
    accounts.credit(&alice, opl_to_flake(200)).unwrap();
    let tx = signed_bond(&sk, &alice, pk.clone(), MIN_BOND_STAKE, opl_to_flake(1), 0);
    let result = TransactionDispatcher::apply_transaction(&tx, &mut accounts, &mut refiners, 1, 100, MAINNET_CHAIN_ID);
    assert!(result.success, "Bond should succeed: {:?}", result.error);
    let account = accounts.get_account(&alice).unwrap();
    assert!(account.public_key.is_some(), "Public key should be stored after bond");
    assert_eq!(account.public_key.as_ref().unwrap(), &pk);
}

#[test]
fn transfer_stores_public_key_in_account() {
    let mut accounts = AccountStore::new();
    let mut refiners = RefinerSet::new();
    let (sk, alice, pk) = test_keypair(7);
    let (_, bob, _) = test_keypair(8);
    accounts.create_account(alice.clone()).unwrap();
    accounts.credit(&alice, opl_to_flake(1000)).unwrap();
    let tx = signed_transfer(&sk, &alice, pk.clone(), &bob, opl_to_flake(10), opl_to_flake(1), 0);
    let result = TransactionDispatcher::apply_transaction(&tx, &mut accounts, &mut refiners, 1, 100, MAINNET_CHAIN_ID);
    assert!(result.success, "Transfer should succeed: {:?}", result.error);
    let account = accounts.get_account(&alice).unwrap();
    assert!(account.public_key.is_some(), "Public key should be stored after transfer");
    assert_eq!(account.public_key.as_ref().unwrap(), &pk);
}

#[test]
fn empty_public_key_rejected() {
    let mut accounts = AccountStore::new();
    let mut refiners = RefinerSet::new();
    let alice = hash_to_object_id(b"alice");
    let bob = hash_to_object_id(b"bob");
    accounts.create_account(alice.clone()).unwrap();
    accounts.credit(&alice, opl_to_flake(1000)).unwrap();
    let tx = unsigned(&alice, TransactionAction::Transfer { recipient: bob, amount: opl_to_flake(10) }, opl_to_flake(1), 0);
    let result = TransactionDispatcher::apply_transaction(&tx, &mut accounts, &mut refiners, 1, 100, MAINNET_CHAIN_ID);
    assert!(!result.success, "Empty public_key must be rejected");
    assert_eq!(accounts.get_account(&alice).unwrap().balance, opl_to_flake(1000));
}

#[test]
fn wrong_chain_id_rejected() {
    let wrong_chain_id: u64 = 2;
    let mut accounts = AccountStore::new();
    let mut refiners = RefinerSet::new();
    let (sk, alice, pk) = test_keypair(1);
    let (_, bob, _) = test_keypair(2);
    accounts.create_account(alice.clone()).unwrap();
    accounts.credit(&alice, opl_to_flake(1000)).unwrap();
    let tx = signed_transfer(&sk, &alice, pk, &bob, opl_to_flake(10), opl_to_flake(1), 0);
    assert_eq!(tx.chain_id, MAINNET_CHAIN_ID);
    let result = TransactionDispatcher::apply_transaction(&tx, &mut accounts, &mut refiners, 1, 100, wrong_chain_id);
    assert!(!result.success, "Mainnet tx must be rejected with wrong chain_id");
    let err = result.error.unwrap();
    assert!(err.contains("chain_id"), "Error must mention chain_id: {}", err);
}

#[test]
fn replayed_transaction_rejected_by_nonce() {
    let mut accounts = AccountStore::new();
    let mut refiners = RefinerSet::new();
    let (sk, alice, pk) = test_keypair(3);
    let (_, bob, _) = test_keypair(4);
    accounts.create_account(alice.clone()).unwrap();
    accounts.credit(&alice, opl_to_flake(100)).unwrap();
    let tx = signed_transfer(&sk, &alice, pk, &bob, 5, 1, 0);
    assert!(TransactionDispatcher::apply_transaction(&tx, &mut accounts, &mut refiners, 1, 100, MAINNET_CHAIN_ID).success);
    let again = TransactionDispatcher::apply_transaction(&tx, &mut accounts, &mut refiners, 2, 200, MAINNET_CHAIN_ID);
    assert!(!again.success);
    assert_eq!(again.error.unwrap(), "Invalid nonce: expected 1, got 0");
}

#[test]
fn tampered_signature_rejected() {
    let mut accounts = AccountStore::new();
    let mut refiners = RefinerSet::new();
    let (sk, alice, pk) = test_keypair(5);
    let (_, bob, _) = test_keypair(6);
    accounts.create_account(alice.clone()).unwrap();
    accounts.credit(&alice, opl_to_flake(100)).unwrap();
    let mut tx = signed_transfer(&sk, &alice, pk, &bob, 5, 1, 0);
    tx.signature[0] ^= 1;
    let result = TransactionDispatcher::apply_transaction(&tx, &mut accounts, &mut refiners, 1, 100, MAINNET_CHAIN_ID);
    assert!(!result.success);
    assert_eq!(accounts.get_account(&alice).unwrap().balance, opl_to_flake(100));
}

/// Unbond more than total stake — unbonds all available.
#[test]
fn dispatcher_unbond_more_than_stake() {
    let mut accounts = AccountStore::new();
    let mut refiners = RefinerSet::new();
    let (sk, alice, pk) = test_keypair(1);

    accounts.create_account(alice.clone()).unwrap();
    accounts.credit(&alice, opl_to_flake(200)).unwrap();

    let tx1 = signed_bond(&sk, &alice, pk.clone(), MIN_BOND_STAKE, opl_to_flake(1), 0);
    let r = TransactionDispatcher::apply_transaction(&tx1, &mut accounts, &mut refiners, 1, 100, MAINNET_CHAIN_ID);
    assert!(r.success, "Bond should succeed: {:?}", r.error);

    // Try to unbond 10x the total stake
    let tx2 = signed_unbond(&sk, &alice, pk, MIN_BOND_STAKE * 10, opl_to_flake(1), 1);
    let result = TransactionDispatcher::apply_transaction(&tx2, &mut accounts, &mut refiners, 2, 200, MAINNET_CHAIN_ID);
    assert!(result.success);
    // Refiner removed because all stake unbonded
    assert_eq!(refiners.refiner_count(), 0);
    // But the unbonded stake is in the queue, not immediately credited
    assert_eq!(refiners.unbonding_queue.len(), 1);
}
