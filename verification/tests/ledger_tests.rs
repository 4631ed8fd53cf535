use ed25519_dalek::{Signer, SigningKey};
use sha3::Digest;
use opolys::account::AccountStore;
use opolys::constants::{MEMPOOL_MAX_TXS_PER_ACCOUNT, SIGNATURE_TYPE_ED25519};
use opolys::crypto::{
    ed25519_public_key_to_object_id, hash, hash_to_object_id, verify_ed25519, Blake3Hasher,
};
use opolys::mempool::Mempool;
use opolys::types::{FlakeAmount, ObjectId, Transaction, TransactionAction};

fn test_id(seed: &[u8]) -> ObjectId {
    hash_to_object_id(seed)
}

// ─── accounts ───

#[test]
fn create_account() {
    let mut store = AccountStore::new();
    let id = test_id(b"alice");
    store.create_account(id.clone()).unwrap();
    let account = store.get_account(&id).unwrap();
    assert_eq!(account.balance, 0);
    assert_eq!(account.nonce, 0);
}

#[test]
fn create_existing_account_fails() {
    let mut store = AccountStore::new();
    let id = test_id(b"alice");
    store.create_account(id.clone()).unwrap();
    assert!(store.create_account(id).is_err());
    assert_eq!(store.account_count(), 1);
}

#[test]
fn credit_and_debit() {
    let mut store = AccountStore::new();
    let id = test_id(b"alice");
    store.create_account(id.clone()).unwrap();
    store.credit(&id, 1000).unwrap();
    assert_eq!(store.get_account(&id).unwrap().balance, 1000);
    store.debit(&id, 500).unwrap();
    assert_eq!(store.get_account(&id).unwrap().balance, 500);
}

#[test]
fn debit_insufficient_fails() {
    let mut store = AccountStore::new();
    let id = test_id(b"alice");
    store.create_account(id.clone()).unwrap();
    store.credit(&id, 100).unwrap();
    assert!(store.debit(&id, 200).is_err());
}

#[test]
fn account_transfer_success() {
    let mut store = AccountStore::new();
    let alice = test_id(b"alice");
    let bob = test_id(b"bob");
    store.create_account(alice.clone()).unwrap();
    store.create_account(bob.clone()).unwrap();
    store.credit(&alice, 10_000).unwrap();

    let result = store.transfer(&alice, &bob, 1000, 100).unwrap();
    assert_eq!(result.amount, 1000);
    assert_eq!(result.fee_burned, 100);
    assert_eq!(result.new_nonce, 1);
    assert_eq!(store.get_account(&alice).unwrap().balance, 8900);
    assert_eq!(store.get_account(&bob).unwrap().balance, 1000);
}

#[test]
fn transfer_auto_creates_recipient() {
    let mut store = AccountStore::new();
    let alice = test_id(b"alice");
    let bob = test_id(b"bob");
    store.create_account(alice.clone()).unwrap();
    store.credit(&alice, 10_000).unwrap();

    store.transfer(&alice, &bob, 1000, 100).unwrap();
    assert!(store.get_account(&bob).is_some());
    assert_eq!(store.get_account(&bob).unwrap().balance, 1000);
}

#[test]
fn transfer_insufficient_fails() {
    let mut store = AccountStore::new();
    let alice = test_id(b"alice");
    let bob = test_id(b"bob");
    store.create_account(alice.clone()).unwrap();
    store.create_account(bob.clone()).unwrap();
    store.credit(&alice, 100).unwrap();

    assert!(store.transfer(&alice, &bob, 200, 0).is_err());
}

#[test]
fn credit_overflow_fails() {
    let mut store = AccountStore::new();
    let alice = test_id(b"alice");
    store.create_account(alice.clone()).unwrap();
    store.credit(&alice, u64::MAX).unwrap();

    assert!(store.credit(&alice, 1).is_err());
}

#[test]
fn transfer_total_cost_overflow_fails() {
    let mut store = AccountStore::new();
    let alice = test_id(b"alice");
    let bob = test_id(b"bob");
    store.create_account(alice.clone()).unwrap();
    store.credit(&alice, u64::MAX).unwrap();

    assert!(store.transfer(&alice, &bob, u64::MAX, 1).is_err());
    assert_eq!(store.get_account(&alice).unwrap().balance, u64::MAX);
    assert_eq!(store.get_account(&alice).unwrap().nonce, 0);
}

#[test]
fn transfer_recipient_overflow_fails_without_debit() {
    let mut store = AccountStore::new();
    let alice = test_id(b"alice");
    let bob = test_id(b"bob");
    store.create_account(alice.clone()).unwrap();
    store.create_account(bob.clone()).unwrap();
    store.credit(&alice, 100).unwrap();
    store.credit(&bob, u64::MAX).unwrap();

    assert!(store.transfer(&alice, &bob, 1, 1).is_err());
    assert_eq!(store.get_account(&alice).unwrap().balance, 100);
    assert_eq!(store.get_account(&alice).unwrap().nonce, 0);
    assert_eq!(store.get_account(&bob).unwrap().balance, u64::MAX);
}

#[test]
fn transfer_nonce_overflow_fails_without_side_effects() {
    let mut store = AccountStore::new();
    let alice = test_id(b"alice");
    let bob = test_id(b"bob");
    store.create_account(alice.clone()).unwrap();
    store.credit(&alice, 100).unwrap();
    store.get_account_mut(&alice).unwrap().nonce = u64::MAX;

    assert!(store.transfer(&alice, &bob, 1, 1).is_err());
    assert_eq!(store.get_account(&alice).unwrap().balance, 100);
    assert_eq!(store.get_account(&alice).unwrap().nonce, u64::MAX);
    assert!(store.get_account(&bob).is_none());
}

#[test]
fn transfer_burns_exactly_the_fee() {
    let mut store = AccountStore::new();
    let alice = test_id(b"alice");
    let bob = test_id(b"bob");
    store.create_account(alice.clone()).unwrap();
    store.create_account(bob.clone()).unwrap();
    store.credit(&alice, 5_000).unwrap();
    store.credit(&bob, 10).unwrap();
    let before = store.get_account(&alice).unwrap().balance + store.get_account(&bob).unwrap().balance;
    store.transfer(&alice, &bob, 1_234, 17).unwrap();
    let after = store.get_account(&alice).unwrap().balance + store.get_account(&bob).unwrap().balance;
    assert_eq!(before - after, 17);
}

#[test]
fn account_state_root_is_order_independent() {
    let a = test_id(b"a");
    let b = test_id(b"b");
    let mut s1 = AccountStore::new();
    s1.create_account(a).unwrap();
    s1.create_account(b).unwrap();
    s1.credit(&a, 5).unwrap();
    let mut s2 = AccountStore::new();
    s2.create_account(b).unwrap();
    s2.create_account(a).unwrap();
    s2.credit(&a, 5).unwrap();
    assert_eq!(s1.compute_state_root(), s2.compute_state_root());
    s2.credit(&b, 1).unwrap();
    assert_ne!(s1.compute_state_root(), s2.compute_state_root());
}

// ─── mempool ───

fn make_tx(sender_seed: &[u8], nonce: u64, fee: FlakeAmount) -> Transaction {
    Transaction {
        tx_id: hash_to_object_id(format!("{:?}_{}", sender_seed, nonce).as_bytes()),
        sender: hash_to_object_id(sender_seed),
        action: TransactionAction::Transfer { recipient: hash_to_object_id(b"recipient"), amount: 100 },
        fee,
        signature: vec![],
        signature_type: SIGNATURE_TYPE_ED25519,
        nonce,
        chain_id: 1,
        data: vec![],
        public_key: vec![],
    }
}

#[test]
fn add_and_remove_transaction() {
    let mut mempool = Mempool::new();
    let tx = make_tx(b"alice", 0, 100);
    let tx_id = tx.tx_id.clone();

    mempool.add_transaction(tx, 1, 0).unwrap();
    assert_eq!(mempool.transaction_count(), 1);

    let removed = mempool.remove_transaction(&tx_id);
    assert!(removed.is_some());
    assert_eq!(mempool.transaction_count(), 0);
    assert_eq!(mempool.total_size(), 0);
}

#[test]
fn priority_ordering() {
    let mut mempool = Mempool::new();
    let tx1 = make_tx(b"alice", 0, 50);
    let tx2 = make_tx(b"bob", 0, 100);
    let tx3 = make_tx(b"charlie", 0, 75);

    mempool.add_transaction(tx1, 1, 0).unwrap();
    mempool.add_transaction(tx2, 3, 0).unwrap();
    mempool.add_transaction(tx3, 2, 0).unwrap();

    let ordered = mempool.get_ordered_transactions();
    assert_eq!(ordered[0].fee, 100);
    assert_eq!(ordered[1].fee, 75);
    assert_eq!(ordered[2].fee, 50);
}

#[test]
fn duplicate_transaction_rejected() {
    let mut mempool = Mempool::new();
    let tx = make_tx(b"alice", 0, 100);
    let tx2 = tx.clone();

    mempool.add_transaction(tx, 1, 0).unwrap();
    assert!(mempool.add_transaction(tx2, 1, 0).is_err());
}

#[test]
fn per_account_limit() {
    let mut mempool = Mempool::new();
    for i in 0..(MEMPOOL_MAX_TXS_PER_ACCOUNT + 1) {
        let tx = make_tx(b"alice", i as u64, 100);
        if i < MEMPOOL_MAX_TXS_PER_ACCOUNT {
            assert!(mempool.add_transaction(tx, 1, 0).is_ok());
        } else {
            assert!(mempool.add_transaction(tx, 1, 0).is_err());
        }
    }
}

// ─── hashing and signatures ───

#[test]
fn hash_deterministic() {
    assert_eq!(hash(b"test data"), hash(b"test data"));
}

#[test]
fn hash_different_inputs() {
    assert_ne!(hash(b"data1"), hash(b"data2"));
}

#[test]
fn hash_to_object_id_produces_valid_id() {
    let id = hash_to_object_id(b"test");
    assert_ne!(id.0, opolys::types::Hash::zero());
}

#[test]
fn blake3_hasher_streaming() {
    let mut h1 = Blake3Hasher::new();
    h1.update(b"hello");
    h1.update(b" world");
    assert_eq!(h1.finalize(), hash(b"hello world"));
}

#[test]
fn hash_is_32_bytes() {
    let h = hash(b"test");
    assert_eq!(h.as_bytes().len(), 32);
    assert_eq!(h.to_hex().len(), 64);
}

#[test]
fn hash_matches_blake3_reference() {
    assert_eq!(hash(b"abc").0, *blake3::hash(b"abc").as_bytes());
}

fn keypair(seed: u8) -> (SigningKey, ObjectId) {
    let signing_key = SigningKey::from_bytes(&[seed; 32]);
    let verifying_key = signing_key.verifying_key();
    let object_id = ed25519_public_key_to_object_id(verifying_key.as_bytes());
    (signing_key, object_id)
}

#[test]
fn signing_sign_and_verify() {
    let (signing_key, _) = keypair(1);
    let message = b"test message";
    let signature = signing_key.sign(message);
    let verifying_key = signing_key.verifying_key();
    assert!(verify_ed25519(verifying_key.as_bytes(), message, &signature.to_bytes()));
}

#[test]
fn signing_verify_wrong_message_fails() {
    let (signing_key, _) = keypair(2);
    let message = b"test message";
    let signature = signing_key.sign(message);
    let verifying_key = signing_key.verifying_key();
    assert!(!verify_ed25519(verifying_key.as_bytes(), b"wrong message", &signature.to_bytes()));
}

#[test]
fn malformed_lengths_fail_without_panic() {
    let (signing_key, _) = keypair(3);
    let message = b"test message";
    let signature = signing_key.sign(message);
    let verifying_key = signing_key.verifying_key();
    assert!(!verify_ed25519(&verifying_key.as_bytes()[..31], message, &signature.to_bytes()));
    assert!(!verify_ed25519(verifying_key.as_bytes(), message, &signature.to_bytes()[..63]));
}

#[test]
fn object_id_from_public_key() {
    let (_, id1) = keypair(4);
    let (_, id2) = keypair(5);
    assert_ne!(id1, id2);
}

#[test]
fn sha3_matches_reference() {
    let expected = sha3::Sha3_256::digest(b"opolys");
    assert_eq!(opolys::crypto::sha3_256(b"opolys").0.to_vec(), expected.to_vec());
}

#[test]
fn blake3_xof_matches_reference() {
    let mut reference = vec![0u8; 100];
    let mut h = blake3::Hasher::new();
    h.update(b"seed-bytes");
    h.finalize_xof().fill(&mut reference);
    assert_eq!(opolys::crypto::blake3_xof(b"seed-bytes", 100), reference);
    let parts: [&[u8]; 2] = [b"seed-", b"bytes"];
    assert_eq!(opolys::crypto::blake3_xof_multi(&parts, 100), reference);
    assert_eq!(opolys::crypto::blake3_xof(b"x", 0).len(), 0);
}

#[test]
fn generate_keypair() {
    let kp = opolys::crypto::DilithiumKeypair::generate();
    assert_eq!(kp.public_key().len(), opolys::crypto::DILITHIUM_PUBLIC_KEY_BYTES);
    assert_eq!(kp.secret_key().len(), opolys::crypto::DILITHIUM_SECRET_KEY_BYTES);
}

#[test]
fn dilithium_sign_and_verify() {
    let kp = opolys::crypto::DilithiumKeypair::generate();
    let msg = b"test message";
    let sig = kp.sign(msg);
    assert!(opolys::crypto::dilithium_verify(&sig, msg, kp.public_key()));
}

#[test]
fn dilithium_verify_wrong_message_fails() {
    let kp = opolys::crypto::DilithiumKeypair::generate();
    let sig = kp.sign(b"original");
    assert!(!opolys::crypto::dilithium_verify(&sig, b"tampered", kp.public_key()));
}

#[test]
fn dilithium_signature_checks_length_and_key() {
    let kp = opolys::crypto::DilithiumKeypair::generate();
    let other = opolys::crypto::DilithiumKeypair::generate();
    let msg = b"post-quantum";
    let sig = kp.sign(msg);
    assert!(!opolys::crypto::dilithium_verify(&sig[..10], msg, kp.public_key()));
    assert!(!opolys::crypto::dilithium_verify(&sig, msg, other.public_key()));
    let outside = pqc_dilithium::Keypair::generate();
    let outside_sig = outside.sign(msg);
    assert!(opolys::crypto::dilithium_verify(&outside_sig, msg, &outside.public));
}

#[test]
fn transfer_burns_only_the_fee() {
    let mut store = AccountStore::new();
    let a = hash_to_object_id(b"payer");
    let b = hash_to_object_id(b"payee");
    store.create_account(a.clone()).unwrap();
    store.credit(&a, 10_000).unwrap();
    let total = |s: &AccountStore| s.all_accounts().iter().map(|x| x.balance).sum::<u64>();
    let before = total(&store);
    store.transfer(&a, &b, 2_500, 7).unwrap();
    assert_eq!(total(&store), before - 7);
}
