use opolys::block::{
    compute_attestation_root, compute_block_hash, compute_evidence_root,
    compute_genesis_ceremony_hash, compute_transaction_root, format_opl,
    minimum_block_timestamp_delta_secs, set_body_roots, validate_block,
};
use opolys::constants::{BLOCK_VERSION, MAINNET_CHAIN_ID};
use opolys::crypto::hash_to_object_id;
use opolys::emission::compute_suggested_fee;
use opolys::pow::{serialize_header_for_pow, verify_pow_light};
use opolys::types::{
    Block, BlockAttestation, BlockHeader, DoubleSignEvidence, ObjectId, Transaction,
    TransactionAction,
};

type H = opolys::types::Hash;

#[test]
fn transaction_root_empty() {
    let root = compute_transaction_root(&[]);
    assert_ne!(root, H::zero());
}

#[test]
fn transaction_root_deterministic() {
    let tx = Transaction {
        tx_id: hash_to_object_id(b"test_tx"),
        sender: hash_to_object_id(b"sender"),
        action: TransactionAction::Transfer { recipient: hash_to_object_id(b"recipient"), amount: 100 },
        fee: 1000,
        signature: vec![1, 2, 3],
        signature_type: 0,
        nonce: 0,
        chain_id: MAINNET_CHAIN_ID,
        data: vec![],
        public_key: vec![],
    };
    let root1 = compute_transaction_root(std::slice::from_ref(&tx));
    let root2 = compute_transaction_root(&[tx.clone()]);
    assert_eq!(root1, root2);
    let mut other = tx.clone();
    other.fee = 1001;
    assert_ne!(root1, compute_transaction_root(&[other]));
}

#[test]
fn body_roots_change_when_state_mutating_body_changes() {
    let evidence = DoubleSignEvidence {
        producer: hash_to_object_id(b"refiner"),
        producer_pubkey: vec![1; 32],
        height: 7,
        hash_a: H::from_bytes([2u8; 32]),
        signature_a: vec![3; 64],
        hash_b: H::from_bytes([4u8; 32]),
        signature_b: vec![5; 64],
    };
    let attestation = BlockAttestation {
        refiner: hash_to_object_id(b"attester"),
        refiner_pubkey: vec![6; 32],
        height: 6,
        block_hash: H::from_bytes([7u8; 32]),
        signature: vec![8; 64],
    };
    assert_ne!(compute_evidence_root(&[]).unwrap(), compute_evidence_root(&[evidence]).unwrap());
    assert_ne!(
        compute_attestation_root(&[]).unwrap(),
        compute_attestation_root(&[attestation]).unwrap()
    );
}

fn test_header(height: u64, difficulty: u64) -> BlockHeader {
    BlockHeader {
        version: BLOCK_VERSION,
        height,
        previous_hash: H::zero(),
        state_root: H::from_bytes([0u8; 32]),
        transaction_root: H::from_bytes([0u8; 32]),
        evidence_root: compute_evidence_root(&[]).unwrap(),
        attestation_root: compute_attestation_root(&[]).unwrap(),
        genesis_ceremony_hash: compute_genesis_ceremony_hash(&None).unwrap(),
        timestamp: 1000,
        difficulty,
        suggested_fee: 1,
        extension_root: None,
        pow_proof: None,
        refiner_signature: None,
        producer: ObjectId(H::from_bytes([0u8; 32])),
    }
}

#[test]
fn compute_block_hash_deterministic() {
    let header = BlockHeader {
        height: 42,
        state_root: H::from_bytes([1u8; 32]),
        transaction_root: H::from_bytes([2u8; 32]),
        timestamp: 1700000000,
        difficulty: 100,
        ..test_header(42, 100)
    };
    let h1 = compute_block_hash(&header);
    let h2 = compute_block_hash(&header);
    assert_eq!(h1, h2);
    assert_ne!(h1, H::zero());
}

#[test]
fn block_hash_differs_for_different_heights() {
    let base = test_header(1, 1);
    let h1 = compute_block_hash(&BlockHeader { height: 1, ..base.clone() });
    let h2 = compute_block_hash(&BlockHeader { height: 2, ..base.clone() });
    assert_ne!(h1, h2);
}

#[test]
fn block_hash_chain_linkage() {
    let genesis_header = test_header(0, 1);
    let genesis_hash = compute_block_hash(&genesis_header);
    let block1_header = BlockHeader {
        height: 1,
        previous_hash: genesis_hash.clone(),
        state_root: H::from_bytes([1u8; 32]),
        transaction_root: H::from_bytes([1u8; 32]),
        timestamp: 1120,
        ..test_header(1, 1)
    };
    let block1_hash = compute_block_hash(&block1_header);
    let block2_header = BlockHeader {
        height: 2,
        previous_hash: block1_hash.clone(),
        state_root: H::from_bytes([2u8; 32]),
        transaction_root: H::from_bytes([2u8; 32]),
        timestamp: 1240,
        ..test_header(2, 1)
    };
    let _block2_hash = compute_block_hash(&block2_header);
    assert_eq!(block1_header.previous_hash, genesis_hash);
    assert_eq!(block2_header.previous_hash, block1_hash);
    assert_eq!(genesis_header.previous_hash, H::zero());
}

#[test]
fn block_hash_includes_version() {
    let h1 = test_header(1, 1);
    let h2 = BlockHeader { version: BLOCK_VERSION + 1, ..h1.clone() };
    assert_ne!(compute_block_hash(&h1), compute_block_hash(&h2));
}

#[test]
fn block_hash_includes_suggested_fee() {
    let h1 = test_header(1, 1);
    let h2 = BlockHeader { suggested_fee: 999, ..h1.clone() };
    assert_ne!(compute_block_hash(&h1), compute_block_hash(&h2));
}

#[test]
fn block_hash_includes_body_roots() {
    let h1 = test_header(1, 1);
    let h2 = BlockHeader { evidence_root: H::from_bytes([9u8; 32]), ..h1.clone() };
    let h3 = BlockHeader { attestation_root: H::from_bytes([8u8; 32]), ..h1.clone() };
    let h4 = BlockHeader { genesis_ceremony_hash: H::from_bytes([7u8; 32]), ..h1.clone() };
    assert_ne!(compute_block_hash(&h1), compute_block_hash(&h2));
    assert_ne!(compute_block_hash(&h1), compute_block_hash(&h3));
    assert_ne!(compute_block_hash(&h1), compute_block_hash(&h4));
}

fn block_of(header: BlockHeader) -> Block {
    Block { header, transactions: vec![], slash_evidence: vec![], attestations: vec![], genesis_ceremony: None }
}

#[test]
fn validate_block_rejects_pow_and_refiner_signature_together() {
    let header = BlockHeader {
        height: 1,
        timestamp: 1045,
        transaction_root: compute_transaction_root(&[]),
        producer: ObjectId(H::from_bytes([7u8; 32])),
        pow_proof: Some(vec![0; 8]),
        refiner_signature: Some(vec![0; 64]),
        ..test_header(1, 1)
    };
    let err = validate_block(&block_of(header), 1, &H::zero(), 1000, 1, 1045, true).unwrap_err();
    assert!(err.message().contains("exactly one production proof"));
}

#[test]
fn validate_block_rejects_zero_producer_after_genesis() {
    let header = BlockHeader {
        height: 1,
        timestamp: 1045,
        transaction_root: compute_transaction_root(&[]),
        refiner_signature: Some(vec![0; 64]),
        ..test_header(1, 1)
    };
    let err = validate_block(&block_of(header), 1, &H::zero(), 1000, 1, 1045, false).unwrap_err();
    assert!(err.message().contains("producer must be a non-zero ObjectId"));
}

#[test]
fn validate_block_rejects_compressed_timestamp() {
    let header = BlockHeader {
        height: 1,
        timestamp: 1001,
        transaction_root: compute_transaction_root(&[]),
        producer: ObjectId(H::from_bytes([7u8; 32])),
        pow_proof: Some(vec![0; 8]),
        ..test_header(1, 1)
    };
    let err = validate_block(&block_of(header), 1, &H::zero(), 1000, 1, 1001, true).unwrap_err();
    assert!(err.message().contains("too compressed"));
    assert!(matches!(err, opolys::errors::OpolysError::BlockValidationFailed(_)));
}

#[test]
fn validate_block_accepts_target_derived_minimum_timestamp() {
    let header = BlockHeader {
        height: 1,
        timestamp: 1000 + minimum_block_timestamp_delta_secs(),
        transaction_root: compute_transaction_root(&[]),
        producer: ObjectId(H::from_bytes([7u8; 32])),
        refiner_signature: Some(vec![0; 64]),
        ..test_header(1, 1)
    };
    assert!(validate_block(
        &block_of(header),
        1,
        &H::zero(),
        1000,
        1,
        1000 + minimum_block_timestamp_delta_secs(),
        false
    )
    .is_ok());
}

#[test]
fn validate_block_rejects_uncommitted_attestation_mutation() {
    let mut block = block_of(BlockHeader { height: 0, ..test_header(0, 1) });
    set_body_roots(&mut block).unwrap();
    block.attestations.push(BlockAttestation {
        refiner: hash_to_object_id(b"attester"),
        refiner_pubkey: vec![1; 32],
        height: 0,
        block_hash: H::from_bytes([2u8; 32]),
        signature: vec![3; 64],
    });
    let err = validate_block(&block, 0, &H::zero(), 0, 1, 1001, false).unwrap_err();
    assert!(err.message().contains("Attestation root mismatch"));
}

#[test]
fn validate_block_rejects_uncommitted_slash_evidence_mutation() {
    let mut block = block_of(BlockHeader { height: 0, ..test_header(0, 1) });
    set_body_roots(&mut block).unwrap();
    block.slash_evidence.push(DoubleSignEvidence {
        producer: hash_to_object_id(b"refiner"),
        producer_pubkey: vec![1; 32],
        height: 0,
        hash_a: H::from_bytes([2u8; 32]),
        signature_a: vec![3; 64],
        hash_b: H::from_bytes([4u8; 32]),
        signature_b: vec![5; 64],
    });
    let err = validate_block(&block, 0, &H::zero(), 0, 1, 1001, false).unwrap_err();
    assert!(err.message().contains("Evidence root mismatch"));
}

#[test]
fn validate_block_rejects_wrong_height() {
    let mut block = block_of(test_header(2, 1));
    set_body_roots(&mut block).unwrap();
    assert!(validate_block(&block, 1, &H::zero(), 0, 1, 5000, false).is_err());
}

#[test]
fn suggested_fee_ema() {
    assert_eq!(compute_suggested_fee(0, 0, 0), 1);
    assert_eq!(compute_suggested_fee(10_000, 1, 1_000), 1900);
}

#[test]
fn format_opl_amounts() {
    assert_eq!(format_opl(1_000_000), "1.000000 OPL");
    assert_eq!(format_opl(0), "0.000000 OPL");
    assert_eq!(format_opl(1), "0.000001 OPL");
    assert_eq!(format_opl(312 * 1_000_000), "312.000000 OPL");
}

// ─── proof of work ───

#[test]
fn test_header_serialization_deterministic() {
    let header = test_header(42, 100);
    assert_eq!(serialize_header_for_pow(&header), serialize_header_for_pow(&header));
}

#[test]
fn test_header_serialization_includes_version() {
    let h1 = test_header(1, 1);
    let h2 = BlockHeader { version: 2, ..h1.clone() };
    assert_ne!(serialize_header_for_pow(&h1), serialize_header_for_pow(&h2));
}

#[test]
fn test_header_serialization_includes_suggested_fee() {
    let h1 = test_header(1, 1);
    let h2 = BlockHeader { suggested_fee: 999, ..h1.clone() };
    assert_ne!(serialize_header_for_pow(&h1), serialize_header_for_pow(&h2));
}

#[test]
fn test_verify_pow_rejects_missing_proof() {
    let header = test_header(1, 1);
    assert!(verify_pow_light(&header, 1, true).is_err());
}

#[test]
fn test_verify_pow_rejects_short_proof() {
    let mut header = test_header(1, 1);
    header.pow_proof = Some(vec![0u8; 4]);
    assert!(verify_pow_light(&header, 1, true).is_err());
}

#[test]
fn test_verify_pow_zero_difficulty() {
    let mut header = test_header(1, 0);
    header.pow_proof = None;
    assert!(verify_pow_light(&header, 0, false).is_ok());
}

#[test]
fn verify_pow_rejects_failed_light_check() {
    let mut header = test_header(1, 1);
    header.pow_proof = Some(vec![0u8; 8]);
    assert!(verify_pow_light(&header, 1, false).is_err());
    assert!(verify_pow_light(&header, 1, true).is_ok());
}

#[test]
fn test_header_serialization_includes_producer() {
    let h1 = test_header(1, 1);
    let h2 = BlockHeader { producer: ObjectId(H::from_bytes([9u8; 32])), ..h1.clone() };
    assert_ne!(serialize_header_for_pow(&h1), serialize_header_for_pow(&h2));
}

#[test]
fn test_header_serialization_leaves_out_proof_and_signature() {
    let h1 = test_header(1, 1);
    let h2 = BlockHeader { pow_proof: Some(vec![1, 2, 3]), refiner_signature: Some(vec![4; 64]), ..h1.clone() };
    assert_eq!(serialize_header_for_pow(&h1), serialize_header_for_pow(&h2));
    assert_eq!(serialize_header_for_pow(&h1).len(), 4 + 8 + 32 * 6 + 8 * 3 + 32);
}
