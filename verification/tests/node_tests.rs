use ed25519_dalek::SigningKey;
use opolys::account::AccountStore;
use opolys::attestation::{create_block_attestation, AttestationPool};
use opolys::block::{compute_block_hash, minimum_block_timestamp_delta_secs, set_body_roots};
use opolys::chain::{
    active_refiner_weight_milli_threshold, compute_reward_distribution, coverage_milli,
    finalized_height_from_attestation_weights, verify_block_attestation_against_refiners,
};
use opolys::constants::{BASE_REWARD, BLOCK_VERSION, EPOCH, MIN_BOND_STAKE, MIN_FEE};
use opolys::crypto::{ed25519_public_key_to_object_id, hash_to_object_id};
use opolys::difficulty::compute_next_difficulty;
use opolys::emission::compute_block_reward;
use opolys::genesis::GenesisConfig;
use opolys::mempool::Mempool;
use opolys::node_state::{apply_block, produce_refiner_block, BlockEnvironment, ChainState};
use opolys::peers::BanList;
use opolys::refiner_set::RefinerSet;
use opolys::rpc::{block_to_response, check_api_key, classify_method};
use opolys::types::{Block, BlockHeader, ObjectId};

type H = opolys::types::Hash;

#[test]
fn reward_distribution_credits_only_net_after_assay() {
    let d = compute_reward_distribution(1_000_000, 800_000, 250);
    assert_eq!(d.mine_assay, 15_000);
    assert_eq!(d.net_reward, 985_000);
    assert_eq!(d.miner_share + d.refiner_share, 985_000);
    assert_eq!(d.gross_reward - d.mine_assay, d.miner_share + d.refiner_share);
}

#[test]
fn reward_distribution_caps_coverage_and_preserves_vein_for_producer() {
    let d = compute_reward_distribution(2_000_000, 1_000_000, 1_500);
    assert_eq!(d.mine_assay, 30_000);
    assert_eq!(d.net_reward, 1_970_000);
    assert_eq!(d.miner_share, 985_000);
    assert_eq!(d.refiner_share, 985_000);
    assert_eq!(d.miner_share + d.refiner_share, 1_970_000);
}

#[test]
fn reward_distribution_of_nothing_is_nothing() {
    let d = compute_reward_distribution(0, 0, 500);
    assert_eq!((d.gross_reward, d.mine_assay, d.miner_share, d.refiner_share), (0, 0, 0, 0));
}

#[test]
fn coverage_is_capped_in_thousandths() {
    assert_eq!(coverage_milli(5, 0), 0);
    assert_eq!(coverage_milli(250, 1000), 250);
    assert_eq!(coverage_milli(5000, 1000), 1000);
}

#[test]
fn finality_threshold_requires_two_thirds_active_weight() {
    let mut refiners = RefinerSet::new();
    let a = hash_to_object_id(b"a");
    let b = hash_to_object_id(b"b");
    refiners.bond(a.clone(), MIN_BOND_STAKE, 0, 0, 0).unwrap();
    refiners.bond(b.clone(), MIN_BOND_STAKE, 0, 0, 0).unwrap();
    refiners.activate(&a, 1).unwrap();
    refiners.activate(&b, 1).unwrap();
    assert_eq!(active_refiner_weight_milli_threshold(&refiners, 0), 1_334_000);
}

#[test]
fn finalized_height_advances_only_past_threshold_and_never_regresses() {
    let weights = vec![(1u64, 666u128), (2, 667), (3, 900)];
    assert_eq!(finalized_height_from_attestation_weights(1, &weights, 667), 3);
    let stale = vec![(1u64, 1_000u128)];
    assert_eq!(finalized_height_from_attestation_weights(2, &stale, 667), 2);
    let no_threshold = vec![(5u64, 1_000u128)];
    assert_eq!(finalized_height_from_attestation_weights(2, &no_threshold, 0), 2);
}

#[test]
fn chain_state_circulating_supply() {
    let chain = ChainState::new(&GenesisConfig::default());
    assert_eq!(chain.circulating_supply(), 0);
}

#[test]
fn chain_state_genesis_hash_is_computed() {
    let chain = ChainState::new(&GenesisConfig::default());
    assert_ne!(chain.latest_block_hash, H::zero());
    assert_eq!(chain.latest_block_hash.to_hex().len(), 64);
    assert_eq!(chain.genesis_hash, chain.latest_block_hash);
}

#[test]
fn chain_state_suggested_fee_starts_at_min() {
    let chain = ChainState::new(&GenesisConfig::default());
    assert_eq!(chain.suggested_fee, MIN_FEE);
    assert_eq!(chain.base_reward, BASE_REWARD);
}

fn env(pow_hash: Option<[u8; 32]>, now: u64) -> BlockEnvironment {
    BlockEnvironment {
        now_secs: now,
        pow_light_verified: true,
        pow_hash,
        has_store: true,
        attested_blocks: vec![],
        stored_attestations: vec![],
    }
}

fn next_block(chain: &ChainState, refiners: &RefinerSet, producer: ObjectId) -> Block {
    let difficulty = compute_next_difficulty(
        chain.current_difficulty,
        chain.current_height,
        &chain.block_timestamps,
        chain.total_issued,
        refiners.total_bonded_stake(),
    )
    .effective_difficulty();
    let mut block = Block {
        header: BlockHeader {
            version: BLOCK_VERSION,
            height: chain.current_height + 1,
            previous_hash: chain.latest_block_hash,
            state_root: chain.state_root,
            transaction_root: H::zero(),
            evidence_root: H::zero(),
            attestation_root: H::zero(),
            genesis_ceremony_hash: H::zero(),
            timestamp: chain.block_timestamps.last().copied().unwrap_or(0) + minimum_block_timestamp_delta_secs(),
            difficulty,
            suggested_fee: chain.suggested_fee,
            extension_root: None,
            producer,
            pow_proof: Some(vec![0u8; 8]),
            refiner_signature: None,
        },
        transactions: vec![],
        slash_evidence: vec![],
        attestations: vec![],
        genesis_ceremony: None,
    };
    set_body_roots(&mut block).unwrap();
    block
}

#[test]
fn applied_blocks_link_the_chain() {
    let mut chain = ChainState::new(&GenesisConfig::default());
    let mut accounts = AccountStore::new();
    let mut refiners = RefinerSet::new();
    let mut mempool = Mempool::new();
    let key = SigningKey::from_bytes(&[9u8; 32]);
    let miner = ed25519_public_key_to_object_id(key.verifying_key().as_bytes());
    accounts.create_account(miner).unwrap();
    accounts.get_account_mut(&miner).unwrap().public_key = Some(key.verifying_key().as_bytes().to_vec());

    let block = next_block(&chain, &refiners, miner);
    let ts = block.header.timestamp;
    let (hash, evidence) = apply_block(&mut chain, &mut accounts, &mut refiners, &mut mempool, &block, &env(Some([0xff; 32]), ts)).unwrap();
    assert!(evidence.is_empty());
    assert_eq!(hash, compute_block_hash(&block.header));
    assert_eq!(chain.current_height, 1);
    assert_eq!(chain.latest_block_hash, hash);
    assert_eq!(chain.block_timestamps.len(), 2);
    let reward = compute_block_reward(BASE_REWARD, block.header.difficulty, u64::MAX);
    assert_eq!(chain.total_issued, reward);
    // supply accounting: what was issued and not burned is the miner's balance
    assert_eq!(chain.circulating_supply(), accounts.get_account(&miner).unwrap().balance);
    assert!(chain.total_burned > 0);

    // a second block links to the first
    let block2 = next_block(&chain, &refiners, miner);
    assert_eq!(block2.header.previous_hash, hash);
    let ts2 = block2.header.timestamp;
    apply_block(&mut chain, &mut accounts, &mut refiners, &mut mempool, &block2, &env(Some([0xff; 32]), ts2)).unwrap();
    assert_eq!(chain.current_height, 2);
    assert_eq!(chain.circulating_supply(), accounts.get_account(&miner).unwrap().balance);
}

#[test]
fn stale_block_rejected_after_tip_advances() {
    let mut chain = ChainState::new(&GenesisConfig::default());
    let mut accounts = AccountStore::new();
    let mut refiners = RefinerSet::new();
    let mut mempool = Mempool::new();
    let key = SigningKey::from_bytes(&[10u8; 32]);
    let miner = ed25519_public_key_to_object_id(key.verifying_key().as_bytes());
    accounts.create_account(miner).unwrap();
    accounts.get_account_mut(&miner).unwrap().public_key = Some(key.verifying_key().as_bytes().to_vec());
    let block = next_block(&chain, &refiners, miner);
    let stale = block.clone();
    let ts = block.header.timestamp;
    apply_block(&mut chain, &mut accounts, &mut refiners, &mut mempool, &block, &env(None, ts)).unwrap();
    let before_height = chain.current_height;
    let err = apply_block(&mut chain, &mut accounts, &mut refiners, &mut mempool, &stale, &env(None, ts)).unwrap_err();
    assert!(err.starts_with("Block validation failed: "), "{}", err);
    assert_eq!(chain.current_height, before_height);
}

#[test]
fn wrong_state_root_is_refused_without_changes() {
    let mut chain = ChainState::new(&GenesisConfig::default());
    let mut accounts = AccountStore::new();
    let mut refiners = RefinerSet::new();
    let mut mempool = Mempool::new();
    let miner = hash_to_object_id(b"miner");
    let mut block = next_block(&chain, &refiners, miner);
    block.header.state_root = H::from_bytes([5u8; 32]);
    let ts = block.header.timestamp;
    let err = apply_block(&mut chain, &mut accounts, &mut refiners, &mut mempool, &block, &env(None, ts)).unwrap_err();
    assert!(err.starts_with("State root mismatch at height 1"), "{}", err);
    assert_eq!(chain.current_height, 0);
    assert_eq!(accounts.account_count(), 0);
}

#[test]
fn unregistered_miner_is_refused() {
    let mut chain = ChainState::new(&GenesisConfig::default());
    let mut accounts = AccountStore::new();
    let mut refiners = RefinerSet::new();
    let mut mempool = Mempool::new();
    let miner = hash_to_object_id(b"nobody");
    let block = next_block(&chain, &refiners, miner);
    let ts = block.header.timestamp;
    let err = apply_block(&mut chain, &mut accounts, &mut refiners, &mut mempool, &block, &env(None, ts)).unwrap_err();
    assert_eq!(err, "PoW block producer account not found");
}

#[test]
fn refiner_produces_signed_block_and_attests_it() {
    let chain = ChainState::new(&GenesisConfig::default());
    let secret = [11u8; 32];
    let key = SigningKey::from_bytes(&secret);
    let me = ed25519_public_key_to_object_id(key.verifying_key().as_bytes());
    let mut refiners = RefinerSet::new();
    refiners.bond(me, MIN_BOND_STAKE, 0, 0, 0).unwrap();
    refiners.activate(&me, 1).unwrap();
    let mempool = Mempool::new();
    let mut pool = AttestationPool::new();
    let block = produce_refiner_block(&chain, &refiners, &mempool, &mut pool, vec![], &secret, &me, 5_000).unwrap();
    assert_eq!(block.header.height, 1);
    assert_eq!(block.header.producer, me);
    assert!(block.header.pow_proof.is_none());
    assert_eq!(block.header.refiner_signature.as_ref().unwrap().len(), 64);

    let hash = compute_block_hash(&block.header);
    let attestation = create_block_attestation(&secret, &me, &refiners, &Some(block.clone()), 1, &hash).unwrap();
    assert!(verify_block_attestation_against_refiners(&attestation, &hash, &refiners).is_ok());
    assert!(pool.accept(attestation.clone(), &refiners, true, Ok(Some(block.clone())), 1).unwrap());
    assert!(!pool.accept(attestation, &refiners, true, Ok(Some(block)), 1).unwrap());
    assert_eq!(pool.drain_for_block(2).len(), 1);
    assert_eq!(pool.len(), 0);
}

#[test]
fn inactive_refiner_creates_no_attestation() {
    let chain = ChainState::new(&GenesisConfig::default());
    let secret = [12u8; 32];
    let key = SigningKey::from_bytes(&secret);
    let me = ed25519_public_key_to_object_id(key.verifying_key().as_bytes());
    let mut refiners = RefinerSet::new();
    refiners.bond(me, MIN_BOND_STAKE, 0, 0, 0).unwrap();
    let fake = Block {
        header: BlockHeader { refiner_signature: Some(vec![0; 64]), ..opolys::genesis::build_genesis_block(&GenesisConfig::default()).header },
        transactions: vec![],
        slash_evidence: vec![],
        attestations: vec![],
        genesis_ceremony: None,
    };
    let hash = compute_block_hash(&fake.header);
    assert!(create_block_attestation(&secret, &me, &refiners, &Some(fake), 0, &hash).is_none());
    let _ = chain;
}

#[test]
fn attestation_pool_drops_old_and_refuses_bad() {
    let mut refiners = RefinerSet::new();
    let id = hash_to_object_id(b"x");
    refiners.bond(id, MIN_BOND_STAKE, 0, 0, 0).unwrap();
    let mut pool = AttestationPool::new();
    let a = opolys::types::BlockAttestation {
        refiner: id,
        refiner_pubkey: vec![1; 31],
        height: 1,
        block_hash: H::zero(),
        signature: vec![0; 64],
    };
    assert_eq!(pool.accept(a, &refiners, true, Ok(None), 1).unwrap_err(), "Attestation public key must be 32 bytes");
    assert_eq!(pool.drain_for_block(EPOCH + 5).len(), 0);
}

#[test]
fn peer_bans_escalate() {
    let mut bans = BanList::new();
    assert!(!bans.is_banned_at("p", 0));
    bans.ban_at("p", "spam", false, 1_000);
    assert!(bans.is_banned_at("p", 1_000 + 3_599));
    assert!(!bans.is_banned_at("p", 1_000 + 3_600));
    bans.ban_at("p", "spam", false, 10_000);
    assert!(bans.is_banned_at("p", 10_000 + 86_399));
    assert!(!bans.is_banned_at("p", 10_000 + 86_400));
    bans.ban_at("p", "spam", false, 200_000);
    assert!(!bans.is_banned_at("p", 200_000 + 604_800));
    bans.ban_at("p", "spam", false, 900_000);
    assert!(bans.is_banned_at("p", u64::MAX));
    assert!(!bans.is_banned_at("q", 0));
    bans.ban_at("q", "fake pow", true, 5);
    assert!(bans.is_banned_at("q", u64::MAX));
}

#[test]
fn chain_state_persist_roundtrip() {
    let chain = ChainState::new(&GenesisConfig::default());
    let persisted = chain.to_persisted();
    let restored = ChainState::from_persisted(&persisted);
    assert_eq!(restored.current_height, chain.current_height);
    assert_eq!(restored.current_difficulty, chain.current_difficulty);
    assert_eq!(restored.total_issued, chain.total_issued);
    assert_eq!(restored.total_burned, chain.total_burned);
    assert_eq!(restored.genesis_hash, chain.genesis_hash);
    assert_eq!(restored.latest_block_hash, chain.latest_block_hash);
    assert_eq!(restored.state_root, chain.state_root);
    assert_eq!(persisted.chain_id, 1);
}

#[test]
fn persisted_zero_base_reward_falls_back() {
    let chain = ChainState::new(&GenesisConfig::default());
    let mut persisted = chain.to_persisted();
    persisted.base_reward = 0;
    assert_eq!(ChainState::from_persisted(&persisted).base_reward, BASE_REWARD);
}

#[test]
fn rpc_block_response_and_method_tiers() {
    let genesis = opolys::genesis::build_genesis_block(&GenesisConfig::default());
    let r = block_to_response(&genesis, 0);
    assert_eq!(r.height, 0);
    assert!(r.finalized);
    assert_eq!(r.block_hash, compute_block_hash(&genesis.header).to_hex());
    assert_eq!(r.previous_hash, "0".repeat(64));
    assert_eq!(classify_method("opl_sendTransaction"), ("write", 10, true));
    assert_eq!(classify_method("opl_getMiningJob"), ("mining", 30, true));
    assert_eq!(classify_method("opl_submitSolution"), ("mining", 30, true));
    assert_eq!(classify_method("opl_getBalance"), ("read", 120, false));
    assert!(check_api_key(Some("Bearer k1"), None, "k1"));
    assert!(!check_api_key(Some("Bearer k2"), None, "k1"));
    assert!(!check_api_key(Some("k1"), None, "k1"));
    assert!(check_api_key(None, Some("k1"), "k1"));
    assert!(!check_api_key(None, None, "k1"));
}

#[test]
fn mining_job_targets_next_height() {
    let chain = ChainState::new(&GenesisConfig::default());
    let refiners = RefinerSet::new();
    let mempool = Mempool::new();
    let miner = hash_to_object_id(b"miner");
    let job = opolys::node_state::mining_job(&chain, &refiners, &mempool, &miner, 777);
    assert_eq!(job.height, 1);
    assert_eq!(job.previous_hash, chain.latest_block_hash.to_hex());
    assert_eq!(job.target, opolys::emission::difficulty_to_target(job.difficulty));
    assert_eq!(job.producer, miner.to_hex());
    assert_eq!(job.transaction_count, 0);
    assert_eq!(job.timestamp, 777);
    assert_eq!(job.header_bytes.len() % 2, 0);
}

#[test]
fn refiner_not_selected_produces_nothing() {
    let chain = ChainState::new(&GenesisConfig::default());
    let secret = [13u8; 32];
    let key = SigningKey::from_bytes(&secret);
    let me = ed25519_public_key_to_object_id(key.verifying_key().as_bytes());
    let other = hash_to_object_id(b"someone else");
    let mut refiners = RefinerSet::new();
    refiners.bond(me, MIN_BOND_STAKE, 0, 0, 0).unwrap();
    refiners.activate(&me, 1).unwrap();
    let mempool = Mempool::new();
    let mut pool = AttestationPool::new();
    assert!(produce_refiner_block(&chain, &refiners, &mempool, &mut pool, vec![], &secret, &other, 5_000).is_none());
    assert_eq!(pool.len(), 0);
    assert!(produce_refiner_block(&chain, &refiners, &mempool, &mut pool, vec![], &secret, &me, 5_000).is_some());
}

#[test]
fn genesis_issuance_counts_prefunded_accounts() {
    let mut config = GenesisConfig::default();
    let a = hash_to_object_id(b"a");
    let b = hash_to_object_id(b"b");
    config.genesis_accounts = vec![(a, 1_000, vec![]), (b, 2_500, vec![])];
    let mut accounts = AccountStore::new();
    let chain = ChainState::from_genesis(&config, &mut accounts);
    assert_eq!(chain.total_issued, 3_500);
    assert_eq!(chain.current_height, 0);
    assert_eq!(accounts.get_account(&a).unwrap().balance, 1_000);
    assert_eq!(accounts.get_account(&b).unwrap().balance, 2_500);
    assert_eq!(chain.genesis_hash, ChainState::new(&config).genesis_hash);
}

#[test]
fn persisted_state_of_another_chain_is_refused() {
    let chain = ChainState::new(&GenesisConfig::default());
    let id = opolys::constants::MAINNET_CHAIN_ID;
    let mut p = chain.to_persisted();
    assert!(ChainState::check_persisted_identity(&p, id, &chain.genesis_hash).is_ok());
    assert_eq!(
        ChainState::check_persisted_identity(&p, id + 1, &chain.genesis_hash).unwrap_err(),
        format!("persisted chain_id {} does not match expected mainnet chain_id {}", id, id + 1)
    );
    p.genesis_hash = [0u8; 32];
    let err = ChainState::check_persisted_identity(&p, id, &chain.genesis_hash).unwrap_err();
    assert_eq!(err, format!("persisted genesis {} does not match expected genesis {}", "00".repeat(32), chain.genesis_hash.to_hex()));
}

#[test]
fn mining_job_proposes_ordered_mempool_transactions() {
    let chain = ChainState::new(&GenesisConfig::default());
    let refiners = RefinerSet::new();
    let mut mempool = Mempool::new();
    for (i, fee) in [5u64, 9, 7].iter().enumerate() {
        let tx = opolys::types::Transaction {
            tx_id: hash_to_object_id(format!("tx{}", i).as_bytes()),
            sender: hash_to_object_id(format!("sender{}", i).as_bytes()),
            action: opolys::types::TransactionAction::Transfer { recipient: hash_to_object_id(b"r"), amount: 1 },
            fee: *fee,
            signature: vec![],
            signature_type: 0,
            nonce: 0,
            chain_id: 1,
            data: vec![],
            public_key: vec![],
        };
        mempool.add_transaction(tx, *fee, 0).unwrap();
    }
    let miner = hash_to_object_id(b"miner");
    let job = opolys::node_state::mining_job(&chain, &refiners, &mempool, &miner, 777);
    assert_eq!(job.transaction_count, 3);
    let ordered: Vec<opolys::types::Transaction> = mempool.get_ordered_transactions().into_iter().cloned().collect();
    assert_eq!(ordered[0].fee, 9);
    assert_eq!(job.transaction_root, opolys::block::compute_transaction_root(&ordered).to_hex());
}

#[test]
fn attested_block_becomes_final() {
    let mut chain = ChainState::new(&GenesisConfig::default());
    let mut accounts = AccountStore::new();
    let mut mempool = Mempool::new();
    let secret = [21u8; 32];
    let key = SigningKey::from_bytes(&secret);
    let me = ed25519_public_key_to_object_id(key.verifying_key().as_bytes());
    accounts.create_account(me).unwrap();
    accounts.get_account_mut(&me).unwrap().public_key = Some(key.verifying_key().as_bytes().to_vec());
    let mut refiners = RefinerSet::new();
    refiners.bond(me, MIN_BOND_STAKE, 0, 0, 0).unwrap();
    refiners.activate(&me, 1).unwrap();
    let mut pool = AttestationPool::new();

    let ts1 = chain.block_timestamps.last().copied().unwrap_or(0) + minimum_block_timestamp_delta_secs();
    let b1 = produce_refiner_block(&chain, &refiners, &mempool, &mut pool, vec![], &secret, &me, ts1).unwrap();
    let (h1, _) = apply_block(&mut chain, &mut accounts, &mut refiners, &mut mempool, &b1, &env(None, ts1)).unwrap();
    assert_eq!(chain.current_height, 1);
    assert_eq!(chain.finalized_height, 0);

    // the only active refiner attests block 1: all of the active weight
    let att = create_block_attestation(&secret, &me, &refiners, &Some(b1.clone()), 1, &h1).unwrap();
    assert!(pool.accept(att, &refiners, true, Ok(Some(b1.clone())), 1).unwrap());
    let ts2 = ts1 + minimum_block_timestamp_delta_secs();
    let b2 = produce_refiner_block(&chain, &refiners, &mempool, &mut pool, vec![], &secret, &me, ts2).unwrap();
    assert_eq!(b2.attestations.len(), 1);
    let mut e = env(None, ts2);
    e.attested_blocks = vec![Ok(Some(b1.clone()))];
    apply_block(&mut chain, &mut accounts, &mut refiners, &mut mempool, &b2, &e).unwrap();
    assert_eq!(chain.current_height, 2);
    assert_eq!(chain.finalized_height, 1);
}

#[test]
fn mining_rounds_scale_with_difficulty() {
    assert_eq!(opolys::node_state::mining_attempts(0), 100_000);
    assert_eq!(opolys::node_state::mining_attempts(1), 100_000);
    assert_eq!(opolys::node_state::mining_attempts(10), 1_000_000);
    assert_eq!(opolys::node_state::mining_attempts(100), 10_000_000);
    assert_eq!(opolys::node_state::mining_attempts(1_000), 10_000_000);
}
