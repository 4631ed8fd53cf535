use opolys::constants::{
    GENESIS_DIFFICULTY, GOSSIP_MAX_MESSAGE_SIZE_BYTES, KAD_BUCKET_SIZE, MIN_FEE,
    NETWORK_PROTOCOL_VERSION,
};
use opolys::genesis::{
    apply_genesis_accounts, build_genesis_block, validate_genesis_block, GenesisConfig,
};
use opolys::account::AccountStore;
use opolys::crypto::hash_to_object_id;
use opolys::jsonrpc::{JsonRpcError, RateLimiter, WINDOW_NANOS};
use opolys::networking::{
    GossipConfig, NetworkConfig, NetworkError, NetworkGossip, SyncConfig, SyncResponse,
    DiscoveryConfig, MAX_SYNC_RESPONSE_BYTES,
};
use opolys::rpc::{format_action, format_flake, parse_object_id};
use opolys::types::{ObjectId, TransactionAction};

// ─── JSON-RPC ───

#[test]
fn rate_limiter_allows_within_limit() {
    let mut limiter = RateLimiter::new(5);
    for _ in 0..5 {
        assert!(limiter.check("test"));
    }
    assert!(!limiter.check("test"));
}

#[test]
fn rate_limiter_keys_are_independent() {
    let mut limiter = RateLimiter::new(1);
    assert!(limiter.check("a"));
    assert!(!limiter.check("a"));
    assert!(limiter.check("b"));
    assert!(limiter.check_limit("a", 2));
}

#[test]
fn rate_limiter_window_expires() {
    let mut limiter = RateLimiter::new(2);
    assert!(limiter.check_limit_at("k", 2, 0));
    assert!(limiter.check_limit_at("k", 2, 1));
    assert!(!limiter.check_limit_at("k", 2, WINDOW_NANOS - 1));
    // the stamp at 0 no longer counts once 60 whole seconds have passed
    assert!(limiter.check_limit_at("k", 2, WINDOW_NANOS));
    assert!(!limiter.check_limit_at("k", 2, WINDOW_NANOS));
}

#[test]
fn rate_limiter_zero_limit_rejects() {
    let mut limiter = RateLimiter::new(0);
    assert!(!limiter.check("x"));
}

#[test]
fn invalid_request_error_uses_json_rpc_standard_code() {
    let err = JsonRpcError::invalid_request("bad envelope");
    assert_eq!(err.code, -32600);
    assert_eq!(err.message, "bad envelope");
}

#[test]
fn json_rpc_error_codes() {
    assert_eq!(JsonRpcError::method_not_found().code, -32601);
    assert_eq!(JsonRpcError::method_not_found().message, "Method not found");
    assert_eq!(JsonRpcError::invalid_params("p").code, -32602);
    assert_eq!(JsonRpcError::internal_error("i").code, -32603);
    assert_eq!(JsonRpcError::not_found("n").code, -32001);
    assert_eq!(JsonRpcError::unauthorized().code, -32004);
    assert_eq!(
        JsonRpcError::unauthorized().message,
        "This method requires an API key. Use Authorization: Bearer <key> or X-Api-Key: <key>."
    );
    assert_eq!(JsonRpcError::rate_limited().code, -32005);
    assert_eq!(JsonRpcError::rate_limited().message, "Rate limit exceeded. Too many requests.");
}

// ─── RPC helpers ───

#[test]
fn server_format_flake_amounts() {
    assert_eq!(format_flake(1_000_000), "1.000000 OPL");
    assert_eq!(format_flake(0), "0.000000 OPL");
    assert_eq!(format_flake(1), "0.000001 OPL");
    assert_eq!(format_flake(312_000_000), "312.000000 OPL");
}

#[test]
fn object_id_from_hex_roundtrip() {
    let id = hash_to_object_id(b"test");
    let hex = id.to_hex();
    let restored = parse_object_id(&hex).unwrap();
    assert_eq!(id, restored);
}

#[test]
fn object_id_from_invalid_hex() {
    assert!(parse_object_id("not_hex").is_err());
    assert!(parse_object_id("0123").is_err());
}

#[test]
fn parse_object_id_error_messages() {
    let e = parse_object_id("0123").unwrap_err();
    assert_eq!(e.code, -32602);
    assert_eq!(e.message, "Expected 32 bytes, got 2");
    let e = parse_object_id("xyz").unwrap_err();
    assert!(e.message.starts_with("Invalid hex: "));
}

#[test]
fn format_action_texts() {
    let id = ObjectId(opolys::types::Hash::from_bytes([0u8; 32]));
    assert_eq!(
        format_action(&TransactionAction::Transfer { recipient: id, amount: 5 }),
        format!("Transfer 5 flakes to {}", "0".repeat(64))
    );
    assert_eq!(
        format_action(&TransactionAction::ValidatorBond { amount: 1_500_000 }),
        "Bond 1500000 flakes (1.500000 OPL)"
    );
    assert_eq!(
        format_action(&TransactionAction::ValidatorUnbond { amount: 7 }),
        "Unbond 7 flakes (0.000007 OPL)"
    );
}

// ─── networking ───

#[test]
fn gossip_defaults_and_accessors() {
    let g = NetworkGossip::new(GossipConfig::default());
    assert_eq!(g.max_message_size(), GOSSIP_MAX_MESSAGE_SIZE_BYTES);
    assert_eq!(g.tx_topic(), "opolys/tx/v1");
    assert_eq!(g.block_topic(), "opolys/block/v1");
}

#[test]
fn network_config_defaults() {
    let c = NetworkConfig::default();
    assert_eq!(c.listen_port, 4170);
    assert!(c.bootstrap_peers.is_empty());
    assert_eq!(c.discovery_config.bucket_size, KAD_BUCKET_SIZE);
    assert_eq!(DiscoveryConfig::default().query_timeout_secs, 60);
    let s = SyncConfig::default();
    assert_eq!(s.request_timeout_secs, 30);
    assert_eq!(s.parallel_peer_count, 3);
}

#[test]
fn network_error_messages() {
    assert_eq!(NetworkError::DialError("x".to_string()).message(), "Dial error: x");
    assert_eq!(NetworkError::SyncTimeout.message(), "Sync request timed out");
    assert_eq!(NetworkError::ChannelClosed.message(), "Network channel closed");
}

#[test]
fn sync_response_size_limit_accepts_small_payloads() {
    let response = SyncResponse { blocks: vec![vec![0u8; 1024], vec![1u8; 2048]], from_height: 1 };
    assert_eq!(response.payload_size_bytes(), 3072);
    assert!(response.is_within_size_limit());
}

#[test]
fn sync_response_size_limit_rejects_oversized_payloads() {
    let response = SyncResponse { blocks: vec![vec![0u8; MAX_SYNC_RESPONSE_BYTES + 1]], from_height: 1 };
    assert!(!response.is_within_size_limit());
}

// ─── genesis ───

#[test]
fn genesis_block_creation() {
    let config = GenesisConfig::default();
    let genesis = build_genesis_block(&config);
    assert_eq!(genesis.header.height, 0);
    assert_eq!(genesis.header.previous_hash, opolys::types::Hash::zero());
    assert!(genesis.header.pow_proof.is_none());
    assert!(genesis.transactions.is_empty());
    assert_eq!(genesis.header.suggested_fee, MIN_FEE);
    assert_eq!(genesis.header.difficulty, GENESIS_DIFFICULTY);
}

#[test]
fn genesis_block_deterministic() {
    let config = GenesisConfig::default();
    let g1 = build_genesis_block(&config);
    let g2 = build_genesis_block(&config);
    assert_eq!(g1.header.state_root, g2.header.state_root);
}

#[test]
fn genesis_state_root_depends_on_config() {
    let mut config = GenesisConfig::default();
    let g1 = build_genesis_block(&config);
    config.attestation.annual_production_tonnes += 1;
    let g2 = build_genesis_block(&config);
    assert_ne!(g1.header.state_root, g2.header.state_root);
    assert_ne!(g1.header.state_root, opolys::types::Hash::zero());
}

#[test]
fn genesis_block_validation() {
    let config = GenesisConfig::default();
    let genesis = build_genesis_block(&config);
    assert!(validate_genesis_block(&genesis).is_ok());
    let mut bad = build_genesis_block(&config);
    bad.header.height = 1;
    assert_eq!(validate_genesis_block(&bad).unwrap_err(), "Genesis block must have height 0");
    let mut bad = build_genesis_block(&config);
    bad.header.pow_proof = Some(vec![1]);
    assert_eq!(validate_genesis_block(&bad).unwrap_err(), "Genesis block must not have PoW proof");
}

#[test]
fn genesis_attestation_defaults() {
    let config = GenesisConfig::default();
    assert_eq!(config.attestation.annual_production_tonnes, 3630);
    assert_eq!(config.attestation.total_above_ground_tonnes, 219891);
    assert!(!config.attestation.derivation_formula.is_empty());
    assert_eq!(config.protocol_version, NETWORK_PROTOCOL_VERSION);
}

#[test]
fn genesis_accounts_are_credited() {
    let mut config = GenesisConfig::default();
    let a = hash_to_object_id(b"alice");
    let b = hash_to_object_id(b"bob");
    config.genesis_accounts.push((a, 500, vec![1u8; 32]));
    config.genesis_accounts.push((b, 7, vec![]));
    config.genesis_accounts.push((a, 5, vec![]));
    let mut accounts = AccountStore::new();
    let total = apply_genesis_accounts(&config, &mut accounts);
    assert_eq!(total, 512);
    assert_eq!(accounts.get_account(&a).unwrap().balance, 505);
    assert_eq!(accounts.get_account(&a).unwrap().public_key, Some(vec![1u8; 32]));
    assert_eq!(accounts.get_account(&b).unwrap().balance, 7);
    assert_eq!(accounts.get_account(&b).unwrap().public_key, None);
}
