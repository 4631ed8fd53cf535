use opolys::gossip::{
    pow_precheck, sync_block_in_order, sync_request_for, sync_serve_count, GossipAction, GossipKind, PeerTable,
    PowPrecheck,
};
use opolys::pow::mining_attempts;
use opolys::storage::{
    block_hash_key, block_key, decode_db_value, encode_db_value, refiner_key, transaction_key, transaction_location,
};
use opolys::types::ObjectId;

type H = opolys::types::Hash;

#[test]
fn db_value_round_trips() {
    let data = b"some stored bytes".to_vec();
    let v = encode_db_value(&data);
    assert_eq!(v.len(), 16 + data.len());
    assert_eq!(&v[16..], &data[..]);
    assert_eq!(decode_db_value("block", &v).unwrap(), data);
    let empty = encode_db_value(&[]);
    assert_eq!(decode_db_value("empty", &empty).unwrap(), Vec::<u8>::new());
}

#[test]
fn db_value_checksum_is_domain_hash_prefix() {
    let data = [1u8, 2, 3];
    let v = encode_db_value(&data);
    let h = opolys::crypto::hash_with_domain(b"OPL_DB_VALUE_V1", &data);
    assert_eq!(&v[..16], &h.0[..16]);
}

#[test]
fn db_value_refuses_missing_and_corrupt_checksum() {
    assert_eq!(decode_db_value("chain state", &[0u8; 15]).unwrap_err(), "chain state checksum missing");
    let mut v = encode_db_value(b"abc");
    v[0] ^= 1;
    assert_eq!(decode_db_value("chain state", &v).unwrap_err(), "chain state checksum mismatch");
    let mut w = encode_db_value(b"abc");
    let n = w.len();
    w[n - 1] ^= 1;
    assert_eq!(decode_db_value("accounts", &w).unwrap_err(), "accounts checksum mismatch");
}

#[test]
fn db_keys_follow_layout() {
    assert_eq!(block_key(258), vec![0, 0, 0, 0, 0, 0, 1, 2]);
    let h = H::from_bytes([0xab; 32]);
    assert_eq!(block_hash_key(&h), format!("hash_{}", "ab".repeat(32)));
    let id = ObjectId(H::from_bytes([1; 32]));
    assert_eq!(transaction_key(&id), format!("tx_{}", "01".repeat(32)));
    assert_eq!(refiner_key(&id), format!("refiner:{}", "01".repeat(32)));
    assert_eq!(transaction_location(1, 2), vec![0, 0, 0, 0, 0, 0, 0, 1, 0, 0, 0, 2]);
}

#[test]
fn gossip_blocks_rate_limited_per_second() {
    let mut t = PeerTable::new();
    for _ in 0..10 {
        assert!(t.on_gossip_payload(7, GossipKind::Block, 100, 5_000));
    }
    assert!(!t.on_gossip_payload(7, GossipKind::Block, 100, 5_500));
    assert!(t.on_gossip_payload(8, GossipKind::Block, 100, 5_500));
    assert!(t.on_gossip_payload(7, GossipKind::Block, 100, 6_000));
}

#[test]
fn gossip_transactions_rate_limited_and_capped() {
    let mut t = PeerTable::new();
    for _ in 0..50 {
        assert!(t.on_gossip_payload(1, GossipKind::Transaction, 10, 0));
    }
    assert!(!t.on_gossip_payload(1, GossipKind::Transaction, 10, 999));
    assert!(!t.on_gossip_payload(2, GossipKind::Transaction, 100_001, 0));
    assert!(t.on_gossip_payload(3, GossipKind::Transaction, 100_000, 0));
    assert!(!t.on_gossip_payload(4, GossipKind::Block, 10_485_761, 0));
}

#[test]
fn gossip_block_heights_filtered() {
    let mut t = PeerTable::new();
    assert_eq!(t.on_gossip_block(1, 5, 5, PowPrecheck::Meets), GossipAction::Drop);
    assert_eq!(t.on_gossip_block(1, 16, 5, PowPrecheck::Meets), GossipAction::Drop);
    assert_eq!(t.on_gossip_block(1, 15, 5, PowPrecheck::Meets), GossipAction::Apply);
    assert_eq!(t.on_gossip_block(1, 6, 5, PowPrecheck::Skipped), GossipAction::Apply);
    assert_eq!(t.on_gossip_block(1, 6, 5, PowPrecheck::Malformed), GossipAction::Drop);
    assert_eq!(t.strikes_of(1), 0);
}

#[test]
fn failed_pow_precheck_disconnects() {
    let mut t = PeerTable::new();
    t.on_gossip_payload(1, GossipKind::Block, 10, 0);
    assert_eq!(t.on_gossip_block(1, 6, 5, PowPrecheck::Fails), GossipAction::Disconnect);
    assert_eq!(t.strikes_of(1), 0);
    assert!(t.on_gossip_payload(1, GossipKind::Block, 10, 1));
}

#[test]
fn three_invalid_blocks_disconnect() {
    let mut t = PeerTable::new();
    assert_eq!(t.on_apply_result(4, true), GossipAction::Rebroadcast);
    assert_eq!(t.on_apply_result(4, false), GossipAction::Drop);
    assert_eq!(t.strikes_of(4), 1);
    assert_eq!(t.on_apply_result(4, false), GossipAction::Drop);
    assert_eq!(t.strikes_of(4), 2);
    assert_eq!(t.on_apply_result(4, false), GossipAction::Disconnect);
    assert_eq!(t.strikes_of(4), 0);
    t.on_apply_result(5, false);
    t.on_peer_disconnected(5);
    assert_eq!(t.strikes_of(5), 0);
}

#[test]
fn pow_precheck_compares_with_target() {
    let target = opolys::emission::difficulty_to_target(1);
    assert!(target > 0);
    assert_eq!(pow_precheck(1, Some(target)), PowPrecheck::Meets);
    assert_eq!(pow_precheck(1, Some(target + 1)), PowPrecheck::Fails);
    assert_eq!(pow_precheck(1, None), PowPrecheck::Malformed);
    assert_eq!(pow_precheck(64, None), PowPrecheck::Skipped);
}

#[test]
fn sync_bounds() {
    assert_eq!(sync_request_for(41), (42, 500));
    assert_eq!(sync_serve_count(7), 7);
    assert_eq!(sync_serve_count(10_000), 500);
    assert!(sync_block_in_order(100, Some(6), 5));
    assert!(!sync_block_in_order(100, Some(7), 5));
    assert!(!sync_block_in_order(100, None, 5));
    assert!(!sync_block_in_order(10_485_761, Some(6), 5));
}

#[test]
fn mining_attempts_scale_with_difficulty() {
    assert_eq!(mining_attempts(0), 100_000);
    assert_eq!(mining_attempts(1), 100_000);
    assert_eq!(mining_attempts(10), 1_000_000);
    assert_eq!(mining_attempts(100), 10_000_000);
    assert_eq!(mining_attempts(1_000), 10_000_000);
    assert_eq!(mining_attempts(u64::MAX), 10_000_000);
}
