//! Consensus-critical and node configuration constants of the Opolys ($OPL) chain.
//!
//! All on-chain amounts are in Flakes (u64); 1 OPL = 1,000,000 Flakes.
//! No floating-point arithmetic is used anywhere in consensus logic.
use vstd::prelude::*;

verus! {

// ─── Currency ────────────────────────────────────────────────────────────────

/// Human-readable name of the currency.
pub const CURRENCY_NAME: &'static str = "Opolys";

/// Ticker symbol used in displays and APIs.
pub const CURRENCY_TICKER: &'static str = "OPL";

/// Name of the smallest indivisible unit (1/1,000,000 OPL).
pub const CURRENCY_SMALLEST_UNIT: &'static str = "Flake";

/// Number of Flakes in one OPL.
pub const FLAKES_PER_OPL: u64 = 1_000_000;

/// Decimal places used when displaying OPL amounts.
pub const DECIMAL_PLACES: u32 = 6;

// ─── Block rewards ───────────────────────────────────────────────────────────

/// Fallback base block reward in Flakes (332 OPL), used when no genesis
/// ceremony value is configured.
pub const BASE_REWARD: u64 = 332 * FLAKES_PER_OPL;

// ─── Consensus parameters ────────────────────────────────────────────────────

/// Minimum difficulty: the mathematical floor of the difficulty scale.
pub const MIN_DIFFICULTY: u64 = 1;

/// Starting difficulty of the genesis block.
pub const GENESIS_DIFFICULTY: u64 = 7;

/// Unified epoch length (blocks): dataset regeneration, difficulty retarget,
/// unbonding delay. 960 blocks × 90 s = 24 hours.
pub const EPOCH: u64 = 960;

/// Approximate number of blocks per year: 365.25 × 86400 / 90 = 350,640.
pub const BLOCKS_PER_YEAR: u64 = (365 * 86400 + 86400 / 4) / 90;

/// Annual gold attrition rate in permille (1.5%).
pub const ANNUAL_ATTRITION_PERMILLE: u64 = 15;

/// Blocks a refiner waits before unbonded stake is returned (one epoch).
pub const UNBONDING_DELAY_BLOCKS: u64 = EPOCH;

/// Minimum transaction fee in Flakes.
pub const MIN_FEE: u64 = 1;

/// Target time between blocks in milliseconds.
pub const BLOCK_TARGET_TIME_MS: u64 = 90_000;

/// Target time between blocks in seconds.
pub const BLOCK_TARGET_TIME_SECS: u64 = 90;

/// Minimum stake (Flakes) of a brand-new bond entry (1 OPL).
pub const MIN_BOND_STAKE: u64 = FLAKES_PER_OPL;

/// Cap on simultaneously active validators of the stake-weighted validator set.
pub const MAX_ACTIVE_VALIDATORS: usize = 5_000;

/// Historical cap on simultaneously active refiners.
pub const MAX_ACTIVE_REFINERS: usize = 5_000;

/// Number of blocks after which a proof-of-stake block is considered final.
pub const POS_FINALITY_BLOCKS: u64 = 1;

/// Block header version number.
pub const BLOCK_VERSION: u32 = 1;

/// Signature type constant for ed25519 signatures.
pub const SIGNATURE_TYPE_ED25519: u8 = 0;

/// Extension type: no extension data.
pub const EXTENSION_TYPE_NONE: u8 = 0;

/// Extension type: rollup data.
pub const EXTENSION_TYPE_ROLLUP: u8 = 1;

// ─── Node networking (not consensus-critical) ────────────────────────────────

/// Network protocol version string advertised during handshakes.
pub const NETWORK_PROTOCOL_VERSION: &'static str = "1.0.0";

/// Maximum number of inbound connections.
pub const MAX_INBOUND_CONNECTIONS: usize = 50;

/// Maximum number of outbound connections.
pub const MAX_OUTBOUND_CONNECTIONS: usize = 50;

/// Maximum number of peers tracked by the peer manager.
pub const MAX_PEER_COUNT: usize = 200;

/// Maximum number of block bodies fetched in a single sync request.
pub const SYNC_MAX_BLOCKS_PER_REQUEST: u64 = 500;

/// Maximum number of block headers fetched in a single sync request.
pub const SYNC_MAX_HEADERS_PER_REQUEST: u64 = 2_000;

/// Timeout (seconds) of an individual sync request.
pub const SYNC_REQUEST_TIMEOUT_SECS: u64 = 30;

/// Number of peers queried in parallel during synchronization.
pub const SYNC_PARALLEL_PEER_COUNT: usize = 3;

/// Kademlia DHT bucket size.
pub const KAD_BUCKET_SIZE: usize = 20;

/// Timeout (seconds) of a Kademlia query.
pub const KAD_QUERY_TIMEOUT_SECS: u64 = 60;

/// Interval (seconds) between liveness pings.
pub const PING_INTERVAL_SECS: u64 = 30;

/// Timeout (seconds) of a ping.
pub const PING_TIMEOUT_SECS: u64 = 20;

/// Default TCP/QUIC port of the node.
pub const DEFAULT_LISTEN_PORT: u16 = 4170;

/// Maximum serialized size (bytes) of a whole block.
pub const MAX_BLOCK_SIZE_BYTES: usize = 10_485_760;

/// Maximum size (bytes) of one gossip message; equal to the block size limit.
pub const GOSSIP_MAX_MESSAGE_SIZE_BYTES: usize = MAX_BLOCK_SIZE_BYTES;

// ─── Mempool and transaction limits ──────────────────────────────────────────

/// Maximum total size (bytes) of the mempool.
pub const MEMPOOL_MAX_SIZE_BYTES: usize = 100_000_000;

/// Maximum number of pending transactions of one account in the mempool.
pub const MEMPOOL_MAX_TXS_PER_ACCOUNT: usize = 50;

/// Seconds after which a mempool transaction expires.
pub const MEMPOOL_TX_EXPIRY_SECS: u64 = 86_400;

/// Maximum serialized size (bytes) of one transaction.
pub const TX_MAX_SIZE_BYTES: usize = 100_000;

/// Maximum number of transactions in one block.
pub const MAX_TRANSACTIONS_PER_BLOCK: usize = 10_000;

/// Maximum number of refiner attestations carried by one block.
pub const MAX_ATTESTATIONS_PER_BLOCK: usize = 1_024;

/// Active-refiner attestation weight (milli) needed to finalize a block: 66.7%.
pub const FINALITY_CONFIDENCE_MILLI: u64 = 667;

/// How many blocks the mempool can hold (≈ mempool size / block size).
pub const CAPACITY_RATIO: u64 = 10;

/// Mempool occupancy (permille) above which the fee market is congested.
pub const CONGESTION_THRESHOLD_PERMILLE: u64 = 1000 / CAPACITY_RATIO;

/// Maximum size (bytes) of a transaction's `data` field.
pub const MAX_TX_DATA_SIZE_BYTES: usize = 1_024;

/// Maximum clock skew (seconds) of a block timestamp into the future.
pub const MAX_FUTURE_BLOCK_TIME_SECS: u64 = 300;

// ─── Chain identity ──────────────────────────────────────────────────────────

/// Chain id of the Opolys mainnet, bound into every transaction id and signature.
pub const MAINNET_CHAIN_ID: u64 = 1;

} // verus!
