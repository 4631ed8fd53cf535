//! Opolys ($OPL): a digital-gold blockchain library.
//!
//! - `constants`, `types`, `errors`, `text`, `encoding`: protocol constants,
//!   core data types, error texts, decimal/hex rendering and the canonical
//!   byte encodings that hashes commit to.
//! - `crypto`: Blake3, SHA3, ed25519 and Dilithium behind thin wrappers.
//! - `emission`, `difficulty`, `pow`: rewards, vein yield, retargeting, the
//!   consensus floor and the proof-of-work header checks.
//! - `account`, `keyed`: the account ledger and its state root.
//! - `refiner`, `refiner_set`: refiner bonds, FIFO unbonding, activation,
//!   slashing, reranking, stake decay and producer selection.
//! - `dispatcher`: transaction verification and execution.
//! - `block`, `genesis`, `mempool`: block hashing, roots and validation; the
//!   genesis block; the fee-prioritized mempool.
//! - `chain`, `attestation`, `node_state`: reward split, finality, refiner
//!   attestations, and the node's block state transition.
//! - `networking`, `peers`, `jsonrpc`, `rpc`: peer-to-peer configuration,
//!   peer bans, JSON-RPC errors and rate limiting, RPC response data.
//! - `ceremony`: the checks of a genesis ceremony attestation.
//! - `gossip`: per-peer gossip rate limits, strikes and sync bounds.
//! - `storage`: the checksummed value framing and key layout of the node's
//!   database.
pub mod constants;
pub mod text;
pub mod types;
pub mod crypto;
pub mod emission;
pub mod difficulty;
pub mod keyed;
pub mod errors;
pub mod encoding;
pub mod account;
pub mod refiner;
pub mod refiner_set;
pub mod dispatcher;
pub mod block;
pub mod pow;
pub mod mempool;
pub mod networking;
pub mod jsonrpc;
pub mod rpc;
pub mod genesis;
pub mod chain;
pub mod node_state;
pub mod peers;
pub mod attestation;
pub mod storage;
pub mod gossip;
pub mod ceremony;
