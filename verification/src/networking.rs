//! Configuration and message types of the peer-to-peer layer: gossip topics
//! and size limits, Kademlia discovery, the memory-fingerprint challenge, the
//! block-sync protocol and its response size limit, and network errors.
//!
//! The transport itself (libp2p swarm, tokio tasks) lives with the node
//! binary; what is here is the part that decides.
use crate::constants::{
    DEFAULT_LISTEN_PORT, GOSSIP_MAX_MESSAGE_SIZE_BYTES, KAD_BUCKET_SIZE, KAD_QUERY_TIMEOUT_SECS,
    SYNC_MAX_BLOCKS_PER_REQUEST, SYNC_MAX_HEADERS_PER_REQUEST,
};
use crate::types::BlockHeight;
use vstd::prelude::*;
use vstd::string::StringExecFns;

verus! {

/// Gossip topic for transaction propagation.
pub const GOSSIP_TX_TOPIC: &'static str = "opolys/tx/v1";

/// Gossip topic for block propagation.
pub const GOSSIP_BLOCK_TOPIC: &'static str = "opolys/block/v1";

/// Protocol name of the memory-fingerprint challenge.
pub const CHALLENGE_PROTOCOL_NAME: &'static str = "/opolys/challenge/1";

/// Seconds a challenged peer has to answer.
pub const CHALLENGE_TIMEOUT_SECS: u64 = 15;

/// Most blocks one sync request may ask for.
pub const MAX_SYNC_BLOCKS: u64 = SYNC_MAX_BLOCKS_PER_REQUEST;

/// Most headers one sync request may ask for.
pub const MAX_SYNC_HEADERS: u64 = SYNC_MAX_HEADERS_PER_REQUEST;

/// Largest accepted total of serialized block bytes in one sync response.
pub const MAX_SYNC_RESPONSE_BYTES: usize = 10 * 1024 * 1024;

/// Default seconds before a sync request times out.
pub const SYNC_REQUEST_TIMEOUT_SECS: u64 = 30;

/// Default number of peers queried in parallel while syncing.
pub const SYNC_PARALLEL_PEERS: usize = 3;

/// Configuration of the gossip protocol.
pub struct GossipConfig {
    /// Largest gossip message in bytes.
    pub max_message_size: usize,
    /// Topic of transaction messages.
    pub tx_topic: String,
    /// Topic of block messages.
    pub block_topic: String,
}

impl Default for GossipConfig {
    fn default() -> (c: Self)
        ensures
            c.max_message_size == GOSSIP_MAX_MESSAGE_SIZE_BYTES,
            c.tx_topic@ == GOSSIP_TX_TOPIC@,
            c.block_topic@ == GOSSIP_BLOCK_TOPIC@,
    {
        GossipConfig {
            max_message_size: GOSSIP_MAX_MESSAGE_SIZE_BYTES,
            tx_topic: String::from_str(GOSSIP_TX_TOPIC),
            block_topic: String::from_str(GOSSIP_BLOCK_TOPIC),
        }
    }
}

/// The gossip handler: a configuration and accessors for it.
pub struct NetworkGossip {
    config: GossipConfig,
}

impl NetworkGossip {
    /// The configuration the handler was made with.
    pub closed spec fn config(&self) -> GossipConfig {
        self.config
    }

    /// A handler for the given configuration.
    pub fn new(config: GossipConfig) -> (g: Self)
        ensures
            g.config() == config,
    {
        NetworkGossip { config }
    }

    /// Largest allowed message size in bytes.
    pub fn max_message_size(&self) -> (n: usize)
        ensures
            n == self.config().max_message_size,
    {
        self.config.max_message_size
    }

    /// The transaction topic.
    pub fn tx_topic(&self) -> (t: &str)
        ensures
            t@ == self.config().tx_topic@,
    {
        self.config.tx_topic.as_str()
    }

    /// The block topic.
    pub fn block_topic(&self) -> (t: &str)
        ensures
            t@ == self.config().block_topic@,
    {
        self.config.block_topic.as_str()
    }
}

/// Sent by a node to a newly connected peer: the height whose epoch seed is
/// used and a nonce to hash.
#[derive(Debug, Clone, Copy, PartialEq, Eq)]
pub struct ChallengeRequest {
    /// Block height selecting the epoch seed.
    pub height: u64,
    /// Nonce chosen by the challenger.
    pub nonce: u64,
}

/// The peer's answer: the hash value for the requested (height, nonce).
#[derive(Debug, Clone, Copy, PartialEq, Eq)]
pub struct ChallengeResponse {
    /// The hash value.
    pub hash_val: u64,
}

/// Kademlia peer discovery settings.
pub struct DiscoveryConfig {
    /// Bucket size (the k parameter).
    pub bucket_size: usize,
    /// Timeout of a DHT query in seconds.
    pub query_timeout_secs: u64,
}

impl Default for DiscoveryConfig {
    fn default() -> (c: Self)
        ensures
            c.bucket_size == KAD_BUCKET_SIZE,
            c.query_timeout_secs == KAD_QUERY_TIMEOUT_SECS,
    {
        DiscoveryConfig { bucket_size: KAD_BUCKET_SIZE, query_timeout_secs: KAD_QUERY_TIMEOUT_SECS }
    }
}

/// Request for a range of full blocks.
#[derive(Debug, Clone, Copy, PartialEq, Eq)]
pub struct SyncRequest {
    /// First height asked for.
    pub start_height: BlockHeight,
    /// Number of blocks asked for.
    pub count: u64,
}

/// Request for a range of headers.
#[derive(Debug, Clone, Copy, PartialEq, Eq)]
pub struct HeaderSyncRequest {
    /// First height asked for.
    pub start_height: BlockHeight,
    /// Number of headers asked for.
    pub count: u64,
}

/// The total number of bytes of a sequence of serialized blocks.
pub open spec fn total_bytes(blocks: Seq<Vec<u8>>) -> nat
    decreases blocks.len(),
{
    if blocks.len() == 0 {
        0
    } else {
        total_bytes(blocks.drop_last()) + blocks.last()@.len()
    }
}

/// A response with serialized blocks starting at `from_height`.
pub struct SyncResponse {
    /// The serialized blocks.
    pub blocks: Vec<Vec<u8>>,
    /// Height of the first block.
    pub from_height: BlockHeight,
}

impl SyncResponse {
    /// Total serialized block bytes carried by the response.
    pub fn payload_size_bytes(&self) -> (n: usize)
        requires
            total_bytes(self.blocks@) <= usize::MAX,
        ensures
            n == total_bytes(self.blocks@),
    {
        let mut total: usize = 0;
        let mut i: usize = 0;
        while i < self.blocks.len()
            invariant
                i <= self.blocks.len(),
                total == total_bytes(self.blocks@.take(i as int)),
                total_bytes(self.blocks@) <= usize::MAX,
            decreases self.blocks.len() - i,
        {
            proof {
                assert(self.blocks@.take(i + 1).drop_last() == self.blocks@.take(i as int));
                lemma_total_bytes_prefix(self.blocks@, i as int + 1);
            }
            total = total + self.blocks[i].len();
            i = i + 1;
        }
        proof {
            assert(self.blocks@.take(i as int) == self.blocks@);
        }
        total
    }

    /// Whether the response stays within the sync payload limit.
    pub fn is_within_size_limit(&self) -> (b: bool)
        requires
            total_bytes(self.blocks@) <= usize::MAX,
        ensures
            b == (total_bytes(self.blocks@) <= MAX_SYNC_RESPONSE_BYTES),
    {
        self.payload_size_bytes() <= MAX_SYNC_RESPONSE_BYTES
    }
}

/// A prefix carries no more bytes than the whole.
pub proof fn lemma_total_bytes_prefix(blocks: Seq<Vec<u8>>, n: int)
    requires
        0 <= n <= blocks.len(),
    ensures
        total_bytes(blocks.take(n)) <= total_bytes(blocks),
    decreases blocks.len(),
{
    if n < blocks.len() {
        assert(blocks.drop_last().take(n) == blocks.take(n));
        lemma_total_bytes_prefix(blocks.drop_last(), n);
    } else {
        assert(blocks.take(n) == blocks);
    }
}

/// Settings of the block-sync protocol.
pub struct SyncConfig {
    /// Most blocks per request.
    pub max_blocks_per_request: u64,
    /// Most headers per request.
    pub max_headers_per_request: u64,
    /// Timeout of one request in seconds.
    pub request_timeout_secs: u64,
    /// Peers queried in parallel.
    pub parallel_peer_count: usize,
}

impl Default for SyncConfig {
    fn default() -> (c: Self)
        ensures
            c.max_blocks_per_request == SYNC_MAX_BLOCKS_PER_REQUEST,
            c.max_headers_per_request == SYNC_MAX_HEADERS_PER_REQUEST,
            c.request_timeout_secs == SYNC_REQUEST_TIMEOUT_SECS,
            c.parallel_peer_count == SYNC_PARALLEL_PEERS,
    {
        SyncConfig {
            max_blocks_per_request: SYNC_MAX_BLOCKS_PER_REQUEST,
            max_headers_per_request: SYNC_MAX_HEADERS_PER_REQUEST,
            request_timeout_secs: SYNC_REQUEST_TIMEOUT_SECS,
            parallel_peer_count: SYNC_PARALLEL_PEERS,
        }
    }
}

/// Errors of network operations.
#[derive(Debug, Clone, PartialEq, Eq)]
pub enum NetworkError {
    /// Dialing a peer failed.
    DialError(String),
    /// Broadcasting a message failed.
    BroadcastError(String),
    /// A sync request timed out.
    SyncTimeout,
    /// A sync request failed.
    SyncError(String),
    /// The network task has shut down.
    ChannelClosed,
}

/// The text of a network error.
pub open spec fn network_error_text(e: NetworkError) -> Seq<char> {
    match e {
        NetworkError::DialError(s) => "Dial error: "@ + s@,
        NetworkError::BroadcastError(s) => "Broadcast error: "@ + s@,
        NetworkError::SyncTimeout => "Sync request timed out"@,
        NetworkError::SyncError(s) => "Sync error: "@ + s@,
        NetworkError::ChannelClosed => "Network channel closed"@,
    }
}

impl NetworkError {
    /// The human-readable text of the error.
    pub fn message(&self) -> (s: String)
        ensures
            s@ == network_error_text(*self),
    {
        match self {
            NetworkError::DialError(d) => {
                let mut s = String::from_str("Dial error: ");
                s.append(d.as_str());
                s
            },
            NetworkError::BroadcastError(d) => {
                let mut s = String::from_str("Broadcast error: ");
                s.append(d.as_str());
                s
            },
            NetworkError::SyncTimeout => String::from_str("Sync request timed out"),
            NetworkError::SyncError(d) => {
                let mut s = String::from_str("Sync error: ");
                s.append(d.as_str());
                s
            },
            NetworkError::ChannelClosed => String::from_str("Network channel closed"),
        }
    }
}

/// Configuration of the peer-to-peer network.
pub struct NetworkConfig {
    /// Listen port.
    pub listen_port: u16,
    /// Bootstrap peer addresses.
    pub bootstrap_peers: Vec<String>,
    /// Gossip settings.
    pub gossip_config: GossipConfig,
    /// Discovery settings.
    pub discovery_config: DiscoveryConfig,
    /// Sync settings.
    pub sync_config: SyncConfig,
}

impl Default for NetworkConfig {
    fn default() -> (c: Self)
        ensures
            c.listen_port == DEFAULT_LISTEN_PORT,
            c.bootstrap_peers@.len() == 0,
            c.gossip_config.max_message_size == GOSSIP_MAX_MESSAGE_SIZE_BYTES,
            c.gossip_config.tx_topic@ == GOSSIP_TX_TOPIC@,
            c.gossip_config.block_topic@ == GOSSIP_BLOCK_TOPIC@,
            c.discovery_config.bucket_size == KAD_BUCKET_SIZE,
            c.discovery_config.query_timeout_secs == KAD_QUERY_TIMEOUT_SECS,
            c.sync_config.max_blocks_per_request == SYNC_MAX_BLOCKS_PER_REQUEST,
            c.sync_config.max_headers_per_request == SYNC_MAX_HEADERS_PER_REQUEST,
            c.sync_config.request_timeout_secs == SYNC_REQUEST_TIMEOUT_SECS,
            c.sync_config.parallel_peer_count == SYNC_PARALLEL_PEERS,
    {
        NetworkConfig {
            listen_port: DEFAULT_LISTEN_PORT,
            bootstrap_peers: Vec::new(),
            gossip_config: GossipConfig::default(),
            discovery_config: DiscoveryConfig::default(),
            sync_config: SyncConfig::default(),
        }
    }
}

} // verus!
