//! The data the RPC server answers with, and the small conversions its
//! handlers make: parsing a hex object id from a request, rendering amounts
//! and transaction actions for a response.
//!
//! The HTTP plumbing (axum router, locks, JSON) belongs to the node binary.
use crate::jsonrpc::{JsonRpcError, INVALID_PARAMS_CODE};
use crate::text::{all_hex, ascii_chars, dec_digits, decimal_string, hex_decode, hex_of, unhex};
use crate::types::{format_flake_as_opl, opl_display, ObjectId, TransactionAction};
use vstd::prelude::*;
use vstd::string::{StringExecFns, StringSliceAdditionalSpecFns};

verus! {

/// The outcome of applying a block submitted by an external miner.
#[derive(Debug, Clone)]
pub struct BlockSubmissionResult {
    /// The block hash, when the block was applied.
    pub block_hash: Option<String>,
    /// The error message, when it was not.
    pub error: Option<String>,
}

/// Chain summary with supply statistics and refiner counts.
#[derive(Debug, Clone)]
pub struct ChainInfoResponse {
    pub height: u64,
    pub difficulty: u64,
    pub total_issued: u64,
    pub total_burned: u64,
    pub circulating_supply: u64,
    pub circulating_supply_opl: String,
    pub suggested_fee: u64,
    pub suggested_fee_opl: String,
    /// All refiners, whatever their status.
    pub refiner_count: usize,
    /// Refiners in the active set.
    pub active_refiners: usize,
    /// Refiners waiting for their bond to mature.
    pub bonding_refiners: usize,
    /// Eligible refiners outside the active set.
    pub waiting_refiners: usize,
    /// Cap on simultaneously active refiners.
    pub max_active_refiners: usize,
    pub bonded_stake: u64,
    pub protocol_version: String,
    /// Height of the most recently finalized block.
    pub finalized_height: u64,
}

/// An account's balance.
#[derive(Debug, Clone)]
pub struct BalanceResponse {
    pub object_id: String,
    pub balance_flakes: u64,
    pub balance_opl: String,
}

/// An account's balance and nonce.
#[derive(Debug, Clone)]
pub struct AccountResponse {
    pub object_id: String,
    pub balance_flakes: u64,
    pub balance_opl: String,
    pub nonce: u64,
}

/// A block header summary.
#[derive(Debug, Clone)]
pub struct BlockResponse {
    pub version: u32,
    pub height: u64,
    pub previous_hash: String,
    pub state_root: String,
    pub transaction_root: String,
    pub timestamp: u64,
    pub difficulty: u64,
    pub suggested_fee: u64,
    pub transaction_count: usize,
    pub block_hash: String,
    /// Whether the block can no longer be reverted.
    pub finalized: bool,
}

/// A transaction summary.
#[derive(Debug, Clone)]
pub struct TransactionResponse {
    pub tx_id: String,
    pub sender: String,
    pub action: String,
    pub fee_flakes: u64,
    pub fee_opl: String,
    pub nonce: u64,
    pub status: String,
    pub block_height: Option<u64>,
}

/// Size of the mempool.
#[derive(Debug, Clone)]
pub struct MempoolStatusResponse {
    pub transaction_count: usize,
    pub total_size_bytes: usize,
}

/// Supply statistics.
#[derive(Debug, Clone)]
pub struct SupplyResponse {
    pub total_issued_flakes: u64,
    pub total_burned_flakes: u64,
    pub circulating_supply_flakes: u64,
    pub total_issued_opl: String,
    pub total_burned_opl: String,
    pub circulating_supply_opl: String,
}

/// Difficulty statistics.
#[derive(Debug, Clone)]
pub struct DifficultyResponse {
    pub current_difficulty: u64,
    pub retarget: u64,
    pub consensus_floor: u64,
    pub effective_difficulty: u64,
    pub height: u64,
    pub next_retarget_height: u64,
}

/// One bond entry of a refiner.
#[derive(Debug, Clone)]
pub struct BondEntryResponse {
    pub stake_flakes: u64,
    pub stake_opl: String,
    pub bonded_at_height: u64,
    pub bonded_at_timestamp: u64,
}

/// A refiner with its bond entries.
#[derive(Debug, Clone)]
pub struct RefinerResponse {
    pub object_id: String,
    pub entries: Vec<BondEntryResponse>,
    pub total_stake_flakes: u64,
    pub total_stake_opl: String,
    pub total_weight_flakes: u64,
    pub status: String,
    pub last_signed_height: u64,
}

/// Answer to a submitted transaction.
#[derive(Debug, Clone)]
pub struct SendTransactionResponse {
    pub tx_id: String,
    pub fee_flakes: u64,
    pub fee_opl: String,
    pub action: String,
    pub status: String,
}

/// A block template for an external miner.
#[derive(Debug, Clone)]
pub struct MiningJobResponse {
    pub version: u32,
    pub height: u64,
    pub previous_hash: String,
    pub state_root: String,
    pub transaction_root: String,
    /// Leading zero bits the PoW hash must have.
    pub difficulty: u64,
    /// `2^(64-difficulty) - 1`: the largest passing leading 8 hash bytes.
    pub target: u64,
    pub suggested_fee: u64,
    pub timestamp: u64,
    pub transaction_count: usize,
    /// Hex object id of the producer to credit.
    pub producer: String,
    /// Hex of the serialized header the miner appends its nonce to.
    pub header_bytes: String,
}

/// Answer to a submitted mining solution.
#[derive(Debug, Clone)]
pub struct SubmitSolutionResponse {
    pub height: u64,
    pub block_hash: String,
    pub status: String,
}

/// Formats a Flake amount as `"<whole>.<6 digits> OPL"`.
pub fn format_flake(flakes: u64) -> (s: String)
    ensures
        s@ == ascii_chars(opl_display(flakes)),
{
    format_flake_as_opl(flakes)
}

/// The rendering of a transaction action in responses.
pub open spec fn action_text(a: TransactionAction) -> Seq<char> {
    match a {
        TransactionAction::Transfer { recipient, amount } => "Transfer "@ + ascii_chars(
            dec_digits(amount as nat),
        ) + " flakes to "@ + ascii_chars(hex_of(recipient.bytes())),
        TransactionAction::ValidatorBond { amount } => "Bond "@ + ascii_chars(dec_digits(amount as nat))
            + " flakes ("@ + ascii_chars(opl_display(amount)) + ")"@,
        TransactionAction::ValidatorUnbond { amount } => "Unbond "@ + ascii_chars(
            dec_digits(amount as nat),
        ) + " flakes ("@ + ascii_chars(opl_display(amount)) + ")"@,
    }
}

/// Renders a transaction action for a response.
pub fn format_action(action: &TransactionAction) -> (s: String)
    ensures
        s@ == action_text(*action),
{
    match action {
        TransactionAction::Transfer { recipient, amount } => {
            let mut s = String::from_str("Transfer ");
            s.append(decimal_string(*amount).as_str());
            s.append(" flakes to ");
            s.append(recipient.to_hex().as_str());
            s
        },
        TransactionAction::ValidatorBond { amount } => {
            let mut s = String::from_str("Bond ");
            s.append(decimal_string(*amount).as_str());
            s.append(" flakes (");
            s.append(format_flake(*amount).as_str());
            s.append(")");
            s
        },
        TransactionAction::ValidatorUnbond { amount } => {
            let mut s = String::from_str("Unbond ");
            s.append(decimal_string(*amount).as_str());
            s.append(" flakes (");
            s.append(format_flake(*amount).as_str());
            s.append(")");
            s
        },
    }
}

/// Parses an object id given as hex in a request: the text must decode as
/// hex to exactly 32 bytes; otherwise the answer is an invalid-params error.
pub fn parse_object_id(hex_str: &str) -> (r: Result<ObjectId, JsonRpcError>)
    ensures
        r is Ok <==> (hex_str.spec_bytes().len() == 64 && all_hex(hex_str.spec_bytes())),
        r matches Ok(id) ==> id.bytes() == unhex(hex_str.spec_bytes()),
        r matches Err(e) ==> e.code == INVALID_PARAMS_CODE,
        hex_str.spec_bytes().len() % 2 == 0 && all_hex(hex_str.spec_bytes()) && hex_str.spec_bytes().len()
            != 64 ==> (r matches Err(e) && e.message@ == "Expected 32 bytes, got "@ + ascii_chars(
            dec_digits(hex_str.spec_bytes().len() / 2),
        )),
        !(hex_str.spec_bytes().len() % 2 == 0 && all_hex(hex_str.spec_bytes())) ==> (r matches Err(e)
            && e.message@.take(13) == "Invalid hex: "@),
{
    let bytes = match hex_decode(hex_str.as_bytes()) {
        Ok(b) => b,
        Err(e) => {
            let mut m = String::from_str("Invalid hex: ");
            m.append(e.as_str());
            proof {
                reveal_strlit("Invalid hex: ");
                assert(m@.take(13) =~= "Invalid hex: "@);
            }
            return Err(JsonRpcError::invalid_params(m.as_str()));
        },
    };
    if bytes.len() != 32 {
        let mut m = String::from_str("Expected 32 bytes, got ");
        m.append(decimal_string(bytes.len() as u64).as_str());
        return Err(JsonRpcError::invalid_params(m.as_str()));
    }
    let mut arr = [0u8; 32];
    let mut i: usize = 0;
    while i < 32
        invariant
            i <= 32,
            bytes@.len() == 32,
            forall|j: int| 0 <= j < i ==> arr@[j] == bytes@[j],
        decreases 32 - i,
    {
        arr[i] = bytes[i];
        i = i + 1;
    }
    assert(arr@ =~= bytes@);
    Ok(ObjectId(crate::types::Hash::from_bytes(arr)))
}

/// The summary of a block in responses; final when at or below the
/// finalized height.
pub fn block_to_response(block: &crate::types::Block, finalized_height: u64) -> (r: BlockResponse)
    ensures
        r.version == block.header.version,
        r.height == block.header.height,
        r.previous_hash@ == ascii_chars(hex_of(block.header.previous_hash.bytes())),
        r.state_root@ == ascii_chars(hex_of(block.header.state_root.bytes())),
        r.transaction_root@ == ascii_chars(hex_of(block.header.transaction_root.bytes())),
        r.timestamp == block.header.timestamp,
        r.difficulty == block.header.difficulty,
        r.suggested_fee == block.header.suggested_fee,
        r.transaction_count == block.transactions@.len(),
        r.block_hash@ == ascii_chars(hex_of(crate::crypto::blake3_digest(crate::block::header_hash_preimage(block.header)))),
        r.finalized == (block.header.height <= finalized_height),
{
    BlockResponse {
        version: block.header.version,
        height: block.header.height,
        previous_hash: block.header.previous_hash.to_hex(),
        state_root: block.header.state_root.to_hex(),
        transaction_root: block.header.transaction_root.to_hex(),
        timestamp: block.header.timestamp,
        difficulty: block.header.difficulty,
        suggested_fee: block.header.suggested_fee,
        transaction_count: block.transactions.len(),
        block_hash: crate::block::compute_block_hash(&block.header).to_hex(),
        finalized: block.header.height <= finalized_height,
    }
}

/// The rate-limit tier of a method: its name, requests per minute, and
/// whether it needs the API key. Submitting a transaction is a write; mining
/// jobs and solutions are mining; everything else is a read.
pub open spec fn method_tier(method: Seq<char>) -> (Seq<char>, usize, bool) {
    if method == "opl_sendTransaction"@ {
        ("write"@, 10, true)
    } else if method == "opl_getMiningJob"@ || method == "opl_submitSolution"@ {
        ("mining"@, 30, true)
    } else {
        ("read"@, 120, false)
    }
}

/// Classifies a method into its rate-limit tier (see `method_tier`).
pub fn classify_method(method: &str) -> (r: (&'static str, usize, bool))
    ensures
        (r.0@, r.1, r.2) == method_tier(method@),
{
    let m = String::from_str(method);
    if m == String::from_str("opl_sendTransaction") {
        ("write", 10, true)
    } else if m == String::from_str("opl_getMiningJob") || m == String::from_str("opl_submitSolution") {
        ("mining", 30, true)
    } else {
        ("read", 120, false)
    }
}

/// Whether a request carries the API key: an `Authorization` header of
/// `Bearer <key>`, or an `X-Api-Key` header equal to the key.
pub fn check_api_key(authorization: Option<&str>, x_api_key: Option<&str>, required_key: &str) -> (ok: bool)
    ensures
        ok == ((authorization matches Some(a) && a@ == "Bearer "@ + required_key@) || (x_api_key matches Some(x)
            && x@ == required_key@)),
{
    let required = String::from_str(required_key);
    match authorization {
        Some(a) => {
            let mut expected = String::from_str("Bearer ");
            expected.append(required_key);
            if String::from_str(a) == expected {
                return true;
            }
        },
        None => {},
    }
    match x_api_key {
        Some(x) => String::from_str(x) == required,
        None => false,
    }
}

} // verus!
