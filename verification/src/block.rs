//! Block hashing, body roots, block metadata and block validation.
//!
//! A header's hash covers every field but the production proofs (the PoW
//! nonce and the refiner signature), which are set after the hash. The body
//! (transactions, slash evidence, attestations, genesis ceremony) is bound
//! into the header through one root per part.
use crate::account::{dec_str, hex_str};
use crate::constants::{
    BLOCK_TARGET_TIME_SECS, BLOCK_VERSION, MAX_ATTESTATIONS_PER_BLOCK, MAX_BLOCK_SIZE_BYTES,
    MAX_FUTURE_BLOCK_TIME_SECS, MAX_TRANSACTIONS_PER_BLOCK, MAX_TX_DATA_SIZE_BYTES, MIN_FEE,
};
use crate::crypto::{
    blake3_digest, Blake3Hasher, DOMAIN_ATTESTATION_ROOT, DOMAIN_BLOCK_HASH, DOMAIN_EVIDENCE_ROOT,
    DOMAIN_GENESIS_CEREMONY_HASH, DOMAIN_TX_ROOT,
};
use crate::encoding::{
    attestation_fits, be_u32, be_u64, block_fits, enc_attestation_items, enc_block,
    enc_evidence_items, enc_opt_ceremony, evidence_fits, fits_u32, le_u32,
};
use crate::errors::{error_text, OpolysError};
use crate::refiner::saturate;
use crate::text::{ascii_chars, decimal_string, hex_of};
use crate::types::{
    Block, BlockAttestation, BlockHeader, BlockProductionKind, DoubleSignEvidence,
    GenesisCeremonyData, Transaction,
};
use vstd::prelude::*;

verus! {

/// Most slash-evidence entries a block may carry.
pub const MAX_SLASH_EVIDENCE_PER_BLOCK: usize = 10;

/// The least time (seconds) a non-genesis block must advance over its
/// parent: half the target interval, at least one second.
pub fn minimum_block_timestamp_delta_secs() -> (d: u64)
    ensures
        d == (if BLOCK_TARGET_TIME_SECS / 2 > 1 { BLOCK_TARGET_TIME_SECS / 2 } else { 1 }),
{
    let half = BLOCK_TARGET_TIME_SECS / 2;
    if half > 1 {
        half
    } else {
        1
    }
}

/// Whether two headers have the same fields (byte strings by value).
pub open spec fn same_header(a: BlockHeader, b: BlockHeader) -> bool {
    &&& a.version == b.version
    &&& a.height == b.height
    &&& a.previous_hash == b.previous_hash
    &&& a.state_root == b.state_root
    &&& a.transaction_root == b.transaction_root
    &&& a.evidence_root == b.evidence_root
    &&& a.attestation_root == b.attestation_root
    &&& a.genesis_ceremony_hash == b.genesis_ceremony_hash
    &&& a.timestamp == b.timestamp
    &&& a.difficulty == b.difficulty
    &&& a.suggested_fee == b.suggested_fee
    &&& a.extension_root == b.extension_root
    &&& a.producer == b.producer
    &&& crate::encoding::opt_view(a.pow_proof) == crate::encoding::opt_view(b.pow_proof)
    &&& crate::encoding::opt_view(a.refiner_signature) == crate::encoding::opt_view(b.refiner_signature)
}

fn clone_opt_bytes(v: &Option<Vec<u8>>) -> (r: Option<Vec<u8>>)
    ensures
        crate::encoding::opt_view(r) == crate::encoding::opt_view(*v),
{
    match v {
        Some(b) => Some(b.clone()),
        None => None,
    }
}

/// A copy of a header.
pub fn copy_header(h: &BlockHeader) -> (r: BlockHeader)
    ensures
        same_header(r, *h),
{
    BlockHeader {
        version: h.version,
        height: h.height,
        previous_hash: h.previous_hash,
        state_root: h.state_root,
        transaction_root: h.transaction_root,
        evidence_root: h.evidence_root,
        attestation_root: h.attestation_root,
        genesis_ceremony_hash: h.genesis_ceremony_hash,
        timestamp: h.timestamp,
        difficulty: h.difficulty,
        suggested_fee: h.suggested_fee,
        extension_root: h.extension_root,
        producer: h.producer,
        pow_proof: clone_opt_bytes(&h.pow_proof),
        refiner_signature: clone_opt_bytes(&h.refiner_signature),
    }
}

/// Metadata of a block for indexing: its header, number of transactions and
/// the sum of their fees.
#[derive(Debug)]
pub struct BlockInfo {
    pub header: BlockHeader,
    pub transaction_count: u32,
    pub total_transaction_fees: u64,
}

/// The sum of the fees of transactions.
pub open spec fn fees_sum(s: Seq<Transaction>) -> int
    decreases s.len(),
{
    if s.len() == 0 {
        0
    } else {
        fees_sum(s.drop_last()) + s.last().fee
    }
}

impl BlockInfo {
    /// The metadata of a block (the fee sum must fit a `u64`).
    pub fn from_block(block: &Block) -> (r: BlockInfo)
        requires
            fees_sum(block.transactions@) <= u64::MAX,
        ensures
            same_header(r.header, block.header),
            r.transaction_count == block.transactions@.len() as u32,
            r.total_transaction_fees == fees_sum(block.transactions@),
    {
        let mut total: u128 = 0;
        let mut i: usize = 0;
        while i < block.transactions.len()
            invariant
                i <= block.transactions@.len(),
                total == fees_sum(block.transactions@.take(i as int)),
                total <= i * 0x1_0000_0000_0000_0000,
            decreases block.transactions@.len() - i,
        {
            proof {
                assert(block.transactions@.take(i as int + 1).drop_last() =~= block.transactions@.take(i as int));
            }
            total = total + block.transactions[i].fee as u128;
            i = i + 1;
        }
        assert(block.transactions@.take(i as int) =~= block.transactions@);
        BlockInfo {
            header: copy_header(&block.header),
            transaction_count: block.transactions.len() as u32,
            total_transaction_fees: total as u64,
        }
    }
}

/// Whether a block is pending, confirmed, final, or on a discarded fork.
#[derive(Debug, Clone, Copy, PartialEq, Eq, Structural)]
pub enum BlockStatus {
    Pending,
    Confirmed,
    Finalized,
    Orphaned,
}

/// The optional extension root's bytes (empty when absent).
pub open spec fn ext_root_bytes(h: BlockHeader) -> Seq<u8> {
    match h.extension_root {
        Some(x) => x.bytes(),
        None => Seq::empty(),
    }
}

/// The bytes hashed into a header's hash: the block-hash domain tag, then
/// version, height, previous hash, producer, the state and body roots,
/// timestamp, difficulty, suggested fee (integers big-endian) and the
/// extension root if any.
pub open spec fn header_hash_preimage(h: BlockHeader) -> Seq<u8> {
    DOMAIN_BLOCK_HASH@ + be_u32(h.version) + be_u64(h.height) + h.previous_hash.bytes()
        + h.producer.bytes() + h.state_root.bytes() + h.transaction_root.bytes()
        + h.evidence_root.bytes() + h.attestation_root.bytes() + h.genesis_ceremony_hash.bytes()
        + be_u64(h.timestamp) + be_u64(h.difficulty) + be_u64(h.suggested_fee) + ext_root_bytes(h)
}

/// Where each field sits in the bytes a header's hash is taken of: the
/// 20-byte block-hash domain tag, the version (4 bytes, big-endian) at 20,
/// the height (8 bytes, big-endian) at 24, then the previous hash, producer,
/// state, transaction, evidence and attestation roots and ceremony hash (32
/// bytes each) from 32 to 256, the timestamp at 256, the difficulty at 264,
/// the suggested fee at 272 (8 bytes each, big-endian), and from 280 the
/// extension root when there is one.
pub proof fn lemma_header_hash_layout(h: BlockHeader)
    ensures
        ({
            let p = header_hash_preimage(h);
            &&& p.len() == 280 + (if h.extension_root is Some { 32int } else { 0int })
            &&& p.subrange(0, 20) == DOMAIN_BLOCK_HASH@
            &&& p.subrange(20, 24) == be_u32(h.version)
            &&& p.subrange(24, 32) == be_u64(h.height)
            &&& p.subrange(32, 64) == h.previous_hash.bytes()
            &&& p.subrange(64, 96) == h.producer.bytes()
            &&& p.subrange(96, 128) == h.state_root.bytes()
            &&& p.subrange(128, 160) == h.transaction_root.bytes()
            &&& p.subrange(160, 192) == h.evidence_root.bytes()
            &&& p.subrange(192, 224) == h.attestation_root.bytes()
            &&& p.subrange(224, 256) == h.genesis_ceremony_hash.bytes()
            &&& p.subrange(256, 264) == be_u64(h.timestamp)
            &&& p.subrange(264, 272) == be_u64(h.difficulty)
            &&& p.subrange(272, 280) == be_u64(h.suggested_fee)
            &&& (h.extension_root matches Some(x) ==> p.subrange(280, 312) == x.bytes())
        }),
{
    crate::pow::lemma_be_injective(h.height, h.height, h.version, h.version);
    crate::pow::lemma_be_injective(h.timestamp, h.timestamp, h.version, h.version);
    crate::pow::lemma_be_injective(h.difficulty, h.difficulty, h.version, h.version);
    crate::pow::lemma_be_injective(h.suggested_fee, h.suggested_fee, h.version, h.version);
    let p = header_hash_preimage(h);
    assert(DOMAIN_BLOCK_HASH@.len() == 20);
    assert(p.subrange(0, 20) =~= DOMAIN_BLOCK_HASH@);
    assert(p.subrange(20, 24) =~= be_u32(h.version));
    assert(p.subrange(24, 32) =~= be_u64(h.height));
    assert(p.subrange(32, 64) =~= h.previous_hash.bytes());
    assert(p.subrange(64, 96) =~= h.producer.bytes());
    assert(p.subrange(96, 128) =~= h.state_root.bytes());
    assert(p.subrange(128, 160) =~= h.transaction_root.bytes());
    assert(p.subrange(160, 192) =~= h.evidence_root.bytes());
    assert(p.subrange(192, 224) =~= h.attestation_root.bytes());
    assert(p.subrange(224, 256) =~= h.genesis_ceremony_hash.bytes());
    assert(p.subrange(256, 264) =~= be_u64(h.timestamp));
    assert(p.subrange(264, 272) =~= be_u64(h.difficulty));
    assert(p.subrange(272, 280) =~= be_u64(h.suggested_fee));
    if let Some(x) = h.extension_root {
        assert(p.subrange(280, 312) =~= x.bytes());
    }
}

/// A header's hashed bytes determine every hashed field: two headers whose
/// hashed bytes agree have the same version, height, previous hash,
/// producer, roots, ceremony hash, timestamp, difficulty, suggested fee and
/// extension root. In particular headers that differ only in their
/// timestamp are hashed from different bytes.
pub proof fn lemma_header_hash_binds_fields(h1: BlockHeader, h2: BlockHeader)
    requires
        header_hash_preimage(h1) == header_hash_preimage(h2),
    ensures
        h1.version == h2.version,
        h1.height == h2.height,
        h1.previous_hash == h2.previous_hash,
        h1.producer == h2.producer,
        h1.state_root == h2.state_root,
        h1.transaction_root == h2.transaction_root,
        h1.evidence_root == h2.evidence_root,
        h1.attestation_root == h2.attestation_root,
        h1.genesis_ceremony_hash == h2.genesis_ceremony_hash,
        h1.timestamp == h2.timestamp,
        h1.difficulty == h2.difficulty,
        h1.suggested_fee == h2.suggested_fee,
        h1.extension_root == h2.extension_root,
{
    lemma_header_hash_layout(h1);
    lemma_header_hash_layout(h2);
    crate::pow::lemma_be_injective(h1.height, h2.height, h1.version, h2.version);
    crate::pow::lemma_be_injective(h1.timestamp, h2.timestamp, h1.version, h2.version);
    crate::pow::lemma_be_injective(h1.difficulty, h2.difficulty, h1.version, h2.version);
    crate::pow::lemma_be_injective(h1.suggested_fee, h2.suggested_fee, h1.version, h2.version);
    crate::types::lemma_hash_bytes_eq(h1.previous_hash, h2.previous_hash);
    crate::types::lemma_hash_bytes_eq(h1.producer.0, h2.producer.0);
    crate::types::lemma_hash_bytes_eq(h1.state_root, h2.state_root);
    crate::types::lemma_hash_bytes_eq(h1.transaction_root, h2.transaction_root);
    crate::types::lemma_hash_bytes_eq(h1.evidence_root, h2.evidence_root);
    crate::types::lemma_hash_bytes_eq(h1.attestation_root, h2.attestation_root);
    crate::types::lemma_hash_bytes_eq(h1.genesis_ceremony_hash, h2.genesis_ceremony_hash);
    if let (Some(x1), Some(x2)) = (h1.extension_root, h2.extension_root) {
        crate::types::lemma_hash_bytes_eq(x1, x2);
    }
}

/// The Blake3 hash of a header (without its production proofs).
pub fn compute_block_hash(header: &BlockHeader) -> (h: crate::types::Hash)
    ensures
        h.bytes() == blake3_digest(header_hash_preimage(*header)),
{
    let mut b: Vec<u8> = Vec::new();
    let dom = DOMAIN_BLOCK_HASH;
    crate::encoding::push_bytes(&mut b, dom.as_slice());
    crate::encoding::push_u32_be(&mut b, header.version);
    crate::encoding::push_u64_be(&mut b, header.height);
    crate::encoding::push_bytes(&mut b, header.previous_hash.as_bytes().as_slice());
    crate::encoding::push_bytes(&mut b, header.producer.as_bytes().as_slice());
    crate::encoding::push_bytes(&mut b, header.state_root.as_bytes().as_slice());
    crate::encoding::push_bytes(&mut b, header.transaction_root.as_bytes().as_slice());
    crate::encoding::push_bytes(&mut b, header.evidence_root.as_bytes().as_slice());
    crate::encoding::push_bytes(&mut b, header.attestation_root.as_bytes().as_slice());
    crate::encoding::push_bytes(&mut b, header.genesis_ceremony_hash.as_bytes().as_slice());
    crate::encoding::push_u64_be(&mut b, header.timestamp);
    crate::encoding::push_u64_be(&mut b, header.difficulty);
    crate::encoding::push_u64_be(&mut b, header.suggested_fee);
    match &header.extension_root {
        Some(x) => {
            crate::encoding::push_bytes(&mut b, x.as_bytes().as_slice());
        },
        None => {},
    }
    assert(b@ =~= header_hash_preimage(*header));
    let mut hasher = Blake3Hasher::new();
    hasher.update(b.as_slice());
    assert(Seq::<u8>::empty() + b@ =~= b@);
    hasher.finalize()
}

/// What one transaction contributes to the transaction root: its id, fee
/// and nonce (big-endian).
pub open spec fn tx_commitment(t: Transaction) -> Seq<u8> {
    t.tx_id.bytes() + be_u64(t.fee) + be_u64(t.nonce)
}

/// The concatenated commitments of transactions.
pub open spec fn tx_commitments(s: Seq<Transaction>) -> Seq<u8>
    decreases s.len(),
{
    if s.len() == 0 {
        Seq::empty()
    } else {
        tx_commitments(s.drop_last()) + tx_commitment(s.last())
    }
}

/// The transaction root: Blake3 of the domain tag and the transactions'
/// commitments in order.
pub fn compute_transaction_root(transactions: &[Transaction]) -> (h: crate::types::Hash)
    ensures
        h.bytes() == blake3_digest(DOMAIN_TX_ROOT@ + tx_commitments(transactions@)),
{
    let mut hasher = Blake3Hasher::new();
    let dom = DOMAIN_TX_ROOT;
    hasher.update(dom.as_slice());
    let mut i: usize = 0;
    while i < transactions.len()
        invariant
            i <= transactions@.len(),
            hasher.input() == Seq::<u8>::empty() + DOMAIN_TX_ROOT@ + tx_commitments(transactions@.take(i as int)),
        decreases transactions@.len() - i,
    {
        proof {
            assert(transactions@.take(i as int + 1).drop_last() =~= transactions@.take(i as int));
        }
        let t = &transactions[i];
        hasher.update(t.tx_id.as_bytes().as_slice());
        let mut tail: Vec<u8> = Vec::new();
        crate::encoding::push_u64_be(&mut tail, t.fee);
        crate::encoding::push_u64_be(&mut tail, t.nonce);
        hasher.update(tail.as_slice());
        proof {
            assert(hasher.input() =~= Seq::<u8>::empty() + DOMAIN_TX_ROOT@ + tx_commitments(transactions@.take(i as int + 1)));
        }
        i = i + 1;
    }
    assert(transactions@.take(i as int) =~= transactions@);
    assert(Seq::<u8>::empty() + DOMAIN_TX_ROOT@ + tx_commitments(transactions@) =~= DOMAIN_TX_ROOT@ + tx_commitments(transactions@));
    hasher.finalize()
}

/// Whether all evidence entries (and their count) fit the length prefixes.
pub open spec fn evidence_list_fits(s: Seq<DoubleSignEvidence>) -> bool {
    fits_u32(s.len()) && forall|i: int| 0 <= i < s.len() ==> #[trigger] evidence_fits(s[i])
}

/// Whether all attestations (and their count) fit the length prefixes.
pub open spec fn attestation_list_fits(s: Seq<BlockAttestation>) -> bool {
    fits_u32(s.len()) && forall|i: int| 0 <= i < s.len() ==> #[trigger] attestation_fits(s[i])
}

/// The evidence root's bytes: Blake3 of the domain tag and the encoded list.
pub open spec fn evidence_root_bytes(s: Seq<DoubleSignEvidence>) -> Seq<u8> {
    blake3_digest(DOMAIN_EVIDENCE_ROOT@ + (le_u32(s.len() as u32) + enc_evidence_items(s)))
}

/// The attestation root's bytes: Blake3 of the domain tag and the encoded list.
pub open spec fn attestation_root_bytes(s: Seq<BlockAttestation>) -> Seq<u8> {
    blake3_digest(DOMAIN_ATTESTATION_ROOT@ + (le_u32(s.len() as u32) + enc_attestation_items(s)))
}

/// The genesis ceremony commitment's bytes.
pub open spec fn ceremony_hash_bytes(c: Option<GenesisCeremonyData>) -> Seq<u8> {
    blake3_digest(DOMAIN_GENESIS_CEREMONY_HASH@ + enc_opt_ceremony(c))
}

/// The root of a block's slash evidence; refused when the list cannot be
/// encoded.
pub fn compute_evidence_root(evidence: &[DoubleSignEvidence]) -> (r: Result<crate::types::Hash, OpolysError>)
    ensures
        r is Ok <==> evidence_list_fits(evidence@),
        r matches Ok(h) ==> h.bytes() == evidence_root_bytes(evidence@),
        r matches Err(e) ==> e matches OpolysError::SerializationError(m) && m@ == "Double-sign evidence serialization failed: length exceeds u32"@,
{
    match crate::encoding::encode_evidence_list(evidence) {
        Some(bytes) => {
            let dom = DOMAIN_EVIDENCE_ROOT;
            Ok(crate::crypto::hash_with_domain(dom.as_slice(), bytes.as_slice()))
        },
        None => Err(OpolysError::SerializationError(String::from_str("Double-sign evidence serialization failed: length exceeds u32"))),
    }
}

/// The root of a block's attestations; refused when the list cannot be
/// encoded.
pub fn compute_attestation_root(attestations: &[BlockAttestation]) -> (r: Result<crate::types::Hash, OpolysError>)
    ensures
        r is Ok <==> attestation_list_fits(attestations@),
        r matches Ok(h) ==> h.bytes() == attestation_root_bytes(attestations@),
        r matches Err(e) ==> e matches OpolysError::SerializationError(m) && m@ == "Block attestation serialization failed: length exceeds u32"@,
{
    match crate::encoding::encode_attestation_list(attestations) {
        Some(bytes) => {
            let dom = DOMAIN_ATTESTATION_ROOT;
            Ok(crate::crypto::hash_with_domain(dom.as_slice(), bytes.as_slice()))
        },
        None => Err(OpolysError::SerializationError(String::from_str("Block attestation serialization failed: length exceeds u32"))),
    }
}

/// The commitment to the optional genesis ceremony payload (always encodable).
pub fn compute_genesis_ceremony_hash(ceremony: &Option<GenesisCeremonyData>) -> (r: Result<crate::types::Hash, OpolysError>)
    ensures
        r matches Ok(h) && h.bytes() == ceremony_hash_bytes(*ceremony),
{
    let bytes = crate::encoding::encode_opt_ceremony(ceremony);
    let dom = DOMAIN_GENESIS_CEREMONY_HASH;
    Ok(crate::crypto::hash_with_domain(dom.as_slice(), bytes.as_slice()))
}

/// Fills the four body roots of the header from the body; refused (after the
/// transaction root is set) when the evidence or attestations cannot be
/// encoded.
pub fn set_body_roots(block: &mut Block) -> (r: Result<(), OpolysError>)
    ensures
        final(block).transactions == old(block).transactions,
        final(block).slash_evidence == old(block).slash_evidence,
        final(block).attestations == old(block).attestations,
        final(block).genesis_ceremony == old(block).genesis_ceremony,
        final(block).header.transaction_root.bytes() == blake3_digest(DOMAIN_TX_ROOT@ + tx_commitments(old(block).transactions@)),
        r is Ok <==> evidence_list_fits(old(block).slash_evidence@) && attestation_list_fits(old(block).attestations@),
        r is Ok ==> final(block).header.evidence_root.bytes() == evidence_root_bytes(old(block).slash_evidence@)
            && final(block).header.attestation_root.bytes() == attestation_root_bytes(old(block).attestations@)
            && final(block).header.genesis_ceremony_hash.bytes() == ceremony_hash_bytes(old(block).genesis_ceremony),
        final(block).header.version == old(block).header.version,
        final(block).header.height == old(block).header.height,
        final(block).header.previous_hash == old(block).header.previous_hash,
        final(block).header.state_root == old(block).header.state_root,
        final(block).header.timestamp == old(block).header.timestamp,
        final(block).header.difficulty == old(block).header.difficulty,
        final(block).header.suggested_fee == old(block).header.suggested_fee,
        final(block).header.extension_root == old(block).header.extension_root,
        final(block).header.producer == old(block).header.producer,
        final(block).header.pow_proof == old(block).header.pow_proof,
        final(block).header.refiner_signature == old(block).header.refiner_signature,
{
    block.header.transaction_root = compute_transaction_root(block.transactions.as_slice());
    block.header.evidence_root = compute_evidence_root(block.slash_evidence.as_slice())?;
    block.header.attestation_root = compute_attestation_root(block.attestations.as_slice())?;
    block.header.genesis_ceremony_hash = compute_genesis_ceremony_hash(&block.genesis_ceremony)?;
    Ok(())
}

/// Formats Flakes as `"<whole>.<6 digits> OPL"`.
pub fn format_opl(flakes: u64) -> (s: String)
    ensures
        s@ == ascii_chars(crate::types::opl_display(flakes)),
{
    crate::types::format_flake_as_opl(flakes)
}


/// The hexadecimal rendering of bytes as characters.
pub open spec fn hexc(b: Seq<u8>) -> Seq<char> {
    ascii_chars(hex_of(b))
}

/// Whether transaction `j` repeats the id of an earlier one.
pub open spec fn repeats_id(s: Seq<Transaction>, j: int) -> bool {
    exists|i: int| 0 <= i < j && #[trigger] s[i].tx_id == s[j].tx_id
}

/// The first transaction at or after `j` that repeats an earlier id.
pub open spec fn first_repeat(s: Seq<Transaction>, j: int) -> Option<int>
    decreases s.len() - j,
{
    if j < 0 || j >= s.len() {
        None
    } else if repeats_id(s, j) {
        Some(j)
    } else {
        first_repeat(s, j + 1)
    }
}

/// The first transaction at or after `j` whose data exceeds the limit.
pub open spec fn first_big_data(s: Seq<Transaction>, j: int) -> Option<int>
    decreases s.len() - j,
{
    if j < 0 || j >= s.len() {
        None
    } else if s[j].data@.len() > MAX_TX_DATA_SIZE_BYTES {
        Some(j)
    } else {
        first_big_data(s, j + 1)
    }
}

/// The first transaction at or after `j` whose fee is below the minimum.
pub open spec fn first_low_fee(s: Seq<Transaction>, j: int) -> Option<int>
    decreases s.len() - j,
{
    if j < 0 || j >= s.len() {
        None
    } else if s[j].fee < MIN_FEE {
        Some(j)
    } else {
        first_low_fee(s, j + 1)
    }
}

/// The encoded size of a block (`usize::MAX` when it cannot be encoded).
pub open spec fn block_size(b: Block) -> int {
    if block_fits(b) {
        enc_block(b).len() as int
    } else {
        usize::MAX as int
    }
}

/// A block-validation failure message.
pub open spec fn bvf(m: Seq<char>) -> Option<Seq<char>> {
    Some("Block validation failed: "@ + m + ""@)
}

/// The checks of the production proof of a block after genesis.
pub open spec fn proof_error(b: Block, pow_light_verified: bool) -> Option<Seq<char>> {
    let h = b.header;
    match h.spec_production_kind() {
        None => bvf("Block must have exactly one production proof"@),
        Some(kind) => if h.producer.bytes() == crate::types::zero_bytes32() {
            bvf("Block producer must be a non-zero ObjectId"@)
        } else if kind == BlockProductionKind::Mined {
            if h.difficulty == 0 || (crate::pow::pow_nonce_spec(h) is Some && pow_light_verified) {
                None
            } else {
                Some("Invalid proof of work"@)
            }
        } else if kind == BlockProductionKind::Refined {
            let len = h.refiner_signature->0@.len();
            if len != 64 {
                bvf("Invalid refiner signature length: "@ + dec_str(len as u64) + " bytes (expected 64)"@)
            } else {
                None
            }
        } else {
            None
        },
    }
}

/// The first failure of two checks run in order.
pub open spec fn first_failure(a: Option<Seq<char>>, b: Option<Seq<char>>) -> Option<Seq<char>> {
    if a is Some {
        a
    } else {
        b
    }
}

/// The header checks: version, height, previous hash, timestamp window
/// (at least 45 s after the parent after genesis, at most 300 s ahead of the
/// clock) and difficulty.
pub open spec fn header_error(
    b: Block,
    expected_height: u64,
    parent_hash: crate::types::Hash,
    parent_timestamp: u64,
    expected_difficulty: u64,
    now_secs: u64,
) -> Option<Seq<char>> {
    let h = b.header;
    let min_ts = saturate(parent_timestamp + 45) as u64;
    let max_ts = saturate(now_secs + MAX_FUTURE_BLOCK_TIME_SECS) as u64;
    if h.version != BLOCK_VERSION {
        bvf("Block version mismatch: expected "@ + dec_str(BLOCK_VERSION as u64) + ", got "@ + dec_str(h.version as u64))
    } else if h.height != expected_height {
        bvf("Block height mismatch: expected "@ + dec_str(expected_height) + ", got "@ + dec_str(h.height))
    } else if h.previous_hash != parent_hash {
        bvf("Block previous_hash mismatch: expected "@ + hexc(parent_hash.bytes()) + ", got "@ + hexc(h.previous_hash.bytes()))
    } else if expected_height > 0 && h.timestamp < min_ts {
        bvf("Block timestamp "@ + dec_str(h.timestamp) + " is too compressed: minimum allowed is "@ + dec_str(min_ts))
    } else if h.timestamp > max_ts {
        bvf("Block timestamp "@ + dec_str(h.timestamp) + " is too far in the future (max allowed: "@ + dec_str(max_ts) + ")"@)
    } else if h.difficulty != expected_difficulty {
        bvf("Block difficulty mismatch: expected "@ + dec_str(expected_difficulty) + ", got "@ + dec_str(h.difficulty))
    } else {
        None
    }
}

/// The size checks: transaction, evidence and attestation counts, then the
/// encoded block size.
pub open spec fn size_error(b: Block) -> Option<Seq<char>> {
    let txs = b.transactions@;
    if txs.len() > MAX_TRANSACTIONS_PER_BLOCK {
        bvf("Too many transactions: "@ + dec_str(txs.len() as u64) + " > "@ + dec_str(MAX_TRANSACTIONS_PER_BLOCK as u64))
    } else if b.slash_evidence@.len() > MAX_SLASH_EVIDENCE_PER_BLOCK {
        bvf("Too many slash evidence entries: "@ + dec_str(b.slash_evidence@.len() as u64) + " > "@ + dec_str(MAX_SLASH_EVIDENCE_PER_BLOCK as u64))
    } else if b.attestations@.len() > MAX_ATTESTATIONS_PER_BLOCK {
        bvf("Too many attestations: "@ + dec_str(b.attestations@.len() as u64) + " > "@ + dec_str(MAX_ATTESTATIONS_PER_BLOCK as u64))
    } else if block_size(b) > MAX_BLOCK_SIZE_BYTES {
        bvf("Block too large: "@ + dec_str(block_size(b) as u64) + " bytes > "@ + dec_str(MAX_BLOCK_SIZE_BYTES as u64) + " bytes"@)
    } else {
        None
    }
}

/// The body-root checks: transaction, evidence and attestation roots and
/// the genesis ceremony commitment must match the body.
pub open spec fn root_error(b: Block) -> Option<Seq<char>> {
    let h = b.header;
    let tx_root = blake3_digest(DOMAIN_TX_ROOT@ + tx_commitments(b.transactions@));
    if h.transaction_root.bytes() != tx_root {
        bvf("Transaction root mismatch: expected "@ + hexc(tx_root) + ", got "@ + hexc(h.transaction_root.bytes()))
    } else if h.evidence_root.bytes() != evidence_root_bytes(b.slash_evidence@) {
        bvf("Evidence root mismatch: expected "@ + hexc(evidence_root_bytes(b.slash_evidence@)) + ", got "@ + hexc(h.evidence_root.bytes()))
    } else if h.attestation_root.bytes() != attestation_root_bytes(b.attestations@) {
        bvf("Attestation root mismatch: expected "@ + hexc(attestation_root_bytes(b.attestations@)) + ", got "@ + hexc(h.attestation_root.bytes()))
    } else if h.genesis_ceremony_hash.bytes() != ceremony_hash_bytes(b.genesis_ceremony) {
        bvf("Genesis ceremony hash mismatch: expected "@ + hexc(ceremony_hash_bytes(b.genesis_ceremony)) + ", got "@ + hexc(h.genesis_ceremony_hash.bytes()))
    } else {
        None
    }
}

/// The transaction checks: no repeated id, data within the limit, fees at
/// least the minimum (each reporting the first offending transaction).
pub open spec fn tx_error(b: Block) -> Option<Seq<char>> {
    let txs = b.transactions@;
    if first_repeat(txs, 0) is Some {
        let j = first_repeat(txs, 0)->0;
        bvf("Duplicate transaction "@ + hexc(txs[j].tx_id.bytes()) + " in block "@ + dec_str(b.header.height))
    } else if first_big_data(txs, 0) is Some {
        let j = first_big_data(txs, 0)->0;
        bvf("Transaction "@ + hexc(txs[j].tx_id.bytes()) + " data too large: "@ + dec_str(txs[j].data@.len() as u64) + " bytes > "@ + dec_str(MAX_TX_DATA_SIZE_BYTES as u64) + " bytes"@)
    } else if first_low_fee(txs, 0) is Some {
        let j = first_low_fee(txs, 0)->0;
        bvf("Transaction "@ + hexc(txs[j].tx_id.bytes()) + " fee below minimum: "@ + dec_str(txs[j].fee) + " < "@ + dec_str(MIN_FEE))
    } else {
        None
    }
}

/// Why a block fails validation (the message of the error), or `None` when
/// it is valid: header, size, body-root and transaction checks, then (after
/// genesis) the production proof.
pub open spec fn validation_error(
    b: Block,
    expected_height: u64,
    parent_hash: crate::types::Hash,
    parent_timestamp: u64,
    expected_difficulty: u64,
    now_secs: u64,
    pow_light_verified: bool,
) -> Option<Seq<char>> {
    first_failure(
        header_error(b, expected_height, parent_hash, parent_timestamp, expected_difficulty, now_secs),
        first_failure(
            size_error(b),
            first_failure(
                root_error(b),
                first_failure(
                    tx_error(b),
                    if expected_height > 0 { proof_error(b, pow_light_verified) } else { None },
                ),
            ),
        ),
    )
}

fn bv_err(m: String) -> (e: OpolysError)
    ensures
        e == OpolysError::BlockValidationFailed(m),
{
    OpolysError::BlockValidationFailed(m)
}

fn push_dec(s: &mut String, n: u64)
    ensures
        final(s)@ == old(s)@ + dec_str(n),
{
    s.append(decimal_string(n).as_str());
}

fn check_header(block: &Block, expected_height: u64, parent_hash: &crate::types::Hash, parent_timestamp: u64, expected_difficulty: u64, now_secs: u64) -> (r: Result<(), OpolysError>)
    ensures
        r is Ok <==> header_error(*block, expected_height, *parent_hash, parent_timestamp, expected_difficulty, now_secs) is None,
        r matches Err(e) ==> header_error(*block, expected_height, *parent_hash, parent_timestamp, expected_difficulty, now_secs) == Some(error_text(e)),
        r matches Err(e) ==> e is BlockValidationFailed,
{
    let h = &block.header;
    if h.version != BLOCK_VERSION {
        let mut m = String::from_str("Block version mismatch: expected ");
        push_dec(&mut m, BLOCK_VERSION as u64);
        m.append(", got ");
        push_dec(&mut m, h.version as u64);
        return Err(bv_err(m));
    }
    if h.height != expected_height {
        let mut m = String::from_str("Block height mismatch: expected ");
        push_dec(&mut m, expected_height);
        m.append(", got ");
        push_dec(&mut m, h.height);
        return Err(bv_err(m));
    }
    if !crate::types::hash_eq(&h.previous_hash, parent_hash) {
        let mut m = String::from_str("Block previous_hash mismatch: expected ");
        m.append(parent_hash.to_hex().as_str());
        m.append(", got ");
        m.append(h.previous_hash.to_hex().as_str());
        return Err(bv_err(m));
    }
    if expected_height > 0 {
        let min_timestamp = parent_timestamp.saturating_add(minimum_block_timestamp_delta_secs());
        if h.timestamp < min_timestamp {
            let mut m = String::from_str("Block timestamp ");
            push_dec(&mut m, h.timestamp);
            m.append(" is too compressed: minimum allowed is ");
            push_dec(&mut m, min_timestamp);
            return Err(bv_err(m));
        }
    }
    let max_ts = now_secs.saturating_add(MAX_FUTURE_BLOCK_TIME_SECS);
    if h.timestamp > max_ts {
        let mut m = String::from_str("Block timestamp ");
        push_dec(&mut m, h.timestamp);
        m.append(" is too far in the future (max allowed: ");
        push_dec(&mut m, max_ts);
        m.append(")");
        return Err(bv_err(m));
    }
    if h.difficulty != expected_difficulty {
        let mut m = String::from_str("Block difficulty mismatch: expected ");
        push_dec(&mut m, expected_difficulty);
        m.append(", got ");
        push_dec(&mut m, h.difficulty);
        return Err(bv_err(m));
    }
    Ok(())
}

fn check_size(block: &Block) -> (r: Result<(), OpolysError>)
    ensures
        r is Ok <==> size_error(*block) is None,
        r matches Err(e) ==> size_error(*block) == Some(error_text(e)),
        r matches Err(e) ==> e is BlockValidationFailed,
        r is Ok ==> block_fits(*block),
{
    if block.transactions.len() > MAX_TRANSACTIONS_PER_BLOCK {
        let mut m = String::from_str("Too many transactions: ");
        push_dec(&mut m, block.transactions.len() as u64);
        m.append(" > ");
        push_dec(&mut m, MAX_TRANSACTIONS_PER_BLOCK as u64);
        return Err(bv_err(m));
    }
    if block.slash_evidence.len() > MAX_SLASH_EVIDENCE_PER_BLOCK {
        let mut m = String::from_str("Too many slash evidence entries: ");
        push_dec(&mut m, block.slash_evidence.len() as u64);
        m.append(" > ");
        push_dec(&mut m, MAX_SLASH_EVIDENCE_PER_BLOCK as u64);
        return Err(bv_err(m));
    }
    if block.attestations.len() > MAX_ATTESTATIONS_PER_BLOCK {
        let mut m = String::from_str("Too many attestations: ");
        push_dec(&mut m, block.attestations.len() as u64);
        m.append(" > ");
        push_dec(&mut m, MAX_ATTESTATIONS_PER_BLOCK as u64);
        return Err(bv_err(m));
    }
    let block_size: usize = match crate::encoding::encode_block(block) {
        Some(v) => v.len(),
        None => usize::MAX,
    };
    if block_size > MAX_BLOCK_SIZE_BYTES {
        let mut m = String::from_str("Block too large: ");
        push_dec(&mut m, block_size as u64);
        m.append(" bytes > ");
        push_dec(&mut m, MAX_BLOCK_SIZE_BYTES as u64);
        m.append(" bytes");
        return Err(bv_err(m));
    }
    Ok(())
}

fn check_roots(block: &Block) -> (r: Result<(), OpolysError>)
    requires
        block_fits(*block),
    ensures
        r is Ok <==> root_error(*block) is None,
        r matches Err(e) ==> root_error(*block) == Some(error_text(e)),
        r matches Err(e) ==> e is BlockValidationFailed,
{
    let h = &block.header;
    let computed_root = compute_transaction_root(block.transactions.as_slice());
    if !crate::types::hash_eq(&h.transaction_root, &computed_root) {
        let mut m = String::from_str("Transaction root mismatch: expected ");
        m.append(computed_root.to_hex().as_str());
        m.append(", got ");
        m.append(h.transaction_root.to_hex().as_str());
        return Err(bv_err(m));
    }
    let computed_evidence_root = compute_evidence_root(block.slash_evidence.as_slice())?;
    if !crate::types::hash_eq(&h.evidence_root, &computed_evidence_root) {
        let mut m = String::from_str("Evidence root mismatch: expected ");
        m.append(computed_evidence_root.to_hex().as_str());
        m.append(", got ");
        m.append(h.evidence_root.to_hex().as_str());
        return Err(bv_err(m));
    }
    let computed_attestation_root = compute_attestation_root(block.attestations.as_slice())?;
    if !crate::types::hash_eq(&h.attestation_root, &computed_attestation_root) {
        let mut m = String::from_str("Attestation root mismatch: expected ");
        m.append(computed_attestation_root.to_hex().as_str());
        m.append(", got ");
        m.append(h.attestation_root.to_hex().as_str());
        return Err(bv_err(m));
    }
    let computed_ceremony = compute_genesis_ceremony_hash(&block.genesis_ceremony)?;
    if !crate::types::hash_eq(&h.genesis_ceremony_hash, &computed_ceremony) {
        let mut m = String::from_str("Genesis ceremony hash mismatch: expected ");
        m.append(computed_ceremony.to_hex().as_str());
        m.append(", got ");
        m.append(h.genesis_ceremony_hash.to_hex().as_str());
        return Err(bv_err(m));
    }
    Ok(())
}

fn check_transactions(block: &Block) -> (r: Result<(), OpolysError>)
    ensures
        r is Ok <==> tx_error(*block) is None,
        r matches Err(e) ==> tx_error(*block) == Some(error_text(e)),
        r matches Err(e) ==> e is BlockValidationFailed,
{
    let h = &block.header;
    let txs = &block.transactions;
    let mut j: usize = 0;
    while j < txs.len()
        invariant
            txs@ == block.transactions@,
            j <= txs@.len(),
            forall|q: int| 0 <= q < j ==> !repeats_id(txs@, q),
        decreases txs@.len() - j,
    {
        let mut i: usize = 0;
        while i < j
            invariant
                txs@ == block.transactions@,
            txs@ == block.transactions@,
                i <= j < txs@.len(),
                forall|q: int| 0 <= q < i ==> txs@[q].tx_id != txs@[j as int].tx_id,
                forall|q: int| 0 <= q < j ==> !repeats_id(txs@, q),
            decreases j - i,
        {
            if crate::types::id_eq(&txs[i].tx_id, &txs[j].tx_id) {
                proof {
                    assert(repeats_id(txs@, j as int));
                    lemma_first_from(txs@, j as int, 0);
                    assert(first_repeat(block.transactions@, 0) == Some(j as int));
                    assert(tx_error(*block) is Some);
                }
                let mut m = String::from_str("Duplicate transaction ");
                m.append(txs[j].tx_id.to_hex().as_str());
                m.append(" in block ");
                push_dec(&mut m, block.header.height);
                return Err(bv_err(m));
            }
            i = i + 1;
        }
        j = j + 1;
    }
    proof {
        lemma_no_repeat(txs@, 0);
    }
    let mut k: usize = 0;
    while k < txs.len()
        invariant
            txs@ == block.transactions@,
            k <= txs@.len(),
            forall|q: int| 0 <= q < k ==> txs@[q].data@.len() <= MAX_TX_DATA_SIZE_BYTES,
            first_repeat(txs@, 0) is None,
        decreases txs@.len() - k,
    {
        if txs[k].data.len() > MAX_TX_DATA_SIZE_BYTES {
            proof {
                lemma_first_big_from(txs@, k as int, 0);
            }
            let mut m = String::from_str("Transaction ");
            m.append(txs[k].tx_id.to_hex().as_str());
            m.append(" data too large: ");
            push_dec(&mut m, txs[k].data.len() as u64);
            m.append(" bytes > ");
            push_dec(&mut m, MAX_TX_DATA_SIZE_BYTES as u64);
            m.append(" bytes");
            return Err(bv_err(m));
        }
        k = k + 1;
    }
    proof {
        lemma_no_big(txs@, 0);
    }
    let mut f: usize = 0;
    while f < txs.len()
        invariant
            txs@ == block.transactions@,
            f <= txs@.len(),
            forall|q: int| 0 <= q < f ==> txs@[q].fee >= MIN_FEE,
            first_repeat(txs@, 0) is None,
            first_big_data(txs@, 0) is None,
        decreases txs@.len() - f,
    {
        if txs[f].fee < MIN_FEE {
            proof {
                lemma_first_low_from(txs@, f as int, 0);
            }
            let mut m = String::from_str("Transaction ");
            m.append(txs[f].tx_id.to_hex().as_str());
            m.append(" fee below minimum: ");
            push_dec(&mut m, txs[f].fee);
            m.append(" < ");
            push_dec(&mut m, MIN_FEE);
            return Err(bv_err(m));
        }
        f = f + 1;
    }
    proof {
        lemma_no_low(txs@, 0);
    }
    Ok(())
}

fn check_proof(block: &Block, pow_light_verified: bool) -> (r: Result<(), OpolysError>)
    ensures
        r is Ok <==> proof_error(*block, pow_light_verified) is None,
        r matches Err(e) ==> proof_error(*block, pow_light_verified) == Some(error_text(e)),
        r matches Err(e) ==> e is BlockValidationFailed || e is InvalidProofOfWork,
{
    let h = &block.header;
    let kind = match h.production_kind() {
        Some(k) => k,
        None => {
            return Err(bv_err(String::from_str("Block must have exactly one production proof")));
        },
    };
    if h.producer.is_zero() {
        return Err(bv_err(String::from_str("Block producer must be a non-zero ObjectId")));
    }
    match kind {
        BlockProductionKind::Mined => {
            crate::pow::verify_pow_light(h, h.difficulty, pow_light_verified)?;
        },
        BlockProductionKind::Refined => {
            match &h.refiner_signature {
                Some(sig) => {
                    if sig.len() != 64 {
                        let mut m = String::from_str("Invalid refiner signature length: ");
                        push_dec(&mut m, sig.len() as u64);
                        m.append(" bytes (expected 64)");
                        return Err(bv_err(m));
                    }
                },
                None => {},
            }
        },
        BlockProductionKind::Genesis => {},
    }
    Ok(())
}

/// Whether `r` is the validation failure whose text is `t`.
pub open spec fn refused_as_invalid_block(r: Result<(), OpolysError>, t: Seq<char>) -> bool {
    r matches Err(OpolysError::BlockValidationFailed(m)) && t == "Block validation failed: "@ + m@ + ""@
}

/// Validates a block against its parent and the clock: see
/// `validation_error` for the checks and their order. `pow_light_verified`
/// is the EVO-OMAP light verification verdict for a mined block.
pub fn validate_block(
    block: &Block,
    expected_height: u64,
    parent_hash: &crate::types::Hash,
    parent_timestamp: u64,
    expected_difficulty: u64,
    now_secs: u64,
    pow_light_verified: bool,
) -> (r: Result<(), OpolysError>)
    ensures
        r is Ok <==> validation_error(*block, expected_height, *parent_hash, parent_timestamp, expected_difficulty, now_secs, pow_light_verified) is None,
        r matches Err(e) ==> validation_error(*block, expected_height, *parent_hash, parent_timestamp, expected_difficulty, now_secs, pow_light_verified) == Some(error_text(e)),
        r matches Err(e) ==> e is BlockValidationFailed || e is InvalidProofOfWork,
        validation_error(*block, expected_height, *parent_hash, parent_timestamp, expected_difficulty, now_secs, pow_light_verified) matches Some(t)
            ==> (t != "Invalid proof of work"@ ==> refused_as_invalid_block(r, t)),
{
    check_header(block, expected_height, parent_hash, parent_timestamp, expected_difficulty, now_secs)?;
    check_size(block)?;
    check_roots(block)?;
    check_transactions(block)?;
    if expected_height > 0 {
        check_proof(block, pow_light_verified)?;
    }
    Ok(())
}

proof fn lemma_first_from(s: Seq<Transaction>, j: int, from: int)
    requires
        0 <= from <= j < s.len(),
        repeats_id(s, j),
        forall|q: int| from <= q < j ==> !repeats_id(s, q),
    ensures
        first_repeat(s, from) == Some(j),
    decreases j - from,
{
    if from < j {
        lemma_first_from(s, j, from + 1);
    }
}

proof fn lemma_no_repeat(s: Seq<Transaction>, from: int)
    requires
        0 <= from <= s.len(),
        forall|q: int| from <= q < s.len() ==> !repeats_id(s, q),
    ensures
        first_repeat(s, from) is None,
    decreases s.len() - from,
{
    if from < s.len() {
        lemma_no_repeat(s, from + 1);
    }
}

proof fn lemma_first_big_from(s: Seq<Transaction>, j: int, from: int)
    requires
        0 <= from <= j < s.len(),
        s[j].data@.len() > MAX_TX_DATA_SIZE_BYTES,
        forall|q: int| from <= q < j ==> s[q].data@.len() <= MAX_TX_DATA_SIZE_BYTES,
    ensures
        first_big_data(s, from) == Some(j),
    decreases j - from,
{
    if from < j {
        lemma_first_big_from(s, j, from + 1);
    }
}

proof fn lemma_no_big(s: Seq<Transaction>, from: int)
    requires
        0 <= from <= s.len(),
        forall|q: int| from <= q < s.len() ==> s[q].data@.len() <= MAX_TX_DATA_SIZE_BYTES,
    ensures
        first_big_data(s, from) is None,
    decreases s.len() - from,
{
    if from < s.len() {
        lemma_no_big(s, from + 1);
    }
}

proof fn lemma_first_low_from(s: Seq<Transaction>, j: int, from: int)
    requires
        0 <= from <= j < s.len(),
        s[j].fee < MIN_FEE,
        forall|q: int| from <= q < j ==> s[q].fee >= MIN_FEE,
    ensures
        first_low_fee(s, from) == Some(j),
    decreases j - from,
{
    if from < j {
        lemma_first_low_from(s, j, from + 1);
    }
}

proof fn lemma_no_low(s: Seq<Transaction>, from: int)
    requires
        0 <= from <= s.len(),
        forall|q: int| from <= q < s.len() ==> s[q].fee >= MIN_FEE,
    ensures
        first_low_fee(s, from) is None,
    decreases s.len() - from,
{
    if from < s.len() {
        lemma_no_low(s, from + 1);
    }
}

} // verus!
