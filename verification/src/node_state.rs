//! The chain state of a full node and the block state transition: checking a
//! block against the tip, recording refiner attestations and finality,
//! checking the producer, applying slash evidence, detecting double signing,
//! paying the block reward, executing the transactions, running the epoch
//! maintenance and committing the new state root.
//!
//! What needs storage, the clock or the EVO-OMAP dataset is gathered by the
//! caller into a `BlockEnvironment` before the transition runs.
use crate::account::{AccountStore, AccountView};
use crate::block::{compute_block_hash, header_hash_preimage, validate_block, validation_error};
use crate::chain::{
    block_attestation_signing_payload, compute_reward_distribution, coverage_milli,
    finalized_height_from_attestation_weights, refiner_block_signing_payload,
    active_refiner_weight_milli_threshold, verify_block_attestation_against_refiners,
    verify_slash_evidence, RewardDistribution,
};
use crate::constants::{BASE_REWARD, EPOCH, MAINNET_CHAIN_ID, MIN_DIFFICULTY, MIN_FEE};
use crate::crypto::{blake3_digest, verify_ed25519, Blake3Hasher, DOMAIN_STATE_ROOT};
use crate::difficulty::{compute_next_difficulty, consensus_floor_spec, retarget_spec, DifficultyTarget};
use crate::dispatcher::{
    accounts_after_action, action_burn, action_succeeds, key_registered, refiners_after_action,
    refiners_unchanged, verify_error_text, TransactionDispatcher,
};
use crate::emission::{compute_block_reward, compute_suggested_fee};
use crate::encoding::push_u64_be;
use crate::genesis::{
    account_views, apply_genesis_accounts, build_genesis_block, genesis_credit, genesis_fold, genesis_state_preimage,
    genesis_total, GenesisConfig,
};
use crate::mempool::Mempool;
use crate::pow::compute_pow_hash_value;
use crate::refiner::saturate;
use crate::refiner_set::{ids_stake, RefinerSet};
use crate::text::{ascii_chars, decimal_string, hex_of};
use crate::types::{
    hash_eq, id_eq, Block, BlockAttestation, BlockHeader, DoubleSignEvidence, FlakeAmount,
    ObjectId, RefinerStatus, Transaction,
};
use vstd::prelude::*;
use vstd::string::StringExecFns;

verus! {

/// The chain-level state of a node.
pub struct ChainState {
    /// Height of the tip (0 = genesis).
    pub current_height: u64,
    /// Difficulty of the tip.
    pub current_difficulty: u64,
    /// Flakes issued by block rewards so far.
    pub total_issued: FlakeAmount,
    /// Flakes burned so far (fees, assay, slashing, decay).
    pub total_burned: FlakeAmount,
    /// Timestamps of the blocks so far, oldest first.
    pub block_timestamps: Vec<u64>,
    /// Hash of the genesis header.
    pub genesis_hash: crate::types::Hash,
    /// Hash of the tip's header.
    pub latest_block_hash: crate::types::Hash,
    /// State root after the tip; the next block must carry it.
    pub state_root: crate::types::Hash,
    /// Suggested fee for the next block.
    pub suggested_fee: FlakeAmount,
    /// (height, producer, block hash, signature) of each refined block seen,
    /// to detect a second, different block signed at the same height.
    pub producer_signatures: Vec<(u64, ObjectId, crate::types::Hash, Vec<u8>)>,
    /// Base block reward of this chain.
    pub base_reward: FlakeAmount,
    /// Height of the most recently finalized block.
    pub finalized_height: u64,
}

/// Whether `b` is the genesis block that `c` builds.
pub open spec fn is_genesis_of(c: GenesisConfig, b: Block) -> bool {
    &&& b.header.version == crate::constants::BLOCK_VERSION
    &&& b.header.height == 0
    &&& b.header.previous_hash.bytes() == crate::types::zero_bytes32()
    &&& b.header.state_root.bytes() == blake3_digest(genesis_state_preimage(c))
    &&& b.header.transaction_root.bytes() == crate::types::zero_bytes32()
    &&& b.header.evidence_root.bytes() == crate::types::zero_bytes32()
    &&& b.header.attestation_root.bytes() == crate::types::zero_bytes32()
    &&& b.header.genesis_ceremony_hash.bytes() == crate::types::zero_bytes32()
    &&& b.header.timestamp == c.attestation.ceremony_timestamp
    &&& b.header.difficulty == c.initial_difficulty
    &&& b.header.suggested_fee == MIN_FEE
    &&& b.header.extension_root is None
    &&& b.header.producer.bytes() == crate::types::zero_bytes32()
    &&& b.header.pow_proof is None
    &&& b.header.refiner_signature is None
}

impl ChainState {
    /// The state of a chain that consists of the genesis block of `config`.
    pub fn new(genesis_config: &GenesisConfig) -> (c: Self)
        ensures
            c.current_height == 0,
            c.current_difficulty == genesis_config.initial_difficulty,
            c.total_issued == 0,
            c.total_burned == 0,
            c.block_timestamps@ == seq![genesis_config.attestation.ceremony_timestamp],
            exists|b: Block|
                #[trigger] is_genesis_of(*genesis_config, b) && c.genesis_hash.bytes() == blake3_digest(
                    header_hash_preimage(b.header),
                ),
            c.latest_block_hash == c.genesis_hash,
            c.state_root.bytes() == blake3_digest(genesis_state_preimage(*genesis_config)),
            c.suggested_fee == MIN_FEE,
            c.producer_signatures@.len() == 0,
            c.base_reward == BASE_REWARD,
            c.finalized_height == 0,
    {
        let genesis = build_genesis_block(genesis_config);
        let genesis_hash = compute_block_hash(&genesis.header);
        assert(is_genesis_of(*genesis_config, genesis));
        let mut timestamps: Vec<u64> = Vec::new();
        timestamps.push(genesis.header.timestamp);
        ChainState {
            current_height: 0,
            current_difficulty: genesis_config.initial_difficulty,
            total_issued: 0,
            total_burned: 0,
            block_timestamps: timestamps,
            genesis_hash,
            latest_block_hash: genesis_hash,
            state_root: genesis.header.state_root,
            suggested_fee: MIN_FEE,
            producer_signatures: Vec::new(),
            base_reward: BASE_REWARD,
            finalized_height: 0,
        }
    }

    /// The node's state on a fresh start: the chain of the genesis block of
    /// `config`, with its pre-funded accounts credited to `accounts` and
    /// their (saturating) total counted as issued.
    pub fn from_genesis(genesis_config: &GenesisConfig, accounts: &mut AccountStore) -> (c: Self)
        requires
            old(accounts).wf(),
        ensures
            final(accounts).wf(),
            account_views(final(accounts)@) == genesis_fold(account_views(old(accounts)@), genesis_config.genesis_accounts@),
            c.total_issued == genesis_total(genesis_config.genesis_accounts@),
            c.current_height == 0,
            c.current_difficulty == genesis_config.initial_difficulty,
            c.total_burned == 0,
            c.block_timestamps@ == seq![genesis_config.attestation.ceremony_timestamp],
            exists|b: Block|
                #[trigger] is_genesis_of(*genesis_config, b) && c.genesis_hash.bytes() == blake3_digest(
                    header_hash_preimage(b.header),
                ),
            c.latest_block_hash == c.genesis_hash,
            c.state_root.bytes() == blake3_digest(genesis_state_preimage(*genesis_config)),
            c.suggested_fee == MIN_FEE,
            c.producer_signatures@.len() == 0,
            c.base_reward == BASE_REWARD,
            c.finalized_height == 0,
    {
        let mut c = ChainState::new(genesis_config);
        let issued = apply_genesis_accounts(genesis_config, accounts);
        c.total_issued = c.total_issued.saturating_add(issued);
        c
    }

    /// Checks that a persisted state belongs to this chain: the chain id and
    /// the genesis hash must be the expected ones.
    pub fn check_persisted_identity(p: &PersistedChainState, chain_id: u64, genesis_hash: &crate::types::Hash) -> (r: Result<(), String>)
        ensures
            p.chain_id != chain_id ==> (r matches Err(m) && m@ == "persisted chain_id "@ + crate::account::dec_str(p.chain_id)
                + " does not match expected mainnet chain_id "@ + crate::account::dec_str(chain_id)),
            p.chain_id == chain_id && p.genesis_hash@ != genesis_hash.bytes() ==> (r matches Err(m) && m@
                == "persisted genesis "@ + ascii_chars(hex_of(p.genesis_hash@)) + " does not match expected genesis "@
                + hash_hex(*genesis_hash)),
            r is Ok <==> p.chain_id == chain_id && p.genesis_hash@ == genesis_hash.bytes(),
    {
        if p.chain_id != chain_id {
            let mut m = String::from_str("persisted chain_id ");
            m.append(decimal_string(p.chain_id).as_str());
            m.append(" does not match expected mainnet chain_id ");
            m.append(decimal_string(chain_id).as_str());
            return Err(m);
        }
        let persisted = crate::types::Hash(p.genesis_hash);
        if !hash_eq(&persisted, genesis_hash) {
            let mut m = String::from_str("persisted genesis ");
            m.append(persisted.to_hex().as_str());
            m.append(" does not match expected genesis ");
            m.append(genesis_hash.to_hex().as_str());
            return Err(m);
        }
        Ok(())
    }

    /// Issued minus burned, floored at 0.
    pub fn circulating_supply(&self) -> (s: FlakeAmount)
        ensures
            s == (if self.total_issued >= self.total_burned {
                self.total_issued - self.total_burned
            } else {
                0
            }),
    {
        self.total_issued.saturating_sub(self.total_burned)
    }
}

/// The chain state as stored between runs.
pub struct PersistedChainState {
    /// Chain the state belongs to.
    pub chain_id: u64,
    /// Hash of the genesis header.
    pub genesis_hash: [u8; 32],
    pub current_height: u64,
    pub current_difficulty: u64,
    pub total_issued: FlakeAmount,
    pub total_burned: FlakeAmount,
    pub block_timestamps: Vec<u64>,
    pub latest_block_hash: [u8; 32],
    pub state_root: [u8; 32],
    pub suggested_fee: FlakeAmount,
    /// 0 in states written before the base reward was recorded.
    pub base_reward: FlakeAmount,
    pub producer_signatures: Vec<(u64, ObjectId, crate::types::Hash, Vec<u8>)>,
    pub finalized_height: u64,
}

/// The values of the recorded signatures.
pub open spec fn signature_views(s: Seq<(u64, ObjectId, crate::types::Hash, Vec<u8>)>) -> Seq<(u64, ObjectId, crate::types::Hash, Seq<u8>)> {
    s.map_values(|e: (u64, ObjectId, crate::types::Hash, Vec<u8>)| (e.0, e.1, e.2, e.3@))
}

fn copy_signatures(s: &Vec<(u64, ObjectId, crate::types::Hash, Vec<u8>)>) -> (r: Vec<(u64, ObjectId, crate::types::Hash, Vec<u8>)>)
    ensures
        signature_views(r@) == signature_views(s@),
{
    let mut r: Vec<(u64, ObjectId, crate::types::Hash, Vec<u8>)> = Vec::new();
    let mut i: usize = 0;
    while i < s.len()
        invariant
            i <= s@.len(),
            r@.len() == i,
            forall|j: int| 0 <= j < i ==> (#[trigger] r@[j]).0 == s@[j].0 && r@[j].1 == s@[j].1 && r@[j].2 == s@[j].2 && r@[j].3@ == s@[j].3@,
        decreases s.len() - i,
    {
        let e = &s[i];
        let sig = copy_bytes(&e.3);
        r.push((e.0, e.1, e.2, sig));
        i = i + 1;
    }
    assert(signature_views(r@) =~= signature_views(s@)) by {
        assert forall|j: int| 0 <= j < r@.len() implies #[trigger] signature_views(r@)[j] == signature_views(s@)[j] by {
            assert(r@[j].3@ == s@[j].3@);
        }
    }
    r
}

fn copy_bytes(s: &Vec<u8>) -> (r: Vec<u8>)
    ensures
        r@ == s@,
{
    let mut r: Vec<u8> = Vec::new();
    let mut i: usize = 0;
    while i < s.len()
        invariant
            i <= s@.len(),
            r@ == s@.take(i as int),
        decreases s.len() - i,
    {
        r.push(s[i]);
        i = i + 1;
        assert(r@ =~= s@.take(i as int));
    }
    assert(s@.take(s@.len() as int) =~= s@);
    r
}

fn copy_timestamps(s: &Vec<u64>) -> (r: Vec<u64>)
    ensures
        r@ == s@,
{
    let mut r: Vec<u64> = Vec::new();
    let mut i: usize = 0;
    while i < s.len()
        invariant
            i <= s@.len(),
            r@ == s@.take(i as int),
        decreases s.len() - i,
    {
        r.push(s[i]);
        i = i + 1;
        assert(r@ =~= s@.take(i as int));
    }
    assert(s@.take(s@.len() as int) =~= s@);
    r
}

impl ChainState {
    /// The state as stored, under the main chain's id.
    pub fn to_persisted(&self) -> (p: PersistedChainState)
        ensures
            p.chain_id == MAINNET_CHAIN_ID,
            p.genesis_hash@ == self.genesis_hash.bytes(),
            p.current_height == self.current_height,
            p.current_difficulty == self.current_difficulty,
            p.total_issued == self.total_issued,
            p.total_burned == self.total_burned,
            p.block_timestamps@ == self.block_timestamps@,
            p.latest_block_hash@ == self.latest_block_hash.bytes(),
            p.state_root@ == self.state_root.bytes(),
            p.suggested_fee == self.suggested_fee,
            p.base_reward == self.base_reward,
            signature_views(p.producer_signatures@) == signature_views(self.producer_signatures@),
            p.finalized_height == self.finalized_height,
    {
        PersistedChainState {
            chain_id: MAINNET_CHAIN_ID,
            genesis_hash: self.genesis_hash.0,
            current_height: self.current_height,
            current_difficulty: self.current_difficulty,
            total_issued: self.total_issued,
            total_burned: self.total_burned,
            block_timestamps: copy_timestamps(&self.block_timestamps),
            latest_block_hash: self.latest_block_hash.0,
            state_root: self.state_root.0,
            suggested_fee: self.suggested_fee,
            base_reward: self.base_reward,
            producer_signatures: copy_signatures(&self.producer_signatures),
            finalized_height: self.finalized_height,
        }
    }

    /// The state from its stored form; a stored base reward of 0 (a state
    /// written before it was recorded) becomes `BASE_REWARD`.
    pub fn from_persisted(p: &PersistedChainState) -> (c: Self)
        ensures
            c.genesis_hash.bytes() == p.genesis_hash@,
            c.current_height == p.current_height,
            c.current_difficulty == p.current_difficulty,
            c.total_issued == p.total_issued,
            c.total_burned == p.total_burned,
            c.block_timestamps@ == p.block_timestamps@,
            c.latest_block_hash.bytes() == p.latest_block_hash@,
            c.state_root.bytes() == p.state_root@,
            c.suggested_fee == p.suggested_fee,
            c.base_reward == (if p.base_reward > 0 { p.base_reward } else { BASE_REWARD }),
            signature_views(c.producer_signatures@) == signature_views(p.producer_signatures@),
            c.finalized_height == p.finalized_height,
    {
        ChainState {
            current_height: p.current_height,
            current_difficulty: p.current_difficulty,
            total_issued: p.total_issued,
            total_burned: p.total_burned,
            block_timestamps: copy_timestamps(&p.block_timestamps),
            genesis_hash: crate::types::Hash::from_bytes(p.genesis_hash),
            latest_block_hash: crate::types::Hash::from_bytes(p.latest_block_hash),
            state_root: crate::types::Hash::from_bytes(p.state_root),
            suggested_fee: p.suggested_fee,
            producer_signatures: copy_signatures(&p.producer_signatures),
            base_reward: if p.base_reward > 0 { p.base_reward } else { BASE_REWARD },
            finalized_height: p.finalized_height,
        }
    }
}

/// Storing and loading a chain state gives it back: every field is as it
/// was (the base reward too, whenever it is not 0).
pub proof fn lemma_persist_roundtrip(c: ChainState, p: PersistedChainState, r: ChainState)
    requires
        p.genesis_hash@ == c.genesis_hash.bytes(),
        p.current_height == c.current_height,
        p.current_difficulty == c.current_difficulty,
        p.total_issued == c.total_issued,
        p.total_burned == c.total_burned,
        p.block_timestamps@ == c.block_timestamps@,
        p.latest_block_hash@ == c.latest_block_hash.bytes(),
        p.state_root@ == c.state_root.bytes(),
        p.suggested_fee == c.suggested_fee,
        p.base_reward == c.base_reward,
        signature_views(p.producer_signatures@) == signature_views(c.producer_signatures@),
        p.finalized_height == c.finalized_height,
        r.genesis_hash.bytes() == p.genesis_hash@,
        r.current_height == p.current_height,
        r.current_difficulty == p.current_difficulty,
        r.total_issued == p.total_issued,
        r.total_burned == p.total_burned,
        r.block_timestamps@ == p.block_timestamps@,
        r.latest_block_hash.bytes() == p.latest_block_hash@,
        r.state_root.bytes() == p.state_root@,
        r.suggested_fee == p.suggested_fee,
        r.base_reward == (if p.base_reward > 0 { p.base_reward } else { BASE_REWARD }),
        signature_views(r.producer_signatures@) == signature_views(p.producer_signatures@),
        r.finalized_height == p.finalized_height,
        c.base_reward > 0,
    ensures
        r.genesis_hash.bytes() == c.genesis_hash.bytes(),
        r.latest_block_hash.bytes() == c.latest_block_hash.bytes(),
        r.state_root.bytes() == c.state_root.bytes(),
        r.current_height == c.current_height,
        r.current_difficulty == c.current_difficulty,
        r.total_issued == c.total_issued,
        r.total_burned == c.total_burned,
        r.block_timestamps@ == c.block_timestamps@,
        r.suggested_fee == c.suggested_fee,
        r.base_reward == c.base_reward,
        signature_views(r.producer_signatures@) == signature_views(c.producer_signatures@),
        r.finalized_height == c.finalized_height,
{
}

/// What the block transition needs from outside the library: the wall clock,
/// the EVO-OMAP verdict and hash, and what storage holds.
pub struct BlockEnvironment {
    /// Current Unix time in seconds.
    pub now_secs: u64,
    /// Whether the EVO-OMAP light check of the block's proof of work passed.
    pub pow_light_verified: bool,
    /// The EVO-OMAP hash of the block's header, when it has a proof of work.
    pub pow_hash: Option<[u8; 32]>,
    /// Whether the node has storage.
    pub has_store: bool,
    /// For each included attestation, in order: the stored block at its
    /// height, `None` when none is stored, or the storage error.
    pub attested_blocks: Vec<Result<Option<Block>, String>>,
    /// The attestations carried by the stored blocks after the lowest
    /// attested height, up to the tip.
    pub stored_attestations: Vec<BlockAttestation>,
}

/// The last element, or 0.
pub open spec fn last_or_zero(s: Seq<u64>) -> u64 {
    if s.len() > 0 {
        s.last()
    } else {
        0
    }
}

fn last_timestamp(v: &Vec<u64>) -> (t: u64)
    ensures
        t == last_or_zero(v@),
{
    if v.len() > 0 {
        v[v.len() - 1]
    } else {
        0
    }
}

/// The difficulty the next block must carry.
pub open spec fn expected_difficulty(c: ChainState, bonded: u64) -> u64 {
    (DifficultyTarget {
        target: 0,
        retarget: retarget_spec(c.current_difficulty, c.current_height, c.block_timestamps@),
        consensus_floor: consensus_floor_spec(c.total_issued, bonded),
    }).spec_effective_difficulty()
}

/// The hex text of a hash.
pub open spec fn hash_hex(h: crate::types::Hash) -> Seq<char> {
    ascii_chars(hex_of(h.bytes()))
}

/// Why a block is refused before anything is changed: it fails validation
/// against the tip, or it does not carry the tip's state root.
pub open spec fn precheck_error(c: ChainState, bonded: u64, b: Block, now_secs: u64, pow_light_verified: bool) -> Option<Seq<char>> {
    match validation_error(
        b,
        (c.current_height + 1) as u64,
        c.latest_block_hash,
        last_or_zero(c.block_timestamps@),
        expected_difficulty(c, bonded),
        now_secs,
        pow_light_verified,
    ) {
        Some(t) => Some("Block validation failed: "@ + t),
        None => if b.header.state_root != c.state_root {
            Some(
                "State root mismatch at height "@ + crate::account::dec_str(b.header.height)
                    + ": expected "@ + hash_hex(c.state_root) + ", got "@ + hash_hex(b.header.state_root),
            )
        } else {
            None
        },
    }
}

/// The bonded stake the transition works with.
pub open spec fn bonded_stake_of(r: &RefinerSet) -> u64 {
    saturate(ids_stake(r.active_ids(), r@) + r.bonding_waiting()) as u64
}

fn state_root_mismatch(height: u64, expected: &crate::types::Hash, got: &crate::types::Hash) -> (m: String)
    ensures
        m@ == "State root mismatch at height "@ + crate::account::dec_str(height) + ": expected "@
            + hash_hex(*expected) + ", got "@ + hash_hex(*got),
{
    let mut m = String::from_str("State root mismatch at height ");
    m.append(decimal_string(height).as_str());
    m.append(": expected ");
    m.append(expected.to_hex().as_str());
    m.append(", got ");
    m.append(got.to_hex().as_str());
    m
}

fn contains_key_pair(seen: &Vec<(u64, ObjectId)>, h: u64, id: &ObjectId) -> (b: bool)
    ensures
        b == seen@.contains((h, *id)),
{
    let mut i: usize = 0;
    while i < seen.len()
        invariant
            i <= seen.len(),
            forall|k: int| 0 <= k < i ==> seen@[k] != (h, *id),
        decreases seen.len() - i,
    {
        if seen[i].0 == h && id_eq(&seen[i].1, id) {
            return true;
        }
        i = i + 1;
    }
    false
}

fn contains_id(seen: &Vec<ObjectId>, id: &ObjectId) -> (b: bool)
    ensures
        b == seen@.contains(*id),
{
    let mut i: usize = 0;
    while i < seen.len()
        invariant
            i <= seen.len(),
            forall|k: int| 0 <= k < i ==> seen@[k] != *id,
        decreases seen.len() - i,
    {
        if id_eq(&seen[i], id) {
            return true;
        }
        i = i + 1;
    }
    false
}

fn has_height(c: &Vec<(u64, crate::types::Hash)>, h: u64) -> (b: bool)
    ensures
        b == (exists|k: int| 0 <= k < c@.len() && #[trigger] c@[k].0 == h),
{
    let mut i: usize = 0;
    while i < c.len()
        invariant
            i <= c.len(),
            forall|k: int| 0 <= k < i ==> #[trigger] c@[k].0 != h,
        decreases c.len() - i,
    {
        if c[i].0 == h {
            return true;
        }
        i = i + 1;
    }
    false
}

/// Whether an attestation is one of `(h, hash)` by a refiner not yet counted.
pub open spec fn attestation_counts(a: BlockAttestation, h: u64, hash: crate::types::Hash, seen: Seq<ObjectId>) -> bool {
    a.height == h && a.block_hash == hash && !seen.contains(a.refiner)
}

/// The weight after counting an attestation: its refiner's stake is added,
/// saturating, when it counts and the refiner is active.
pub open spec fn weight_after(a: BlockAttestation, h: u64, hash: crate::types::Hash, seen: Seq<ObjectId>, weight: u128, r: Map<ObjectId, crate::refiner::RefinerInfo>) -> u128 {
    if attestation_counts(a, h, hash, seen) && r.contains_key(a.refiner) && r[a.refiner].status == RefinerStatus::Active {
        let total = weight + saturate(r[a.refiner].stake());
        if total > u128::MAX {
            u128::MAX
        } else {
            total as u128
        }
    } else {
        weight
    }
}

/// Adds the weight of one attestation of `(h, hash)` by an active refiner not
/// yet counted.
fn count_attestation(a: &BlockAttestation, h: u64, hash: &crate::types::Hash, seen: &mut Vec<ObjectId>, weight: u128, refiners: &RefinerSet, timestamp: u64) -> (w: u128)
    requires
        refiners.wf(),
    ensures
        final(seen)@ == (if attestation_counts(*a, h, *hash, old(seen)@) {
            old(seen)@.push(a.refiner)
        } else {
            old(seen)@
        }),
        w == weight_after(*a, h, *hash, old(seen)@, weight, refiners@),
{
    if a.height != h || !hash_eq(&a.block_hash, hash) {
        return weight;
    }
    if contains_id(seen, &a.refiner) {
        return weight;
    }
    seen.push(a.refiner);
    match refiners.get_refiner(&a.refiner) {
        Some(info) => {
            if info.status == RefinerStatus::Active {
                let add = info.weight(timestamp) as u128;
                if weight > u128::MAX - add {
                    u128::MAX
                } else {
                    weight + add
                }
            } else {
                weight
            }
        },
        None => weight,
    }
}

/// The hash of a block header.
pub open spec fn header_hash(h: BlockHeader) -> crate::types::Hash {
    choose|x: crate::types::Hash| x.bytes() == blake3_digest(header_hash_preimage(h))
}

/// A hash with the digest of a header is the header's hash.
proof fn lemma_header_hash(c: crate::types::Hash, h: BlockHeader)
    requires
        c.bytes() == blake3_digest(header_hash_preimage(h)),
    ensures
        c == header_hash(h),
{
    broadcast use vstd::array::group_array_axioms;
    let x = header_hash(h);
    assert(x.bytes() == blake3_digest(header_hash_preimage(h)));
    assert(x.0 =~= c.0);
}

/// Why the attestation at `i` of a block is refused, given the refiners
/// `m`: its height must be below the block's, no earlier attestation may
/// come from the same refiner at that height, the node needs storage and
/// the attested block, which must be a refined block, and the attestation
/// must check against that block's hash and the refiners.
pub open spec fn attestation_entry_error(block: Block, env: BlockEnvironment, i: int, m: Map<ObjectId, crate::refiner::RefinerInfo>) -> Option<Seq<char>> {
    let atts = block.attestations@;
    let a = atts[i];
    if a.height >= block.header.height {
        Some("Attestation height "@ + crate::account::dec_str(a.height) + " must be below block height "@
            + crate::account::dec_str(block.header.height))
    } else if exists|j: int| 0 <= j < i && #[trigger] atts[j].height == a.height && atts[j].refiner == a.refiner {
        Some("Duplicate attestation from "@ + ascii_chars(hex_of(a.refiner.bytes())) + " at height "@
            + crate::account::dec_str(a.height))
    } else if !env.has_store {
        Some("Cannot verify included attestation without storage"@)
    } else if i >= env.attested_blocks@.len() {
        Some("Attested block is not known locally"@)
    } else {
        match env.attested_blocks@[i] {
            Err(e) => Some("Failed to load attested block: "@ + e@),
            Ok(None) => Some("Attested block is not known locally"@),
            Ok(Some(b)) => if b.header.refiner_signature is None || b.header.pow_proof is Some {
                Some("Attestation target must be a refiner-produced block"@)
            } else {
                crate::chain::attestation_error(a, header_hash(b.header), m)
            },
        }
    }
}

/// The first refusal among the first `n` attestations of a block.
pub open spec fn first_attestation_error(block: Block, env: BlockEnvironment, m: Map<ObjectId, crate::refiner::RefinerInfo>, n: int) -> Option<Seq<char>>
    decreases n,
{
    if n <= 0 {
        None
    } else {
        match first_attestation_error(block, env, m, n - 1) {
            Some(e) => Some(e),
            None => attestation_entry_error(block, env, n - 1, m),
        }
    }
}

/// A refusal among the first attestations stays the first one.
proof fn lemma_first_error_stable(block: Block, env: BlockEnvironment, m: Map<ObjectId, crate::refiner::RefinerInfo>, k: int, n: int)
    requires
        0 <= k <= n,
        first_attestation_error(block, env, m, k) is Some,
    ensures
        first_attestation_error(block, env, m, n) == first_attestation_error(block, env, m, k),
    decreases n,
{
    if n > k {
        lemma_first_error_stable(block, env, m, k, n - 1);
    }
}

/// One more correct attestation recorded for a known refiner.
pub open spec fn record_one(m: Map<ObjectId, crate::refiner::RefinerInfo>, id: ObjectId) -> Map<ObjectId, crate::refiner::RefinerInfo> {
    if m.contains_key(id) {
        m.insert(
            id,
            crate::refiner::RefinerInfo {
                consecutive_correct_attestations: saturate(m[id].consecutive_correct_attestations + 1) as u64,
                ..m[id]
            },
        )
    } else {
        m
    }
}

/// The correct attestations of a sequence recorded in order.
pub open spec fn record_fold(m: Map<ObjectId, crate::refiner::RefinerInfo>, s: Seq<BlockAttestation>) -> Map<ObjectId, crate::refiner::RefinerInfo>
    decreases s.len(),
{
    if s.len() == 0 {
        m
    } else {
        record_one(record_fold(m, s.drop_last()), s.last().refiner)
    }
}

/// Recording attestations keeps the refiners, their status and their bonds.
proof fn lemma_record_fold(m: Map<ObjectId, crate::refiner::RefinerInfo>, s: Seq<BlockAttestation>)
    ensures
        record_fold(m, s).dom() == m.dom(),
        forall|k: ObjectId|
            #[trigger] m.contains_key(k) ==> record_fold(m, s)[k].status == m[k].status && record_fold(m, s)[k].entries
                == m[k].entries,
    decreases s.len(),
{
    if s.len() > 0 {
        lemma_record_fold(m, s.drop_last());
        let p = record_fold(m, s.drop_last());
        assert(record_one(p, s.last().refiner).dom() =~= p.dom());
    }
}

/// The refiners counted and the weight summed over attestations of
/// `(h, hash)`: each refiner once, its stake added (saturating) when it is
/// active.
pub open spec fn count_fold(s: Seq<BlockAttestation>, h: u64, hash: crate::types::Hash, m: Map<ObjectId, crate::refiner::RefinerInfo>) -> (Seq<ObjectId>, u128)
    decreases s.len(),
{
    if s.len() == 0 {
        (Seq::empty(), 0)
    } else {
        let p = count_fold(s.drop_last(), h, hash, m);
        let a = s.last();
        (
            if attestation_counts(a, h, hash, p.0) {
                p.0.push(a.refiner)
            } else {
                p.0
            },
            weight_after(a, h, hash, p.0, p.1, m),
        )
    }
}

/// The hash of the block the attestation at `i` attests, as loaded.
pub open spec fn attested_hash(env: BlockEnvironment, i: int) -> crate::types::Hash {
    match env.attested_blocks@[i] {
        Ok(Some(b)) => header_hash(b.header),
        _ => header_hash(arbitrary()),
    }
}

/// The finality candidates of the first `n` attestations: each attested
/// height once, with the hash of its first attestation's block.
pub open spec fn finality_candidates(atts: Seq<BlockAttestation>, env: BlockEnvironment, n: int) -> Seq<(u64, crate::types::Hash)>
    decreases n,
{
    if n <= 0 {
        Seq::empty()
    } else {
        let c = finality_candidates(atts, env, n - 1);
        if exists|k: int| 0 <= k < c.len() && #[trigger] c[k].0 == atts[n - 1].height {
            c
        } else {
            c.push((atts[n - 1].height, attested_hash(env, n - 1)))
        }
    }
}

/// The weight of each finality candidate of a block: the active stake of
/// the distinct refiners attesting it in the stored blocks and in the block.
pub open spec fn attestation_weights(b: Block, env: BlockEnvironment, m: Map<ObjectId, crate::refiner::RefinerInfo>) -> Seq<(u64, u128)> {
    finality_candidates(b.attestations@, env, b.attestations@.len() as int).map_values(
        |c: (u64, crate::types::Hash)| (c.0, count_fold(env.stored_attestations@ + b.attestations@, c.0, c.1, m).1),
    )
}

/// Whether `new` is the finalized height after block `b` on `current` with
/// refiners `r0`: the greatest candidate height above `current` whose weight
/// reaches two thirds (`FINALITY_CONFIDENCE_MILLI` thousandths, rounded up)
/// of the active refiners' weight, else `current`.
pub open spec fn finality_reached(current: u64, new: u64, r0: RefinerSet, b: Block, env: BlockEnvironment) -> bool {
    exists|ks: Seq<ObjectId>, rs: Seq<crate::refiner::RefinerInfo>|
        #[trigger] crate::refiner_set::sorted_listing(ks, rs, r0@) && new == crate::chain::finalized_of(
            current,
            attestation_weights(b, env, record_fold(r0@, b.attestations@)),
            crate::chain::finality_threshold_of(rs) as u128,
        )
}

/// The refiners that made the attestations.
pub open spec fn attested_refiners(s: Seq<BlockAttestation>) -> Set<ObjectId> {
    Set::new(|k: ObjectId| exists|j: int| 0 <= j < s.len() && #[trigger] s[j].refiner == k)
}

/// Checks and records the attestations a block carries and returns the new
/// finalized height, which is never below the current one.
fn stage_attestations(refiners: &mut RefinerSet, block: &Block, env: &BlockEnvironment, finalized_height: u64) -> (r: Result<u64, String>)
    requires
        old(refiners).wf(),
    ensures
        final(refiners).wf(),
        r is Err <==> first_attestation_error(*block, *env, old(refiners)@, block.attestations@.len() as int) is Some,
        r matches Err(m) ==> first_attestation_error(*block, *env, old(refiners)@, block.attestations@.len() as int)
            == Some(m@),
        r is Ok ==> final(refiners)@ == record_fold(old(refiners)@, block.attestations@),
        r is Ok ==> final(refiners).dirty() == old(refiners).dirty() + attested_refiners(block.attestations@),
        final(refiners).active_ids() == old(refiners).active_ids(),
        final(refiners).queue() == old(refiners).queue(),
        r matches Ok(h) ==> h >= finalized_height,
        r matches Ok(h) ==> h != finalized_height ==> exists|j: int|
            0 <= j < block.attestations@.len() && #[trigger] block.attestations@[j].height == h,
        r matches Ok(h) ==> finality_reached(finalized_height, h, *old(refiners), *block, *env),
{
    let threshold = active_refiner_weight_milli_threshold(refiners, block.header.timestamp);
    let ghost m0 = refiners@;
    let ghost atts = block.attestations@;
    let ghost n = atts.len() as int;
    let mut seen: Vec<(u64, ObjectId)> = Vec::new();
    let mut candidates: Vec<(u64, crate::types::Hash)> = Vec::new();
    let ghost mut srcs: Seq<int> = Seq::empty();
    let mut i: usize = 0;
    while i < block.attestations.len()
        invariant
            refiners.wf(),
            atts == block.attestations@,
            n == atts.len(),
            i <= n,
            m0 == old(refiners)@,
            seen@.len() == i,
            forall|j: int| 0 <= j < i ==> #[trigger] seen@[j] == (atts[j].height, atts[j].refiner),
            first_attestation_error(*block, *env, m0, i as int) is None,
            refiners@ == record_fold(m0, atts.take(i as int)),
            refiners.dirty() == old(refiners).dirty() + attested_refiners(atts.take(i as int)),
            refiners.active_ids() == old(refiners).active_ids(),
            refiners.queue() == old(refiners).queue(),
            srcs.len() == candidates@.len(),
            forall|x: int| 0 <= x < candidates@.len() ==> 0 <= #[trigger] srcs[x] < n && atts[srcs[x]].height == candidates@[x].0,
            candidates@ == finality_candidates(atts, *env, i as int),
        decreases block.attestations.len() - i,
    {
        let a = &block.attestations[i];
        proof {
            assert(atts[i as int] == *a);
            assert(first_attestation_error(*block, *env, m0, i + 1) == attestation_entry_error(*block, *env, i as int, m0));
            lemma_record_fold(m0, atts.take(i as int));
        }
        if a.height >= block.header.height {
            let mut m = String::from_str("Attestation height ");
            m.append(decimal_string(a.height).as_str());
            m.append(" must be below block height ");
            m.append(decimal_string(block.header.height).as_str());
            proof {
                lemma_first_error_stable(*block, *env, m0, i + 1, n);
            }
            return Err(m);
        }
        let dup = contains_key_pair(&seen, a.height, &a.refiner);
        proof {
            if dup {
                let k = choose|k: int| 0 <= k < seen@.len() && seen@[k] == (a.height, a.refiner);
                assert(atts[k].height == a.height && atts[k].refiner == a.refiner);
            }
            if exists|j: int| 0 <= j < i && #[trigger] atts[j].height == a.height && atts[j].refiner == a.refiner {
                let j = choose|j: int| 0 <= j < i && #[trigger] atts[j].height == a.height && atts[j].refiner == a.refiner;
                assert(seen@[j] == (a.height, a.refiner));
            }
        }
        if dup {
            let mut m = String::from_str("Duplicate attestation from ");
            m.append(a.refiner.to_hex().as_str());
            m.append(" at height ");
            m.append(decimal_string(a.height).as_str());
            proof {
                lemma_first_error_stable(*block, *env, m0, i + 1, n);
            }
            return Err(m);
        }
        seen.push((a.height, a.refiner));
        if !env.has_store {
            proof {
                lemma_first_error_stable(*block, *env, m0, i + 1, n);
            }
            return Err(String::from_str("Cannot verify included attestation without storage"));
        }
        if i >= env.attested_blocks.len() {
            proof {
                lemma_first_error_stable(*block, *env, m0, i + 1, n);
            }
            return Err(String::from_str("Attested block is not known locally"));
        }
        let attested = match &env.attested_blocks[i] {
            Err(e) => {
                let mut m = String::from_str("Failed to load attested block: ");
                m.append(e.as_str());
                proof {
                    lemma_first_error_stable(*block, *env, m0, i + 1, n);
                }
                return Err(m);
            },
            Ok(None) => {
                proof {
                    lemma_first_error_stable(*block, *env, m0, i + 1, n);
                }
                return Err(String::from_str("Attested block is not known locally"));
            },
            Ok(Some(b)) => b,
        };
        if attested.header.refiner_signature.is_none() || attested.header.pow_proof.is_some() {
            proof {
                lemma_first_error_stable(*block, *env, m0, i + 1, n);
            }
            return Err(String::from_str("Attestation target must be a refiner-produced block"));
        }
        let canonical = compute_block_hash(&attested.header);
        proof {
            lemma_header_hash(canonical, attested.header);
            assert(crate::chain::attestation_error(*a, canonical, refiners@) == crate::chain::attestation_error(*a, canonical, m0));
        }
        match verify_block_attestation_against_refiners(a, &canonical, refiners) {
            Ok(()) => {},
            Err(e) => {
                proof {
                    lemma_first_error_stable(*block, *env, m0, i + 1, n);
                }
                return Err(e);
            },
        }
        proof {
            assert(attested_hash(*env, i as int) == canonical);
        }
        if !has_height(&candidates, a.height) {
            candidates.push((a.height, canonical));
            proof {
                srcs = srcs.push(i as int);
            }
        }
        assert(candidates@ == finality_candidates(atts, *env, i + 1));
        match refiners.record_correct_attestation(&a.refiner) {
            Ok(_) => {},
            Err(e) => {
                return Err(e);
            },
        }
        proof {
            assert(atts.take(i + 1).drop_last() =~= atts.take(i as int));
            assert(refiners@ =~= record_fold(m0, atts.take(i + 1)));
            let t0 = atts.take(i as int);
            let t1 = atts.take(i + 1);
            assert(attested_refiners(t1) =~= attested_refiners(t0).insert(a.refiner)) by {
                assert forall|k: ObjectId| attested_refiners(t1).contains(k) implies attested_refiners(t0).insert(a.refiner).contains(k) by {
                    let j = choose|j: int| 0 <= j < t1.len() && #[trigger] t1[j].refiner == k;
                    if j < i {
                        assert(t0[j].refiner == k);
                    }
                }
                assert forall|k: ObjectId| attested_refiners(t0).insert(a.refiner).contains(k) implies attested_refiners(t1).contains(k) by {
                    if k == a.refiner {
                        assert(t1[i as int].refiner == k);
                    } else {
                        let j = choose|j: int| 0 <= j < t0.len() && #[trigger] t0[j].refiner == k;
                        assert(t1[j].refiner == k);
                    }
                }
            }
            assert(refiners.dirty() =~= old(refiners).dirty() + attested_refiners(t1));
        }
        i = i + 1;
    }
    proof {
        assert(atts.take(n) =~= atts);
    }
    let ghost m1 = refiners@;
    let ghost stored = env.stored_attestations@;
    let ghost wf = |e: (u64, crate::types::Hash)| (e.0, count_fold(stored + atts, e.0, e.1, m1).1);
    let mut weights: Vec<(u64, u128)> = Vec::new();
    let mut c: usize = 0;
    while c < candidates.len()
        invariant
            refiners.wf(),
            refiners@ == m1,
            atts == block.attestations@,
            stored == env.stored_attestations@,
            wf == (|e: (u64, crate::types::Hash)| (e.0, count_fold(stored + atts, e.0, e.1, m1).1)),
            weights@ == candidates@.take(c as int).map_values(wf),
            c <= candidates@.len(),
            weights@.len() == c,
            forall|w: int| 0 <= w < c ==> #[trigger] weights@[w].0 == candidates@[w].0,
            srcs.len() == candidates@.len(),
            forall|x: int| 0 <= x < candidates@.len() ==> 0 <= #[trigger] srcs[x] < n && atts[srcs[x]].height == candidates@[x].0,
        decreases candidates.len() - c,
    {
        let (h, hash) = candidates[c];
        let mut counted: Vec<ObjectId> = Vec::new();
        let mut weight: u128 = 0;
        let mut j: usize = 0;
        assert(stored.take(0) =~= Seq::<BlockAttestation>::empty());
        while j < env.stored_attestations.len()
            invariant
                refiners.wf(),
                refiners@ == m1,
                stored == env.stored_attestations@,
                j <= stored.len(),
                (counted@, weight) == count_fold(stored.take(j as int), h, hash, m1),
            decreases env.stored_attestations.len() - j,
        {
            proof {
                assert(stored.take(j + 1).drop_last() =~= stored.take(j as int));
            }
            weight = count_attestation(&env.stored_attestations[j], h, &hash, &mut counted, weight, refiners, block.header.timestamp);
            j = j + 1;
        }
        assert(stored.take(j as int) =~= stored + atts.take(0));
        let mut k: usize = 0;
        while k < block.attestations.len()
            invariant
                refiners.wf(),
                refiners@ == m1,
                stored == env.stored_attestations@,
                atts == block.attestations@,
                k <= atts.len(),
                (counted@, weight) == count_fold(stored + atts.take(k as int), h, hash, m1),
            decreases block.attestations.len() - k,
        {
            proof {
                assert((stored + atts.take(k + 1)).drop_last() =~= stored + atts.take(k as int));
                assert((stored + atts.take(k + 1)).last() == atts[k as int]);
            }
            weight = count_attestation(&block.attestations[k], h, &hash, &mut counted, weight, refiners, block.header.timestamp);
            k = k + 1;
        }
        assert(stored + atts.take(k as int) =~= stored + atts);
        weights.push((h, weight));
        proof {
            assert(candidates@.take(c + 1).map_values(wf) =~= candidates@.take(c as int).map_values(wf).push(wf(candidates@[c as int])));
        }
        c = c + 1;
    }
    proof {
        assert(candidates@.take(c as int) =~= candidates@);
        assert(weights@ == attestation_weights(*block, *env, m1));
    }
    let h = finalized_height_from_attestation_weights(finalized_height, &weights, threshold);
    proof {
        let (ks, rs) = choose|ks: Seq<ObjectId>, rs: Seq<crate::refiner::RefinerInfo>|
            #[trigger] crate::refiner_set::sorted_listing(ks, rs, m0) && threshold == crate::chain::finality_threshold_of(rs);
        assert(crate::refiner_set::sorted_listing(ks, rs, old(refiners)@));
        assert(finality_reached(finalized_height, h, *old(refiners), *block, *env));
    }
    proof {
        if h != finalized_height {
            let w = choose|w: int|
                0 <= w < weights@.len() && #[trigger] crate::chain::qualifies(finalized_height, threshold, weights@[w])
                    && weights@[w].0 == h;
            assert(weights@[w].0 == candidates@[w].0);
            assert(atts[srcs[w]].height == h);
        }
    }
    Ok(h)
}

/// The first eight bytes of a hash as a big-endian number.
fn hash_seed(h: &crate::types::Hash) -> (seed: u64)
    ensures
        seed == hash_seed_spec(*h),
{
    crate::pow::read_be_u64(h.0.as_slice())
}

/// The seed of producer selection: the big-endian value of the first eight
/// bytes of a hash.
pub open spec fn hash_seed_spec(h: crate::types::Hash) -> u64 {
    crate::pow::be_value(h.bytes().take(8)) as u64
}

/// The identifier of the refiner selected to produce a block with `seed`.
pub open spec fn selected_producer(active: Seq<ObjectId>, m: Map<ObjectId, crate::refiner::RefinerInfo>, seed: u64) -> Option<ObjectId> {
    match crate::refiner_set::producer_pick(
        crate::refiner_set::id_sorted(crate::refiner_set::producer_candidates(active, m)),
        seed,
    ) {
        None => None,
        Some(id) => Some(m[id].object_id),
    }
}

/// Why the producer of a block is refused, if it is: for a refined block a
/// 64-byte signature of the block hash under the producer's registered
/// 32-byte key, for a mined block a registered 32-byte key, and for a
/// refined block the refiner selected with the tip's hash as seed.
pub open spec fn producer_error(m: Map<ObjectId, crate::account::Account>, active: Seq<ObjectId>, rm: Map<ObjectId, crate::refiner::RefinerInfo>, h: BlockHeader, latest: crate::types::Hash) -> Option<Seq<char>> {
    let refined = is_refined(h);
    let sig = h.refiner_signature->0@;
    let known = m.contains_key(h.producer);
    let key = m[h.producer].public_key;
    if refined && sig.len() != 64 {
        Some("Refiner signature must be 64 bytes"@)
    } else if refined && !known {
        Some("Refiner block producer account not found"@)
    } else if refined && key is None {
        Some("Refiner block producer public key not registered"@)
    } else if refined && key->0@.len() != 32 {
        Some("Refiner block producer public key must be 32 bytes"@)
    } else if refined && !crate::crypto::ed25519_signature_valid(
        key->0@,
        crate::crypto::DOMAIN_BLOCK_SIGNING@ + blake3_digest(header_hash_preimage(h)),
        sig,
    ) {
        Some("Refiner signature verification failed"@)
    } else if h.pow_proof is Some && !known {
        Some("PoW block producer account not found"@)
    } else if h.pow_proof is Some && key is Some && key->0@.len() != 32 {
        Some("PoW block producer public key must be 32 bytes"@)
    } else if h.pow_proof is Some && key is None {
        Some("PoW block producer public key not registered"@)
    } else if refined && selected_producer(active, rm, hash_seed_spec(latest)) is Some && selected_producer(
        active,
        rm,
        hash_seed_spec(latest),
    )->0 != h.producer {
        Some(
            "Refiner block producer mismatch: expected "@ + ascii_chars(
                hex_of(selected_producer(active, rm, hash_seed_spec(latest))->0.bytes()),
            ) + ", got "@ + ascii_chars(hex_of(h.producer.bytes())),
        )
    } else {
        None
    }
}

/// The producer checks of a block: the signature of a refined block under
/// the producer's registered key, a registered 32-byte key for a mined
/// block's producer, and that a refined block comes from the selected
/// refiner.
fn stage_producer_checks(accounts: &AccountStore, refiners: &RefinerSet, block: &Block, latest_hash: &crate::types::Hash) -> (r: Result<(), String>)
    requires
        accounts.wf(),
        refiners.wf(),
    ensures
        r is Ok <==> producer_error(accounts@, refiners.active_ids(), refiners@, block.header, *latest_hash) is None,
        r matches Err(m) ==> producer_error(accounts@, refiners.active_ids(), refiners@, block.header, *latest_hash) == Some(m@),
{
    let refined = block.header.refiner_signature.is_some() && !block.header.producer.is_zero();
    if refined {
        let sig = match &block.header.refiner_signature {
            Some(s) => s,
            None => {
                return Ok(());
            },
        };
        if sig.len() != 64 {
            return Err(String::from_str("Refiner signature must be 64 bytes"));
        }
        let block_hash = compute_block_hash(&block.header);
        let account = match accounts.get_account(&block.header.producer) {
            Some(a) => a,
            None => {
                return Err(String::from_str("Refiner block producer account not found"));
            },
        };
        let pk = match &account.public_key {
            Some(k) => k,
            None => {
                return Err(String::from_str("Refiner block producer public key not registered"));
            },
        };
        if pk.len() != 32 {
            return Err(String::from_str("Refiner block producer public key must be 32 bytes"));
        }
        let payload = refiner_block_signing_payload(&block_hash);
        if !verify_ed25519(pk.as_slice(), payload.as_slice(), sig.as_slice()) {
            return Err(String::from_str("Refiner signature verification failed"));
        }
    }
    if block.header.pow_proof.is_some() {
        let account = match accounts.get_account(&block.header.producer) {
            Some(a) => a,
            None => {
                return Err(String::from_str("PoW block producer account not found"));
            },
        };
        match &account.public_key {
            Some(pk) => {
                if pk.len() != 32 {
                    return Err(String::from_str("PoW block producer public key must be 32 bytes"));
                }
            },
            None => {
                return Err(String::from_str("PoW block producer public key not registered"));
            },
        }
    }
    if refined {
        let seed = hash_seed(latest_hash);
        match refiners.select_block_producer(seed) {
            Some(expected) => {
                if !id_eq(&expected.object_id, &block.header.producer) {
                    let mut m = String::from_str("Refiner block producer mismatch: expected ");
                    m.append(expected.object_id.to_hex().as_str());
                    m.append(", got ");
                    m.append(block.header.producer.to_hex().as_str());
                    return Err(m);
                }
            },
            None => {},
        }
    }
    Ok(())
}

/// One slash of refiner `id` at `height` taking `a` to `b` and burning
/// `amount`: the pending withdrawals of `id` leave the queue and are burned;
/// a known refiner not yet slashed also loses all its stake, which is burned
/// too, becomes `Slashed` and leaves the active set.
pub open spec fn slash_step(a: RefinerSet, b: RefinerSet, id: ObjectId, amount: u64) -> bool {
    let pending = crate::refiner_set::pending_for(a.queue(), id);
    &&& b.wf()
    &&& b.queue() == crate::refiner_set::queue_without(a.queue(), id)
    &&& if !a@.contains_key(id) || a@[id].status == RefinerStatus::Slashed {
        &&& amount == saturate(pending) as u64
        &&& b@ == a@
        &&& b.active_ids() == a.active_ids()
        &&& b.dirty() == a.dirty()
    } else {
        let v = a@[id];
        let w = b@[id];
        &&& amount == saturate(saturate(v.stake()) + saturate(pending)) as u64
        &&& b@ == a@.insert(id, w)
        &&& w.entries@ == crate::refiner_set::zero_stakes(v.entries@)
        &&& w.status == RefinerStatus::Slashed
        &&& w.object_id == v.object_id
        &&& w.last_signed_height == v.last_signed_height
        &&& w.consecutive_correct_attestations == v.consecutive_correct_attestations
        &&& b.active_ids() == crate::refiner_set::without_id(a.active_ids(), id)
        &&& b.dirty() == a.dirty().insert(id)
    }
}

/// Pending withdrawals never sum below zero.
proof fn lemma_pending_for_nonneg(q: Seq<crate::refiner::PendingUnbond>, id: ObjectId)
    ensures
        crate::refiner_set::pending_for(q, id) >= 0,
    decreases q.len(),
{
    if q.len() > 0 {
        lemma_pending_for_nonneg(q.drop_last(), id);
    }
}

/// Whether the evidence at `i` is applied: it is valid and no valid
/// evidence before it names the same producer and height.
pub open spec fn evidence_applies(ev: Seq<DoubleSignEvidence>, i: int) -> bool {
    &&& crate::chain::evidence_valid(ev[i])
    &&& !exists|j: int|
        #![trigger ev[j]]
        0 <= j < i && crate::chain::evidence_valid(ev[j]) && ev[j].height == ev[i].height && ev[j].producer
            == ev[i].producer
}

/// The saturating sum of amounts.
pub open spec fn saturating_total(s: Seq<u64>) -> u64
    decreases s.len(),
{
    if s.len() == 0 {
        0
    } else {
        saturate(saturating_total(s.drop_last()) + s.last()) as u64
    }
}

/// The refiner sets before and after each evidence, and the stake each
/// burned: applied evidence slashes its producer, the rest changes nothing.
pub open spec fn evidence_trace(ev: Seq<DoubleSignEvidence>, states: Seq<RefinerSet>, amounts: Seq<u64>) -> bool {
    &&& states.len() == ev.len() + 1
    &&& amounts.len() == ev.len()
    &&& forall|k: int| 0 <= k < ev.len() ==> #[trigger] evidence_step(ev, states, amounts, k)
}

/// The evidence at `k` slashes its producer if it applies, and changes
/// nothing otherwise.
pub open spec fn evidence_step(ev: Seq<DoubleSignEvidence>, states: Seq<RefinerSet>, amounts: Seq<u64>, k: int) -> bool {
    if evidence_applies(ev, k) {
        slash_step(states[k], states[k + 1], ev[k].producer, amounts[k])
    } else {
        states[k + 1] == states[k] && amounts[k] == 0
    }
}

/// The evidence `ev` applied in order takes the refiners from `a` to `b`,
/// burning `burned` in all.
pub open spec fn evidence_applied(a: RefinerSet, b: RefinerSet, ev: Seq<DoubleSignEvidence>, burned: u64) -> bool {
    exists|states: Seq<RefinerSet>, amounts: Seq<u64>|
        {
            &&& #[trigger] evidence_trace(ev, states, amounts)
            &&& states[0] == a
            &&& states.last() == b
            &&& burned == saturating_total(amounts)
        }
}

/// Applies the valid double-sign evidence a block carries (each producer
/// and height once) and returns the stake burned by the slashes.
fn stage_evidence(refiners: &mut RefinerSet, block: &Block) -> (burned: u64)
    requires
        old(refiners).wf(),
    ensures
        final(refiners).wf(),
        evidence_applied(*old(refiners), *final(refiners), block.slash_evidence@, burned),
{
    let ghost ev = block.slash_evidence@;
    let ghost mut states: Seq<RefinerSet> = seq![*refiners];
    let ghost mut amounts: Seq<u64> = Seq::empty();
    let mut processed: Vec<(u64, ObjectId)> = Vec::new();
    let mut burned: u64 = 0;
    let mut i: usize = 0;
    while i < block.slash_evidence.len()
        invariant
            refiners.wf(),
            ev == block.slash_evidence@,
            i <= ev.len(),
            states.len() == i + 1,
            amounts.len() == i,
            states[0] == *old(refiners),
            states[i as int] == *refiners,
            burned == saturating_total(amounts),
            forall|p: (u64, ObjectId)|
                processed@.contains(p) <==> exists|j: int|
                    #![trigger ev[j]]
                    0 <= j < i && crate::chain::evidence_valid(ev[j]) && p == (ev[j].height, ev[j].producer),
            forall|k: int| 0 <= k < i ==> #[trigger] evidence_step(ev, states, amounts, k),
        decreases block.slash_evidence.len() - i,
    {
        let e = &block.slash_evidence[i];
        let ghost before = *refiners;
        let ghost old_processed = processed@;
        let mut amount: u64 = 0;
        let fresh = !contains_key_pair(&processed, e.height, &e.producer);
        let valid = verify_slash_evidence(e);
        proof {
            assert(ev[i as int] == *e);
            assert(fresh <==> !exists|j: int|
                #![trigger ev[j]]
                0 <= j < i && crate::chain::evidence_valid(ev[j]) && ev[j].height == ev[i as int].height && ev[j].producer
                    == ev[i as int].producer) by {
                if !fresh {
                    let p = (e.height, e.producer);
                    assert(processed@.contains(p));
                }
                if exists|j: int|
                    #![trigger ev[j]]
                    0 <= j < i && crate::chain::evidence_valid(ev[j]) && ev[j].height == ev[i as int].height
                        && ev[j].producer == ev[i as int].producer {
                    let j = choose|j: int|
                        #![trigger ev[j]]
                        0 <= j < i && crate::chain::evidence_valid(ev[j]) && ev[j].height == ev[i as int].height
                            && ev[j].producer == ev[i as int].producer;
                    assert(processed@.contains((e.height, e.producer)));
                }
            }
        }
        if fresh {
            if valid {
                processed.push((e.height, e.producer));
                proof {
                    lemma_pending_for_nonneg(refiners.queue(), e.producer);
                }
                match refiners.slash_refiner(&e.producer, block.header.height) {
                    Ok(b) => {
                        amount = b;
                    },
                    Err(_) => {},
                }
                assert(slash_step(before, *refiners, e.producer, amount));
            }
        }
        burned = burned.saturating_add(amount);
        proof {
            let old_amounts = amounts;
            let old_states = states;
            states = states.push(*refiners);
            amounts = amounts.push(amount);
            assert(amounts.drop_last() =~= old_amounts);
            assert forall|k: int| 0 <= k < i + 1 implies #[trigger] evidence_step(ev, states, amounts, k) by {
                if k < i {
                    assert(evidence_step(ev, old_states, old_amounts, k));
                    assert(amounts[k] == old_amounts[k]);
                    assert(states[k] == old_states[k]);
                    assert(states[k + 1] == old_states[k + 1]);
                } else {
                    assert(states[k] == before);
                    assert(states[k + 1] == *refiners);
                    assert(amounts[k] == amount);
                    assert(evidence_applies(ev, k) <==> fresh && valid);
                    if !(fresh && valid) {
                        assert(amount == 0);
                        assert(*refiners == before);
                    }
                }
            }
            let pi = (ev[i as int].height, ev[i as int].producer);
            assert(processed@ == if fresh && valid { old_processed.push(pi) } else { old_processed });
            assert forall|p: (u64, ObjectId)|
                processed@.contains(p) implies exists|j: int|
                    #![trigger ev[j]]
                    0 <= j < i + 1 && crate::chain::evidence_valid(ev[j]) && p == (ev[j].height, ev[j].producer) by {
                if old_processed.contains(p) {
                    let j = choose|j: int|
                        #![trigger ev[j]]
                        0 <= j < i && crate::chain::evidence_valid(ev[j]) && p == (ev[j].height, ev[j].producer);
                    assert(0 <= j < i + 1 && crate::chain::evidence_valid(ev[j]) && p == (ev[j].height, ev[j].producer));
                } else {
                    assert(fresh && valid);
                    assert(p == pi);
                    assert(0 <= i < i + 1 && crate::chain::evidence_valid(ev[i as int]) && p == (ev[i as int].height, ev[i as int].producer));
                }
            }
            assert forall|p: (u64, ObjectId)|
                (exists|j: int|
                    #![trigger ev[j]]
                    0 <= j < i + 1 && crate::chain::evidence_valid(ev[j]) && p == (ev[j].height, ev[j].producer)) implies processed@.contains(p) by {
                let j = choose|j: int|
                    #![trigger ev[j]]
                    0 <= j < i + 1 && crate::chain::evidence_valid(ev[j]) && p == (ev[j].height, ev[j].producer);
                if j < i {
                    assert(old_processed.contains(p));
                    if fresh && valid {
                        assert(old_processed.push(pi)[old_processed.index_of(p)] == p);
                    }
                } else {
                    assert(p == pi);
                    if fresh && valid {
                        assert(old_processed.push(pi)[old_processed.len() as int] == p);
                    } else {
                        assert(!fresh);
                        assert(old_processed.contains(pi));
                    }
                }
            }
        }
        i = i + 1;
    }
    assert(evidence_trace(ev, states, amounts));
    burned
}

/// Whether a header is that of a refined block: signed, by a producer that
/// is not the zero identifier.
pub open spec fn is_refined(h: BlockHeader) -> bool {
    h.refiner_signature is Some && h.producer.bytes() != crate::types::zero_bytes32()
}

/// Whether a recorded signature is the producer's at that height.
pub open spec fn signed_at(e: (u64, ObjectId, crate::types::Hash, Vec<u8>), height: u64, producer: ObjectId) -> bool {
    e.0 == height && e.1 == producer
}

/// The registered public key of an account, empty when it has none.
pub open spec fn registered_key(m: Map<ObjectId, crate::account::Account>, id: ObjectId) -> Seq<u8> {
    if m.contains_key(id) && m[id].public_key is Some {
        m[id].public_key->0@
    } else {
        Seq::empty()
    }
}

/// A refined block's signature recorded among the signatures `olds`,
/// giving `news`, with `ev` the double-sign evidence found against it.
pub open spec fn double_sign_step(
    olds: Seq<(u64, ObjectId, crate::types::Hash, Vec<u8>)>,
    news: Seq<(u64, ObjectId, crate::types::Hash, Vec<u8>)>,
    accounts: Map<ObjectId, crate::account::Account>,
    block: Block,
    ev: Seq<DoubleSignEvidence>,
) -> bool {
    &&& !is_refined(block.header) ==> ev.len() == 0 && news == olds
    &&& is_refined(block.header) && (forall|k: int| 0 <= k < olds.len() ==> !#[trigger] signed_at(
        olds[k],
        block.header.height,
        block.header.producer,
    )) ==> {
        let e = news.last();
        &&& ev.len() == 0
        &&& news.len() == olds.len() + 1
        &&& news.drop_last() =~= olds
        &&& e.0 == block.header.height
        &&& e.1 == block.header.producer
        &&& e.2.bytes() == blake3_digest(header_hash_preimage(block.header))
        &&& e.3@ == block.header.refiner_signature->0@
    }
    &&& forall|i: int|
        #![trigger olds[i]]
        is_refined(block.header) && 0 <= i < olds.len() && signed_at(
            olds[i],
            block.header.height,
            block.header.producer,
        ) && (forall|k: int| 0 <= k < i ==> !#[trigger] signed_at(
            olds[k],
            block.header.height,
            block.header.producer,
        )) ==> {
            let prior = olds[i];
            &&& news == olds
            &&& prior.2.bytes() == blake3_digest(header_hash_preimage(block.header)) ==> ev.len() == 0
            &&& prior.2.bytes() != blake3_digest(header_hash_preimage(block.header)) ==> {
                let d = ev[0];
                &&& ev.len() == 1
                &&& d.producer == block.header.producer
                &&& d.producer_pubkey@ == registered_key(accounts, block.header.producer)
                &&& d.height == block.header.height
                &&& d.hash_a == prior.2
                &&& d.signature_a@ == prior.3@
                &&& d.hash_b.bytes() == blake3_digest(header_hash_preimage(block.header))
                &&& d.signature_b@ == block.header.refiner_signature->0@
            }
        }
}

/// Records the signature of a refined block, or returns double-sign evidence
/// when the producer already signed a different block at that height.
fn stage_double_sign(signatures: &mut Vec<(u64, ObjectId, crate::types::Hash, Vec<u8>)>, accounts: &AccountStore, block: &Block) -> (evidence: Vec<DoubleSignEvidence>)
    requires
        accounts.wf(),
    ensures
        double_sign_step(old(signatures)@, final(signatures)@, accounts@, *block, evidence@),
{
    let mut evidence: Vec<DoubleSignEvidence> = Vec::new();
    if block.header.refiner_signature.is_none() || block.header.producer.is_zero() {
        return evidence;
    }
    let sig = match &block.header.refiner_signature {
        Some(s) => s.clone(),
        None => {
            return evidence;
        },
    };
    let block_hash = compute_block_hash(&block.header);
    let mut i: usize = 0;
    while i < signatures.len()
        invariant
            accounts.wf(),
            i <= signatures@.len(),
            signatures@ == old(signatures)@,
            evidence@.len() == 0,
            is_refined(block.header),
            sig@ == block.header.refiner_signature->0@,
            block_hash.bytes() == blake3_digest(header_hash_preimage(block.header)),
            forall|k: int| 0 <= k < i ==> !#[trigger] signed_at(
                old(signatures)@[k],
                block.header.height,
                block.header.producer,
            ),
        decreases signatures.len() - i,
    {
        if signatures[i].0 == block.header.height && id_eq(&signatures[i].1, &block.header.producer) {
            assert(signed_at(old(signatures)@[i as int], block.header.height, block.header.producer));
            if !hash_eq(&signatures[i].2, &block_hash) {
                let pubkey = match accounts.get_account(&block.header.producer) {
                    Some(a) => match &a.public_key {
                        Some(k) => k.clone(),
                        None => Vec::new(),
                    },
                    None => Vec::new(),
                };
                evidence.push(DoubleSignEvidence {
                    producer: block.header.producer,
                    producer_pubkey: pubkey,
                    height: block.header.height,
                    hash_a: signatures[i].2,
                    signature_a: signatures[i].3.clone(),
                    hash_b: block_hash,
                    signature_b: sig,
                });
            }
            return evidence;
        }
        i = i + 1;
    }
    signatures.push((block.header.height, block.header.producer, block_hash, sig));
    evidence
}

/// Credits an account, creating it when missing; a credit that would
/// overflow the balance is dropped.
fn credit_or_create(accounts: &mut AccountStore, id: &ObjectId, amount: u64)
    requires
        old(accounts).wf(),
    ensures
        final(accounts).wf(),
        account_views(final(accounts)@) == genesis_credit(account_views(old(accounts)@), *id, amount, Seq::empty()),
{
    let ghost m0 = accounts@;
    if accounts.get_account(id).is_none() {
        let _ = accounts.create_account(*id);
    }
    let ghost m1 = accounts@;
    assert(m1.contains_key(*id));
    assert(m1[*id]@ == (if m0.contains_key(*id) {
        m0[*id]@
    } else {
        AccountView { object_id: *id, balance: 0, nonce: 0, public_key: None }
    }));
    let _ = accounts.credit(id, amount);
    proof {
        let target = genesis_credit(account_views(m0), *id, amount, Seq::empty());
        assert(account_views(accounts@) =~= target) by {
            assert forall|k: ObjectId| #[trigger] account_views(accounts@).contains_key(k) == target.contains_key(k) by {
                if k != *id {
                    assert(accounts@.contains_key(k) == m0.contains_key(k));
                }
            }
            assert forall|k: ObjectId| account_views(accounts@).contains_key(k) implies #[trigger] account_views(accounts@)[k] == target[k] by {
                if k != *id {
                    assert(accounts@[k] == m0[k]);
                }
            }
        }
    }
}

/// The gross reward of a block: none at genesis; otherwise the base reward
/// for its difficulty scaled by the vein yield of its PoW hash value (0 for
/// a refined block or when no hash is known).
pub open spec fn pow_value_of(b: Block, pow_hash: Option<[u8; 32]>) -> u64 {
    if b.header.pow_proof is Some && pow_hash is Some && crate::pow::pow_nonce_spec(b.header) is Some {
        crate::pow::be_value(pow_hash->0@.take(8)) as u64
    } else {
        0
    }
}

/// The base part of a block's reward: none at genesis, otherwise the base
/// reward over the difficulty (at least the minimum).
pub open spec fn base_reward_amount_of(h: BlockHeader, base_reward: u64) -> u64 {
    if h.height == 0 {
        0
    } else {
        (base_reward / if h.difficulty > MIN_DIFFICULTY {
            h.difficulty
        } else {
            MIN_DIFFICULTY
        }) as u64
    }
}

/// The bonded share of the issued supply in thousandths, at most 1000.
pub open spec fn coverage_of(bonded_stake: u64, total_issued: u64) -> u64 {
    if total_issued == 0 {
        0
    } else if bonded_stake * 1000 / (total_issued as int) > 1000 {
        1000
    } else {
        (bonded_stake * 1000 / (total_issued as int)) as u64
    }
}

/// The credits of the refiners' share: each refiner gets the share times
/// its weight over the total weight (at most `u64::MAX`), when that is not
/// zero.
pub open spec fn refiner_credits(vs: Seq<crate::refiner::RefinerInfo>, share: u64, total_weight: u64) -> Seq<(ObjectId, u64)>
    decreases vs.len(),
{
    if vs.len() == 0 {
        Seq::empty()
    } else {
        let prev = refiner_credits(vs.drop_last(), share, total_weight);
        let v = vs.last();
        let q = share * saturate(v.stake()) / (total_weight as int);
        let q64 = if q > u64::MAX {
            u64::MAX
        } else {
            q as u64
        };
        if q64 > 0 {
            prev.push((v.object_id, q64))
        } else {
            prev
        }
    }
}

/// The credits of a block reward, in order: the producer's share to a
/// producer that is not the zero identifier, then the refiners' share among
/// the active refiners when they have weight.
pub open spec fn reward_credits(producer: ObjectId, d: RewardDistribution, vs: Seq<crate::refiner::RefinerInfo>, total_weight: u64) -> Seq<(ObjectId, u64)> {
    let miner = if producer.bytes() != crate::types::zero_bytes32() && d.miner_share > 0 {
        seq![(producer, d.miner_share)]
    } else {
        Seq::empty()
    };
    if d.refiner_share > 0 && total_weight > 0 {
        miner + refiner_credits(vs, d.refiner_share, total_weight)
    } else {
        miner
    }
}

/// Pays the block reward: the producer's share to the producer, the
/// refiners' share among the active refiners by weight.
fn stage_rewards(accounts: &mut AccountStore, refiners: &RefinerSet, block: &Block, pow_hash: Option<[u8; 32]>, base_reward: u64, total_issued: u64, bonded_stake: u64, share_timestamp: u64) -> (d: RewardDistribution)
    requires
        old(accounts).wf(),
        refiners.wf(),
    ensures
        final(accounts).wf(),
        d.gross_reward == (if block.header.height == 0 {
            0
        } else {
            crate::emission::block_reward_spec(base_reward, block.header.difficulty, pow_value_of(*block, pow_hash))
        }),
        d == crate::chain::reward_split(
            d.gross_reward,
            base_reward_amount_of(block.header, base_reward),
            coverage_of(bonded_stake, total_issued),
        ),
        account_views(final(accounts)@) == credit_fold(
            account_views(old(accounts)@),
            reward_credits(
                block.header.producer,
                d,
                crate::refiner_set::listed_refiners(refiners.active_ids(), refiners@),
                saturate(ids_stake(refiners.active_ids(), refiners@)) as u64,
            ),
        ),
{
    let ghost start = account_views(accounts@);
    let ghost vs = crate::refiner_set::listed_refiners(refiners.active_ids(), refiners@);
    let ghost tw = saturate(ids_stake(refiners.active_ids(), refiners@)) as u64;
    let block_reward = if block.header.height == 0 {
        0
    } else {
        let hv: u64 = if block.header.pow_proof.is_some() {
            match pow_hash {
                Some(ph) => match compute_pow_hash_value(&block.header, &ph) {
                    Some(v) => v,
                    None => 0,
                },
                None => 0,
            }
        } else {
            0
        };
        compute_block_reward(base_reward, block.header.difficulty, hv)
    };
    let base_reward_amount = if block.header.height == 0 {
        0
    } else {
        let d = if block.header.difficulty > MIN_DIFFICULTY { block.header.difficulty } else { MIN_DIFFICULTY };
        base_reward / d
    };
    let coverage = coverage_milli(bonded_stake, total_issued);
    let dist = compute_reward_distribution(block_reward, base_reward_amount, coverage);
    let producer = block.header.producer;
    let ghost miner: Seq<(ObjectId, u64)> = if producer.bytes() != crate::types::zero_bytes32() && dist.miner_share > 0 {
        seq![(producer, dist.miner_share)]
    } else {
        Seq::empty()
    };
    if !producer.is_zero() && dist.miner_share > 0 {
        credit_or_create(accounts, &producer, dist.miner_share);
        proof {
            assert(miner.len() == 1);
            assert(miner.drop_last() =~= Seq::<(ObjectId, u64)>::empty());
            assert(credit_fold(start, miner.drop_last()) == start);
            assert(miner.last() == (producer, dist.miner_share));
            assert(credit_fold(start, miner) == genesis_credit(start, producer, dist.miner_share, Seq::empty()));
        }
    } else {
        proof {
            assert(miner =~= Seq::<(ObjectId, u64)>::empty());
        }
    }
    assert(account_views(accounts@) == credit_fold(start, miner));
    if dist.refiner_share > 0 {
        let total_weight = refiners.total_weight(share_timestamp);
        if total_weight > 0 {
            let active = refiners.active_refiners();
            let mut i: usize = 0;
            proof {
                assert(vs.take(0) =~= Seq::<crate::refiner::RefinerInfo>::empty());
                assert(miner + refiner_credits(vs.take(0), dist.refiner_share, tw) =~= miner);
            }
            while i < active.len()
                invariant
                    accounts.wf(),
                    total_weight > 0,
                    total_weight == tw,
                    active@.len() == vs.len(),
                    forall|k: int| 0 <= k < active@.len() ==> *(#[trigger] active@[k]) == vs[k],
                    i <= active@.len(),
                    account_views(accounts@) == credit_fold(start, miner + refiner_credits(vs.take(i as int), dist.refiner_share, tw)),
                decreases active.len() - i,
            {
                let v = active[i];
                proof {
                    assert(vs.take(i + 1).drop_last() =~= vs.take(i as int));
                    assert(vs.take(i + 1).last() == *v);
                }
                let w = v.weight(share_timestamp);
                let a = dist.refiner_share as u128;
                let b = w as u128;
                assert(a * b <= 0xffff_ffff_ffff_ffffu128 * 0xffff_ffff_ffff_ffffu128) by (nonlinear_arith)
                    requires a <= 0xffff_ffff_ffff_ffffu128, b <= 0xffff_ffff_ffff_ffffu128;
                let s = a * b;
                let share = s / (total_weight as u128);
                let share64 = if share > 0xffff_ffff_ffff_ffffu128 { 0xffff_ffff_ffff_ffffu64 } else { share as u64 };
                let ghost before = refiner_credits(vs.take(i as int), dist.refiner_share, tw);
                if share64 > 0 {
                    credit_or_create(accounts, &v.object_id, share64);
                    proof {
                        assert(refiner_credits(vs.take(i + 1), dist.refiner_share, tw) == before.push((v.object_id, share64)));
                        assert((miner + before.push((v.object_id, share64))).drop_last() =~= miner + before);
                    }
                } else {
                    proof {
                        assert(refiner_credits(vs.take(i + 1), dist.refiner_share, tw) == before);
                    }
                }
                i = i + 1;
            }
            proof {
                assert(vs.take(i as int) =~= vs);
            }
        }
    }
    dist
}

/// One transaction of a block at `height` and `timestamp` run on accounts
/// `a` and refiners `ra`, giving `b` and `rb`: it succeeds exactly when it
/// verifies, pays at least the minimum fee, comes from a known sender with
/// the next nonce and its action can be applied; it then burns `burned`, and
/// a failed one changes nothing and burns nothing.
pub open spec fn tx_applied(
    tx: Transaction,
    a: Map<ObjectId, crate::account::Account>,
    b: Map<ObjectId, crate::account::Account>,
    ra: RefinerSet,
    rb: RefinerSet,
    height: u64,
    timestamp: u64,
    success: bool,
    burned: u64,
) -> bool {
    &&& rb.wf()
    &&& success <==> (verify_error_text(tx, MAINNET_CHAIN_ID) is None && tx.fee >= MIN_FEE && a.contains_key(tx.sender)
        && a[tx.sender].nonce == tx.nonce && action_succeeds(tx, a, ra@, height, timestamp))
    &&& success ==> burned == action_burn(tx, ra@) && key_registered(accounts_after_action(tx, a, ra@), b, tx.sender, tx.public_key@)
        && refiners_after_action(tx, &ra, &rb, height, timestamp)
    &&& !success ==> burned == 0 && b == a && refiners_unchanged(&ra, &rb)
}

/// The transaction at `k` of a block takes the state at `k` to the state at
/// `k + 1`.
pub open spec fn tx_step(
    txs: Seq<Transaction>,
    accs: Seq<Map<ObjectId, crate::account::Account>>,
    refs: Seq<RefinerSet>,
    oks: Seq<bool>,
    burns: Seq<u64>,
    height: u64,
    timestamp: u64,
    k: int,
) -> bool {
    tx_applied(txs[k], accs[k], accs[k + 1], refs[k], refs[k + 1], height, timestamp, oks[k], burns[k])
}

/// The states between the transactions of a block, whether each succeeded
/// and what each burned.
pub open spec fn tx_trace(
    txs: Seq<Transaction>,
    accs: Seq<Map<ObjectId, crate::account::Account>>,
    refs: Seq<RefinerSet>,
    oks: Seq<bool>,
    burns: Seq<u64>,
    height: u64,
    timestamp: u64,
) -> bool {
    &&& accs.len() == txs.len() + 1
    &&& refs.len() == txs.len() + 1
    &&& oks.len() == txs.len()
    &&& burns.len() == txs.len()
    &&& forall|k: int| 0 <= k < txs.len() ==> #[trigger] tx_step(txs, accs, refs, oks, burns, height, timestamp, k)
}

/// The saturating number of successes.
pub open spec fn success_count(oks: Seq<bool>) -> u64
    decreases oks.len(),
{
    if oks.len() == 0 {
        0
    } else {
        saturate(success_count(oks.drop_last()) + if oks.last() {
            1int
        } else {
            0int
        }) as u64
    }
}

/// The identifiers of the transactions.
pub open spec fn tx_ids(txs: Seq<Transaction>) -> Set<ObjectId> {
    Set::new(|id: ObjectId| exists|j: int| 0 <= j < txs.len() && #[trigger] txs[j].tx_id == id)
}

/// The block's transactions run in order take the accounts from `a` to `b`
/// and the refiners from `ra` to `rb`; `fees` is what they burned and
/// `count` how many succeeded (both saturating).
pub open spec fn transactions_applied(
    a: Map<ObjectId, crate::account::Account>,
    b: Map<ObjectId, crate::account::Account>,
    ra: RefinerSet,
    rb: RefinerSet,
    block: Block,
    fees: u64,
    count: u64,
) -> bool {
    exists|accs: Seq<Map<ObjectId, crate::account::Account>>, refs: Seq<RefinerSet>, oks: Seq<bool>, burns: Seq<u64>|
        {
            &&& #[trigger] tx_trace(block.transactions@, accs, refs, oks, burns, block.header.height, block.header.timestamp)
            &&& accs[0] == a
            &&& accs.last() == b
            &&& refs[0] == ra
            &&& refs.last() == rb
            &&& fees == saturating_total(burns)
            &&& count == success_count(oks)
        }
}

/// Executes the block's transactions in order and takes them out of the
/// mempool; returns the fees burned by the successful ones and their number.
fn stage_transactions(accounts: &mut AccountStore, refiners: &mut RefinerSet, mempool: &mut Mempool, block: &Block) -> (r: (u64, u64))
    requires
        old(accounts).wf(),
        old(refiners).wf(),
        old(mempool).wf(),
    ensures
        final(accounts).wf(),
        final(refiners).wf(),
        final(mempool).wf(),
        final(mempool)@ == old(mempool)@.remove_keys(tx_ids(block.transactions@)),
        transactions_applied(old(accounts)@, final(accounts)@, *old(refiners), *final(refiners), *block, r.0, r.1),
{
    let ghost txs = block.transactions@;
    let ghost m0 = mempool@;
    let ghost mut accs: Seq<Map<ObjectId, crate::account::Account>> = seq![accounts@];
    let ghost mut refs: Seq<RefinerSet> = seq![*refiners];
    let ghost mut oks: Seq<bool> = Seq::empty();
    let ghost mut burns: Seq<u64> = Seq::empty();
    let mut fees: u64 = 0;
    let mut count: u64 = 0;
    let mut i: usize = 0;
    while i < block.transactions.len()
        invariant
            accounts.wf(),
            refiners.wf(),
            mempool.wf(),
            txs == block.transactions@,
            i <= txs.len(),
            accs.len() == i + 1,
            refs.len() == i + 1,
            oks.len() == i,
            burns.len() == i,
            accs[0] == old(accounts)@,
            refs[0] == *old(refiners),
            accs[i as int] == accounts@,
            refs[i as int] == *refiners,
            fees == saturating_total(burns),
            count == success_count(oks),
            mempool@ == m0.remove_keys(tx_ids(txs.take(i as int))),
            forall|k: int|
                0 <= k < i ==> #[trigger] tx_step(txs, accs, refs, oks, burns, block.header.height, block.header.timestamp, k),
        decreases block.transactions.len() - i,
    {
        let tx = &block.transactions[i];
        let ghost a0 = accounts@;
        let ghost ra = *refiners;
        let result = TransactionDispatcher::apply_transaction(tx, accounts, refiners, block.header.height, block.header.timestamp, MAINNET_CHAIN_ID);
        let mut burned: u64 = 0;
        if result.success {
            burned = result.fee_burned;
            count = count.saturating_add(1);
        }
        fees = fees.saturating_add(burned);
        let ghost mp = mempool@;
        let _ = mempool.remove_transaction(&tx.tx_id);
        proof {
            assert(txs[i as int] == *tx);
            assert(tx_applied(*tx, a0, accounts@, ra, *refiners, block.header.height, block.header.timestamp, result.success, burned));
            let oa = accs;
            let orf = refs;
            let ook = oks;
            let obu = burns;
            accs = accs.push(accounts@);
            refs = refs.push(*refiners);
            oks = oks.push(result.success);
            burns = burns.push(burned);
            assert(burns.drop_last() =~= obu);
            assert(oks.drop_last() =~= ook);
            assert forall|k: int|
                0 <= k < i + 1 implies #[trigger] tx_step(txs, accs, refs, oks, burns, block.header.height, block.header.timestamp, k) by {
                if k < i {
                    assert(tx_step(txs, oa, orf, ook, obu, block.header.height, block.header.timestamp, k));
                    assert(accs[k] == oa[k] && accs[k + 1] == oa[k + 1]);
                    assert(refs[k] == orf[k] && refs[k + 1] == orf[k + 1]);
                    assert(oks[k] == ook[k] && burns[k] == obu[k]);
                }
            }
            assert(tx_ids(txs.take(i + 1)) =~= tx_ids(txs.take(i as int)).insert(tx.tx_id)) by {
                assert forall|id: ObjectId| tx_ids(txs.take(i + 1)).contains(id) implies tx_ids(txs.take(i as int)).insert(tx.tx_id).contains(id) by {
                    let j = choose|j: int| 0 <= j < i + 1 && #[trigger] txs.take(i + 1)[j].tx_id == id;
                    if j < i {
                        assert(txs.take(i as int)[j].tx_id == id);
                    }
                }
                assert forall|id: ObjectId| tx_ids(txs.take(i as int)).insert(tx.tx_id).contains(id) implies tx_ids(txs.take(i + 1)).contains(id) by {
                    if id == tx.tx_id {
                        assert(txs.take(i + 1)[i as int].tx_id == id);
                    } else {
                        let j = choose|j: int| 0 <= j < i && #[trigger] txs.take(i as int)[j].tx_id == id;
                        assert(txs.take(i + 1)[j].tx_id == id);
                    }
                }
            }
            assert(mempool@ =~= m0.remove_keys(tx_ids(txs.take(i + 1))));
        }
        i = i + 1;
    }
    proof {
        assert(txs.take(i as int) =~= txs);
        assert(tx_trace(txs, accs, refs, oks, burns, block.header.height, block.header.timestamp));
    }
    (fees, count)
}

/// Credits applied in order, each creating its account when missing.
pub open spec fn credit_fold(m: Map<ObjectId, AccountView>, s: Seq<(ObjectId, u64)>) -> Map<ObjectId, AccountView>
    decreases s.len(),
{
    if s.len() == 0 {
        m
    } else {
        genesis_credit(credit_fold(m, s.drop_last()), s.last().0, s.last().1, Seq::empty())
    }
}

/// The withdrawals matured at `height` leave the queue as `paid`, and
/// refiners left with nothing are removed.
pub open spec fn unbond_step(a: RefinerSet, b: RefinerSet, height: u64, paid: Seq<(ObjectId, u64)>) -> bool {
    &&& b.wf()
    &&& paid == crate::refiner_set::matured_of(a.queue(), height)
    &&& b.queue() == crate::refiner_set::pending_of(a.queue(), height)
    &&& b.dirty() == a.dirty()
    &&& forall|k: ObjectId|
        #![trigger b@.contains_key(k)]
        #![trigger a@.contains_key(k)]
        b@.contains_key(k) <==> (a@.contains_key(k) && !(exists|j: int| 0 <= j < paid.len() && #[trigger] paid[j].0 == k)
            || a@.contains_key(k) && !(a@[k].status == RefinerStatus::Unbonding && saturate(a@[k].stake()) == 0
            && !crate::refiner_set::queued_for(b.queue(), k)))
    &&& forall|k: ObjectId| #[trigger] b@.contains_key(k) ==> b@[k] == a@[k]
    &&& b.active_ids() == crate::refiner_set::retained_ids(a.active_ids(), crate::refiner_set::removed_keys(a@, b@))
}

/// The bonds matured at `height` move on, and the refiners whose bonding
/// matured are marked changed.
pub open spec fn activate_step(a: RefinerSet, b: RefinerSet, height: u64) -> bool {
    &&& b.wf()
    &&& b@ == a@.map_values(|v: crate::refiner::RefinerInfo| crate::refiner_set::after_maturity(v, height))
    &&& b.active_ids() == a.active_ids()
    &&& b.queue() == a.queue()
    &&& forall|k: ObjectId|
        #[trigger] b.dirty().contains(k) <==> (a.dirty().contains(k) || (a@.contains_key(k)
            && crate::refiner_set::epoch_matured(a@[k], height)))
}

/// The competing refiners reranked for an epoch.
pub open spec fn rerank_step(a: RefinerSet, b: RefinerSet, total_issued: u64) -> bool {
    &&& b.wf()
    &&& b.queue() == a.queue()
    &&& exists|ranking: Seq<(ObjectId, u64)>|
        {
            let limit = crate::refiner::active_limit_spec(total_issued);
            let n = ranking.len();
            &&& #[trigger] crate::refiner_set::is_ranking(ranking, a@)
            &&& b@ == crate::refiner_set::reranked_upto(a@, ranking, limit, n)
            &&& b.active_ids() == crate::refiner_set::active_after(a.active_ids(), a@, ranking, limit, n)
            &&& b.dirty() == a.dirty() + crate::refiner_set::promoted_upto(a@, ranking, limit, n).to_set()
                + crate::refiner_set::demoted_upto(a@, ranking, limit, n).to_set()
        }
}

/// The stake above the minimum the active set needs decays, burning
/// `burned`.
pub open spec fn decay_step(a: RefinerSet, b: RefinerSet, total_issued: u64, burned: u64) -> bool {
    let tb = saturate(ids_stake(a.active_ids(), a@) + a.bonding_waiting());
    let limit = crate::refiner::active_limit_spec(total_issued);
    let surplus = tb - crate::refiner::minimum_bond_spec(total_issued) * limit;
    let root = crate::emission::floor_sqrt(limit as nat);
    let sq = if root < 1 {
        1
    } else {
        root as int
    };
    &&& b.wf()
    &&& b.active_ids() == a.active_ids()
    &&& b.queue() == a.queue()
    &&& if tb == 0 || surplus <= 0 {
        &&& burned == 0
        &&& b@ == a@
        &&& b.dirty() == a.dirty()
    } else {
        &&& burned == saturate(a.decay_burn_total(surplus, tb, sq))
        &&& b@.dom() == a@.dom()
        &&& forall|k: ObjectId| #[trigger] a@.contains_key(k) ==> crate::refiner_set::decayed_from(b@[k], a@[k], surplus, tb, sq)
        &&& forall|k: ObjectId|
            #[trigger] b.dirty().contains(k) <==> (a.dirty().contains(k) || (a@.contains_key(k)
                && crate::refiner_set::decay_touches(a@[k], surplus, tb, sq)))
    }
}

/// The refiner maintenance of a block at `height`: matured withdrawals
/// leave the queue, matured bonds move on, and at an epoch boundary the
/// refiners are reranked and their surplus stake decays, burning `burned`.
pub open spec fn epoch_chain(a: RefinerSet, r1: RefinerSet, r2: RefinerSet, b: RefinerSet, height: u64, total_issued: u64, burned: u64) -> bool {
    &&& unbond_step(a, r1, height, crate::refiner_set::matured_of(a.queue(), height))
    &&& activate_step(r1, r2, height)
    &&& if height > 0 && height % EPOCH == 0 {
        exists|r3: RefinerSet| #[trigger] rerank_step(r2, r3, total_issued) && decay_step(r3, b, total_issued, burned)
    } else {
        b == r2 && burned == 0
    }
}

/// The refiner maintenance of the block at `height` takes the refiners from
/// `a` to `b`, burning `burned`.
pub open spec fn epoch_applied(a: RefinerSet, b: RefinerSet, height: u64, total_issued: u64, burned: u64) -> bool {
    exists|r1: RefinerSet, r2: RefinerSet| #[trigger] epoch_chain(a, r1, r2, b, height, total_issued, burned)
}

/// Pays out matured unbonds, moves matured bonds to waiting, and at an epoch
/// boundary reranks the refiners and applies stake decay; returns the stake
/// burned by decay.
fn stage_epoch(accounts: &mut AccountStore, refiners: &mut RefinerSet, height: u64, timestamp: u64, total_issued: u64) -> (decayed: u64)
    requires
        old(accounts).wf(),
        old(refiners).wf(),
    ensures
        final(accounts).wf(),
        final(refiners).wf(),
        account_views(final(accounts)@) == credit_fold(
            account_views(old(accounts)@),
            crate::refiner_set::matured_of(old(refiners).queue(), height),
        ),
        epoch_applied(*old(refiners), *final(refiners), height, total_issued, decayed),
{
    let ghost r0 = *refiners;
    let ghost start = account_views(accounts@);
    let matured = refiners.process_matured_unbonds(height);
    let ghost r1 = *refiners;
    assert(unbond_step(r0, r1, height, matured@));
    let mut i: usize = 0;
    while i < matured.len()
        invariant
            accounts.wf(),
            i <= matured@.len(),
            account_views(accounts@) == credit_fold(start, matured@.take(i as int)),
        decreases matured.len() - i,
    {
        proof {
            assert(matured@.take(i + 1).drop_last() =~= matured@.take(i as int));
        }
        let (account, amount) = matured[i];
        credit_or_create(accounts, &account, amount);
        i = i + 1;
    }
    assert(matured@.take(i as int) =~= matured@);
    let newly = refiners.activate_matured_refiners(height);
    let ghost r2 = *refiners;
    proof {
        assert forall|k: ObjectId|
            #[trigger] r2.dirty().contains(k) <==> (r1.dirty().contains(k) || (r1@.contains_key(k)
                && crate::refiner_set::epoch_matured(r1@[k], height))) by {
            assert(newly@.to_set().contains(k) <==> newly@.contains(k));
        }
        assert(activate_step(r1, r2, height));
    }
    if height > 0 && height % EPOCH == 0 {
        let _ = refiners.rerank_refiners(timestamp, total_issued);
        let ghost r3 = *refiners;
        assert(rerank_step(r2, r3, total_issued));
        let d = refiners.decay_stake(total_issued);
        assert(decay_step(r3, *refiners, total_issued, d));
        assert(epoch_chain(r0, r1, r2, *refiners, height, total_issued, d));
        d
    } else {
        assert(epoch_chain(r0, r1, r2, *refiners, height, total_issued, 0));
        0
    }
}

/// The tag of the chain state commitment.
pub const CHAIN_TAG: [u8; 5] = [99u8, 104u8, 97u8, 105u8, 110u8];

/// Whether `f` is the root committing to the refiners and the unbonding
/// queue.
pub open spec fn is_refiner_root(f: crate::types::Hash, r: RefinerSet) -> bool {
    exists|sorted: Seq<(ObjectId, Seq<u8>)>|
        {
            &&& #[trigger] crate::keyed::sorted_by_key(sorted)
            &&& crate::keyed::keys_unique(sorted)
            &&& crate::keyed::to_map(sorted) == r@.map_values(|v: crate::refiner::RefinerInfo| crate::refiner_set::enc_refiner(v))
            &&& f.bytes() == blake3_digest(crate::refiner_set::refiner_root_preimage(sorted, r.queue()))
        }
}

/// Whether some refiner has more bond entries than its encoding can count.
pub open spec fn refiner_root_fails(r: RefinerSet) -> bool {
    exists|k: ObjectId| #[trigger] r@.contains_key(k) && r@[k].entries@.len() > u32::MAX
}

/// What the state root commits to, after its two sub-roots.
pub open spec fn state_root_preimage(account_root: crate::types::Hash, refiner_root: crate::types::Hash, issued: u64, burned: u64, height: u64) -> Seq<u8> {
    DOMAIN_STATE_ROOT@ + CHAIN_TAG@ + account_root.bytes() + refiner_root.bytes() + crate::encoding::be_u64(issued)
        + crate::encoding::be_u64(burned) + crate::encoding::be_u64(height)
}

/// The new state root: domain, tag, account root, refiner root, issued,
/// burned and height.
fn stage_state_root(accounts: &AccountStore, refiners: &RefinerSet, issued: u64, burned: u64, height: u64) -> (r: Result<crate::types::Hash, String>)
    requires
        accounts.wf(),
        refiners.wf(),
    ensures
        r is Ok <==> accounts.encodable() && !refiner_root_fails(*refiners),
        !accounts.encodable() ==> (r matches Err(m) && m@ == "Account state cannot be encoded"@),
        accounts.encodable() && refiner_root_fails(*refiners) ==> (r matches Err(m) && m@ == "Serialization error: "@
            + crate::refiner_set::refiner_too_long_msg() + ""@),
        r matches Ok(h) ==> exists|a: crate::types::Hash, f: crate::types::Hash|
            {
                &&& crate::account::is_account_root(a, crate::account::encoded_accounts(accounts@))
                &&& is_refiner_root(f, *refiners)
                &&& h.bytes() == blake3_digest(#[trigger] state_root_preimage(a, f, issued, burned, height))
            },
{
    if !accounts.is_encodable() {
        return Err(String::from_str("Account state cannot be encoded"));
    }
    let account_root = accounts.compute_state_root();
    let refiner_root = match refiners.compute_state_root() {
        Ok(h) => h,
        Err(e) => {
            return Err(e.message());
        },
    };
    let mut h = Blake3Hasher::new();
    let dom = DOMAIN_STATE_ROOT;
    h.update(dom.as_slice());
    let tag = CHAIN_TAG;
    h.update(tag.as_slice());
    h.update(account_root.as_bytes().as_slice());
    h.update(refiner_root.as_bytes().as_slice());
    let mut v: Vec<u8> = Vec::new();
    push_u64_be(&mut v, issued);
    push_u64_be(&mut v, burned);
    push_u64_be(&mut v, height);
    h.update(v.as_slice());
    let root = h.finalize();
    proof {
        assert(h.input() =~= state_root_preimage(account_root, refiner_root, issued, burned, height));
        assert(is_refiner_root(refiner_root, *refiners));
    }
    Ok(root)
}

/// The attestation window of the block at `next_height`: those from the
/// last epoch below it, oldest first.
pub open spec fn attestation_window(items: Seq<BlockAttestation>, next_height: u64) -> Seq<BlockAttestation> {
    crate::attestation::in_window(items, (if next_height >= EPOCH { next_height - EPOCH } else { 0 }) as u64, next_height)
}

/// How many attestations of the window a block takes.
pub open spec fn drained_count(items: Seq<BlockAttestation>, next_height: u64) -> int {
    let w = attestation_window(items, next_height);
    if w.len() > crate::constants::MAX_ATTESTATIONS_PER_BLOCK {
        crate::constants::MAX_ATTESTATIONS_PER_BLOCK as int
    } else {
        w.len() as int
    }
}

/// The attestations the block at `next_height` carries.
pub open spec fn drained_attestations(items: Seq<BlockAttestation>, next_height: u64) -> Seq<BlockAttestation> {
    attestation_window(items, next_height).take(drained_count(items, next_height))
}

/// The attestations left in the pool for later blocks.
pub open spec fn kept_attestations(items: Seq<BlockAttestation>, next_height: u64) -> Seq<BlockAttestation> {
    attestation_window(items, next_height).skip(drained_count(items, next_height))
}

/// Builds and signs the next block when `miner_id` is the refiner selected
/// (by stake, seeded from the tip's hash) to produce it: the mempool's
/// transactions in priority order (at most `MAX_TRANSACTIONS_PER_BLOCK`),
/// the pending double-sign evidence, the pool's attestations for the block,
/// a header on the tip with the expected difficulty, and the refiner's
/// signature of the block hash. When another refiner is selected, nothing is
/// built.
pub fn produce_refiner_block(
    chain: &ChainState,
    refiners: &RefinerSet,
    mempool: &Mempool,
    pool: &mut crate::attestation::AttestationPool,
    pending_evidence: Vec<DoubleSignEvidence>,
    secret_key: &[u8; 32],
    miner_id: &ObjectId,
    now_secs: u64,
) -> (r: Option<Block>)
    requires
        refiners.wf(),
        mempool.wf(),
        chain.current_height < u64::MAX,
    ensures
        selected_producer(refiners.active_ids(), refiners@, hash_seed_spec(chain.latest_block_hash)) != Some(*miner_id) ==> r is None
            && *final(pool) == *old(pool),
        selected_producer(refiners.active_ids(), refiners@, hash_seed_spec(chain.latest_block_hash)) == Some(*miner_id) ==> {
            &&& r is Some <==> crate::block::evidence_list_fits(pending_evidence@) && crate::block::attestation_list_fits(
                drained_attestations(old(pool).items(), (chain.current_height + 1) as u64),
            )
            &&& final(pool).items() == kept_attestations(old(pool).items(), (chain.current_height + 1) as u64)
        },
        r matches Some(b) ==> b.attestations@ == drained_attestations(old(pool).items(), (chain.current_height + 1) as u64),
        r matches Some(b) ==> {
            &&& b.header.version == crate::constants::BLOCK_VERSION
            &&& b.header.height == chain.current_height + 1
            &&& b.header.previous_hash == chain.latest_block_hash
            &&& b.header.state_root == chain.state_root
            &&& b.header.timestamp == now_secs
            &&& b.header.difficulty == expected_difficulty(*chain, bonded_stake_of(refiners))
            &&& b.header.suggested_fee == chain.suggested_fee
            &&& b.header.producer == *miner_id
            &&& b.header.pow_proof is None
            &&& b.header.refiner_signature matches Some(sig) && sig@ == crate::crypto::ed25519_signature_of(
                secret_key@,
                crate::crypto::DOMAIN_BLOCK_SIGNING@ + blake3_digest(header_hash_preimage(b.header)),
            )
            &&& b.transactions@.len() == capped(mempool@.len(), crate::constants::MAX_TRANSACTIONS_PER_BLOCK)
            &&& exists|order: Seq<(ObjectId, (u64, u64))>|
                {
                    &&& #[trigger] crate::mempool::mp_sorted(true, order)
                    &&& crate::mempool::keys_of(order, mempool@)
                    &&& forall|k: int| 0 <= k < b.transactions@.len() ==> #[trigger] crate::types::same_transaction(
                        b.transactions@[k],
                        mempool@[order[k].0].transaction,
                    )
                }
            &&& b.slash_evidence@ == pending_evidence@
            &&& b.genesis_ceremony is None
            &&& b.header.extension_root is None
            &&& b.header.transaction_root.bytes() == blake3_digest(crate::crypto::DOMAIN_TX_ROOT@ + crate::block::tx_commitments(b.transactions@))
            &&& b.header.evidence_root.bytes() == crate::block::evidence_root_bytes(b.slash_evidence@)
            &&& b.header.attestation_root.bytes() == crate::block::attestation_root_bytes(b.attestations@)
            &&& b.header.genesis_ceremony_hash.bytes() == crate::block::ceremony_hash_bytes(b.genesis_ceremony)
        },
{
    let seed = hash_seed(&chain.latest_block_hash);
    match refiners.select_block_producer(seed) {
        None => {
            return None;
        },
        Some(p) => {
            if !id_eq(&p.object_id, miner_id) {
                return None;
            }
        },
    }
    let ordered = mempool.get_ordered_transactions();
    let ghost order = choose|order: Seq<(ObjectId, (u64, u64))>|
        {
            &&& #[trigger] crate::mempool::mp_sorted(true, order)
            &&& crate::mempool::keys_of(order, mempool@)
            &&& ordered@.len() == order.len()
            &&& forall|i: int| 0 <= i < order.len() ==> *(#[trigger] ordered@[i]) == mempool@[order[i].0].transaction
        };
    let transactions = take_ordered(&ordered, crate::constants::MAX_TRANSACTIONS_PER_BLOCK, Ghost(order), Ghost(mempool@));
    let bonded = refiners.total_bonded_stake();
    let target = compute_next_difficulty(
        chain.current_difficulty,
        chain.current_height,
        chain.block_timestamps.as_slice(),
        chain.total_issued,
        bonded,
    );
    let difficulty = target.effective_difficulty();
    let next_height = chain.current_height + 1;
    let attestations = pool.drain_for_block(next_height);
    let mut block = Block {
        header: BlockHeader {
            version: crate::constants::BLOCK_VERSION,
            height: next_height,
            previous_hash: chain.latest_block_hash,
            state_root: chain.state_root,
            transaction_root: crate::types::Hash::zero(),
            evidence_root: crate::types::Hash::zero(),
            attestation_root: crate::types::Hash::zero(),
            genesis_ceremony_hash: crate::types::Hash::zero(),
            timestamp: now_secs,
            difficulty,
            suggested_fee: chain.suggested_fee,
            extension_root: None,
            producer: *miner_id,
            pow_proof: None,
            refiner_signature: None,
        },
        transactions,
        slash_evidence: pending_evidence,
        attestations,
        genesis_ceremony: None,
    };
    match crate::block::set_body_roots(&mut block) {
        Ok(()) => {},
        Err(_) => {
            return None;
        },
    }
    let block_hash = compute_block_hash(&block.header);
    let payload = refiner_block_signing_payload(&block_hash);
    let signature = crate::crypto::ed25519_sign(secret_key, payload.as_slice());
    let mut sig: Vec<u8> = Vec::new();
    let mut j: usize = 0;
    while j < 64
        invariant
            j <= 64,
            sig@ == signature@.take(j as int),
        decreases 64 - j,
    {
        sig.push(signature[j]);
        j = j + 1;
        assert(sig@ =~= signature@.take(j as int));
    }
    assert(sig@ =~= signature@);
    block.header.refiner_signature = Some(sig);
    Some(block)
}

/// Proof-of-work attempts a mining round makes at difficulty 1.
pub const MINING_BASE_ATTEMPTS: u64 = 100_000;

/// Proof-of-work attempts a mining round makes at most.
pub const MINING_MAX_ATTEMPTS: u64 = 10_000_000;

/// The attempts of one mining round: `MINING_BASE_ATTEMPTS` per unit of
/// difficulty (counting at least one), capped at `MINING_MAX_ATTEMPTS`.
pub fn mining_attempts(difficulty: u64) -> (n: u64)
    requires
        difficulty <= u64::MAX / MINING_BASE_ATTEMPTS,
    ensures
        n == (if difficulty <= 1 {
            MINING_BASE_ATTEMPTS as int
        } else if MINING_BASE_ATTEMPTS * difficulty > MINING_MAX_ATTEMPTS {
            MINING_MAX_ATTEMPTS as int
        } else {
            MINING_BASE_ATTEMPTS * difficulty
        }),
{
    let d = if difficulty < 1 {
        1
    } else {
        difficulty
    };
    let scaled = MINING_BASE_ATTEMPTS * d;
    if scaled > MINING_MAX_ATTEMPTS {
        MINING_MAX_ATTEMPTS
    } else {
        scaled
    }
}

/// Transactions a mining job proposes at most.
pub const MINING_JOB_MAX_TRANSACTIONS: usize = 100;

/// The first `n` pending transactions in the given order of keys.
pub open spec fn ordered_prefix(order: Seq<(ObjectId, (u64, u64))>, m: Map<ObjectId, crate::mempool::MempoolEntry>, n: int) -> Seq<Transaction> {
    Seq::new(n as nat, |k: int| m[order[k].0].transaction)
}

/// How many of `len` pending transactions a block or a job takes under a cap.
pub open spec fn capped(len: nat, cap: usize) -> int {
    if len > cap {
        cap as int
    } else {
        len as int
    }
}

/// Transactions holding the same values have the same commitments.
proof fn lemma_same_commitments(a: Seq<Transaction>, b: Seq<Transaction>)
    requires
        a.len() == b.len(),
        forall|k: int| 0 <= k < a.len() ==> #[trigger] crate::types::same_transaction(a[k], b[k]),
    ensures
        crate::block::tx_commitments(a) == crate::block::tx_commitments(b),
    decreases a.len(),
{
    if a.len() > 0 {
        assert(crate::types::same_transaction(a[a.len() - 1], b[b.len() - 1]));
        lemma_same_commitments(a.drop_last(), b.drop_last());
    }
}

/// Copies the first transactions of `ordered`, at most `cap` of them; they
/// are the first ones of the mempool in the order `order`.
fn take_ordered(ordered: &Vec<&Transaction>, cap: usize, order: Ghost<Seq<(ObjectId, (u64, u64))>>, m: Ghost<Map<ObjectId, crate::mempool::MempoolEntry>>) -> (txs: Vec<Transaction>)
    requires
        ordered@.len() == order@.len(),
        forall|i: int| 0 <= i < order@.len() ==> *(#[trigger] ordered@[i]) == m@[order@[i].0].transaction,
    ensures
        txs@.len() == capped(ordered@.len(), cap),
        crate::block::tx_commitments(txs@) == crate::block::tx_commitments(ordered_prefix(order@, m@, txs@.len() as int)),
        forall|k: int| 0 <= k < txs@.len() ==> #[trigger] crate::types::same_transaction(txs@[k], m@[order@[k].0].transaction),
{
    let mut transactions: Vec<Transaction> = Vec::new();
    let mut i: usize = 0;
    while i < ordered.len() && i < cap
        invariant
            transactions@.len() == i,
            i <= cap,
            i <= ordered@.len(),
            ordered@.len() == order@.len(),
            forall|i: int| 0 <= i < order@.len() ==> *(#[trigger] ordered@[i]) == m@[order@[i].0].transaction,
            forall|k: int| 0 <= k < i ==> #[trigger] crate::types::same_transaction(transactions@[k], m@[order@[k].0].transaction),
        decreases ordered.len() - i,
    {
        let t = ordered[i].clone();
        proof {
            assert(*ordered@[i as int] == m@[order@[i as int].0].transaction);
        }
        transactions.push(t);
        i = i + 1;
    }
    proof {
        let p = ordered_prefix(order@, m@, i as int);
        assert forall|k: int| 0 <= k < transactions@.len() implies #[trigger] crate::types::same_transaction(transactions@[k], p[k]) by {
            assert(crate::types::same_transaction(transactions@[k], m@[order@[k].0].transaction));
        }
        lemma_same_commitments(transactions@, p);
    }
    transactions
}

/// The header of a mining job's template: the next height on the tip with
/// the proposed transactions committed by its transaction root, the body
/// roots of a block with no evidence, attestations or ceremony, and the
/// miner as producer; `j` shows its fields and its serialization for
/// EVO-OMAP.
pub open spec fn job_template(j: crate::rpc::MiningJobResponse, chain: ChainState, miner_id: ObjectId, now_secs: u64, txs: Seq<Transaction>) -> bool {
    exists|h: BlockHeader|
        {
            &&& h.version == crate::constants::BLOCK_VERSION
            &&& h.height == chain.current_height + 1
            &&& h.previous_hash == chain.latest_block_hash
            &&& h.state_root == chain.state_root
            &&& h.transaction_root.bytes() == blake3_digest(crate::crypto::DOMAIN_TX_ROOT@ + crate::block::tx_commitments(txs))
            &&& hash_hex(h.transaction_root) == j.transaction_root@
            &&& h.evidence_root.bytes() == crate::block::evidence_root_bytes(Seq::empty())
            &&& h.attestation_root.bytes() == crate::block::attestation_root_bytes(Seq::empty())
            &&& h.genesis_ceremony_hash.bytes() == crate::block::ceremony_hash_bytes(None)
            &&& h.timestamp == now_secs
            &&& h.difficulty == j.difficulty
            &&& h.suggested_fee == chain.suggested_fee
            &&& h.extension_root is None
            &&& h.producer == miner_id
            &&& h.pow_proof is None
            &&& h.refiner_signature is None
            &&& j.header_bytes@ == #[trigger] ascii_chars(hex_of(crate::pow::pow_header_bytes(h)))
        }
}

/// A block template for an external miner: the next height on the tip, the
/// expected difficulty and its hash target, the first
/// `MINING_JOB_MAX_TRANSACTIONS` mempool transactions in priority order
/// committed by the transaction root, the miner as producer, and the header
/// serialized for EVO-OMAP.
pub fn mining_job(chain: &ChainState, refiners: &RefinerSet, mempool: &Mempool, miner_id: &ObjectId, now_secs: u64) -> (j: crate::rpc::MiningJobResponse)
    requires
        refiners.wf(),
        mempool.wf(),
        chain.current_height < u64::MAX,
    ensures
        j.version == crate::constants::BLOCK_VERSION,
        j.height == chain.current_height + 1,
        j.previous_hash@ == hash_hex(chain.latest_block_hash),
        j.state_root@ == hash_hex(chain.state_root),
        j.difficulty == expected_difficulty(*chain, bonded_stake_of(refiners)),
        j.target == crate::emission::difficulty_target_spec(j.difficulty),
        j.suggested_fee == chain.suggested_fee,
        j.timestamp == now_secs,
        j.transaction_count == capped(mempool@.len(), MINING_JOB_MAX_TRANSACTIONS),
        j.producer@ == ascii_chars(hex_of(miner_id.bytes())),
        exists|order: Seq<(ObjectId, (u64, u64))>|
            {
                &&& #[trigger] crate::mempool::mp_sorted(true, order)
                &&& crate::mempool::keys_of(order, mempool@)
                &&& job_template(j, *chain, *miner_id, now_secs, ordered_prefix(order, mempool@, j.transaction_count as int))
            },
{
    let bonded = refiners.total_bonded_stake();
    let target = compute_next_difficulty(
        chain.current_difficulty,
        chain.current_height,
        chain.block_timestamps.as_slice(),
        chain.total_issued,
        bonded,
    );
    let difficulty = target.effective_difficulty();
    let ordered = mempool.get_ordered_transactions();
    let ghost order = choose|order: Seq<(ObjectId, (u64, u64))>|
        {
            &&& #[trigger] crate::mempool::mp_sorted(true, order)
            &&& crate::mempool::keys_of(order, mempool@)
            &&& ordered@.len() == order.len()
            &&& forall|i: int| 0 <= i < order.len() ==> *(#[trigger] ordered@[i]) == mempool@[order[i].0].transaction
        };
    let transactions = take_ordered(&ordered, MINING_JOB_MAX_TRANSACTIONS, Ghost(order), Ghost(mempool@));
    let transaction_count = transactions.len();
    let mut block = Block {
        header: BlockHeader {
            version: crate::constants::BLOCK_VERSION,
            height: chain.current_height + 1,
            previous_hash: chain.latest_block_hash,
            state_root: chain.state_root,
            transaction_root: crate::types::Hash::zero(),
            evidence_root: crate::types::Hash::zero(),
            attestation_root: crate::types::Hash::zero(),
            genesis_ceremony_hash: crate::types::Hash::zero(),
            timestamp: now_secs,
            difficulty,
            suggested_fee: chain.suggested_fee,
            extension_root: None,
            producer: *miner_id,
            pow_proof: None,
            refiner_signature: None,
        },
        transactions,
        slash_evidence: Vec::new(),
        attestations: Vec::new(),
        genesis_ceremony: None,
    };
    proof {
        assert(crate::block::evidence_list_fits(block.slash_evidence@));
        assert(crate::block::attestation_list_fits(block.attestations@));
    }
    let _ = crate::block::set_body_roots(&mut block);
    let header = block.header;
    let header_bytes = crate::pow::serialize_header_for_pow(&header);
    let job = crate::rpc::MiningJobResponse {
        version: crate::constants::BLOCK_VERSION,
        height: chain.current_height + 1,
        previous_hash: chain.latest_block_hash.to_hex(),
        state_root: chain.state_root.to_hex(),
        transaction_root: header.transaction_root.to_hex(),
        difficulty,
        target: crate::emission::difficulty_to_target(difficulty),
        suggested_fee: chain.suggested_fee,
        timestamp: now_secs,
        transaction_count,
        producer: miner_id.to_hex(),
        header_bytes: crate::text::hex_string(header_bytes.as_slice()),
    };
    assert(job.header_bytes@ == ascii_chars(hex_of(crate::pow::pow_header_bytes(header))));
    assert(job_template(job, *chain, *miner_id, now_secs, ordered_prefix(order, mempool@, transaction_count as int)));
    job
}

/// The gross reward of a block: none at genesis, otherwise the reward for
/// its difficulty and proof-of-work value.
pub open spec fn gross_reward_of(b: Block, pow_hash: Option<[u8; 32]>, base_reward: u64) -> u64 {
    if b.header.height == 0 {
        0
    } else {
        crate::emission::block_reward_spec(base_reward, b.header.difficulty, pow_value_of(b, pow_hash))
    }
}

/// How the reward of a block applied on `c` is split, with `bonded` the
/// bonded stake before the block.
pub open spec fn reward_of(c: ChainState, bonded: u64, b: Block, pow_hash: Option<[u8; 32]>) -> RewardDistribution {
    crate::chain::reward_split(
        gross_reward_of(b, pow_hash, c.base_reward),
        base_reward_amount_of(b.header, c.base_reward),
        coverage_of(bonded, c.total_issued),
    )
}

/// Why a block that passed the checks against the tip is refused before
/// its effects are applied: its first refused attestation, else its
/// producer (checked against the refiners with the attestations recorded).
pub open spec fn stage_error(c: ChainState, a: Map<ObjectId, crate::account::Account>, r: RefinerSet, b: Block, env: BlockEnvironment) -> Option<Seq<char>> {
    match first_attestation_error(b, env, r@, b.attestations@.len() as int) {
        Some(e) => Some(e),
        None => producer_error(a, r.active_ids(), record_fold(r@, b.attestations@), b.header, c.latest_block_hash),
    }
}

/// Why the state after a block cannot be committed to, if it cannot.
pub open spec fn root_error(a: AccountStore, r: RefinerSet) -> Option<Seq<char>> {
    if !a.encodable() {
        Some("Account state cannot be encoded"@)
    } else if refiner_root_fails(r) {
        Some("Serialization error: "@ + crate::refiner_set::refiner_too_long_msg() + ""@)
    } else {
        None
    }
}

/// The effects of a block, through the given intermediate states: the
/// refiners with the attestations recorded (`ra`) and the evidence applied
/// (`re`, burning `slashed`), the accounts with the reward paid (`ar`), the
/// accounts and refiners after the transactions (`at`, `rt`, burning `fees`
/// with `count` successes), and the epoch maintenance (burning `decayed`)
/// giving `a1` and `r1`; with the supply, burn and fee that follow.
pub open spec fn transition_via(
    c0: ChainState,
    a0: Map<ObjectId, crate::account::Account>,
    r0: RefinerSet,
    b: Block,
    env: BlockEnvironment,
    c1: ChainState,
    a1: Map<ObjectId, crate::account::Account>,
    r1: RefinerSet,
    ra: RefinerSet,
    re: RefinerSet,
    rt: RefinerSet,
    ar: Map<ObjectId, crate::account::Account>,
    at: Map<ObjectId, crate::account::Account>,
    slashed: u64,
    fees: u64,
    count: u64,
    decayed: u64,
) -> bool {
    let d = reward_of(c0, bonded_stake_of(&r0), b, env.pow_hash);
    &&& ra.wf()
    &&& ra@ == record_fold(r0@, b.attestations@)
    &&& ra.active_ids() == r0.active_ids()
    &&& ra.queue() == r0.queue()
    &&& ra.dirty() == r0.dirty() + attested_refiners(b.attestations@)
    &&& evidence_applied(ra, re, b.slash_evidence@, slashed)
    &&& account_views(ar) == credit_fold(
        account_views(a0),
        reward_credits(
            b.header.producer,
            d,
            crate::refiner_set::listed_refiners(re.active_ids(), re@),
            saturate(ids_stake(re.active_ids(), re@)) as u64,
        ),
    )
    &&& transactions_applied(ar, at, re, rt, b, fees, count)
    &&& account_views(a1) == credit_fold(account_views(at), crate::refiner_set::matured_of(rt.queue(), b.header.height))
    &&& epoch_applied(rt, r1, b.header.height, c1.total_issued, decayed)
    &&& c1.total_issued == saturate(c0.total_issued + d.gross_reward)
    &&& c1.total_burned == saturate(saturate(saturate(saturate(c0.total_burned + slashed) + fees) + d.mine_assay) + decayed)
    &&& c1.suggested_fee == crate::emission::suggested_fee_spec(fees, count, c0.suggested_fee)
}

/// The effects of applying block `b` on chain `c0`, accounts `a0`,
/// refiners `r0` and mempool `m0`, giving `c1`, `a1`, `r1` and `m1` (all
/// but the new state root).
pub open spec fn block_transition(
    c0: ChainState,
    a0: Map<ObjectId, crate::account::Account>,
    r0: RefinerSet,
    m0: Map<ObjectId, crate::mempool::MempoolEntry>,
    b: Block,
    env: BlockEnvironment,
    c1: ChainState,
    a1: Map<ObjectId, crate::account::Account>,
    r1: RefinerSet,
    m1: Map<ObjectId, crate::mempool::MempoolEntry>,
) -> bool {
    &&& exists|ra: RefinerSet, re: RefinerSet, rt: RefinerSet, ar: Map<ObjectId, crate::account::Account>, at: Map<ObjectId, crate::account::Account>, slashed: u64, fees: u64, count: u64, decayed: u64|
        #[trigger] transition_via(c0, a0, r0, b, env, c1, a1, r1, ra, re, rt, ar, at, slashed, fees, count, decayed)
    &&& m1 == m0.remove_keys(tx_ids(b.transactions@))
    &&& exists|ev: Seq<DoubleSignEvidence>| #[trigger] double_sign_step(c0.producer_signatures@, c1.producer_signatures@, a0, b, ev)
    &&& finality_reached(c0.finalized_height, c1.finalized_height, r0, b, env)
    &&& c1.finalized_height >= c0.finalized_height
    &&& c1.finalized_height != c0.finalized_height ==> exists|j: int|
        0 <= j < b.attestations@.len() && #[trigger] b.attestations@[j].height == c1.finalized_height
    &&& c1.current_height == b.header.height
    &&& c1.current_difficulty == b.header.difficulty
    &&& c1.latest_block_hash.bytes() == blake3_digest(header_hash_preimage(b.header))
    &&& c1.block_timestamps@ == c0.block_timestamps@.push(b.header.timestamp)
    &&& c1.genesis_hash == c0.genesis_hash
    &&& c1.base_reward == c0.base_reward
}

/// Applies a block to the node state.
///
/// A block that fails validation against the tip, or does not carry the
/// tip's state root, is refused with nothing changed. Otherwise the included
/// attestations are checked and recorded (finality can only advance) and the
/// producer is checked; a refusal there leaves what was recorded. Then slash
/// evidence is applied, double signing is detected, the reward is paid, the
/// transactions run and the epoch maintenance follows; the block is accepted
/// exactly when the resulting state can be committed to, and the new state
/// root is that commitment. On success the block's hash is returned with any
/// double-sign evidence detected.
pub fn apply_block(
    chain: &mut ChainState,
    accounts: &mut AccountStore,
    refiners: &mut RefinerSet,
    mempool: &mut Mempool,
    block: &Block,
    env: &BlockEnvironment,
) -> (r: Result<(crate::types::Hash, Vec<DoubleSignEvidence>), String>)
    requires
        old(accounts).wf(),
        old(refiners).wf(),
        old(mempool).wf(),
        old(chain).current_height < u64::MAX,
    ensures
        final(accounts).wf(),
        final(refiners).wf(),
        final(mempool).wf(),
        precheck_error(*old(chain), bonded_stake_of(old(refiners)), *block, env.now_secs, env.pow_light_verified) matches Some(m) ==> (
            r matches Err(e) && e@ == m && *final(chain) == *old(chain) && final(accounts)@ == old(accounts)@
                && *final(refiners) == *old(refiners) && *final(mempool) == *old(mempool)),
        r is Ok ==> precheck_error(*old(chain), bonded_stake_of(old(refiners)), *block, env.now_secs, env.pow_light_verified) is None,
        precheck_error(*old(chain), bonded_stake_of(old(refiners)), *block, env.now_secs, env.pow_light_verified) is None ==> (
            stage_error(*old(chain), old(accounts)@, *old(refiners), *block, *env) matches Some(m) ==> (r matches Err(e)
                && e@ == m)),
        precheck_error(*old(chain), bonded_stake_of(old(refiners)), *block, env.now_secs, env.pow_light_verified) is None
            && stage_error(*old(chain), old(accounts)@, *old(refiners), *block, *env) is None ==> {
            &&& block_transition(
                *old(chain),
                old(accounts)@,
                *old(refiners),
                old(mempool)@,
                *block,
                *env,
                *final(chain),
                final(accounts)@,
                *final(refiners),
                final(mempool)@,
            )
            &&& r is Ok <==> root_error(*final(accounts), *final(refiners)) is None
            &&& r matches Err(e) ==> root_error(*final(accounts), *final(refiners)) == Some(e@)
        },
        final(chain).finalized_height >= old(chain).finalized_height,
        final(chain).total_burned >= old(chain).total_burned,
        final(chain).genesis_hash == old(chain).genesis_hash,
        final(chain).base_reward == old(chain).base_reward,
        r matches Ok(res) ==> {
            &&& res.0.bytes() == blake3_digest(header_hash_preimage(block.header))
            &&& final(chain).latest_block_hash == res.0
            &&& final(chain).current_height == block.header.height
            &&& final(chain).current_difficulty == block.header.difficulty
            &&& final(chain).block_timestamps@ == old(chain).block_timestamps@.push(block.header.timestamp)
            &&& final(chain).total_issued == saturate(old(chain).total_issued + (if block.header.height == 0 {
                0
            } else {
                crate::emission::block_reward_spec(old(chain).base_reward, block.header.difficulty, pow_value_of(*block, env.pow_hash)) as int
            }))
            &&& double_sign_step(old(chain).producer_signatures@, final(chain).producer_signatures@, old(accounts)@, *block, res.1@)
            &&& exists|a: crate::types::Hash, f: crate::types::Hash|
                {
                    &&& crate::account::is_account_root(a, crate::account::encoded_accounts(final(accounts)@))
                    &&& is_refiner_root(f, *final(refiners))
                    &&& final(chain).state_root.bytes() == blake3_digest(
                        #[trigger] state_root_preimage(a, f, final(chain).total_issued, final(chain).total_burned, final(chain).current_height),
                    )
                }
        },
{
    let ghost c0 = *chain;
    let ghost a0 = accounts@;
    let ghost r0 = *refiners;
    let ghost m0 = mempool@;
    let bonded = refiners.total_bonded_stake();
    let target = compute_next_difficulty(
        chain.current_difficulty,
        chain.current_height,
        chain.block_timestamps.as_slice(),
        chain.total_issued,
        bonded,
    );
    let expected = target.effective_difficulty();
    let parent_ts = last_timestamp(&chain.block_timestamps);
    match validate_block(block, chain.current_height + 1, &chain.latest_block_hash, parent_ts, expected, env.now_secs, env.pow_light_verified) {
        Ok(()) => {},
        Err(e) => {
            let mut m = String::from_str("Block validation failed: ");
            m.append(e.message().as_str());
            return Err(m);
        },
    }
    if !hash_eq(&block.header.state_root, &chain.state_root) {
        return Err(state_root_mismatch(block.header.height, &chain.state_root, &block.header.state_root));
    }
    let finalized = match stage_attestations(refiners, block, env, chain.finalized_height) {
        Ok(h) => h,
        Err(e) => {
            return Err(e);
        },
    };
    let ghost ra = *refiners;
    chain.finalized_height = finalized;
    match stage_producer_checks(accounts, refiners, block, &chain.latest_block_hash) {
        Ok(()) => {},
        Err(e) => {
            return Err(e);
        },
    }
    let slashed = stage_evidence(refiners, block);
    let ghost re = *refiners;
    chain.total_burned = chain.total_burned.saturating_add(slashed);
    let evidence = stage_double_sign(&mut chain.producer_signatures, accounts, block);
    let share_ts = last_timestamp(&chain.block_timestamps);
    let dist = stage_rewards(accounts, refiners, block, env.pow_hash, chain.base_reward, chain.total_issued, bonded, share_ts);
    let ghost ar = accounts@;
    let block_hash = compute_block_hash(&block.header);
    let (fees, count) = stage_transactions(accounts, refiners, mempool, block);
    let ghost at = accounts@;
    let ghost rt = *refiners;
    chain.total_burned = chain.total_burned.saturating_add(fees);
    let next_fee = compute_suggested_fee(fees, count, chain.suggested_fee);
    chain.total_issued = chain.total_issued.saturating_add(dist.gross_reward);
    chain.total_burned = chain.total_burned.saturating_add(dist.mine_assay);
    chain.current_height = block.header.height;
    chain.current_difficulty = block.header.difficulty;
    chain.latest_block_hash = block_hash;
    chain.block_timestamps.push(block.header.timestamp);
    chain.suggested_fee = next_fee;
    let decayed = stage_epoch(accounts, refiners, chain.current_height, block.header.timestamp, chain.total_issued);
    chain.total_burned = chain.total_burned.saturating_add(decayed);
    proof {
        assert(dist == reward_of(c0, bonded_stake_of(&r0), *block, env.pow_hash));
        assert(transition_via(c0, a0, r0, *block, *env, *chain, accounts@, *refiners, ra, re, rt, ar, at, slashed, fees, count, decayed));
        assert(double_sign_step(c0.producer_signatures@, chain.producer_signatures@, a0, *block, evidence@));
    }
    let root = match stage_state_root(accounts, refiners, chain.total_issued, chain.total_burned, chain.current_height) {
        Ok(h) => h,
        Err(e) => {
            return Err(e);
        },
    };
    chain.state_root = root;
    proof {
        assert(transition_via(c0, a0, r0, *block, *env, *chain, accounts@, *refiners, ra, re, rt, ar, at, slashed, fees, count, decayed));
        assert(double_sign_step(c0.producer_signatures@, chain.producer_signatures@, a0, *block, evidence@));
    }
    Ok((block_hash, evidence))
}

} // verus!
