//! The genesis block: built from a configuration that records the ceremony
//! attestation (gold spot price, annual production, above-ground stock and the
//! hashes of the source responses), with a state root that is the Blake3 hash
//! of every protocol constant, attestation field and pre-funded account in a
//! fixed order. Also: crediting the pre-funded accounts, and the checks every
//! genesis block must pass.
use crate::account::{Account, AccountStore, AccountView};
use crate::constants::{
    BASE_REWARD, BLOCK_TARGET_TIME_MS, BLOCK_VERSION, CURRENCY_NAME, CURRENCY_SMALLEST_UNIT,
    CURRENCY_TICKER, EPOCH, FLAKES_PER_OPL, GENESIS_DIFFICULTY, MIN_BOND_STAKE, MIN_DIFFICULTY,
    MIN_FEE, NETWORK_PROTOCOL_VERSION, POS_FINALITY_BLOCKS,
};
use crate::crypto::{blake3_digest, Blake3Hasher};
use crate::encoding::{be_u32, be_u64, push_u32_be, push_u64_be};
use crate::types::{zero_bytes32, Block, BlockHeader, FlakeAmount, ObjectId};
use vstd::prelude::*;
use vstd::string::{StringExecFns, StringSliceAdditionalSpecFns};
use vstd::utf8::encode_utf8;

verus! {

/// The record of the genesis ceremony that anchors the supply model to
/// physical gold.
#[derive(Debug, Clone)]
pub struct GenesisAttestation {
    /// Unix time of the ceremony.
    pub ceremony_timestamp: u64,
    /// Gold spot price in USD cents (LBMA).
    pub gold_spot_price_usd_cents: u64,
    /// Annual gold production in tonnes (USGS).
    pub annual_production_tonnes: u64,
    /// Above-ground gold stock in tonnes (WGC).
    pub total_above_ground_tonnes: u64,
    /// Blake3 hash of the LBMA response.
    pub lbma_response_hash: [u8; 32],
    /// Blake3 hash of the USGS response.
    pub usgs_response_hash: [u8; 32],
    /// Blake3 hash of the WGC response.
    pub wgc_response_hash: [u8; 32],
    /// How the base reward was derived from the attestation data.
    pub derivation_formula: String,
}

/// What the genesis block is built from.
#[derive(Debug, Clone)]
pub struct GenesisConfig {
    /// Difficulty at height 0.
    pub initial_difficulty: u64,
    /// Protocol version string.
    pub protocol_version: String,
    /// The ceremony attestation.
    pub attestation: GenesisAttestation,
    /// Pre-funded accounts: id, Flakes, ed25519 public key bytes.
    pub genesis_accounts: Vec<(ObjectId, FlakeAmount, Vec<u8>)>,
}

/// Annual production (tonnes) recorded by the default attestation.
pub const DEFAULT_ANNUAL_PRODUCTION_TONNES: u64 = 3630;

/// Above-ground stock (tonnes) recorded by the default attestation.
pub const DEFAULT_ABOVE_GROUND_TONNES: u64 = 219891;

/// The derivation formula of the default attestation.
pub const DEFAULT_DERIVATION_FORMULA: &'static str = "floor(annual_production_tonnes * 32150.7 / 374256)";

impl Default for GenesisConfig {
    fn default() -> (c: Self)
        ensures
            c.initial_difficulty == GENESIS_DIFFICULTY,
            c.protocol_version@ == NETWORK_PROTOCOL_VERSION@,
            c.attestation.ceremony_timestamp == 0,
            c.attestation.gold_spot_price_usd_cents == 0,
            c.attestation.annual_production_tonnes == DEFAULT_ANNUAL_PRODUCTION_TONNES,
            c.attestation.total_above_ground_tonnes == DEFAULT_ABOVE_GROUND_TONNES,
            c.attestation.lbma_response_hash@ == zero_bytes32(),
            c.attestation.usgs_response_hash@ == zero_bytes32(),
            c.attestation.wgc_response_hash@ == zero_bytes32(),
            c.attestation.derivation_formula@ == DEFAULT_DERIVATION_FORMULA@,
            c.genesis_accounts@.len() == 0,
    {
        let c = GenesisConfig {
            initial_difficulty: GENESIS_DIFFICULTY,
            protocol_version: String::from_str(NETWORK_PROTOCOL_VERSION),
            attestation: GenesisAttestation {
                ceremony_timestamp: 0,
                gold_spot_price_usd_cents: 0,
                annual_production_tonnes: DEFAULT_ANNUAL_PRODUCTION_TONNES,
                total_above_ground_tonnes: DEFAULT_ABOVE_GROUND_TONNES,
                lbma_response_hash: [0u8; 32],
                usgs_response_hash: [0u8; 32],
                wgc_response_hash: [0u8; 32],
                derivation_formula: String::from_str(DEFAULT_DERIVATION_FORMULA),
            },
            genesis_accounts: Vec::new(),
        };
        assert(c.attestation.lbma_response_hash@ =~= zero_bytes32());
        assert(c.attestation.usgs_response_hash@ =~= zero_bytes32());
        assert(c.attestation.wgc_response_hash@ =~= zero_bytes32());
        c
    }
}

/// The bytes the pre-funded accounts contribute to the genesis state root.
pub open spec fn genesis_accounts_bytes(s: Seq<(ObjectId, FlakeAmount, Vec<u8>)>) -> Seq<u8>
    decreases s.len(),
{
    if s.len() == 0 {
        Seq::empty()
    } else {
        genesis_accounts_bytes(s.drop_last()) + s.last().0.bytes() + be_u64(s.last().1) + s.last().2@
    }
}

/// The protocol constants, in the order they are hashed into the genesis
/// state root.
pub open spec fn genesis_constants_bytes() -> Seq<u8> {
    CURRENCY_NAME.spec_bytes() + CURRENCY_TICKER.spec_bytes() + CURRENCY_SMALLEST_UNIT.spec_bytes()
        + be_u64(FLAKES_PER_OPL) + be_u64(BASE_REWARD) + be_u64(BLOCK_TARGET_TIME_MS) + be_u64(
        MIN_DIFFICULTY,
    ) + be_u64(EPOCH) + be_u64(POS_FINALITY_BLOCKS) + be_u64(MIN_BOND_STAKE) + be_u64(MIN_FEE)
        + be_u32(BLOCK_VERSION)
}

/// The attestation fields, in the order they are hashed.
pub open spec fn attestation_bytes(a: GenesisAttestation) -> Seq<u8> {
    be_u64(a.ceremony_timestamp) + be_u64(a.annual_production_tonnes) + be_u64(
        a.total_above_ground_tonnes,
    ) + a.lbma_response_hash@ + a.usgs_response_hash@ + a.wgc_response_hash@ + encode_utf8(
        a.derivation_formula@,
    )
}

/// Everything hashed into the genesis state root.
pub open spec fn genesis_state_preimage(c: GenesisConfig) -> Seq<u8> {
    encode_utf8(c.protocol_version@) + genesis_constants_bytes() + attestation_bytes(c.attestation)
        + genesis_accounts_bytes(c.genesis_accounts@)
}

fn absorb_u64(h: &mut Blake3Hasher, x: u64)
    ensures
        final(h).input() == old(h).input() + be_u64(x),
{
    let mut v: Vec<u8> = Vec::new();
    push_u64_be(&mut v, x);
    h.update(v.as_slice());
}

fn absorb_u32(h: &mut Blake3Hasher, x: u32)
    ensures
        final(h).input() == old(h).input() + be_u32(x),
{
    let mut v: Vec<u8> = Vec::new();
    push_u32_be(&mut v, x);
    h.update(v.as_slice());
}

fn absorb_constants(h: &mut Blake3Hasher)
    ensures
        final(h).input() == old(h).input() + genesis_constants_bytes(),
{
    let ghost start = h.input();
    h.update(CURRENCY_NAME.as_bytes());
    h.update(CURRENCY_TICKER.as_bytes());
    h.update(CURRENCY_SMALLEST_UNIT.as_bytes());
    absorb_u64(h, FLAKES_PER_OPL);
    absorb_u64(h, BASE_REWARD);
    absorb_u64(h, BLOCK_TARGET_TIME_MS);
    absorb_u64(h, MIN_DIFFICULTY);
    absorb_u64(h, EPOCH);
    absorb_u64(h, POS_FINALITY_BLOCKS);
    absorb_u64(h, MIN_BOND_STAKE);
    absorb_u64(h, MIN_FEE);
    absorb_u32(h, BLOCK_VERSION);
    assert(h.input() =~= start + genesis_constants_bytes());
}

fn absorb_attestation(h: &mut Blake3Hasher, a: &GenesisAttestation)
    ensures
        final(h).input() == old(h).input() + attestation_bytes(*a),
{
    let ghost start = h.input();
    absorb_u64(h, a.ceremony_timestamp);
    absorb_u64(h, a.annual_production_tonnes);
    absorb_u64(h, a.total_above_ground_tonnes);
    h.update(a.lbma_response_hash.as_slice());
    h.update(a.usgs_response_hash.as_slice());
    h.update(a.wgc_response_hash.as_slice());
    h.update(a.derivation_formula.as_str().as_bytes());
    assert(h.input() =~= start + attestation_bytes(*a));
}

/// The genesis state root of a configuration.
pub fn genesis_state_root(config: &GenesisConfig) -> (h: crate::types::Hash)
    ensures
        h.bytes() == blake3_digest(genesis_state_preimage(*config)),
{
    let mut hasher = Blake3Hasher::new();
    hasher.update(config.protocol_version.as_str().as_bytes());
    absorb_constants(&mut hasher);
    absorb_attestation(&mut hasher, &config.attestation);
    let ghost before = hasher.input();
    let n = config.genesis_accounts.len();
    let mut i: usize = 0;
    while i < n
        invariant
            n == config.genesis_accounts@.len(),
            i <= n,
            hasher.input() == before + genesis_accounts_bytes(config.genesis_accounts@.take(i as int)),
        decreases n - i,
    {
        let entry = &config.genesis_accounts[i];
        proof {
            assert(config.genesis_accounts@.take(i + 1).drop_last() =~= config.genesis_accounts@.take(
                i as int,
            ));
        }
        hasher.update(entry.0.as_bytes());
        absorb_u64(&mut hasher, entry.1);
        hasher.update(entry.2.as_slice());
        proof {
            assert(hasher.input() =~= before + genesis_accounts_bytes(
                config.genesis_accounts@.take(i + 1),
            ));
        }
        i = i + 1;
    }
    proof {
        assert(config.genesis_accounts@.take(n as int) =~= config.genesis_accounts@);
        assert(hasher.input() =~= genesis_state_preimage(*config));
    }
    hasher.finalize()
}

/// Builds the genesis block: height 0, version `BLOCK_VERSION`, zero previous
/// hash and roots, the ceremony time as timestamp, the configured difficulty,
/// `MIN_FEE` as suggested fee, a zero producer, no proof or signature, an
/// empty body, and the state root of the configuration.
pub fn build_genesis_block(config: &GenesisConfig) -> (b: Block)
    ensures
        b.header.version == BLOCK_VERSION,
        b.header.height == 0,
        b.header.previous_hash.bytes() == zero_bytes32(),
        b.header.state_root.bytes() == blake3_digest(genesis_state_preimage(*config)),
        b.header.transaction_root.bytes() == zero_bytes32(),
        b.header.evidence_root.bytes() == zero_bytes32(),
        b.header.attestation_root.bytes() == zero_bytes32(),
        b.header.genesis_ceremony_hash.bytes() == zero_bytes32(),
        b.header.timestamp == config.attestation.ceremony_timestamp,
        b.header.difficulty == config.initial_difficulty,
        b.header.suggested_fee == MIN_FEE,
        b.header.extension_root is None,
        b.header.producer.bytes() == zero_bytes32(),
        b.header.pow_proof is None,
        b.header.refiner_signature is None,
        b.transactions@.len() == 0,
        b.slash_evidence@.len() == 0,
        b.attestations@.len() == 0,
        b.genesis_ceremony is None,
{
    let state_root = genesis_state_root(config);
    Block {
        header: BlockHeader {
            version: BLOCK_VERSION,
            height: 0,
            previous_hash: crate::types::Hash::zero(),
            state_root,
            transaction_root: crate::types::Hash::zero(),
            evidence_root: crate::types::Hash::zero(),
            attestation_root: crate::types::Hash::zero(),
            genesis_ceremony_hash: crate::types::Hash::zero(),
            timestamp: config.attestation.ceremony_timestamp,
            difficulty: config.initial_difficulty,
            suggested_fee: MIN_FEE,
            extension_root: None,
            producer: ObjectId::zero(),
            pow_proof: None,
            refiner_signature: None,
        },
        transactions: Vec::new(),
        slash_evidence: Vec::new(),
        attestations: Vec::new(),
        genesis_ceremony: None,
    }
}

/// The accounts as values.
pub open spec fn account_views(m: Map<ObjectId, Account>) -> Map<ObjectId, AccountView> {
    Map::new(|k: ObjectId| m.contains_key(k), |k: ObjectId| m[k]@)
}

/// One pre-funded account applied: created empty when missing, given its key
/// when the key is not empty, and credited unless the balance would overflow.
pub open spec fn genesis_credit(m: Map<ObjectId, AccountView>, id: ObjectId, amount: u64, pk: Seq<u8>) -> Map<
    ObjectId,
    AccountView,
> {
    let a0 = if m.contains_key(id) {
        m[id]
    } else {
        AccountView { object_id: id, balance: 0, nonce: 0, public_key: None }
    };
    let a1 = if pk.len() > 0 {
        AccountView { public_key: Some(pk), ..a0 }
    } else {
        a0
    };
    let a2 = if a1.balance + amount <= u64::MAX {
        AccountView { balance: (a1.balance + amount) as u64, ..a1 }
    } else {
        a1
    };
    m.insert(id, a2)
}

/// The pre-funded accounts applied in order.
pub open spec fn genesis_fold(m: Map<ObjectId, AccountView>, s: Seq<(ObjectId, FlakeAmount, Vec<u8>)>) -> Map<
    ObjectId,
    AccountView,
>
    decreases s.len(),
{
    if s.len() == 0 {
        m
    } else {
        genesis_credit(genesis_fold(m, s.drop_last()), s.last().0, s.last().1, s.last().2@)
    }
}

/// The saturating sum of the pre-funded amounts.
pub open spec fn genesis_total(s: Seq<(ObjectId, FlakeAmount, Vec<u8>)>) -> u64
    decreases s.len(),
{
    if s.len() == 0 {
        0
    } else {
        let t = genesis_total(s.drop_last()) + s.last().1;
        if t > u64::MAX {
            u64::MAX
        } else {
            t as u64
        }
    }
}

/// Credits the pre-funded accounts of the configuration, in order, and
/// returns the saturating total of the configured amounts.
pub fn apply_genesis_accounts(config: &GenesisConfig, accounts: &mut AccountStore) -> (total: FlakeAmount)
    requires
        old(accounts).wf(),
    ensures
        final(accounts).wf(),
        account_views(final(accounts)@) == genesis_fold(
            account_views(old(accounts)@),
            config.genesis_accounts@,
        ),
        total == genesis_total(config.genesis_accounts@),
{
    let ghost start = account_views(accounts@);
    let mut total: FlakeAmount = 0;
    let n = config.genesis_accounts.len();
    let mut i: usize = 0;
    while i < n
        invariant
            n == config.genesis_accounts@.len(),
            i <= n,
            accounts.wf(),
            account_views(accounts@) == genesis_fold(start, config.genesis_accounts@.take(i as int)),
            total == genesis_total(config.genesis_accounts@.take(i as int)),
        decreases n - i,
    {
        let entry = &config.genesis_accounts[i];
        let id = &entry.0;
        let ghost m0 = accounts@;
        let ghost prev = account_views(accounts@);
        proof {
            assert(config.genesis_accounts@.take(i + 1).drop_last() =~= config.genesis_accounts@.take(
                i as int,
            ));
            assert(config.genesis_accounts@.take(i + 1).last() == *entry);
        }
        if accounts.get_account(id).is_none() {
            let _ = accounts.create_account(*id);
        }
        let ghost m1 = accounts@;
        assert(m1.contains_key(*id));
        assert(m1[*id]@ == (if m0.contains_key(*id) {
            m0[*id]@
        } else {
            AccountView { object_id: *id, balance: 0, nonce: 0, public_key: None }
        }));
        if entry.2.len() > 0 {
            match accounts.get_account_mut(id) {
                Some(account) => {
                    account.public_key = Some(entry.2.clone());
                },
                None => {},
            }
        }
        let ghost m2 = accounts@;
        let _ = accounts.credit(id, entry.1);
        proof {
            let target = genesis_credit(prev, *id, entry.1, entry.2@);
            assert(account_views(accounts@) =~= target) by {
                assert forall|k: ObjectId| #[trigger] account_views(accounts@).contains_key(k) == target.contains_key(k) by {
                    if k != *id {
                        assert(accounts@.contains_key(k) == m0.contains_key(k));
                    }
                }
                assert forall|k: ObjectId| account_views(accounts@).contains_key(k) implies #[trigger] account_views(accounts@)[k] == target[k] by {
                    if k != *id {
                        assert(accounts@[k] == m0[k]);
                    }
                }
            }
        }
        total = total.saturating_add(entry.1);
        i = i + 1;
    }
    proof {
        assert(config.genesis_accounts@.take(n as int) =~= config.genesis_accounts@);
    }
    total
}

/// Why a block is not a valid genesis block, if it is not.
pub open spec fn genesis_error(b: Block) -> Option<Seq<char>> {
    if b.header.height != 0 {
        Some("Genesis block must have height 0"@)
    } else if b.header.previous_hash.bytes() != zero_bytes32() {
        Some("Genesis block must have zero previous hash"@)
    } else if b.header.pow_proof is Some {
        Some("Genesis block must not have PoW proof"@)
    } else if b.transactions@.len() != 0 {
        Some("Genesis block must not have transactions"@)
    } else {
        None
    }
}

/// Checks the genesis invariants: height 0, zero previous hash, no PoW proof,
/// no transactions. The first that fails is reported.
pub fn validate_genesis_block(block: &Block) -> (r: Result<(), String>)
    ensures
        r is Ok <==> genesis_error(*block) is None,
        r matches Err(m) ==> genesis_error(*block) == Some(m@),
{
    if block.header.height != 0 {
        return Err(String::from_str("Genesis block must have height 0"));
    }
    if !block.header.previous_hash.is_zero() {
        return Err(String::from_str("Genesis block must have zero previous hash"));
    }
    if block.header.pow_proof.is_some() {
        return Err(String::from_str("Genesis block must not have PoW proof"));
    }
    if block.transactions.len() != 0 {
        return Err(String::from_str("Genesis block must not have transactions"));
    }
    Ok(())
}

} // verus!
