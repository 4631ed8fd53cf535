//! Chain-level accounting of a full node: the chain state that advances with
//! each block, how a block reward is split (mine assay, miner share, refiner
//! share), the refiner-attestation finality rule, and the checks on
//! double-sign evidence and block attestations.
use crate::block::{compute_block_hash, header_hash_preimage};
use crate::constants::{
    ANNUAL_ATTRITION_PERMILLE, BASE_REWARD, FINALITY_CONFIDENCE_MILLI, MIN_FEE,
};
use crate::crypto::{
    blake3_digest, ed25519_public_key_to_object_id, ed25519_signature_valid, verify_ed25519,
    DOMAIN_ATTESTATION_SIGNING, DOMAIN_BLOCK_SIGNING, DOMAIN_OBJECT_ID,
};
use crate::encoding::{be_u64, push_u64_be};
use crate::genesis::{build_genesis_block, genesis_state_preimage, GenesisConfig};
use crate::refiner::saturate;
use crate::refiner_set::{sorted_listing, RefinerSet};
use crate::refiner::RefinerInfo;
use crate::types::{hash_eq, id_eq, BlockAttestation, DoubleSignEvidence, FlakeAmount, ObjectId, RefinerStatus};
use vstd::prelude::*;
use vstd::string::StringExecFns;

verus! {

// ─── Reward distribution ───────────────────────────────────────────────────

/// How one block reward is split.
#[derive(Debug, Clone, Copy, PartialEq, Eq)]
pub struct RewardDistribution {
    /// The whole reward found.
    pub gross_reward: FlakeAmount,
    /// The part burned as mine assay.
    pub mine_assay: FlakeAmount,
    /// What remains after the assay.
    pub net_reward: FlakeAmount,
    /// Credited to the block producer.
    pub miner_share: FlakeAmount,
    /// Shared among the active refiners.
    pub refiner_share: FlakeAmount,
}

/// `a - b`, or 0 when `b > a`.
pub open spec fn sat_sub(a: int, b: int) -> int {
    if a >= b {
        a - b
    } else {
        0
    }
}

/// The reward split: the assay is `ANNUAL_ATTRITION_PERMILLE`/1000 of the
/// gross; the net is split into its base part (proportional to
/// `base_reward_amount / gross`) and the vein bonus; the coverage (capped at
/// 1000‰) decides the refiners' part of the net base; the producer gets the
/// rest of the net base and the whole net vein bonus.
pub open spec fn reward_split(gross: u64, base: u64, coverage_milli: u64) -> RewardDistribution {
    if gross == 0 {
        RewardDistribution { gross_reward: 0, mine_assay: 0, net_reward: 0, miner_share: 0, refiner_share: 0 }
    } else {
        let assay = gross * ANNUAL_ATTRITION_PERMILLE / 1000;
        let net = gross - assay;
        let net_base = base * net / (gross as int);
        let vein = sat_sub(net, net_base);
        let c = if coverage_milli > 1000 { 1000 } else { coverage_milli as int };
        let miner_base = net_base * (1000 - c) / 1000;
        let refiner = sat_sub(net_base, miner_base);
        let miner = miner_base + vein;
        RewardDistribution {
            gross_reward: gross,
            mine_assay: assay as u64,
            net_reward: net as u64,
            miner_share: saturate(miner) as u64,
            refiner_share: refiner as u64,
        }
    }
}

/// Splits a block reward (see `reward_split`).
pub fn compute_reward_distribution(gross_reward: FlakeAmount, base_reward_amount: FlakeAmount, coverage_milli: u64) -> (r: RewardDistribution)
    ensures
        r == reward_split(gross_reward, base_reward_amount, coverage_milli),
{
    if gross_reward == 0 {
        return RewardDistribution { gross_reward: 0, mine_assay: 0, net_reward: 0, miner_share: 0, refiner_share: 0 };
    }
    let g = gross_reward as u128;
    assert(g * 15 <= 0xffff_ffff_ffff_ffffu128 * 15) by (nonlinear_arith)
        requires g <= 0xffff_ffff_ffff_ffffu128;
    let mine_assay = (g * (ANNUAL_ATTRITION_PERMILLE as u128) / 1000) as u64;
    let net_reward = gross_reward - mine_assay;
    let b = base_reward_amount as u128;
    let n = net_reward as u128;
    assert(b * n <= 0xffff_ffff_ffff_ffffu128 * 0xffff_ffff_ffff_ffffu128) by (nonlinear_arith)
        requires b <= 0xffff_ffff_ffff_ffffu128, n <= 0xffff_ffff_ffff_ffffu128;
    let nb = b * n / g;
    assert(nb <= b) by (nonlinear_arith)
        requires nb == b * n / (g as int), n <= g, g > 0;
    let net_base_reward = nb as u64;
    let net_vein_bonus = net_reward.saturating_sub(net_base_reward);
    let c: u64 = if coverage_milli < 1000 { coverage_milli } else { 1000 };
    let nbr = net_base_reward as u128;
    assert(nbr * ((1000 - c) as u128) <= 0xffff_ffff_ffff_ffffu128 * 1000) by (nonlinear_arith)
        requires nbr <= 0xffff_ffff_ffff_ffffu128, c <= 1000;
    let mb = nbr * ((1000 - c) as u128) / 1000;
    assert(mb <= nbr) by (nonlinear_arith)
        requires mb == nbr * ((1000 - c) as u128) / 1000, c <= 1000;
    let miner_base_share = mb as u64;
    let refiner_share = net_base_reward.saturating_sub(miner_base_share);
    let miner_share = miner_base_share.saturating_add(net_vein_bonus);
    RewardDistribution { gross_reward, mine_assay, net_reward, miner_share, refiner_share }
}

/// What a block reward pays out is what it found: the assay burned plus
/// the producer's and the refiners' shares make up the gross reward,
/// whenever the base part does not exceed the gross (as it never does for a
/// reward computed from that base).
pub proof fn lemma_reward_split_conserves(gross: u64, base: u64, coverage_milli: u64)
    requires
        base <= gross,
    ensures
        reward_split(gross, base, coverage_milli).mine_assay + reward_split(gross, base, coverage_milli).miner_share
            + reward_split(gross, base, coverage_milli).refiner_share == gross,
        reward_split(gross, base, coverage_milli).mine_assay + reward_split(gross, base, coverage_milli).net_reward
            == gross,
{
    if gross > 0 {
        let assay = gross * ANNUAL_ATTRITION_PERMILLE / 1000;
        let net = gross - assay;
        let net_base = base * net / (gross as int);
        assert(net_base <= net) by (nonlinear_arith)
            requires net_base == base * net / (gross as int), base <= gross, gross > 0, net >= 0;
        let c = if coverage_milli > 1000 { 1000 } else { coverage_milli as int };
        let miner_base = net_base * (1000 - c) / 1000;
        assert(0 <= miner_base <= net_base) by (nonlinear_arith)
            requires miner_base == net_base * (1000 - c) / 1000, 0 <= c <= 1000, net_base >= 0;
    }
}

/// The refiners' share follows the stake coverage: with the net reward
/// `net = gross - ⌊15·gross/1000⌋` and its base part
/// `net_base = ⌊base·net/gross⌋`, the refiners receive `⌈net_base·c/1000⌉`
/// for a coverage of `c` thousandths (coverage above 1000 counts as 1000):
/// nothing at zero coverage, all of the net base at full coverage, and never
/// less at a higher coverage.
pub proof fn lemma_refiner_share_follows_coverage(gross: u64, base: u64, c1: u64, c2: u64)
    requires
        gross > 0,
        c1 <= c2,
    ensures
        ({
            let net = gross - gross * 15 / 1000;
            let net_base = base * net / (gross as int);
            let c = if c1 > 1000 { 1000 } else { c1 as int };
            &&& reward_split(gross, base, c1).mine_assay == gross * 15 / 1000
            &&& reward_split(gross, base, c1).net_reward == net
            &&& reward_split(gross, base, c1).refiner_share == (net_base * c + 999) / 1000
            &&& reward_split(gross, base, c1).refiner_share <= reward_split(gross, base, c2).refiner_share
            &&& (c1 == 0 ==> reward_split(gross, base, c1).refiner_share == 0)
            &&& (c1 >= 1000 ==> reward_split(gross, base, c1).refiner_share == net_base)
            &&& (net_base * c >= 1 ==> reward_split(gross, base, c1).refiner_share >= 1)
        }),
{
    let net = gross - gross * 15 / 1000;
    assert(0 <= gross * 15 / 1000 <= gross) by (nonlinear_arith)
        requires gross > 0;
    let nb = base * net / (gross as int);
    assert(0 <= nb <= base) by (nonlinear_arith)
        requires nb == base * net / (gross as int), base >= 0, 0 <= net <= gross, gross > 0;
    lemma_ceil_share(nb, c1);
    lemma_ceil_share(nb, c2);
    let ca = if c1 > 1000 { 1000 } else { c1 as int };
    let cb = if c2 > 1000 { 1000 } else { c2 as int };
    assert((nb * ca + 999) / 1000 <= nb && (nb * cb + 999) / 1000 <= nb) by (nonlinear_arith)
        requires nb >= 0, 0 <= ca <= 1000, 0 <= cb <= 1000;
    assert(reward_split(gross, base, c1).refiner_share == (nb * ca + 999) / 1000);
    assert(reward_split(gross, base, c2).refiner_share == (nb * cb + 999) / 1000);
    assert((nb * ca + 999) / 1000 <= (nb * cb + 999) / 1000) by (nonlinear_arith)
        requires nb >= 0, 0 <= ca <= cb;
    if ca >= 1000 {
        assert((nb * ca + 999) / 1000 == nb) by (nonlinear_arith)
            requires ca == 1000, nb >= 0;
    }
    if nb * ca >= 1 {
        assert((nb * ca + 999) / 1000 >= 1) by (nonlinear_arith)
            requires nb * ca >= 1;
    }
    if c1 == 0 {
        assert(nb * ca == 0) by (nonlinear_arith)
            requires ca == 0;
    }
    if c1 >= 1000 {
        assert(ca == 1000);
        assert(reward_split(gross, base, c1).refiner_share == nb);
    }
}

/// `net_base` less the producer's part `⌊net_base·(1000-c)/1000⌋` is
/// `⌈net_base·c/1000⌉`.
proof fn lemma_ceil_share(nb: int, coverage_milli: u64)
    requires
        nb >= 0,
    ensures
        ({
            let c = if coverage_milli > 1000 { 1000 } else { coverage_milli as int };
            sat_sub(nb, nb * (1000 - c) / 1000) == (nb * c + 999) / 1000
        }),
{
    let c = if coverage_milli > 1000 { 1000 } else { coverage_milli as int };
    let q = nb * (1000 - c) / 1000;
    let r = nb * (1000 - c) % 1000;
    assert(nb * (1000 - c) == 1000 * q + r && 0 <= r < 1000) by (nonlinear_arith)
        requires q == nb * (1000 - c) / 1000, r == nb * (1000 - c) % 1000;
    assert(q <= nb) by (nonlinear_arith)
        requires q == nb * (1000 - c) / 1000, nb >= 0, 0 <= c <= 1000;
    assert(nb * c + 999 == 1000 * (nb - q) + (999 - r)) by (nonlinear_arith)
        requires nb * (1000 - c) == 1000 * q + r;
    vstd::arithmetic::div_mod::lemma_fundamental_div_mod_converse(nb * c + 999, 1000, nb - q, 999 - r);
}

/// Stake coverage in thousandths: bonded stake over issued supply, capped at
/// 1000; 0 before anything is issued.
pub fn coverage_milli(bonded_stake: FlakeAmount, total_issued: FlakeAmount) -> (c: u64)
    ensures
        c == (if total_issued == 0 {
            0
        } else if bonded_stake * 1000 / (total_issued as int) > 1000 {
            1000
        } else {
            bonded_stake * 1000 / (total_issued as int)
        }),
{
    if total_issued == 0 {
        return 0;
    }
    let q = (bonded_stake as u128) * 1000 / (total_issued as u128);
    if q > 1000 {
        1000
    } else {
        q as u64
    }
}

// ─── Finality ──────────────────────────────────────────────────────────────

/// The summed weight of the active refiners of a listing.
pub open spec fn active_weight(rs: Seq<RefinerInfo>) -> int
    decreases rs.len(),
{
    if rs.len() == 0 {
        0
    } else {
        active_weight(rs.drop_last()) + if rs.last().status == RefinerStatus::Active {
            saturate(rs.last().stake()) as int
        } else {
            0
        }
    }
}

/// The attestation weight needed for finality: `FINALITY_CONFIDENCE_MILLI`
/// thousandths of the active weight, rounded up.
pub open spec fn finality_threshold_of(rs: Seq<RefinerInfo>) -> int {
    (active_weight(rs) * FINALITY_CONFIDENCE_MILLI + 999) / 1000
}

proof fn lemma_active_weight_bound(rs: Seq<RefinerInfo>)
    ensures
        0 <= active_weight(rs) <= rs.len() * 0xffff_ffff_ffff_ffff,
    decreases rs.len(),
{
    if rs.len() > 0 {
        lemma_active_weight_bound(rs.drop_last());
        crate::refiner::lemma_stake_sum_nonneg(rs.last().entries@);
        assert(rs.len() * 0xffff_ffff_ffff_ffff == (rs.len() - 1) * 0xffff_ffff_ffff_ffff + 0xffff_ffff_ffff_ffff);
    }
}

/// Only active refiners weigh for finality: putting a refiner anywhere into a
/// listing adds its (saturated) stake to the active weight when it is
/// `Active`, and nothing otherwise.
pub proof fn lemma_active_weight_insert(rs: Seq<RefinerInfo>, i: int, v: RefinerInfo)
    requires
        0 <= i <= rs.len(),
    ensures
        active_weight(rs.insert(i, v)) == active_weight(rs) + if v.status == RefinerStatus::Active {
            saturate(v.stake())
        } else {
            0
        },
    decreases rs.len(),
{
    if i == rs.len() {
        assert(rs.insert(i, v).drop_last() =~= rs);
        assert(rs.insert(i, v).last() == v);
    } else {
        lemma_active_weight_insert(rs.drop_last(), i, v);
        assert(rs.insert(i, v).drop_last() =~= rs.drop_last().insert(i, v));
        assert(rs.insert(i, v).last() == rs.last());
    }
}

/// The finality threshold is two-thirds (667‰, rounded up) of the weight of
/// the active refiners alone: with no active refiner it is 0, and a refiner
/// that is not `Active` (bonding, waiting, unbonding, slashed) does not
/// change it wherever it stands in the listing.
pub proof fn lemma_threshold_counts_only_active(rs: Seq<RefinerInfo>, i: int, v: RefinerInfo)
    requires
        0 <= i <= rs.len(),
    ensures
        finality_threshold_of(rs) * 1000 >= active_weight(rs) * 667,
        (finality_threshold_of(rs) - 1) * 1000 < active_weight(rs) * 667,
        (forall|j: int| 0 <= j < rs.len() ==> (#[trigger] rs[j]).status != RefinerStatus::Active) ==> finality_threshold_of(rs) == 0,
        v.status != RefinerStatus::Active ==> finality_threshold_of(rs.insert(i, v)) == finality_threshold_of(rs),
        v.status == RefinerStatus::Active ==> active_weight(rs.insert(i, v)) == active_weight(rs) + saturate(v.stake()),
{
    lemma_active_weight_insert(rs, i, v);
    lemma_active_weight_bound(rs);
    let w = active_weight(rs);
    let t = finality_threshold_of(rs);
    assert(t * 1000 >= w * 667 && (t - 1) * 1000 < w * 667) by (nonlinear_arith)
        requires t == (w * 667 + 999) / 1000, w >= 0;
    lemma_no_active_no_weight(rs);
}

proof fn lemma_no_active_no_weight(rs: Seq<RefinerInfo>)
    ensures
        (forall|j: int| 0 <= j < rs.len() ==> (#[trigger] rs[j]).status != RefinerStatus::Active) ==> active_weight(rs) == 0,
    decreases rs.len(),
{
    if rs.len() > 0 {
        if forall|j: int| 0 <= j < rs.len() ==> (#[trigger] rs[j]).status != RefinerStatus::Active {
            assert forall|j: int| 0 <= j < rs.drop_last().len() implies (#[trigger] rs.drop_last()[j]).status != RefinerStatus::Active by {
                assert(rs.drop_last()[j] == rs[j]);
            }
            assert(rs[rs.len() - 1] == rs.last());
        }
        lemma_no_active_no_weight(rs.drop_last());
    }
}

/// The finality threshold for the refiners' current weights.
pub fn active_refiner_weight_milli_threshold(refiners: &RefinerSet, timestamp: u64) -> (t: u128)
    requires
        refiners.wf(),
    ensures
        exists|ks: Seq<ObjectId>, rs: Seq<RefinerInfo>|
            #![trigger sorted_listing(ks, rs, refiners@)]
            sorted_listing(ks, rs, refiners@) && t == finality_threshold_of(rs),
{
    let all = refiners.all_refiners();
    let n = all.len();
    let mut total: u128 = 0;
    let mut i: usize = 0;
    while i < n
        invariant
            n == all@.len(),
            i <= n,
            total == active_weight(all@.take(i as int)),
        decreases n - i,
    {
        proof {
            assert(all@.take(i + 1).drop_last() =~= all@.take(i as int));
            lemma_active_weight_bound(all@.take(i + 1));
            assert((i + 1) * 0xffff_ffff_ffff_ffff <= 0xffff_ffff_ffff_ffffu128 * 0xffff_ffff_ffff_ffffu128) by (nonlinear_arith)
                requires i + 1 <= 0xffff_ffff_ffff_ffff;
        }
        if all[i].status == RefinerStatus::Active {
            let w = all[i].weight(timestamp);
            total = total + w as u128;
        }
        i = i + 1;
    }
    proof {
        assert(all@.take(n as int) =~= all@);
    }
    let q = total / 1000;
    let r = total % 1000;
    let t = q * (FINALITY_CONFIDENCE_MILLI as u128) + (r * (FINALITY_CONFIDENCE_MILLI as u128) + 999) / 1000;
    proof {
        assert(t == (total * 667 + 999) / 1000) by (nonlinear_arith)
            requires q == total / 1000, r == total % 1000, t == q * 667 + (r * 667 + 999) / 1000;
    }
    t
}

/// Whether `height` is a finality candidate: above the current finalized
/// height and attested with at least the threshold weight.
pub open spec fn qualifies(current: u64, threshold: u128, e: (u64, u128)) -> bool {
    e.0 > current && e.1 >= threshold
}

/// The greatest height of `w` above `best` that qualifies, or `best`.
pub open spec fn best_qualifying(current: u64, w: Seq<(u64, u128)>, threshold: u128) -> u64
    decreases w.len(),
{
    if w.len() == 0 {
        current
    } else {
        let b = best_qualifying(current, w.drop_last(), threshold);
        if qualifies(current, threshold, w.last()) && w.last().0 > b {
            w.last().0
        } else {
            b
        }
    }
}

/// The finalized height after attestations of weights `w`: the greatest
/// qualifying height, or `current` when none qualifies or the threshold is 0.
pub open spec fn finalized_of(current: u64, w: Seq<(u64, u128)>, threshold: u128) -> u64 {
    if threshold == 0 {
        current
    } else {
        best_qualifying(current, w, threshold)
    }
}

/// The new finalized height: the greatest attested height above the current
/// one whose weight reaches the threshold, or the current one when none does
/// or the threshold is 0. It never goes below the current height.
pub fn finalized_height_from_attestation_weights(current_finalized_height: u64, finality_weights: &Vec<(u64, u128)>, finality_threshold: u128) -> (h: u64)
    ensures
        h == finalized_of(current_finalized_height, finality_weights@, finality_threshold),
        h >= current_finalized_height,
        finality_threshold == 0 ==> h == current_finalized_height,
        finality_threshold > 0 ==> forall|i: int|
            0 <= i < finality_weights@.len() && #[trigger] qualifies(current_finalized_height, finality_threshold, finality_weights@[i])
                ==> finality_weights@[i].0 <= h,
        h != current_finalized_height ==> exists|i: int|
            0 <= i < finality_weights@.len() && #[trigger] qualifies(current_finalized_height, finality_threshold, finality_weights@[i])
                && finality_weights@[i].0 == h,
{
    if finality_threshold == 0 {
        return current_finalized_height;
    }
    let mut best = current_finalized_height;
    let mut i: usize = 0;
    while i < finality_weights.len()
        invariant
            i <= finality_weights@.len(),
            finality_threshold > 0,
            best >= current_finalized_height,
            best == best_qualifying(current_finalized_height, finality_weights@.take(i as int), finality_threshold),
            forall|j: int|
                0 <= j < i && #[trigger] qualifies(current_finalized_height, finality_threshold, finality_weights@[j])
                    ==> finality_weights@[j].0 <= best,
            best != current_finalized_height ==> exists|j: int|
                0 <= j < i && #[trigger] qualifies(current_finalized_height, finality_threshold, finality_weights@[j])
                    && finality_weights@[j].0 == best,
        decreases finality_weights.len() - i,
    {
        let (height, weight) = finality_weights[i];
        proof {
            assert(finality_weights@.take(i + 1).drop_last() =~= finality_weights@.take(i as int));
        }
        if height > current_finalized_height && weight >= finality_threshold && height > best {
            best = height;
            assert(qualifies(current_finalized_height, finality_threshold, finality_weights@[i as int]));
        }
        i = i + 1;
    }
    assert(finality_weights@.take(i as int) =~= finality_weights@);
    best
}

// ─── Signatures on refined blocks ─────────────────────────────────────────

/// What a refiner signs when producing a block: the domain tag and the
/// block hash.
pub open spec fn block_signing_bytes(block_hash: crate::types::Hash) -> Seq<u8> {
    DOMAIN_BLOCK_SIGNING@ + block_hash.bytes()
}

/// The bytes a refiner signs for a block it produces.
pub fn refiner_block_signing_payload(block_hash: &crate::types::Hash) -> (v: Vec<u8>)
    ensures
        v@ == block_signing_bytes(*block_hash),
{
    let mut v: Vec<u8> = Vec::new();
    let dom = DOMAIN_BLOCK_SIGNING;
    let mut i: usize = 0;
    while i < dom.len()
        invariant
            i <= dom@.len(),
            v@ == dom@.take(i as int),
        decreases dom.len() - i,
    {
        v.push(dom[i]);
        i = i + 1;
        assert(v@ =~= dom@.take(i as int));
    }
    let mut j: usize = 0;
    while j < 32
        invariant
            j <= 32,
            v@ == dom@ + block_hash.bytes().take(j as int),
        decreases 32 - j,
    {
        v.push(block_hash.0[j]);
        j = j + 1;
        assert(v@ =~= dom@ + block_hash.bytes().take(j as int));
    }
    assert(block_hash.bytes().take(32) =~= block_hash.bytes());
    v
}

/// What a refiner signs when attesting a block: the domain tag, the height
/// (big-endian) and the block hash.
pub open spec fn attestation_signing_bytes(height: u64, block_hash: crate::types::Hash) -> Seq<u8> {
    DOMAIN_ATTESTATION_SIGNING@ + be_u64(height) + block_hash.bytes()
}

/// The bytes a refiner signs to attest a block.
pub fn block_attestation_signing_payload(height: u64, block_hash: &crate::types::Hash) -> (v: Vec<u8>)
    ensures
        v@ == attestation_signing_bytes(height, *block_hash),
{
    let mut v: Vec<u8> = Vec::new();
    let dom = DOMAIN_ATTESTATION_SIGNING;
    let mut i: usize = 0;
    while i < dom.len()
        invariant
            i <= dom@.len(),
            v@ == dom@.take(i as int),
        decreases dom.len() - i,
    {
        v.push(dom[i]);
        i = i + 1;
        assert(v@ =~= dom@.take(i as int));
    }
    assert(dom@.take(dom@.len() as int) =~= dom@);
    push_u64_be(&mut v, height);
    let ghost mid = v@;
    let mut j: usize = 0;
    while j < 32
        invariant
            j <= 32,
            v@ == mid + block_hash.bytes().take(j as int),
        decreases 32 - j,
    {
        v.push(block_hash.0[j]);
        j = j + 1;
        assert(v@ =~= mid + block_hash.bytes().take(j as int));
    }
    assert(block_hash.bytes().take(32) =~= block_hash.bytes());
    v
}

/// Whether double-sign evidence holds: two different hashes, a 32-byte key
/// whose object id is the producer, and valid signatures of both hashes.
pub open spec fn evidence_valid(e: DoubleSignEvidence) -> bool {
    &&& e.hash_a != e.hash_b
    &&& e.producer_pubkey@.len() == 32
    &&& e.producer.bytes() == blake3_digest(DOMAIN_OBJECT_ID@ + e.producer_pubkey@)
    &&& e.signature_a@.len() == 64 && ed25519_signature_valid(e.producer_pubkey@, block_signing_bytes(e.hash_a), e.signature_a@)
    &&& e.signature_b@.len() == 64 && ed25519_signature_valid(e.producer_pubkey@, block_signing_bytes(e.hash_b), e.signature_b@)
}

fn key_array(bytes: &Vec<u8>) -> (a: [u8; 32])
    requires
        bytes@.len() == 32,
    ensures
        a@ == bytes@,
{
    let mut a = [0u8; 32];
    let mut i: usize = 0;
    while i < 32
        invariant
            i <= 32,
            bytes@.len() == 32,
            forall|j: int| 0 <= j < i ==> a@[j] == bytes@[j],
        decreases 32 - i,
    {
        a[i] = bytes[i];
        i = i + 1;
    }
    assert(a@ =~= bytes@);
    a
}

/// Checks double-sign evidence (see `evidence_valid`).
pub fn verify_slash_evidence(evidence: &DoubleSignEvidence) -> (ok: bool)
    ensures
        ok == evidence_valid(*evidence),
{
    if hash_eq(&evidence.hash_a, &evidence.hash_b) {
        return false;
    }
    if evidence.producer_pubkey.len() != 32 {
        return false;
    }
    let pk = key_array(&evidence.producer_pubkey);
    let expected = ed25519_public_key_to_object_id(&pk);
    if !id_eq(&expected, &evidence.producer) {
        proof {
            assert(expected.bytes() != evidence.producer.bytes()) by {
                if expected.bytes() == evidence.producer.bytes() {
                    assert(expected.0.0@ =~= evidence.producer.0.0@);
                }
            }
        }
        return false;
    }
    let payload_a = refiner_block_signing_payload(&evidence.hash_a);
    let payload_b = refiner_block_signing_payload(&evidence.hash_b);
    let a = verify_ed25519(evidence.producer_pubkey.as_slice(), payload_a.as_slice(), evidence.signature_a.as_slice());
    if !a {
        return false;
    }
    verify_ed25519(evidence.producer_pubkey.as_slice(), payload_b.as_slice(), evidence.signature_b.as_slice())
}

/// Why an attestation of the block with `canonical` hash is refused, if it is.
pub open spec fn attestation_error(a: BlockAttestation, canonical: crate::types::Hash, m: Map<ObjectId, RefinerInfo>) -> Option<Seq<char>> {
    if a.refiner_pubkey@.len() != 32 {
        Some("Attestation public key must be 32 bytes"@)
    } else if a.signature@.len() != 64 {
        Some("Attestation signature must be 64 bytes"@)
    } else if a.block_hash != canonical {
        Some("Attestation block hash is not canonical"@)
    } else if a.refiner.bytes() != blake3_digest(DOMAIN_OBJECT_ID@ + a.refiner_pubkey@) {
        Some("Attestation public key does not match refiner ObjectId"@)
    } else if !m.contains_key(a.refiner) {
        Some("Attestation refiner is not bonded"@)
    } else if m[a.refiner].status != RefinerStatus::Active {
        Some("Attestation refiner is not active"@)
    } else if !ed25519_signature_valid(a.refiner_pubkey@, attestation_signing_bytes(a.height, a.block_hash), a.signature@) {
        Some("Attestation signature verification failed"@)
    } else {
        None
    }
}

/// Checks a block attestation against the canonical hash of the attested
/// block and the bonded refiners; the first failing check is reported.
pub fn verify_block_attestation_against_refiners(attestation: &BlockAttestation, canonical_hash: &crate::types::Hash, refiners: &RefinerSet) -> (r: Result<(), String>)
    requires
        refiners.wf(),
    ensures
        r is Ok <==> attestation_error(*attestation, *canonical_hash, refiners@) is None,
        r matches Err(m) ==> attestation_error(*attestation, *canonical_hash, refiners@) == Some(m@),
{
    if attestation.refiner_pubkey.len() != 32 {
        return Err(String::from_str("Attestation public key must be 32 bytes"));
    }
    if attestation.signature.len() != 64 {
        return Err(String::from_str("Attestation signature must be 64 bytes"));
    }
    if !hash_eq(&attestation.block_hash, canonical_hash) {
        return Err(String::from_str("Attestation block hash is not canonical"));
    }
    let pk = key_array(&attestation.refiner_pubkey);
    let expected = ed25519_public_key_to_object_id(&pk);
    if !id_eq(&expected, &attestation.refiner) {
        proof {
            assert(expected.bytes() != attestation.refiner.bytes()) by {
                if expected.bytes() == attestation.refiner.bytes() {
                    assert(expected.0.0@ =~= attestation.refiner.0.0@);
                }
            }
        }
        return Err(String::from_str("Attestation public key does not match refiner ObjectId"));
    }
    match refiners.get_refiner(&attestation.refiner) {
        None => {
            return Err(String::from_str("Attestation refiner is not bonded"));
        },
        Some(info) => {
            if info.status != RefinerStatus::Active {
                return Err(String::from_str("Attestation refiner is not active"));
            }
        },
    }
    let payload = block_attestation_signing_payload(attestation.height, &attestation.block_hash);
    if !verify_ed25519(attestation.refiner_pubkey.as_slice(), payload.as_slice(), attestation.signature.as_slice()) {
        return Err(String::from_str("Attestation signature verification failed"));
    }
    Ok(())
}

} // verus!
