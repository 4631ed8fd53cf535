//! Refiner block attestations: an active refiner signs the (height, hash) of a
//! refined block it has stored; received attestations are checked and kept in
//! a pool (for one epoch) until a block producer includes them.
use crate::block::{compute_block_hash, header_hash_preimage};
use crate::chain::{attestation_error, attestation_signing_bytes, block_attestation_signing_payload};
use crate::constants::{EPOCH, MAX_ATTESTATIONS_PER_BLOCK};
use crate::crypto::{
    blake3_digest, ed25519_public_key, ed25519_public_key_of, ed25519_public_key_to_object_id,
    ed25519_sign, ed25519_signature_of, ed25519_signature_valid, verify_ed25519, DOMAIN_OBJECT_ID,
};
use crate::refiner_set::RefinerSet;
use crate::types::{hash_eq, id_eq, Block, BlockAttestation, ObjectId, RefinerStatus};
use vstd::prelude::*;
use vstd::string::StringExecFns;

verus! {

/// Whether `b` is a refined block (signed by a refiner, not mined).
pub open spec fn is_refined(b: Block) -> bool {
    b.header.refiner_signature is Some && b.header.pow_proof is None
}

/// Whether a stored block can be attested as the block with `block_hash`.
pub open spec fn can_attest(stored: Option<Block>, block_hash: crate::types::Hash) -> bool {
    stored matches Some(b) && is_refined(b) && blake3_digest(header_hash_preimage(b.header)) == block_hash.bytes()
}

/// Whether `refiner` is bonded and active.
pub open spec fn is_active(refiners: &RefinerSet, refiner: ObjectId) -> bool {
    refiners@.contains_key(refiner) && refiners@[refiner].status == RefinerStatus::Active
}

/// Signs an attestation of the stored block at `height` when it has hash
/// `block_hash` and is refined, and `refiner_id` is an active refiner;
/// otherwise there is nothing to attest.
pub fn create_block_attestation(
    secret_key: &[u8; 32],
    refiner_id: &ObjectId,
    refiners: &RefinerSet,
    stored: &Option<Block>,
    height: u64,
    block_hash: &crate::types::Hash,
) -> (r: Option<BlockAttestation>)
    requires
        refiners.wf(),
    ensures
        r is Some <==> (is_active(refiners, *refiner_id) && can_attest(*stored, *block_hash)),
        r matches Some(a) ==> {
            &&& a.refiner == *refiner_id
            &&& a.refiner_pubkey@ == ed25519_public_key_of(secret_key@)
            &&& a.height == height
            &&& a.block_hash == *block_hash
            &&& a.signature@ == ed25519_signature_of(secret_key@, attestation_signing_bytes(height, *block_hash))
        },
{
    match refiners.get_refiner(refiner_id) {
        None => {
            return None;
        },
        Some(info) => {
            if info.status != RefinerStatus::Active {
                return None;
            }
        },
    }
    let block = match stored {
        None => {
            return None;
        },
        Some(b) => b,
    };
    let h = compute_block_hash(&block.header);
    if !hash_eq(&h, block_hash) {
        return None;
    }
    if block.header.refiner_signature.is_none() || block.header.pow_proof.is_some() {
        return None;
    }
    let payload = block_attestation_signing_payload(height, block_hash);
    let signature = ed25519_sign(secret_key, payload.as_slice());
    let pk = ed25519_public_key(secret_key);
    let mut pk_vec: Vec<u8> = Vec::new();
    let mut sig_vec: Vec<u8> = Vec::new();
    let mut i: usize = 0;
    while i < 32
        invariant
            i <= 32,
            pk_vec@ == pk@.take(i as int),
        decreases 32 - i,
    {
        pk_vec.push(pk[i]);
        i = i + 1;
        assert(pk_vec@ =~= pk@.take(i as int));
    }
    let mut j: usize = 0;
    while j < 64
        invariant
            j <= 64,
            sig_vec@ == signature@.take(j as int),
        decreases 64 - j,
    {
        sig_vec.push(signature[j]);
        j = j + 1;
        assert(sig_vec@ =~= signature@.take(j as int));
    }
    assert(pk_vec@ =~= pk@);
    assert(sig_vec@ =~= signature@);
    Some(BlockAttestation { refiner: *refiner_id, refiner_pubkey: pk_vec, height, block_hash: *block_hash, signature: sig_vec })
}

/// An attestation a refiner creates is one the chain accepts: when the
/// refiner's id is that of its key, the attestation passes every check made
/// on included attestations against the attested block's hash.
pub proof fn lemma_created_attestation_verifies(
    secret_key: Seq<u8>,
    a: BlockAttestation,
    refiners: &RefinerSet,
)
    requires
        a.refiner_pubkey@ == ed25519_public_key_of(secret_key),
        a.signature@ == ed25519_signature_of(secret_key, attestation_signing_bytes(a.height, a.block_hash)),
        ed25519_signature_valid(ed25519_public_key_of(secret_key), attestation_signing_bytes(a.height, a.block_hash), ed25519_signature_of(secret_key, attestation_signing_bytes(a.height, a.block_hash))),
        a.refiner_pubkey@.len() == 32,
        a.signature@.len() == 64,
        a.refiner.bytes() == blake3_digest(DOMAIN_OBJECT_ID@ + a.refiner_pubkey@),
        is_active(refiners, a.refiner),
    ensures
        attestation_error(a, a.block_hash, refiners@) is None,
{
}

/// The attestations of `s` at or above `min`, in order.
pub open spec fn from_height(s: Seq<BlockAttestation>, min: u64) -> Seq<BlockAttestation>
    decreases s.len(),
{
    if s.len() == 0 {
        s
    } else if s.last().height >= min {
        from_height(s.drop_last(), min).push(s.last())
    } else {
        from_height(s.drop_last(), min)
    }
}

/// The attestations of `s` with `min <= height < next`, in order.
pub open spec fn in_window(s: Seq<BlockAttestation>, min: u64, next: u64) -> Seq<BlockAttestation>
    decreases s.len(),
{
    if s.len() == 0 {
        s
    } else if min <= s.last().height < next {
        in_window(s.drop_last(), min, next).push(s.last())
    } else {
        in_window(s.drop_last(), min, next)
    }
}

/// Whether `s` holds an attestation of `height` by `refiner`.
pub open spec fn holds(s: Seq<BlockAttestation>, height: u64, refiner: ObjectId) -> bool {
    exists|i: int| 0 <= i < s.len() && #[trigger] s[i].height == height && s[i].refiner == refiner
}

/// Why a received attestation is refused, if it is.
pub open spec fn accept_error(a: BlockAttestation, refiners: &RefinerSet, has_store: bool, stored: Result<Option<Block>, String>) -> Option<Seq<char>> {
    if a.refiner_pubkey@.len() != 32 {
        Some("Attestation public key must be 32 bytes"@)
    } else if a.signature@.len() != 64 {
        Some("Attestation signature must be 64 bytes"@)
    } else if a.refiner.bytes() != blake3_digest(DOMAIN_OBJECT_ID@ + a.refiner_pubkey@) {
        Some("Attestation public key does not match refiner ObjectId"@)
    } else if !refiners@.contains_key(a.refiner) {
        Some("Attestation refiner is not bonded"@)
    } else if refiners@[a.refiner].status != RefinerStatus::Active {
        Some("Attestation refiner is not active"@)
    } else if !has_store {
        Some("Cannot verify attestation without storage"@)
    } else {
        match stored {
            Err(e) => Some("Failed to load attested block: "@ + e@),
            Ok(None) => Some("Attested block is not known locally"@),
            Ok(Some(b)) => if !is_refined(b) {
                Some("Attestation target must be a refiner-produced block"@)
            } else if blake3_digest(header_hash_preimage(b.header)) != a.block_hash.bytes() {
                Some("Attestation block hash is not canonical"@)
            } else if !ed25519_signature_valid(a.refiner_pubkey@, attestation_signing_bytes(a.height, a.block_hash), a.signature@) {
                Some("Attestation signature verification failed"@)
            } else {
                None
            },
        }
    }
}

/// Received attestations waiting to be included in a block.
pub struct AttestationPool {
    pending: Vec<BlockAttestation>,
}

fn key_array(bytes: &Vec<u8>) -> (a: [u8; 32])
    requires
        bytes@.len() == 32,
    ensures
        a@ == bytes@,
{
    let mut a = [0u8; 32];
    let mut i: usize = 0;
    while i < 32
        invariant
            i <= 32,
            bytes@.len() == 32,
            forall|j: int| 0 <= j < i ==> a@[j] == bytes@[j],
        decreases 32 - i,
    {
        a[i] = bytes[i];
        i = i + 1;
    }
    assert(a@ =~= bytes@);
    a
}

impl AttestationPool {
    /// The pending attestations, oldest first.
    pub closed spec fn items(&self) -> Seq<BlockAttestation> {
        self.pending@
    }

    /// An empty pool.
    pub fn new() -> (p: Self)
        ensures
            p.items() == Seq::<BlockAttestation>::empty(),
    {
        AttestationPool { pending: Vec::new() }
    }

    /// Number of pending attestations.
    pub fn len(&self) -> (n: usize)
        ensures
            n == self.items().len(),
    {
        self.pending.len()
    }

    fn keep_from(&mut self, min: u64)
        ensures
            final(self).items() == from_height(old(self).items(), min),
    {
        let mut rest: Vec<BlockAttestation> = Vec::new();
        core::mem::swap(&mut rest, &mut self.pending);
        let ghost s = rest@;
        let mut kept: Vec<BlockAttestation> = Vec::new();
        let n = rest.len();
        let mut i: usize = 0;
        while i < n
            invariant
                n == s.len(),
                i <= n,
                rest@ == s.subrange(i as int, n as int),
                kept@ == from_height(s.take(i as int), min),
            decreases n - i,
        {
            proof {
                assert(s.take(i + 1).drop_last() =~= s.take(i as int));
            }
            let x = rest.remove(0);
            proof {
                assert(rest@ =~= s.subrange(i + 1, n as int));
            }
            if x.height >= min {
                kept.push(x);
            }
            i = i + 1;
        }
        proof {
            assert(s.take(n as int) =~= s);
        }
        self.pending = kept;
    }

    fn holds_key(&self, height: u64, refiner: &ObjectId) -> (b: bool)
        ensures
            b == holds(self.items(), height, *refiner),
    {
        let mut i: usize = 0;
        while i < self.pending.len()
            invariant
                i <= self.pending@.len(),
                forall|j: int| 0 <= j < i ==> !(self.pending@[j].height == height && self.pending@[j].refiner == *refiner),
            decreases self.pending.len() - i,
        {
            if self.pending[i].height == height && id_eq(&self.pending[i].refiner, refiner) {
                assert(self.pending@[i as int].height == height);
                return true;
            }
            i = i + 1;
        }
        false
    }

    /// Checks a received attestation (see `accept_error`); a valid one is
    /// added unless the pool already holds one of that refiner at that
    /// height. Attestations more than an epoch below `current_height` are
    /// dropped first. Returns whether it was new; a refused one changes
    /// nothing.
    pub fn accept(
        &mut self,
        attestation: BlockAttestation,
        refiners: &RefinerSet,
        has_store: bool,
        stored: Result<Option<Block>, String>,
        current_height: u64,
    ) -> (r: Result<bool, String>)
        requires
            refiners.wf(),
        ensures
            r is Err <==> accept_error(attestation, refiners, has_store, stored) is Some,
            r matches Err(m) ==> accept_error(attestation, refiners, has_store, stored) == Some(m@)
                && final(self).items() == old(self).items(),
            r matches Ok(fresh) ==> {
                let kept = from_height(old(self).items(), (if current_height >= EPOCH { current_height - EPOCH } else { 0 }) as u64);
                &&& fresh == !holds(kept, attestation.height, attestation.refiner)
                &&& final(self).items() == (if fresh { kept.push(attestation) } else { kept })
            },
    {
        if attestation.refiner_pubkey.len() != 32 {
            return Err(String::from_str("Attestation public key must be 32 bytes"));
        }
        if attestation.signature.len() != 64 {
            return Err(String::from_str("Attestation signature must be 64 bytes"));
        }
        let pk = key_array(&attestation.refiner_pubkey);
        let expected = ed25519_public_key_to_object_id(&pk);
        if !id_eq(&expected, &attestation.refiner) {
            return Err(String::from_str("Attestation public key does not match refiner ObjectId"));
        }
        match refiners.get_refiner(&attestation.refiner) {
            None => {
                return Err(String::from_str("Attestation refiner is not bonded"));
            },
            Some(info) => {
                if info.status != RefinerStatus::Active {
                    return Err(String::from_str("Attestation refiner is not active"));
                }
            },
        }
        if !has_store {
            return Err(String::from_str("Cannot verify attestation without storage"));
        }
        let block = match &stored {
            Err(e) => {
                let mut m = String::from_str("Failed to load attested block: ");
                m.append(e.as_str());
                return Err(m);
            },
            Ok(None) => {
                return Err(String::from_str("Attested block is not known locally"));
            },
            Ok(Some(b)) => b,
        };
        if block.header.refiner_signature.is_none() || block.header.pow_proof.is_some() {
            return Err(String::from_str("Attestation target must be a refiner-produced block"));
        }
        let canonical = compute_block_hash(&block.header);
        if !hash_eq(&canonical, &attestation.block_hash) {
            return Err(String::from_str("Attestation block hash is not canonical"));
        }
        let payload = block_attestation_signing_payload(attestation.height, &attestation.block_hash);
        if !verify_ed25519(attestation.refiner_pubkey.as_slice(), payload.as_slice(), attestation.signature.as_slice()) {
            return Err(String::from_str("Attestation signature verification failed"));
        }
        let min_height = current_height.saturating_sub(EPOCH);
        self.keep_from(min_height);
        if self.holds_key(attestation.height, &attestation.refiner) {
            return Ok(false);
        }
        self.pending.push(attestation);
        Ok(true)
    }

    /// Takes the attestations to include in the block at `next_height`:
    /// those from the last epoch below it, oldest first, at most
    /// `MAX_ATTESTATIONS_PER_BLOCK`; what is outside that window is dropped,
    /// and what is over the cap stays for a later block.
    pub fn drain_for_block(&mut self, next_height: u64) -> (r: Vec<BlockAttestation>)
        ensures
            ({
                let w = in_window(old(self).items(), (if next_height >= EPOCH { next_height - EPOCH } else { 0 }) as u64, next_height);
                let n = if w.len() > MAX_ATTESTATIONS_PER_BLOCK { MAX_ATTESTATIONS_PER_BLOCK as int } else { w.len() as int };
                &&& r@ == w.take(n)
                &&& final(self).items() == w.skip(n)
            }),
    {
        let min_height = next_height.saturating_sub(EPOCH);
        let mut rest: Vec<BlockAttestation> = Vec::new();
        core::mem::swap(&mut rest, &mut self.pending);
        let ghost s = rest@;
        let ghost w = in_window(s, min_height, next_height);
        let mut out: Vec<BlockAttestation> = Vec::new();
        let mut left: Vec<BlockAttestation> = Vec::new();
        let n = rest.len();
        let mut i: usize = 0;
        while i < n
            invariant
                n == s.len(),
                i <= n,
                rest@ == s.subrange(i as int, n as int),
                out@ + left@ == in_window(s.take(i as int), min_height, next_height),
                out@.len() <= MAX_ATTESTATIONS_PER_BLOCK,
                left@.len() > 0 ==> out@.len() == MAX_ATTESTATIONS_PER_BLOCK,
            decreases n - i,
        {
            proof {
                assert(s.take(i + 1).drop_last() =~= s.take(i as int));
            }
            let x = rest.remove(0);
            proof {
                assert(rest@ =~= s.subrange(i + 1, n as int));
                assert(x == s.take(i + 1).last());
            }
            if min_height <= x.height && x.height < next_height {
                if out.len() < MAX_ATTESTATIONS_PER_BLOCK {
                    let ghost before = out@ + left@;
                    out.push(x);
                    assert(out@ + left@ =~= before.push(x));
                } else {
                    let ghost before = out@ + left@;
                    left.push(x);
                    assert(out@ + left@ =~= before.push(x));
                }
            }
            i = i + 1;
        }
        proof {
            assert(s.take(n as int) =~= s);
            let k = out@.len() as int;
            assert((out@ + left@).take(k) =~= out@);
            assert((out@ + left@).skip(k) =~= left@);
        }
        self.pending = left;
        out
    }
}

} // verus!
