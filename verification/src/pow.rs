//! The proof-of-work framing around EVO-OMAP: which header bytes a miner
//! commits to, how the nonce is carried in the header, and how a light
//! verification verdict becomes the block's proof check.
//!
//! EVO-OMAP itself (dataset generation, mining and light verification) is
//! computed outside this library; its verdict enters here as a value.
use crate::encoding::{be_u32, be_u64};
use crate::errors::OpolysError;
use crate::types::BlockHeader;
use vstd::prelude::*;

verus! {

/// The header bytes a proof of work commits to: every field but the proof
/// and the refiner signature, which are set after mining. In order: version,
/// height, previous hash, state root, transaction root, evidence root,
/// attestation root, genesis ceremony hash, timestamp, difficulty and
/// suggested fee (integers big-endian), the extension root if any, and the
/// producer, so that the work is bound to the one who earns the reward.
pub open spec fn pow_header_bytes(h: BlockHeader) -> Seq<u8> {
    be_u32(h.version) + be_u64(h.height) + h.previous_hash.bytes() + h.state_root.bytes()
        + h.transaction_root.bytes() + h.evidence_root.bytes() + h.attestation_root.bytes()
        + h.genesis_ceremony_hash.bytes() + be_u64(h.timestamp) + be_u64(h.difficulty) + be_u64(
        h.suggested_fee,
    ) + crate::block::ext_root_bytes(h) + h.producer.bytes()
}

/// The header bytes a proof of work commits to.
pub fn serialize_header_for_pow(header: &BlockHeader) -> (v: Vec<u8>)
    ensures
        v@ == pow_header_bytes(*header),
{
    let mut buf: Vec<u8> = Vec::new();
    crate::encoding::push_u32_be(&mut buf, header.version);
    crate::encoding::push_u64_be(&mut buf, header.height);
    crate::encoding::push_bytes(&mut buf, header.previous_hash.as_bytes().as_slice());
    crate::encoding::push_bytes(&mut buf, header.state_root.as_bytes().as_slice());
    crate::encoding::push_bytes(&mut buf, header.transaction_root.as_bytes().as_slice());
    crate::encoding::push_bytes(&mut buf, header.evidence_root.as_bytes().as_slice());
    crate::encoding::push_bytes(&mut buf, header.attestation_root.as_bytes().as_slice());
    crate::encoding::push_bytes(&mut buf, header.genesis_ceremony_hash.as_bytes().as_slice());
    crate::encoding::push_u64_be(&mut buf, header.timestamp);
    crate::encoding::push_u64_be(&mut buf, header.difficulty);
    crate::encoding::push_u64_be(&mut buf, header.suggested_fee);
    match &header.extension_root {
        Some(x) => {
            crate::encoding::push_bytes(&mut buf, x.as_bytes().as_slice());
        },
        None => {},
    }
    crate::encoding::push_bytes(&mut buf, header.producer.as_bytes().as_slice());
    assert(buf@ =~= pow_header_bytes(*header));
    buf
}

/// The big-endian value of a byte sequence.
pub open spec fn be_value(s: Seq<u8>) -> nat
    decreases s.len(),
{
    if s.len() == 0 {
        0
    } else {
        be_value(s.drop_last()) * 256 + s.last() as nat
    }
}

/// `256^n`.
pub open spec fn pow256(n: nat) -> nat
    decreases n,
{
    if n == 0 {
        1
    } else {
        256 * pow256((n - 1) as nat)
    }
}

/// Reading back `n` big-endian bytes of `x` gives `x` modulo `256^n`.
pub proof fn lemma_be_bytes_value(x: nat, n: nat)
    ensures
        be_value(crate::encoding::be_bytes(x, n)) == x % pow256(n),
        crate::encoding::be_bytes(x, n).len() == n,
    decreases n,
{
    if n == 0 {
        assert(x % 1 == 0);
    } else {
        lemma_be_bytes_value(x / 256, (n - 1) as nat);
        let b = crate::encoding::be_bytes(x, n);
        let p = pow256((n - 1) as nat);
        assert(b.drop_last() =~= crate::encoding::be_bytes(x / 256, (n - 1) as nat));
        assert(p > 0) by {
            lemma_pow256_positive((n - 1) as nat);
        }
        let q = x / 256;
        let m = q % p;
        let k = q / p;
        assert(x == (256 * p) * k + (256 * m + x % 256) && 0 <= 256 * m + x % 256 < 256 * p) by (nonlinear_arith)
            requires
                q == x / 256,
                m == q % p,
                k == q / p,
                p > 0,
        ;
        vstd::arithmetic::div_mod::lemma_fundamental_div_mod_converse(x as int, (256 * p) as int, k as int, (256 * m + x % 256) as int);
    }
}

proof fn lemma_pow256_positive(n: nat)
    ensures
        pow256(n) > 0,
    decreases n,
{
    if n > 0 {
        lemma_pow256_positive((n - 1) as nat);
    }
}

/// Distinct `u64` values have distinct big-endian encodings, and so do
/// distinct `u32` values.
pub proof fn lemma_be_injective(a: u64, b: u64, c: u32, d: u32)
    ensures
        be_u64(a) == be_u64(b) ==> a == b,
        be_u32(c) == be_u32(d) ==> c == d,
        be_u64(a).len() == 8,
        be_u32(c).len() == 4,
{
    lemma_be_bytes_value(a as nat, 8);
    lemma_be_bytes_value(b as nat, 8);
    lemma_be_bytes_value(c as nat, 4);
    lemma_be_bytes_value(d as nat, 4);
    reveal_with_fuel(pow256, 9);
    assert(pow256(8) == 0x1_0000_0000_0000_0000);
    assert(pow256(4) == 0x1_0000_0000);
    vstd::arithmetic::div_mod::lemma_small_mod(a as nat, pow256(8));
    vstd::arithmetic::div_mod::lemma_small_mod(b as nat, pow256(8));
    vstd::arithmetic::div_mod::lemma_small_mod(c as nat, pow256(4));
    vstd::arithmetic::div_mod::lemma_small_mod(d as nat, pow256(4));
    if be_u32(c) == be_u32(d) {
        assert(be_value(be_u32(c)) == be_value(be_u32(d)));
    }
    if be_u64(a) == be_u64(b) {
        assert(be_value(be_u64(a)) == be_value(be_u64(b)));
    }
}

/// The PoW nonce carried by a header: the big-endian first eight bytes of
/// its proof, if the proof has at least eight.
pub open spec fn pow_nonce_spec(h: BlockHeader) -> Option<u64> {
    match h.pow_proof {
        Some(p) => if p@.len() >= 8 {
            Some(be_value(p@.take(8)) as u64)
        } else {
            None
        },
        None => None,
    }
}

/// Reads the big-endian `u64` in the first eight bytes.
pub(crate) fn read_be_u64(b: &[u8]) -> (x: u64)
    requires
        b@.len() >= 8,
    ensures
        x == be_value(b@.take(8)),
{
    let mut x: u64 = 0;
    let mut i: usize = 0;
    proof {
        reveal_with_fuel(pow256, 9);
        assert(pow256(8) == 0x1_0000_0000_0000_0000);
        assert(b@.take(0) =~= Seq::<u8>::empty());
    }
    proof {
        assert forall|k: nat| k < 8 implies #[trigger] pow256(k) * 256 <= pow256(8) by {
            reveal_with_fuel(pow256, 9);
        }
    }
    while i < 8
        invariant
            i <= 8,
            b@.len() >= 8,
            x == be_value(b@.take(i as int)),
            x < pow256(i as nat),
            pow256(8) == 0x1_0000_0000_0000_0000,
            forall|k: nat| k < 8 ==> #[trigger] pow256(k) * 256 <= pow256(8),
        decreases 8 - i,
    {
        proof {
            assert(b@.take(i as int + 1).drop_last() =~= b@.take(i as int));
            assert(b@.take(i as int + 1).last() == b@[i as int]);
            assert(pow256(i as nat) * 256 <= pow256(8));
        }
        x = x * 256 + b[i] as u64;
        i = i + 1;
    }
    x
}

/// The PoW nonce carried by a header, if its proof has at least eight bytes.
pub fn pow_nonce(header: &BlockHeader) -> (n: Option<u64>)
    ensures
        n == pow_nonce_spec(*header),
{
    match &header.pow_proof {
        Some(p) => {
            if p.len() >= 8 {
                Some(read_be_u64(p.as_slice()))
            } else {
                None
            }
        },
        None => None,
    }
}

/// The proof-of-work check of a header at `difficulty`: passes at difficulty
/// 0; otherwise the header must carry a nonce and `light_verified` (the
/// EVO-OMAP light verification of `serialize_header_for_pow(header)`, the
/// height, that nonce and the difficulty) must hold.
pub fn verify_pow_light(header: &BlockHeader, difficulty: u64, light_verified: bool) -> (r: Result<(), OpolysError>)
    ensures
        r is Ok <==> (difficulty == 0 || (pow_nonce_spec(*header) is Some && light_verified)),
        r matches Err(e) ==> e == OpolysError::InvalidProofOfWork,
{
    if difficulty == 0 {
        return Ok(());
    }
    match pow_nonce(header) {
        None => Err(OpolysError::InvalidProofOfWork),
        Some(_) => {
            if light_verified {
                Ok(())
            } else {
                Err(OpolysError::InvalidProofOfWork)
            }
        },
    }
}

/// The PoW hash value used for vein yield: the big-endian first eight bytes
/// of the EVO-OMAP hash of the header, when the header carries a nonce.
pub fn compute_pow_hash_value(header: &BlockHeader, pow_hash: &[u8; 32]) -> (v: Option<u64>)
    ensures
        pow_nonce_spec(*header) is None ==> v is None,
        pow_nonce_spec(*header) is Some ==> v == Some(be_value(pow_hash@.take(8)) as u64),
{
    match pow_nonce(header) {
        None => None,
        Some(_) => Some(read_be_u64(pow_hash.as_slice())),
    }
}

/// The nonce attempts of one mining round at `difficulty`: 100 000 per unit
/// of difficulty (at least one), at most 10 000 000.
pub fn mining_attempts(difficulty: u64) -> (n: u64)
    ensures
        n == if 100_000 * (if difficulty > 1 { difficulty } else { 1 }) > 10_000_000 {
            10_000_000
        } else {
            100_000 * (if difficulty > 1 { difficulty } else { 1 })
        },
{
    let d = if difficulty > 1 { difficulty } else { 1 };
    if d > 100 {
        10_000_000
    } else {
        100_000 * d
    }
}

} // verus!
