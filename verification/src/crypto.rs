//! Cryptographic primitives: Blake3-256 and SHA3-256 hashing, Blake3 XOF,
//! domain-separated identifiers, and ed25519 signature verification.
//!
//! The primitives themselves are computed by the `blake3`, `sha3` and
//! `ed25519-dalek` crates. Their results are named below; what this module
//! proves is how Opolys frames the bytes that go into them.
use crate::types::ObjectId;
use ed25519_dalek::{Signer, Verifier};
use sha3::Digest;
use vstd::prelude::*;

verus! {

// ─── Names for what the outside hash and signature functions compute ─────────

/// The Blake3-256 digest of `input`.
pub uninterp spec fn blake3_digest(input: Seq<u8>) -> Seq<u8>;

/// The SHA3-256 digest of `input`.
pub uninterp spec fn sha3_256_digest(input: Seq<u8>) -> Seq<u8>;

/// The first `len` bytes of the Blake3 extendable output for `seed`.
pub uninterp spec fn blake3_xof_output(seed: Seq<u8>, len: nat) -> Seq<u8>;

/// Whether `signature` is a valid ed25519 signature of `message` under the
/// 32-byte public key `public_key`.
pub uninterp spec fn ed25519_signature_valid(
    public_key: Seq<u8>,
    message: Seq<u8>,
    signature: Seq<u8>,
) -> bool;

/// The bytes absorbed so far by a streaming Blake3 hasher.
pub uninterp spec fn blake3_absorbed(h: blake3::Hasher) -> Seq<u8>;

#[verifier::external_type_specification]
#[verifier::external_body]
pub struct ExBlake3Hasher(blake3::Hasher);

/// `blake3::Hasher::new`: a hasher that has absorbed nothing.
#[verifier::external_body]
fn blake3_hasher_new() -> (h: blake3::Hasher)
    ensures
        blake3_absorbed(h) == Seq::<u8>::empty(),
{
    blake3::Hasher::new()
}

/// `blake3::Hasher::update`: absorbs `data` after what was absorbed before.
#[verifier::external_body]
fn blake3_hasher_update(h: &mut blake3::Hasher, data: &[u8])
    ensures
        blake3_absorbed(*final(h)) == blake3_absorbed(*old(h)) + data@,
{
    h.update(data);
}

/// `blake3::Hasher::finalize`: the 32-byte digest of all absorbed bytes, the
/// same as the one-shot digest of their concatenation.
#[verifier::external_body]
fn blake3_hasher_finalize(h: &blake3::Hasher) -> (r: [u8; 32])
    ensures
        r@ == blake3_digest(blake3_absorbed(*h)),
{
    *h.finalize().as_bytes()
}

/// `sha3::Sha3_256` digest of `data` (32 bytes).
#[verifier::external_body]
fn sha3_256_raw(data: &[u8]) -> (r: [u8; 32])
    ensures
        r@ == sha3_256_digest(data@),
{
    let out = sha3::Sha3_256::digest(data);
    let mut arr = [0u8; 32];
    arr.copy_from_slice(&out[..32]);
    arr
}

/// `output_len` bytes of Blake3 extendable output for `seed`
/// (`Hasher::update`, then `finalize_xof().fill`).
#[verifier::external_body]
fn blake3_xof_raw(seed: &[u8], output_len: usize) -> (r: Vec<u8>)
    ensures
        r@ == blake3_xof_output(seed@, output_len as nat),
        r@.len() == output_len,
{
    let mut hasher = blake3::Hasher::new();
    hasher.update(seed);
    let mut output = vec![0u8; output_len];
    hasher.finalize_xof().fill(&mut output);
    output
}

/// The ed25519 public key of a 32-byte secret key.
pub uninterp spec fn ed25519_public_key_of(secret: Seq<u8>) -> Seq<u8>;

/// The (deterministic, RFC 8032) ed25519 signature of a message under a
/// 32-byte secret key.
pub uninterp spec fn ed25519_signature_of(secret: Seq<u8>, message: Seq<u8>) -> Seq<u8>;

/// The public key of a secret key (`SigningKey::from_bytes`, then
/// `verifying_key().to_bytes()`).
#[verifier::external_body]
pub(crate) fn ed25519_public_key(secret: &[u8; 32]) -> (pk: [u8; 32])
    ensures
        pk@ == ed25519_public_key_of(secret@),
{
    ed25519_dalek::SigningKey::from_bytes(secret).verifying_key().to_bytes()
}

/// Signs a message (`SigningKey::from_bytes`, then `Signer::sign`). The
/// signature is a function of the key and the message, and verifies under
/// the key's public key, as the crate documents for a signature it made.
#[verifier::external_body]
pub(crate) fn ed25519_sign(secret: &[u8; 32], message: &[u8]) -> (sig: [u8; 64])
    ensures
        sig@ == ed25519_signature_of(secret@, message@),
        ed25519_signature_valid(ed25519_public_key_of(secret@), message@, sig@),
{
    ed25519_dalek::SigningKey::from_bytes(secret).sign(message).to_bytes()
}

/// Whether 32 bytes decode to an ed25519 public key (a curve point).
pub uninterp spec fn ed25519_key_decodes(public_key: Seq<u8>) -> bool;

/// Whether `signature` is a valid ed25519 signature of `message` under the
/// key `public_key` by strict verification (no small-order key or `R`).
pub uninterp spec fn ed25519_strict_valid(public_key: Seq<u8>, message: Seq<u8>, signature: Seq<u8>) -> bool;

/// Whether 32 bytes are a valid ed25519 public key
/// (`VerifyingKey::from_bytes` succeeds).
#[verifier::external_body]
pub(crate) fn ed25519_key_is_valid(public_key: &[u8; 32]) -> (ok: bool)
    ensures
        ok == ed25519_key_decodes(public_key@),
{
    ed25519_dalek::VerifyingKey::from_bytes(public_key).is_ok()
}

/// Strict ed25519 verification (`VerifyingKey::from_bytes`, then
/// `verify_strict`) of a 64-byte signature under a key that decodes.
#[verifier::external_body]
pub(crate) fn ed25519_verify_strict(public_key: &[u8; 32], message: &[u8], signature: &[u8; 64]) -> (ok: bool)
    requires
        ed25519_key_decodes(public_key@),
    ensures
        ok == ed25519_strict_valid(public_key@, message@, signature@),
{
    match ed25519_dalek::VerifyingKey::from_bytes(public_key) {
        Ok(vk) => vk.verify_strict(message, &ed25519_dalek::Signature::from_bytes(signature)).is_ok(),
        Err(_) => false,
    }
}

/// `ed25519_dalek` verification of a 64-byte signature under a 32-byte key
/// (`VerifyingKey::from_bytes`, then `Verifier::verify`). An encoding that is
/// not a curve point is refused.
#[verifier::external_body]
fn ed25519_verify_raw(public_key: &[u8], message: &[u8], signature: &[u8]) -> (ok: bool)
    requires
        public_key@.len() == 32,
        signature@.len() == 64,
    ensures
        ok == ed25519_signature_valid(public_key@, message@, signature@),
{
    let mut pk = [0u8; 32];
    pk.copy_from_slice(public_key);
    let mut sig = [0u8; 64];
    sig.copy_from_slice(signature);
    match ed25519_dalek::VerifyingKey::from_bytes(&pk) {
        Ok(vk) => vk.verify(message, &ed25519_dalek::Signature::from_bytes(&sig)).is_ok(),
        Err(_) => false,
    }
}


// ─── Domain tags ─────────────────────────────────────────────────────────────

/// Domain tag for account identifiers derived from public keys. (ASCII `opolys/object-id/v1`)
pub const DOMAIN_OBJECT_ID: [u8; 19] = [111u8, 112u8, 111u8, 108u8, 121u8, 115u8, 47u8, 111u8, 98u8, 106u8, 101u8, 99u8, 116u8, 45u8, 105u8, 100u8, 47u8, 118u8, 49u8];

/// Domain tag for transaction identifiers. (ASCII `opolys/tx-id/v1`)
pub const DOMAIN_TX_ID: [u8; 15] = [111u8, 112u8, 111u8, 108u8, 121u8, 115u8, 47u8, 116u8, 120u8, 45u8, 105u8, 100u8, 47u8, 118u8, 49u8];

/// Domain tag for block header hashes. (ASCII `opolys/block-hash/v1`)
pub const DOMAIN_BLOCK_HASH: [u8; 20] = [111u8, 112u8, 111u8, 108u8, 121u8, 115u8, 47u8, 98u8, 108u8, 111u8, 99u8, 107u8, 45u8, 104u8, 97u8, 115u8, 104u8, 47u8, 118u8, 49u8];

/// Domain tag for the transaction root of a block. (ASCII `opolys/tx-root/v1`)
pub const DOMAIN_TX_ROOT: [u8; 17] = [111u8, 112u8, 111u8, 108u8, 121u8, 115u8, 47u8, 116u8, 120u8, 45u8, 114u8, 111u8, 111u8, 116u8, 47u8, 118u8, 49u8];

/// Domain tag for account and refiner state roots. (ASCII `opolys/state-root/v1`)
pub const DOMAIN_STATE_ROOT: [u8; 20] = [111u8, 112u8, 111u8, 108u8, 121u8, 115u8, 47u8, 115u8, 116u8, 97u8, 116u8, 101u8, 45u8, 114u8, 111u8, 111u8, 116u8, 47u8, 118u8, 49u8];

/// Domain tag for the slashing-evidence root of a block. (ASCII `opolys/evidence-root/v1`)
pub const DOMAIN_EVIDENCE_ROOT: [u8; 23] = [111u8, 112u8, 111u8, 108u8, 121u8, 115u8, 47u8, 101u8, 118u8, 105u8, 100u8, 101u8, 110u8, 99u8, 101u8, 45u8, 114u8, 111u8, 111u8, 116u8, 47u8, 118u8, 49u8];

/// Domain tag for the attestation root of a block. (ASCII `opolys/attestation-root/v1`)
pub const DOMAIN_ATTESTATION_ROOT: [u8; 26] = [111u8, 112u8, 111u8, 108u8, 121u8, 115u8, 47u8, 97u8, 116u8, 116u8, 101u8, 115u8, 116u8, 97u8, 116u8, 105u8, 111u8, 110u8, 45u8, 114u8, 111u8, 111u8, 116u8, 47u8, 118u8, 49u8];

/// Domain tag for the genesis ceremony commitment. (ASCII `opolys/genesis-ceremony/v1`)
pub const DOMAIN_GENESIS_CEREMONY_HASH: [u8; 26] = [111u8, 112u8, 111u8, 108u8, 121u8, 115u8, 47u8, 103u8, 101u8, 110u8, 101u8, 115u8, 105u8, 115u8, 45u8, 99u8, 101u8, 114u8, 101u8, 109u8, 111u8, 110u8, 121u8, 47u8, 118u8, 49u8];

/// Domain tag prefixed to the bytes a transaction signature covers. (ASCII `opolys/tx-signing/v1`)
pub const DOMAIN_TX_SIGNING: [u8; 20] = [111u8, 112u8, 111u8, 108u8, 121u8, 115u8, 47u8, 116u8, 120u8, 45u8, 115u8, 105u8, 103u8, 110u8, 105u8, 110u8, 103u8, 47u8, 118u8, 49u8];

/// Domain tag prefixed to the bytes an attestation signature covers. (ASCII `opolys/attestation-signing/v1`)
pub const DOMAIN_ATTESTATION_SIGNING: [u8; 29] = [111u8, 112u8, 111u8, 108u8, 121u8, 115u8, 47u8, 97u8, 116u8, 116u8, 101u8, 115u8, 116u8, 97u8, 116u8, 105u8, 111u8, 110u8, 45u8, 115u8, 105u8, 103u8, 110u8, 105u8, 110u8, 103u8, 47u8, 118u8, 49u8];

/// Domain tag prefixed to the bytes a refiner block signature covers. (ASCII `opolys/block-signing/v1`)
pub const DOMAIN_BLOCK_SIGNING: [u8; 23] = [111u8, 112u8, 111u8, 108u8, 121u8, 115u8, 47u8, 98u8, 108u8, 111u8, 99u8, 107u8, 45u8, 115u8, 105u8, 103u8, 110u8, 105u8, 110u8, 103u8, 47u8, 118u8, 49u8];

// ─── Opolys hashing ──────────────────────────────────────────────────────────

/// The concatenation of a sequence of byte strings.
pub open spec fn concat_all(parts: Seq<Seq<u8>>) -> Seq<u8>
    decreases parts.len(),
{
    if parts.len() == 0 {
        Seq::empty()
    } else {
        concat_all(parts.drop_last()) + parts.last()
    }
}

/// A streaming Blake3-256 hasher.
pub struct Blake3Hasher {
    hasher: blake3::Hasher,
}

impl Blake3Hasher {
    /// The bytes absorbed so far.
    pub closed spec fn input(&self) -> Seq<u8> {
        blake3_absorbed(self.hasher)
    }

    /// A hasher in its initial (empty-input) state.
    pub fn new() -> (h: Blake3Hasher)
        ensures
            h.input() == Seq::<u8>::empty(),
    {
        Blake3Hasher { hasher: blake3_hasher_new() }
    }

    /// Absorbs more bytes.
    pub fn update(&mut self, data: &[u8])
        ensures
            final(self).input() == old(self).input() + data@,
    {
        blake3_hasher_update(&mut self.hasher, data);
    }

    /// The Blake3-256 digest of everything absorbed; the hasher is unchanged,
    /// so finalizing twice gives the same value.
    pub fn finalize(&self) -> (h: crate::types::Hash)
        ensures
            h.bytes() == blake3_digest(self.input()),
    {
        crate::types::Hash(blake3_hasher_finalize(&self.hasher))
    }
}

/// One-shot Blake3-256 of `data`.
pub fn hash(data: &[u8]) -> (h: crate::types::Hash)
    ensures
        h.bytes() == blake3_digest(data@),
{
    let mut hasher = Blake3Hasher::new();
    hasher.update(data);
    assert(Seq::<u8>::empty() + data@ =~= data@);
    hasher.finalize()
}

/// Blake3-256 of `data`, wrapped as an object id.
pub fn hash_to_object_id(data: &[u8]) -> (id: ObjectId)
    ensures
        id.bytes() == blake3_digest(data@),
{
    ObjectId(hash(data))
}

/// Blake3-256 of the domain tag followed by the data.
pub fn hash_with_domain(domain: &[u8], data: &[u8]) -> (h: crate::types::Hash)
    ensures
        h.bytes() == blake3_digest(domain@ + data@),
{
    let mut hasher = Blake3Hasher::new();
    hasher.update(domain);
    hasher.update(data);
    assert(Seq::<u8>::empty() + domain@ + data@ =~= domain@ + data@);
    hasher.finalize()
}

/// Domain-separated Blake3-256 of `data`, wrapped as an object id.
pub fn hash_to_object_id_with_domain(domain: &[u8], data: &[u8]) -> (id: ObjectId)
    ensures
        id.bytes() == blake3_digest(domain@ + data@),
{
    ObjectId(hash_with_domain(domain, data))
}

/// SHA3-256 of `data`.
pub fn sha3_256(data: &[u8]) -> (h: crate::types::Hash)
    ensures
        h.bytes() == sha3_256_digest(data@),
{
    crate::types::Hash(sha3_256_raw(data))
}

/// `output_len` bytes of Blake3 extendable output for `seed`.
pub fn blake3_xof(seed: &[u8], output_len: usize) -> (out: Vec<u8>)
    ensures
        out@.len() == output_len,
        out@ == blake3_xof_output(seed@, output_len as nat),
{
    blake3_xof_raw(seed, output_len)
}

/// `output_len` bytes of Blake3 extendable output for the concatenated inputs.
pub fn blake3_xof_multi(inputs: &[&[u8]], output_len: usize) -> (out: Vec<u8>)
    ensures
        out@.len() == output_len,
        out@ == blake3_xof_output(concat_all(inputs@.map_values(|s: &[u8]| s@)), output_len as nat),
{
    let ghost parts = inputs@.map_values(|s: &[u8]| s@);
    let mut seed: Vec<u8> = Vec::new();
    let mut i: usize = 0;
    while i < inputs.len()
        invariant
            i <= inputs@.len(),
            parts == inputs@.map_values(|s: &[u8]| s@),
            seed@ == concat_all(parts.take(i as int)),
        decreases inputs.len() - i,
    {
        let part = inputs[i];
        let mut j: usize = 0;
        let ghost before = seed@;
        while j < part.len()
            invariant
                j <= part@.len(),
                seed@ == before + part@.take(j as int),
            decreases part.len() - j,
        {
            seed.push(part[j]);
            j = j + 1;
            assert(seed@ =~= before + part@.take(j as int));
        }
        proof {
            assert(part@.take(part@.len() as int) =~= part@);
            assert(parts.take(i + 1).drop_last() =~= parts.take(i as int));
            assert(parts[i as int] == part@);
        }
        i = i + 1;
    }
    proof {
        assert(parts.take(inputs@.len() as int) =~= parts);
    }
    blake3_xof_raw(seed.as_slice(), output_len)
}


/// The account identifier of an ed25519 public key: the domain-separated
/// Blake3-256 of its 32 bytes.
pub fn ed25519_public_key_to_object_id(public_key: &[u8; 32]) -> (id: ObjectId)
    ensures
        id.bytes() == blake3_digest(DOMAIN_OBJECT_ID@ + public_key@),
{
    let dom = DOMAIN_OBJECT_ID;
    hash_to_object_id_with_domain(dom.as_slice(), public_key.as_slice())
}

/// Whether `signature` is a valid ed25519 signature of `message` under
/// `public_key`. Inputs of the wrong length are refused (never a panic).
pub fn verify_ed25519(public_key: &[u8], message: &[u8], signature: &[u8]) -> (ok: bool)
    ensures
        ok == (public_key@.len() == 32 && signature@.len() == 64 && ed25519_signature_valid(
            public_key@,
            message@,
            signature@,
        )),
{
    let key_len_ok = public_key.len() == 32;
    let sig_len_ok = signature.len() == 64;
    if !(key_len_ok && sig_len_ok) {
        return false;
    }
    ed25519_verify_raw(public_key, message, signature)
}

// ─── Post-quantum signatures ─────────────────────────────────────────────────

/// Length of a Dilithium (mode 3) public key.
pub const DILITHIUM_PUBLIC_KEY_BYTES: usize = 1952;

/// Length of a Dilithium (mode 3) secret key.
pub const DILITHIUM_SECRET_KEY_BYTES: usize = 4000;

/// Length of a Dilithium (mode 3) signature.
pub const DILITHIUM_SIGNBYTES: usize = 3293;

/// Whether `signature` is a valid Dilithium signature of `message` under
/// `public_key`.
pub uninterp spec fn dilithium_signature_valid(
    signature: Seq<u8>,
    message: Seq<u8>,
    public_key: Seq<u8>,
) -> bool;

/// `pqc_dilithium::verify`: `Ok` exactly for a valid signature. It refuses a
/// signature of the wrong length, and reads the first
/// `DILITHIUM_PUBLIC_KEY_BYTES` bytes of the key (a shorter key panics).
#[verifier::external_body]
fn dilithium_verify_raw(signature: &[u8], message: &[u8], public_key: &[u8]) -> (ok: bool)
    requires
        public_key@.len() >= DILITHIUM_PUBLIC_KEY_BYTES,
    ensures
        ok == (signature@.len() == DILITHIUM_SIGNBYTES && dilithium_signature_valid(
            signature@,
            message@,
            public_key@,
        )),
{
    pqc_dilithium::verify(signature, message, public_key).is_ok()
}

/// Whether `signature` is a valid Dilithium signature of `message` under
/// `public_key` (a key of at least the Dilithium public key length).
pub fn dilithium_verify(signature: &[u8], message: &[u8], public_key: &[u8]) -> (ok: bool)
    requires
        public_key@.len() >= DILITHIUM_PUBLIC_KEY_BYTES,
    ensures
        ok == (signature@.len() == DILITHIUM_SIGNBYTES && dilithium_signature_valid(
            signature@,
            message@,
            public_key@,
        )),
{
    dilithium_verify_raw(signature, message, public_key)
}


#[verifier::external_type_specification]
#[verifier::external_body]
pub struct ExDilithiumKeypair(pqc_dilithium::Keypair);

/// `pqc_dilithium::Keypair::generate`: a fresh random key pair. Nothing is
/// promised of which pair comes out.
#[verifier::external_body]
fn dilithium_generate() -> (k: pqc_dilithium::Keypair) {
    pqc_dilithium::Keypair::generate()
}

/// The public key of a Dilithium key pair (its `public` field, an array of
/// `DILITHIUM_PUBLIC_KEY_BYTES` bytes).
#[verifier::external_body]
fn dilithium_public_of(k: &pqc_dilithium::Keypair) -> (p: &[u8])
    ensures
        p@.len() == DILITHIUM_PUBLIC_KEY_BYTES,
{
    &k.public
}

/// `Keypair::expose_secret`: the secret key, `DILITHIUM_SECRET_KEY_BYTES`
/// bytes long.
#[verifier::external_body]
fn dilithium_secret_of(k: &pqc_dilithium::Keypair) -> (s: &[u8])
    ensures
        s@.len() == DILITHIUM_SECRET_KEY_BYTES,
{
    k.expose_secret()
}

/// `Keypair::sign`: the signature of `message` under the pair's secret key.
/// The key pair is opaque here, so that the signature verifies under the
/// pair's public key is not stated.
#[verifier::external_body]
fn dilithium_sign_raw(k: &pqc_dilithium::Keypair, message: &[u8]) -> (sig: [u8; 3293]) {
    k.sign(message)
}

/// A Dilithium key pair.
pub struct DilithiumKeypair {
    inner: pqc_dilithium::Keypair,
}

impl DilithiumKeypair {
    /// A fresh random key pair.
    pub fn generate() -> (k: DilithiumKeypair) {
        DilithiumKeypair { inner: dilithium_generate() }
    }

    /// The public key.
    pub fn public_key(&self) -> (p: &[u8])
        ensures
            p@.len() == DILITHIUM_PUBLIC_KEY_BYTES,
    {
        dilithium_public_of(&self.inner)
    }

    /// The secret key.
    pub fn secret_key(&self) -> (s: &[u8])
        ensures
            s@.len() == DILITHIUM_SECRET_KEY_BYTES,
    {
        dilithium_secret_of(&self.inner)
    }

    /// Signs a message with the secret key.
    pub fn sign(&self, message: &[u8]) -> (sig: [u8; 3293])
        ensures
            sig@.len() == DILITHIUM_SIGNBYTES,
    {
        dilithium_sign_raw(&self.inner, message)
    }
}

} // verus!
