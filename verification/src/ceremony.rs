//! The checks a node makes of a genesis ceremony attestation before it
//! builds the genesis block from it: enough production and price sources,
//! evidence for every manually entered value, a master hash that commits to
//! the attestation's contents, and the operator's signature of that hash.
//!
//! The attestation's JSON is parsed and put in canonical form (master hash
//! and signature blanked) by the caller; the arithmetic on the reported
//! tonnes is the caller's too.
use crate::account::dec_str;
use crate::crypto::{blake3_digest, ed25519_key_decodes, ed25519_strict_valid};
use crate::text::{all_hex, hex_decode, unhex};
use vstd::prelude::*;
use vstd::string::{StringExecFns, StringSliceAdditionalSpecFns};
use vstd::utf8::encode_utf8;

verus! {

/// Production sources with a value that a ceremony needs at least.
pub const MIN_CEREMONY_PRODUCTION_SOURCES: usize = 5;

/// Bytes of trimmed evidence note that a manual source needs at least.
pub const MIN_EVIDENCE_NOTE_BYTES: usize = 12;

/// One data source of a ceremony, as far as the checks read it.
pub struct CeremonySource {
    pub name: String,
    /// Whether a value was extracted from the source.
    pub has_value: bool,
    /// How the value was obtained ("manual..." for a hand-entered one).
    pub value_origin: String,
    pub evidence_note: Option<String>,
    pub evidence_timestamp_ms: Option<u64>,
}

/// Whether a character is white space (the Unicode `White_Space` property).
pub open spec fn is_white_space(c: char) -> bool {
    let u = c as u32;
    (0x9 <= u <= 0xd) || u == 0x20 || u == 0x85 || u == 0xa0 || u == 0x1680 || (0x2000 <= u <= 0x200a)
        || u == 0x2028 || u == 0x2029 || u == 0x202f || u == 0x205f || u == 0x3000
}

/// The text without its leading white space.
pub open spec fn trim_start_chars(s: Seq<char>) -> Seq<char>
    decreases s.len(),
{
    if s.len() > 0 && is_white_space(s[0]) {
        trim_start_chars(s.drop_first())
    } else {
        s
    }
}

/// The text without its trailing white space.
pub open spec fn trim_end_chars(s: Seq<char>) -> Seq<char>
    decreases s.len(),
{
    if s.len() > 0 && is_white_space(s.last()) {
        trim_end_chars(s.drop_last())
    } else {
        s
    }
}

/// The text without leading and trailing white space.
pub open spec fn trim_chars(s: Seq<char>) -> Seq<char> {
    trim_end_chars(trim_start_chars(s))
}

/// `str::trim`: the text without leading and trailing white space, white
/// space being the Unicode `White_Space` property, as its documentation
/// says.
#[verifier::external_body]
fn str_trim(s: &str) -> (r: &str)
    ensures
        r@ == trim_chars(s@),
{
    s.trim()
}

/// `str::starts_with` with a text pattern: whether the text begins with it.
#[verifier::external_body]
fn str_starts_with(s: &str, prefix: &str) -> (b: bool)
    ensures
        b == (prefix@.len() <= s@.len() && s@.take(prefix@.len() as int) == prefix@),
{
    s.starts_with(prefix)
}

/// Whether a source carries evidence: a note of at least
/// `MIN_EVIDENCE_NOTE_BYTES` bytes once trimmed.
pub open spec fn has_evidence_note(src: CeremonySource) -> bool {
    src.evidence_note is Some && encode_utf8(trim_chars(src.evidence_note->0@)).len() as usize >= MIN_EVIDENCE_NOTE_BYTES
}

/// Whether a source has a hand-entered value without evidence (a note and a
/// timestamp).
pub open spec fn manual_without_evidence(src: CeremonySource) -> bool {
    &&& src.value_origin@.len() >= 6
    &&& src.value_origin@.take(6) == "manual"@
    &&& src.has_value
    &&& (!has_evidence_note(src) || src.evidence_timestamp_ms is None)
}

/// How many sources have a value.
pub open spec fn sources_with_value(s: Seq<CeremonySource>) -> nat
    decreases s.len(),
{
    if s.len() == 0 {
        0
    } else {
        sources_with_value(s.drop_last()) + if s.last().has_value {
            1nat
        } else {
            0nat
        }
    }
}

/// Whether `i` is the first source of `s` with a hand-entered value and no
/// evidence.
pub open spec fn first_missing_evidence(s: Seq<CeremonySource>, i: int) -> bool {
    0 <= i < s.len() && manual_without_evidence(s[i]) && forall|k: int| 0 <= k < i ==> !manual_without_evidence(#[trigger] s[k])
}

/// Why a ceremony's sources are refused, if they are: fewer than five
/// production sources with a value, no price source with a value, or a
/// hand-entered value without evidence (the first one, production sources
/// first).
pub open spec fn ceremony_sources_error(production: Seq<CeremonySource>, price: Seq<CeremonySource>) -> Option<Seq<char>> {
    let all = production + price;
    if sources_with_value(production) < MIN_CEREMONY_PRODUCTION_SOURCES {
        Some(
            "Genesis ceremony has only "@ + dec_str(sources_with_value(production) as u64)
                + " production sources; need at least 5"@,
        )
    } else if !(exists|i: int| 0 <= i < price.len() && #[trigger] price[i].has_value) {
        Some("Genesis ceremony must include at least one price source"@)
    } else if exists|i: int| first_missing_evidence(all, i) {
        Some(
            "Genesis ceremony manual source '"@ + all[choose|i: int| first_missing_evidence(all, i)].name@
                + "' is missing evidence"@,
        )
    } else {
        None
    }
}

/// Whether `src` has a hand-entered value without evidence.
fn lacks_evidence(src: &CeremonySource) -> (b: bool)
    ensures
        b == manual_without_evidence(*src),
{
    if !src.has_value {
        return false;
    }
    if !str_starts_with(src.value_origin.as_str(), "manual") {
        proof {
            reveal_strlit("manual");
        }
        return false;
    }
    proof {
        reveal_strlit("manual");
    }
    let has_note = match &src.evidence_note {
        Some(note) => {
            let t = str_trim(note.as_str());
            let n = t.len();
            assert(n == t.spec_bytes().len() as usize);
            assert(t.spec_bytes() == encode_utf8(trim_chars(note@)));
            n >= MIN_EVIDENCE_NOTE_BYTES
        },
        None => false,
    };
    !has_note || src.evidence_timestamp_ms.is_none()
}

/// Checks a ceremony's sources (see `ceremony_sources_error`).
pub fn validate_ceremony_sources(production: &Vec<CeremonySource>, price: &Vec<CeremonySource>) -> (r: Result<(), String>)
    ensures
        r is Ok <==> ceremony_sources_error(production@, price@) is None,
        r matches Err(m) ==> ceremony_sources_error(production@, price@) == Some(m@),
{
    let ghost all = production@ + price@;
    let mut count: usize = 0;
    let mut i: usize = 0;
    while i < production.len()
        invariant
            i <= production@.len(),
            count == sources_with_value(production@.take(i as int)),
            count <= i,
        decreases production.len() - i,
    {
        proof {
            assert(production@.take(i + 1).drop_last() =~= production@.take(i as int));
        }
        if production[i].has_value {
            count = count + 1;
        }
        i = i + 1;
    }
    assert(production@.take(i as int) =~= production@);
    if count < MIN_CEREMONY_PRODUCTION_SOURCES {
        let mut m = String::from_str("Genesis ceremony has only ");
        m.append(crate::text::decimal_string(count as u64).as_str());
        m.append(" production sources; need at least 5");
        return Err(m);
    }
    let mut any_price = false;
    let mut j: usize = 0;
    while j < price.len()
        invariant
            j <= price@.len(),
            any_price == (exists|k: int| 0 <= k < j && #[trigger] price@[k].has_value),
        decreases price.len() - j,
    {
        if price[j].has_value {
            any_price = true;
        }
        j = j + 1;
    }
    if !any_price {
        return Err(String::from_str("Genesis ceremony must include at least one price source"));
    }
    let mut k: usize = 0;
    while k < production.len()
        invariant
            k <= production@.len(),
            all == production@ + price@,
            sources_with_value(production@) >= MIN_CEREMONY_PRODUCTION_SOURCES,
            exists|q: int| 0 <= q < price@.len() && #[trigger] price@[q].has_value,
            forall|q: int| 0 <= q < k ==> !manual_without_evidence(#[trigger] all[q]),
        decreases production.len() - k,
    {
        if lacks_evidence(&production[k]) {
            proof {
                assert(all[k as int] == production@[k as int]);
                assert(first_missing_evidence(all, k as int));
                let c = choose|i: int| first_missing_evidence(all, i);
                if c < k {
                    assert(!manual_without_evidence(all[c]));
                }
                if c > k {
                    assert(!manual_without_evidence(all[k as int]));
                }
                assert(c == k);
            }
            let mut m = String::from_str("Genesis ceremony manual source '");
            m.append(production[k].name.as_str());
            m.append("' is missing evidence");
            return Err(m);
        }
        assert(all[k as int] == production@[k as int]);
        k = k + 1;
    }
    let n = production.len();
    let mut k: usize = 0;
    while k < price.len()
        invariant
            k <= price@.len(),
            n == production@.len(),
            all == production@ + price@,
            sources_with_value(production@) >= MIN_CEREMONY_PRODUCTION_SOURCES,
            exists|q: int| 0 <= q < price@.len() && #[trigger] price@[q].has_value,
            forall|q: int| 0 <= q < n + k ==> !manual_without_evidence(#[trigger] all[q]),
        decreases price.len() - k,
    {
        if lacks_evidence(&price[k]) {
            proof {
                assert(all[n + k] == price@[k as int]);
                assert(first_missing_evidence(all, n + k));
                let c = choose|i: int| first_missing_evidence(all, i);
                if c < n + k {
                    assert(!manual_without_evidence(all[c]));
                }
                if c > n + k {
                    assert(!manual_without_evidence(all[n + k]));
                }
                assert(c == n + k);
            }
            let mut m = String::from_str("Genesis ceremony manual source '");
            m.append(price[k].name.as_str());
            m.append("' is missing evidence");
            return Err(m);
        }
        assert(all[n + k] == price@[k as int]);
        k = k + 1;
    }
    proof {
        if exists|i: int| first_missing_evidence(all, i) {
            let c = choose|i: int| first_missing_evidence(all, i);
            assert(!manual_without_evidence(all[c]));
        }
    }
    Ok(())
}


/// Why a hex field meant to hold `n` bytes is refused, if it is, with
/// whether the message is complete (`false`: the decoder's reason follows).
pub open spec fn hex_field_fault(field: Seq<char>, text: Seq<char>, n: nat) -> Option<(Seq<char>, bool)> {
    let b = encode_utf8(text);
    if !(b.len() % 2 == 0 && all_hex(b)) {
        Some((field + " must be hex: "@, false))
    } else if unhex(b).len() != n {
        Some((field + " must be "@ + dec_str(n as u64) + " bytes, got "@ + dec_str(unhex(b).len() as u64), true))
    } else {
        None
    }
}

/// The bytes a valid hex field holds.
pub open spec fn hex_field_bytes(text: Seq<char>) -> Seq<u8> {
    unhex(encode_utf8(text))
}

/// Whether `m` is the message of `fault`.
pub open spec fn fault_message(m: Seq<char>, fault: (Seq<char>, bool)) -> bool {
    if fault.1 {
        m == fault.0
    } else {
        fault.0.len() <= m.len() && m.take(fault.0.len() as int) == fault.0
    }
}

/// Why a ceremony's commitment is refused, if it is: the master hash must
/// be 32 hex-encoded bytes equal to the Blake3 hash of the attestation in
/// canonical form, and the operator's 32-byte public key and 64-byte
/// signature must be hex, the key a valid ed25519 key, and the signature
/// its strict signature of the master hash.
pub open spec fn commitment_fault(canonical: Seq<u8>, master_hash: Seq<char>, public_key: Seq<char>, signature: Seq<char>) -> Option<(Seq<char>, bool)> {
    match hex_field_fault("master_hash"@, master_hash, 32) {
        Some(f) => Some(f),
        None => if blake3_digest(canonical) != hex_field_bytes(master_hash) {
            Some(("Genesis ceremony master_hash does not match attestation contents"@, true))
        } else {
            match hex_field_fault("operator_public_key"@, public_key, 32) {
                Some(f) => Some(f),
                None => match hex_field_fault("operator_signature"@, signature, 64) {
                    Some(f) => Some(f),
                    None => if !ed25519_key_decodes(hex_field_bytes(public_key)) {
                        Some(("Genesis ceremony operator_public_key is not a valid ed25519 key"@, true))
                    } else if !ed25519_strict_valid(
                        hex_field_bytes(public_key),
                        hex_field_bytes(master_hash),
                        hex_field_bytes(signature),
                    ) {
                        Some(("Genesis ceremony operator_signature verification failed"@, true))
                    } else {
                        None
                    },
                },
            }
        },
    }
}

/// Decodes a hex field meant to hold `n` bytes.
fn decode_hex_field(field: &str, text: &str, n: usize) -> (r: Result<Vec<u8>, String>)
    ensures
        hex_field_fault(field@, text@, n as nat) matches Some(f) ==> (r matches Err(m) && fault_message(m@, f)),
        hex_field_fault(field@, text@, n as nat) is None ==> (r matches Ok(v) && v@ == hex_field_bytes(text@)),
{
    let bytes = text.as_bytes();
    match hex_decode(bytes) {
        Err(e) => {
            let mut m = String::from_str(field);
            m.append(" must be hex: ");
            let ghost p = m@;
            m.append(e.as_str());
            assert(m@.take(p.len() as int) =~= p);
            Err(m)
        },
        Ok(v) => {
            if v.len() != n {
                let mut m = String::from_str(field);
                m.append(" must be ");
                m.append(crate::text::decimal_string(n as u64).as_str());
                m.append(" bytes, got ");
                m.append(crate::text::decimal_string(v.len() as u64).as_str());
                return Err(m);
            }
            Ok(v)
        },
    }
}

/// The first 32 bytes as an array.
fn array32(v: &Vec<u8>) -> (a: [u8; 32])
    requires
        v@.len() == 32,
    ensures
        a@ == v@,
{
    let mut a = [0u8; 32];
    let mut i: usize = 0;
    while i < 32
        invariant
            i <= 32,
            v@.len() == 32,
            forall|j: int| 0 <= j < i ==> a@[j] == v@[j],
        decreases 32 - i,
    {
        a[i] = v[i];
        i = i + 1;
    }
    assert(a@ =~= v@);
    a
}

/// The first 64 bytes as an array.
fn array64(v: &Vec<u8>) -> (a: [u8; 64])
    requires
        v@.len() == 64,
    ensures
        a@ == v@,
{
    let mut a = [0u8; 64];
    let mut i: usize = 0;
    while i < 64
        invariant
            i <= 64,
            v@.len() == 64,
            forall|j: int| 0 <= j < i ==> a@[j] == v@[j],
        decreases 64 - i,
    {
        a[i] = v[i];
        i = i + 1;
    }
    assert(a@ =~= v@);
    a
}

/// Checks a ceremony's commitment (see `commitment_fault`) given the
/// attestation's canonical form, and returns the master hash, the
/// operator's public key and its signature.
pub fn check_ceremony_commitment(canonical: &[u8], master_hash_hex: &str, operator_public_key_hex: &str, operator_signature_hex: &str) -> (r: Result<([u8; 32], [u8; 32], [u8; 64]), String>)
    ensures
        r is Ok <==> commitment_fault(canonical@, master_hash_hex@, operator_public_key_hex@, operator_signature_hex@) is None,
        commitment_fault(canonical@, master_hash_hex@, operator_public_key_hex@, operator_signature_hex@) matches Some(f) ==> (
        r matches Err(m) && fault_message(m@, f)),
        r matches Ok(c) ==> c.0@ == hex_field_bytes(master_hash_hex@) && c.1@ == hex_field_bytes(operator_public_key_hex@)
            && c.2@ == hex_field_bytes(operator_signature_hex@),
{
    proof {
        reveal_strlit("master_hash");
        reveal_strlit("operator_public_key");
        reveal_strlit("operator_signature");
    }
    let computed = crate::crypto::hash(canonical);
    let stated = decode_hex_field("master_hash", master_hash_hex, 32)?;
    let stated = array32(&stated);
    if !crate::types::hash_eq(&computed, &crate::types::Hash(stated)) {
        return Err(String::from_str("Genesis ceremony master_hash does not match attestation contents"));
    }
    let key = decode_hex_field("operator_public_key", operator_public_key_hex, 32)?;
    let key = array32(&key);
    let sig = decode_hex_field("operator_signature", operator_signature_hex, 64)?;
    let sig = array64(&sig);
    if !crate::crypto::ed25519_key_is_valid(&key) {
        return Err(String::from_str("Genesis ceremony operator_public_key is not a valid ed25519 key"));
    }
    if !crate::crypto::ed25519_verify_strict(&key, stated.as_slice(), &sig) {
        return Err(String::from_str("Genesis ceremony operator_signature verification failed"));
    }
    Ok((stated, key, sig))
}

} // verus!
