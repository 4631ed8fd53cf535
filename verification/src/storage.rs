//! The byte formats of the node's database: every stored value carries a
//! checksum prefix, and blocks, block hashes, transactions and refiners are
//! found under fixed keys.
use crate::crypto::{blake3_digest, hash_with_domain};
use crate::encoding::{be_u32, be_u64, push_bytes, push_u32_be, push_u64_be};
use crate::text::{ascii_chars, hex_of};
use crate::types::ObjectId;
use vstd::prelude::*;
use vstd::string::StringExecFns;

verus! {

/// Bytes of checksum in front of every stored value.
pub const VALUE_CHECKSUM_LEN: usize = 16;

/// The domain of the stored-value checksum: "OPL_DB_VALUE_V1".
pub const DOMAIN_DB_VALUE: [u8; 15] = [79u8, 80u8, 76u8, 95u8, 68u8, 66u8, 95u8, 86u8, 65u8, 76u8, 85u8, 69u8, 95u8, 86u8, 49u8];

/// The checksum of a stored value: the first 16 bytes of the Blake3 digest of
/// the domain and the value.
pub open spec fn value_checksum(data: Seq<u8>) -> Seq<u8> {
    blake3_digest(DOMAIN_DB_VALUE@ + data).take(VALUE_CHECKSUM_LEN as int)
}

/// A value as stored: its checksum, then the value.
pub open spec fn stored_value(data: Seq<u8>) -> Seq<u8> {
    value_checksum(data) + data
}

/// The value a stored byte string holds, if its checksum is present and
/// right.
pub open spec fn stored_payload(v: Seq<u8>) -> Option<Seq<u8>> {
    if v.len() < VALUE_CHECKSUM_LEN {
        None
    } else if v.take(VALUE_CHECKSUM_LEN as int) != value_checksum(v.skip(VALUE_CHECKSUM_LEN as int)) {
        None
    } else {
        Some(v.skip(VALUE_CHECKSUM_LEN as int))
    }
}

/// Frames a value for storage with its checksum.
pub fn encode_db_value(data: &[u8]) -> (v: Vec<u8>)
    ensures
        v@ == stored_value(data@),
        stored_payload(v@) == Some(data@),
{
    let dom = DOMAIN_DB_VALUE;
    let checksum = hash_with_domain(dom.as_slice(), data);
    let bytes = checksum.as_bytes();
    let mut v: Vec<u8> = Vec::new();
    let mut i: usize = 0;
    while i < VALUE_CHECKSUM_LEN
        invariant
            i <= VALUE_CHECKSUM_LEN,
            bytes@.len() == 32,
            v@ == bytes@.take(i as int),
        decreases VALUE_CHECKSUM_LEN - i,
    {
        v.push(bytes[i]);
        i = i + 1;
        assert(v@ =~= bytes@.take(i as int));
    }
    push_bytes(&mut v, data);
    proof {
        lemma_db_value_round_trip(data@);
    }
    v
}

/// Unframes a stored value: refused, naming `context`, when the checksum is
/// missing or does not match the value.
pub fn decode_db_value(context: &str, data: &[u8]) -> (r: Result<Vec<u8>, String>)
    ensures
        data@.len() < VALUE_CHECKSUM_LEN ==> (r matches Err(m) && m@ == context@ + " checksum missing"@),
        data@.len() >= VALUE_CHECKSUM_LEN && stored_payload(data@) is None ==> (r matches Err(m) && m@ == context@
            + " checksum mismatch"@),
        stored_payload(data@) matches Some(p) ==> (r matches Ok(v) && v@ == p),
{
    if data.len() < VALUE_CHECKSUM_LEN {
        let mut m = String::from_str(context);
        m.append(" checksum missing");
        return Err(m);
    }
    let mut payload: Vec<u8> = Vec::new();
    let mut i: usize = VALUE_CHECKSUM_LEN;
    while i < data.len()
        invariant
            VALUE_CHECKSUM_LEN <= i <= data@.len(),
            payload@ == data@.subrange(VALUE_CHECKSUM_LEN as int, i as int),
        decreases data.len() - i,
    {
        payload.push(data[i]);
        i = i + 1;
        assert(payload@ =~= data@.subrange(VALUE_CHECKSUM_LEN as int, i as int));
    }
    assert(payload@ =~= data@.skip(VALUE_CHECKSUM_LEN as int));
    let dom = DOMAIN_DB_VALUE;
    let computed = hash_with_domain(dom.as_slice(), payload.as_slice());
    let bytes = computed.as_bytes();
    let mut k: usize = 0;
    while k < VALUE_CHECKSUM_LEN
        invariant
            k <= VALUE_CHECKSUM_LEN,
            data@.len() >= VALUE_CHECKSUM_LEN,
            bytes@.len() == 32,
            forall|j: int| 0 <= j < k ==> data@[j] == bytes@[j],
            payload@ == data@.skip(VALUE_CHECKSUM_LEN as int),
            bytes@ == blake3_digest(DOMAIN_DB_VALUE@ + payload@),
        decreases VALUE_CHECKSUM_LEN - k,
    {
        if data[k] != bytes[k] {
            proof {
                assert(value_checksum(data@.skip(VALUE_CHECKSUM_LEN as int)) == bytes@.take(VALUE_CHECKSUM_LEN as int));
                assert(data@.take(VALUE_CHECKSUM_LEN as int)[k as int] != bytes@.take(VALUE_CHECKSUM_LEN as int)[k as int]);
                assert(data@.take(VALUE_CHECKSUM_LEN as int) != value_checksum(data@.skip(VALUE_CHECKSUM_LEN as int)));
            }
            let mut m = String::from_str(context);
            m.append(" checksum mismatch");
            return Err(m);
        }
        k = k + 1;
    }
    assert(data@.take(VALUE_CHECKSUM_LEN as int) =~= bytes@.take(VALUE_CHECKSUM_LEN as int));
    Ok(payload)
}

/// A stored value unframes to the value that was framed (the checksum
/// digest being at least as long as the checksum, as a Blake3-256 digest
/// is).
pub proof fn lemma_db_value_round_trip(data: Seq<u8>)
    requires
        blake3_digest(DOMAIN_DB_VALUE@ + data).len() >= VALUE_CHECKSUM_LEN,
    ensures
        stored_payload(stored_value(data)) == Some(data),
{
    let v = stored_value(data);
    assert(v.take(VALUE_CHECKSUM_LEN as int) =~= value_checksum(data));
    assert(v.skip(VALUE_CHECKSUM_LEN as int) =~= data);
}

/// The key of the block at `height`: the height big-endian.
pub fn block_key(height: u64) -> (k: Vec<u8>)
    ensures
        k@ == be_u64(height),
{
    let mut k: Vec<u8> = Vec::new();
    push_u64_be(&mut k, height);
    k
}

/// The key under which a block's height is found by its hash: "hash_"
/// and the hash in hex.
pub fn block_hash_key(h: &crate::types::Hash) -> (k: String)
    ensures
        k@ == "hash_"@ + ascii_chars(hex_of(h.bytes())),
{
    let mut k = String::from_str("hash_");
    k.append(h.to_hex().as_str());
    k
}

/// The key of a transaction's location: "tx_" and its identifier in hex.
pub fn transaction_key(tx_id: &ObjectId) -> (k: String)
    ensures
        k@ == "tx_"@ + ascii_chars(hex_of(tx_id.bytes())),
{
    let mut k = String::from_str("tx_");
    k.append(tx_id.to_hex().as_str());
    k
}

/// The location of a transaction: the block height and its index in the
/// block, both big-endian.
pub fn transaction_location(height: u64, index: u32) -> (v: Vec<u8>)
    ensures
        v@ == be_u64(height) + be_u32(index),
{
    let mut v: Vec<u8> = Vec::new();
    push_u64_be(&mut v, height);
    push_u32_be(&mut v, index);
    v
}

/// The key of a refiner's record: "refiner:" and its identifier in hex.
pub fn refiner_key(id: &ObjectId) -> (k: String)
    ensures
        k@ == "refiner:"@ + ascii_chars(hex_of(id.bytes())),
{
    let mut k = String::from_str("refiner:");
    k.append(id.to_hex().as_str());
    k
}

} // verus!
