//! The canonical binary encoding of ledger values (the Borsh layout):
//! little-endian integers, `u32` length prefixes for byte strings and
//! sequences, a 0/1 tag for options, a one-byte variant index for enums, and
//! raw 32-byte arrays for hashes and ids. Big-endian integers are used where
//! hashes commit to header fields.
use crate::types::{
    BlockAttestation, DoubleSignEvidence, GenesisCeremonyData, ObjectId, TransactionAction,
};
use vstd::prelude::*;

verus! {

/// `n` little-endian bytes of `x` (modulo 256^n).
pub open spec fn le_bytes(x: nat, n: nat) -> Seq<u8>
    decreases n,
{
    if n == 0 {
        Seq::empty()
    } else {
        seq![(x % 256) as u8] + le_bytes(x / 256, (n - 1) as nat)
    }
}

/// `n` big-endian bytes of `x` (modulo 256^n).
pub open spec fn be_bytes(x: nat, n: nat) -> Seq<u8>
    decreases n,
{
    if n == 0 {
        Seq::empty()
    } else {
        be_bytes(x / 256, (n - 1) as nat) + seq![(x % 256) as u8]
    }
}

pub proof fn lemma_le_bytes_len(x: nat, n: nat)
    ensures
        le_bytes(x, n).len() == n,
    decreases n,
{
    if n > 0 {
        lemma_le_bytes_len(x / 256, (n - 1) as nat);
    }
}

pub proof fn lemma_be_is_reverse(x: nat, n: nat)
    ensures
        be_bytes(x, n) == le_bytes(x, n).reverse(),
    decreases n,
{
    if n > 0 {
        lemma_be_is_reverse(x / 256, (n - 1) as nat);
        let tail = le_bytes(x / 256, (n - 1) as nat);
        assert((seq![(x % 256) as u8] + tail).reverse() =~= tail.reverse() + seq![(x % 256) as u8]);
    }
}

/// Little-endian bytes of a `u64`.
pub open spec fn le_u64(x: u64) -> Seq<u8> {
    le_bytes(x as nat, 8)
}

/// Little-endian bytes of a `u32`.
pub open spec fn le_u32(x: u32) -> Seq<u8> {
    le_bytes(x as nat, 4)
}

/// Big-endian bytes of a `u64`.
pub open spec fn be_u64(x: u64) -> Seq<u8> {
    be_bytes(x as nat, 8)
}

/// Big-endian bytes of a `u32`.
pub open spec fn be_u32(x: u32) -> Seq<u8> {
    be_bytes(x as nat, 4)
}

/// Appends `n` little-endian bytes of `x`.
fn push_le(out: &mut Vec<u8>, x: u64, n: usize)
    requires
        n <= 8,
    ensures
        final(out)@ == old(out)@ + le_bytes(x as nat, n as nat),
{
    let mut v = x;
    let mut i: usize = 0;
    while i < n
        invariant
            i <= n,
            old(out)@ + le_bytes(x as nat, n as nat) == out@ + le_bytes(v as nat, (n - i) as nat),
        decreases n - i,
    {
        let ghost before = out@;
        out.push((v % 256) as u8);
        assert(le_bytes(v as nat, (n - i) as nat) =~= seq![(v % 256) as u8] + le_bytes(
            (v / 256) as nat,
            (n - i - 1) as nat,
        ));
        assert(before + le_bytes(v as nat, (n - i) as nat) =~= out@ + le_bytes(
            (v / 256) as nat,
            (n - i - 1) as nat,
        ));
        v = v / 256;
        i = i + 1;
    }
    assert(le_bytes(v as nat, 0) =~= Seq::<u8>::empty());
    assert(out@ + Seq::<u8>::empty() =~= out@);
}

/// Appends the little-endian bytes of a `u64`.
pub fn push_u64_le(out: &mut Vec<u8>, x: u64)
    ensures
        final(out)@ == old(out)@ + le_u64(x),
{
    push_le(out, x, 8);
}

/// Appends the little-endian bytes of a `u32`.
pub fn push_u32_le(out: &mut Vec<u8>, x: u32)
    ensures
        final(out)@ == old(out)@ + le_u32(x),
{
    push_le(out, x as u64, 4);
}

/// Appends `n` big-endian bytes of `x`.
fn push_be(out: &mut Vec<u8>, x: u64, n: usize)
    requires
        n <= 8,
    ensures
        final(out)@ == old(out)@ + be_bytes(x as nat, n as nat),
{
    let mut tmp: Vec<u8> = Vec::new();
    push_le(&mut tmp, x, n);
    proof {
        lemma_le_bytes_len(x as nat, n as nat);
        lemma_be_is_reverse(x as nat, n as nat);
    }
    let ghost le = tmp@;
    let mut i: usize = n;
    while i > 0
        invariant
            i <= n,
            tmp@ == le,
            le.len() == n,
            out@ == old(out)@ + le.reverse().take((n - i) as int),
        decreases i,
    {
        i = i - 1;
        out.push(tmp[i]);
        assert(le.reverse().take((n - i) as int) =~= le.reverse().take((n - i - 1) as int).push(
            le[i as int],
        ));
    }
    assert(le.reverse().take(n as int) =~= le.reverse());
}

/// Appends the big-endian bytes of a `u64`.
pub fn push_u64_be(out: &mut Vec<u8>, x: u64)
    ensures
        final(out)@ == old(out)@ + be_u64(x),
{
    push_be(out, x, 8);
}

/// Appends the big-endian bytes of a `u32`.
pub fn push_u32_be(out: &mut Vec<u8>, x: u32)
    ensures
        final(out)@ == old(out)@ + be_u32(x),
{
    push_be(out, x as u64, 4);
}

/// Appends raw bytes.
pub fn push_bytes(out: &mut Vec<u8>, bytes: &[u8])
    ensures
        final(out)@ == old(out)@ + bytes@,
{
    let mut i: usize = 0;
    while i < bytes.len()
        invariant
            i <= bytes@.len(),
            out@ == old(out)@ + bytes@.take(i as int),
        decreases bytes@.len() - i,
    {
        out.push(bytes[i]);
        assert(bytes@.take(i + 1) =~= bytes@.take(i as int).push(bytes@[i as int]));
        i = i + 1;
    }
    assert(bytes@.take(bytes@.len() as int) =~= bytes@);
}

/// Whether a length fits the `u32` length prefix.
pub open spec fn fits_u32(n: nat) -> bool {
    n <= u32::MAX
}

/// A length-prefixed byte string.
pub open spec fn enc_byte_vec(v: Seq<u8>) -> Seq<u8> {
    le_u32(v.len() as u32) + v
}

/// Appends a length-prefixed byte string.
pub fn push_byte_vec(out: &mut Vec<u8>, v: &[u8])
    requires
        fits_u32(v@.len()),
    ensures
        final(out)@ == old(out)@ + enc_byte_vec(v@),
{
    push_u32_le(out, v.len() as u32);
    push_bytes(out, v);
    assert(old(out)@ + le_u32(v@.len() as u32) + v@ =~= old(out)@ + enc_byte_vec(v@));
}

/// An optional length-prefixed byte string.
pub open spec fn enc_opt_byte_vec(v: Option<Seq<u8>>) -> Seq<u8> {
    match v {
        None => seq![0u8],
        Some(b) => seq![1u8] + enc_byte_vec(b),
    }
}

/// The view of an optional byte vector.
pub open spec fn opt_view(v: Option<Vec<u8>>) -> Option<Seq<u8>> {
    match v {
        None => None,
        Some(b) => Some(b@),
    }
}

/// Whether an optional byte vector fits the length prefix.
pub open spec fn opt_fits(v: Option<Vec<u8>>) -> bool {
    match v {
        None => true,
        Some(b) => fits_u32(b@.len()),
    }
}

/// Appends an optional length-prefixed byte string.
pub fn push_opt_byte_vec(out: &mut Vec<u8>, v: &Option<Vec<u8>>)
    requires
        opt_fits(*v),
    ensures
        final(out)@ == old(out)@ + enc_opt_byte_vec(opt_view(*v)),
{
    match v {
        None => {
            out.push(0u8);
        },
        Some(b) => {
            out.push(1u8);
            let ghost mid = out@;
            push_byte_vec(out, b.as_slice());
            assert(mid + enc_byte_vec(b@) =~= old(out)@ + enc_opt_byte_vec(opt_view(*v)));
        },
    }
}

/// The encoding of an object id: its 32 bytes.
pub open spec fn enc_id(id: ObjectId) -> Seq<u8> {
    id.bytes()
}

/// Appends an object id.
pub fn push_id(out: &mut Vec<u8>, id: &ObjectId)
    ensures
        final(out)@ == old(out)@ + enc_id(*id),
{
    push_bytes(out, id.as_bytes().as_slice());
}

/// The encoding of a transaction action: variant index, then its fields.
pub open spec fn enc_action(a: TransactionAction) -> Seq<u8> {
    match a {
        TransactionAction::Transfer { recipient, amount } => seq![0u8] + enc_id(recipient) + le_u64(
            amount,
        ),
        TransactionAction::ValidatorBond { amount } => seq![1u8] + le_u64(amount),
        TransactionAction::ValidatorUnbond { amount } => seq![2u8] + le_u64(amount),
    }
}

/// Appends the encoding of a transaction action.
pub fn push_action(out: &mut Vec<u8>, a: &TransactionAction)
    ensures
        final(out)@ == old(out)@ + enc_action(*a),
{
    match a {
        TransactionAction::Transfer { recipient, amount } => {
            out.push(0u8);
            push_id(out, recipient);
            push_u64_le(out, *amount);
        },
        TransactionAction::ValidatorBond { amount } => {
            out.push(1u8);
            push_u64_le(out, *amount);
        },
        TransactionAction::ValidatorUnbond { amount } => {
            out.push(2u8);
            push_u64_le(out, *amount);
        },
    }
    assert(final(out)@ =~= old(out)@ + enc_action(*a));
}

/// The encoding of a transaction action as a fresh byte vector.
pub fn encode_action(a: &TransactionAction) -> (v: Vec<u8>)
    ensures
        v@ == enc_action(*a),
{
    let mut v: Vec<u8> = Vec::new();
    push_action(&mut v, a);
    assert(Seq::<u8>::empty() + enc_action(*a) =~= enc_action(*a));
    v
}

/// The encoding of a double-sign evidence entry.
pub open spec fn enc_evidence(e: DoubleSignEvidence) -> Seq<u8> {
    enc_id(e.producer) + enc_byte_vec(e.producer_pubkey@) + le_u64(e.height) + e.hash_a.bytes()
        + enc_byte_vec(e.signature_a@) + e.hash_b.bytes() + enc_byte_vec(e.signature_b@)
}

/// Whether an evidence entry's byte strings fit their length prefixes.
pub open spec fn evidence_fits(e: DoubleSignEvidence) -> bool {
    fits_u32(e.producer_pubkey@.len()) && fits_u32(e.signature_a@.len()) && fits_u32(
        e.signature_b@.len(),
    )
}

/// The encoding of an attestation.
pub open spec fn enc_attestation(a: BlockAttestation) -> Seq<u8> {
    enc_id(a.refiner) + enc_byte_vec(a.refiner_pubkey@) + le_u64(a.height) + a.block_hash.bytes()
        + enc_byte_vec(a.signature@)
}

/// Whether an attestation's byte strings fit their length prefixes.
pub open spec fn attestation_fits(a: BlockAttestation) -> bool {
    fits_u32(a.refiner_pubkey@.len()) && fits_u32(a.signature@.len())
}

/// The concatenated encodings of a sequence of evidence entries.
pub open spec fn enc_evidence_items(s: Seq<DoubleSignEvidence>) -> Seq<u8>
    decreases s.len(),
{
    if s.len() == 0 {
        Seq::empty()
    } else {
        enc_evidence_items(s.drop_last()) + enc_evidence(s.last())
    }
}

/// The concatenated encodings of a sequence of attestations.
pub open spec fn enc_attestation_items(s: Seq<BlockAttestation>) -> Seq<u8>
    decreases s.len(),
{
    if s.len() == 0 {
        Seq::empty()
    } else {
        enc_attestation_items(s.drop_last()) + enc_attestation(s.last())
    }
}

/// The encoding of a genesis ceremony payload.
pub open spec fn enc_ceremony(c: GenesisCeremonyData) -> Seq<u8> {
    le_u64(c.ceremony_timestamp) + c.ceremony_master_hash@ + c.operator_public_key@
        + c.operator_signature@ + le_u64(c.base_reward_flakes) + le_u64(c.production_tonnes_milli)
        + le_u64(c.price_usd_cents) + le_u64(c.blocks_per_year)
}

/// The encoding of an optional genesis ceremony payload.
pub open spec fn enc_opt_ceremony(c: Option<GenesisCeremonyData>) -> Seq<u8> {
    match c {
        None => seq![0u8],
        Some(d) => seq![1u8] + enc_ceremony(d),
    }
}

/// Appends a double-sign evidence entry.
pub fn push_evidence(out: &mut Vec<u8>, e: &DoubleSignEvidence)
    requires
        evidence_fits(*e),
    ensures
        final(out)@ == old(out)@ + enc_evidence(*e),
{
    push_id(out, &e.producer);
    push_byte_vec(out, e.producer_pubkey.as_slice());
    push_u64_le(out, e.height);
    push_bytes(out, e.hash_a.as_bytes().as_slice());
    push_byte_vec(out, e.signature_a.as_slice());
    push_bytes(out, e.hash_b.as_bytes().as_slice());
    push_byte_vec(out, e.signature_b.as_slice());
    assert(final(out)@ =~= old(out)@ + enc_evidence(*e));
}

/// Appends an attestation.
pub fn push_attestation(out: &mut Vec<u8>, a: &BlockAttestation)
    requires
        attestation_fits(*a),
    ensures
        final(out)@ == old(out)@ + enc_attestation(*a),
{
    push_id(out, &a.refiner);
    push_byte_vec(out, a.refiner_pubkey.as_slice());
    push_u64_le(out, a.height);
    push_bytes(out, a.block_hash.as_bytes().as_slice());
    push_byte_vec(out, a.signature.as_slice());
    assert(final(out)@ =~= old(out)@ + enc_attestation(*a));
}

/// The encoding of a sequence of evidence entries, when every length fits.
pub fn encode_evidence_list(items: &[DoubleSignEvidence]) -> (r: Option<Vec<u8>>)
    ensures
        r is Some <==> (fits_u32(items@.len()) && forall|i: int|
            0 <= i < items@.len() ==> #[trigger] evidence_fits(items@[i])),
        r matches Some(v) ==> v@ == le_u32(items@.len() as u32) + enc_evidence_items(items@),
{
    if items.len() > u32::MAX as usize {
        return None;
    }
    let mut out: Vec<u8> = Vec::new();
    push_u32_le(&mut out, items.len() as u32);
    let ghost head = out@;
    let mut i: usize = 0;
    while i < items.len()
        invariant
            i <= items@.len(),
            forall|k: int| 0 <= k < i ==> #[trigger] evidence_fits(items@[k]),
            out@ == head + enc_evidence_items(items@.take(i as int)),
        decreases items@.len() - i,
    {
        if !(items[i].producer_pubkey.len() <= u32::MAX as usize && items[i].signature_a.len()
            <= u32::MAX as usize && items[i].signature_b.len() <= u32::MAX as usize) {
            assert(!evidence_fits(items@[i as int]));
            return None;
        }
        push_evidence(&mut out, &items[i]);
        assert(items@.take(i + 1).drop_last() =~= items@.take(i as int));
        assert(out@ =~= head + enc_evidence_items(items@.take(i + 1)));
        i = i + 1;
    }
    assert(items@.take(items@.len() as int) =~= items@);
    assert(Seq::<u8>::empty() + le_u32(items@.len() as u32) =~= le_u32(items@.len() as u32));
    Some(out)
}

/// The encoding of a sequence of attestations, when every length fits.
pub fn encode_attestation_list(items: &[BlockAttestation]) -> (r: Option<Vec<u8>>)
    ensures
        r is Some <==> (fits_u32(items@.len()) && forall|i: int|
            0 <= i < items@.len() ==> #[trigger] attestation_fits(items@[i])),
        r matches Some(v) ==> v@ == le_u32(items@.len() as u32) + enc_attestation_items(items@),
{
    if items.len() > u32::MAX as usize {
        return None;
    }
    let mut out: Vec<u8> = Vec::new();
    push_u32_le(&mut out, items.len() as u32);
    let ghost head = out@;
    let mut i: usize = 0;
    while i < items.len()
        invariant
            i <= items@.len(),
            forall|k: int| 0 <= k < i ==> #[trigger] attestation_fits(items@[k]),
            out@ == head + enc_attestation_items(items@.take(i as int)),
        decreases items@.len() - i,
    {
        if !(items[i].refiner_pubkey.len() <= u32::MAX as usize && items[i].signature.len()
            <= u32::MAX as usize) {
            assert(!attestation_fits(items@[i as int]));
            return None;
        }
        push_attestation(&mut out, &items[i]);
        assert(items@.take(i + 1).drop_last() =~= items@.take(i as int));
        assert(out@ =~= head + enc_attestation_items(items@.take(i + 1)));
        i = i + 1;
    }
    assert(items@.take(items@.len() as int) =~= items@);
    assert(Seq::<u8>::empty() + le_u32(items@.len() as u32) =~= le_u32(items@.len() as u32));
    Some(out)
}

/// The encoding of an optional genesis ceremony payload.
pub fn encode_opt_ceremony(c: &Option<GenesisCeremonyData>) -> (v: Vec<u8>)
    ensures
        v@ == enc_opt_ceremony(*c),
{
    let mut out: Vec<u8> = Vec::new();
    match c {
        None => {
            out.push(0u8);
        },
        Some(d) => {
            out.push(1u8);
            push_u64_le(&mut out, d.ceremony_timestamp);
            push_bytes(&mut out, d.ceremony_master_hash.as_slice());
            push_bytes(&mut out, d.operator_public_key.as_slice());
            push_bytes(&mut out, d.operator_signature.as_slice());
            push_u64_le(&mut out, d.base_reward_flakes);
            push_u64_le(&mut out, d.production_tonnes_milli);
            push_u64_le(&mut out, d.price_usd_cents);
            push_u64_le(&mut out, d.blocks_per_year);
        },
    }
    assert(out@ =~= enc_opt_ceremony(*c));
    out
}


/// The encoding of an optional hash.
pub open spec fn enc_opt_hash(h: Option<crate::types::Hash>) -> Seq<u8> {
    match h {
        None => seq![0u8],
        Some(x) => seq![1u8] + x.bytes(),
    }
}

/// The canonical (borsh) encoding of a block header, in field order.
pub open spec fn enc_header(h: crate::types::BlockHeader) -> Seq<u8> {
    le_u32(h.version) + le_u64(h.height) + h.previous_hash.bytes() + h.state_root.bytes()
        + h.transaction_root.bytes() + h.evidence_root.bytes() + h.attestation_root.bytes()
        + h.genesis_ceremony_hash.bytes() + le_u64(h.timestamp) + le_u64(h.difficulty) + le_u64(
        h.suggested_fee,
    ) + enc_opt_hash(h.extension_root) + enc_id(h.producer) + enc_opt_byte_vec(opt_view(h.pow_proof))
        + enc_opt_byte_vec(opt_view(h.refiner_signature))
}

/// Whether a header's byte strings fit their length prefixes.
pub open spec fn header_fits(h: crate::types::BlockHeader) -> bool {
    opt_fits(h.pow_proof) && opt_fits(h.refiner_signature)
}

/// The canonical encoding of a transaction, in field order.
pub open spec fn enc_transaction(t: crate::types::Transaction) -> Seq<u8> {
    enc_id(t.tx_id) + enc_id(t.sender) + enc_action(t.action) + le_u64(t.fee) + enc_byte_vec(
        t.signature@,
    ) + seq![t.signature_type] + le_u64(t.nonce) + le_u64(t.chain_id) + enc_byte_vec(t.data@)
        + enc_byte_vec(t.public_key@)
}

/// Whether a transaction's byte strings fit their length prefixes.
pub open spec fn transaction_fits(t: crate::types::Transaction) -> bool {
    fits_u32(t.signature@.len()) && fits_u32(t.data@.len()) && fits_u32(t.public_key@.len())
}

/// The concatenated encodings of transactions.
pub open spec fn enc_transaction_items(s: Seq<crate::types::Transaction>) -> Seq<u8>
    decreases s.len(),
{
    if s.len() == 0 {
        Seq::empty()
    } else {
        enc_transaction_items(s.drop_last()) + enc_transaction(s.last())
    }
}

/// Whether every part of a block fits its length prefix.
pub open spec fn block_fits(b: crate::types::Block) -> bool {
    &&& header_fits(b.header)
    &&& fits_u32(b.transactions@.len())
    &&& forall|i: int| 0 <= i < b.transactions@.len() ==> #[trigger] transaction_fits(b.transactions@[i])
    &&& fits_u32(b.slash_evidence@.len())
    &&& forall|i: int| 0 <= i < b.slash_evidence@.len() ==> #[trigger] evidence_fits(b.slash_evidence@[i])
    &&& fits_u32(b.attestations@.len())
    &&& forall|i: int| 0 <= i < b.attestations@.len() ==> #[trigger] attestation_fits(b.attestations@[i])
}

/// The canonical encoding of a block.
pub open spec fn enc_block(b: crate::types::Block) -> Seq<u8> {
    enc_header(b.header) + le_u32(b.transactions@.len() as u32) + enc_transaction_items(
        b.transactions@,
    ) + le_u32(b.slash_evidence@.len() as u32) + enc_evidence_items(b.slash_evidence@) + le_u32(
        b.attestations@.len() as u32,
    ) + enc_attestation_items(b.attestations@) + enc_opt_ceremony(b.genesis_ceremony)
}

/// Appends a block header.
pub fn push_header(out: &mut Vec<u8>, h: &crate::types::BlockHeader)
    requires
        header_fits(*h),
    ensures
        final(out)@ == old(out)@ + enc_header(*h),
{
    push_u32_le(out, h.version);
    push_u64_le(out, h.height);
    push_bytes(out, h.previous_hash.as_bytes().as_slice());
    push_bytes(out, h.state_root.as_bytes().as_slice());
    push_bytes(out, h.transaction_root.as_bytes().as_slice());
    push_bytes(out, h.evidence_root.as_bytes().as_slice());
    push_bytes(out, h.attestation_root.as_bytes().as_slice());
    push_bytes(out, h.genesis_ceremony_hash.as_bytes().as_slice());
    push_u64_le(out, h.timestamp);
    push_u64_le(out, h.difficulty);
    push_u64_le(out, h.suggested_fee);
    match &h.extension_root {
        None => {
            out.push(0u8);
        },
        Some(x) => {
            out.push(1u8);
            push_bytes(out, x.as_bytes().as_slice());
        },
    }
    push_id(out, &h.producer);
    push_opt_byte_vec(out, &h.pow_proof);
    push_opt_byte_vec(out, &h.refiner_signature);
    assert(final(out)@ =~= old(out)@ + enc_header(*h));
}

/// Appends a transaction.
pub fn push_transaction(out: &mut Vec<u8>, t: &crate::types::Transaction)
    requires
        transaction_fits(*t),
    ensures
        final(out)@ == old(out)@ + enc_transaction(*t),
{
    push_id(out, &t.tx_id);
    push_id(out, &t.sender);
    push_action(out, &t.action);
    push_u64_le(out, t.fee);
    push_byte_vec(out, t.signature.as_slice());
    out.push(t.signature_type);
    push_u64_le(out, t.nonce);
    push_u64_le(out, t.chain_id);
    push_byte_vec(out, t.data.as_slice());
    push_byte_vec(out, t.public_key.as_slice());
    assert(final(out)@ =~= old(out)@ + enc_transaction(*t));
}

/// The encoding of a block, when every part fits its length prefix.
pub fn encode_block(b: &crate::types::Block) -> (r: Option<Vec<u8>>)
    ensures
        r is Some <==> block_fits(*b),
        r matches Some(v) ==> v@ == enc_block(*b),
{
    let h = &b.header;
    let pow_ok = match &h.pow_proof {
        Some(p) => p.len() <= u32::MAX as usize,
        None => true,
    };
    let sig_ok = match &h.refiner_signature {
        Some(p) => p.len() <= u32::MAX as usize,
        None => true,
    };
    if !(pow_ok && sig_ok) {
        return None;
    }
    if b.transactions.len() > u32::MAX as usize {
        return None;
    }
    let mut out: Vec<u8> = Vec::new();
    push_header(&mut out, h);
    push_u32_le(&mut out, b.transactions.len() as u32);
    let ghost head = out@;
    let mut i: usize = 0;
    while i < b.transactions.len()
        invariant
            i <= b.transactions@.len(),
            forall|k: int| 0 <= k < i ==> #[trigger] transaction_fits(b.transactions@[k]),
            out@ == head + enc_transaction_items(b.transactions@.take(i as int)),
        decreases b.transactions@.len() - i,
    {
        let t = &b.transactions[i];
        if !(t.signature.len() <= u32::MAX as usize && t.data.len() <= u32::MAX as usize
            && t.public_key.len() <= u32::MAX as usize) {
            assert(!transaction_fits(b.transactions@[i as int]));
            return None;
        }
        push_transaction(&mut out, t);
        assert(b.transactions@.take(i + 1).drop_last() =~= b.transactions@.take(i as int));
        assert(out@ =~= head + enc_transaction_items(b.transactions@.take(i + 1)));
        i = i + 1;
    }
    assert(b.transactions@.take(i as int) =~= b.transactions@);
    let ev = match encode_evidence_list(b.slash_evidence.as_slice()) {
        Some(v) => v,
        None => {
            return None;
        },
    };
    let at = match encode_attestation_list(b.attestations.as_slice()) {
        Some(v) => v,
        None => {
            return None;
        },
    };
    push_bytes(&mut out, ev.as_slice());
    push_bytes(&mut out, at.as_slice());
    let ce = encode_opt_ceremony(&b.genesis_ceremony);
    push_bytes(&mut out, ce.as_slice());
    assert(out@ =~= enc_block(*b));
    Some(out)
}

} // verus!
