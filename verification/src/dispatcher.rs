//! Transaction execution: verification of a transaction's id, key binding
//! and signature, and its application to accounts and refiners.
//!
//! Every fee is burned. Bonding and unbonding also burn an assay of
//! `ANNUAL_ATTRITION_PERMILLE / 4` per mille of the amount.
use crate::account::{
    dec_str, hex_str, recipient_before, transfer_result_map, AccountStore, AccountView,
};
use crate::constants::{ANNUAL_ATTRITION_PERMILLE, MIN_BOND_STAKE, MIN_FEE, SIGNATURE_TYPE_ED25519};
use crate::crypto::{
    blake3_digest, ed25519_signature_valid, hash_to_object_id_with_domain, DOMAIN_OBJECT_ID,
    DOMAIN_TX_ID, DOMAIN_TX_SIGNING,
};
use crate::encoding::{be_u64, enc_action, le_u64};
use crate::errors::{error_text, OpolysError};
use crate::constants::EPOCH;
use crate::refiner::{fifo_remove, saturate, PendingUnbond};
use crate::refiner_set::{bond_applied, bond_succeeds, lemma_without_id_twice, unbond_applied, unbond_succeeds, without_id, RefinerSet};
use crate::text::{ascii_chars, decimal_string, hex_of};
use crate::types::{FlakeAmount, ObjectId, Transaction, TransactionAction};
use vstd::prelude::*;

verus! {

/// The outcome of applying a transaction.
#[derive(Debug)]
pub struct ApplyResult {
    /// Whether the transaction was applied.
    pub success: bool,
    /// Flakes burned (fee and assay); 0 on failure.
    pub fee_burned: FlakeAmount,
    /// Why the transaction was refused.
    pub error: Option<String>,
}

impl ApplyResult {
    /// A success that burned `fee_burned`.
    pub fn ok(fee_burned: FlakeAmount) -> (r: ApplyResult)
        ensures
            r.success,
            r.fee_burned == fee_burned,
            r.error is None,
    {
        ApplyResult { success: true, fee_burned, error: None }
    }

    /// A refusal with the message `msg`.
    pub fn err(msg: &str) -> (r: ApplyResult)
        ensures
            !r.success,
            r.fee_burned == 0,
            r.error matches Some(m) && m@ == msg@,
    {
        ApplyResult { success: false, fee_burned: 0, error: Some(String::from_str(msg)) }
    }
}

/// The assay burned on bonding or unbonding `amount`:
/// `amount · ANNUAL_ATTRITION_PERMILLE / 4 / 1000`.
pub open spec fn assay_spec(amount: u64) -> int {
    amount * ANNUAL_ATTRITION_PERMILLE / 4 / 1000
}

/// The assay on `amount`.
pub fn assay(amount: FlakeAmount) -> (a: FlakeAmount)
    ensures
        a == assay_spec(amount),
        a <= amount,
{
    let x = (amount as u128) * (ANNUAL_ATTRITION_PERMILLE as u128) / 4 / 1000;
    assert(x <= amount) by (nonlinear_arith)
        requires
            x == (amount as u128) * 15 / 4 / 1000,
    ;
    x as u64
}

/// The bytes hashed (after the domain tag) into a transaction id: the
/// sender's hex rendering, the encoded action, then fee, nonce and chain id
/// big-endian.
pub open spec fn tx_id_preimage(sender: ObjectId, action: TransactionAction, fee: u64, nonce: u64, chain_id: u64) -> Seq<u8> {
    hex_of(sender.bytes()) + enc_action(action) + be_u64(fee) + be_u64(nonce) + be_u64(chain_id)
}

/// The bytes of the transaction id of the given fields.
pub open spec fn tx_id_bytes(sender: ObjectId, action: TransactionAction, fee: u64, nonce: u64, chain_id: u64) -> Seq<u8> {
    blake3_digest(DOMAIN_TX_ID@ + tx_id_preimage(sender, action, fee, nonce, chain_id))
}

/// The transaction id of the given fields.
pub fn compute_tx_id(sender: &ObjectId, action: &TransactionAction, fee: FlakeAmount, nonce: u64, chain_id: u64) -> (id: ObjectId)
    ensures
        id.bytes() == tx_id_bytes(*sender, *action, fee, nonce, chain_id),
{
    let mut data: Vec<u8> = Vec::new();
    crate::text::push_hex(&mut data, sender.as_bytes().as_slice());
    crate::encoding::push_action(&mut data, action);
    crate::encoding::push_u64_be(&mut data, fee);
    crate::encoding::push_u64_be(&mut data, nonce);
    crate::encoding::push_u64_be(&mut data, chain_id);
    assert(data@ =~= tx_id_preimage(*sender, *action, fee, nonce, chain_id));
    let dom = DOMAIN_TX_ID;
    hash_to_object_id_with_domain(dom.as_slice(), data.as_slice())
}

/// The bytes a transaction signature covers: the signing domain tag, the
/// sender, the encoded action, then fee, nonce and chain id little-endian.
pub open spec fn signing_payload(sender: ObjectId, action: TransactionAction, fee: u64, nonce: u64, chain_id: u64) -> Seq<u8> {
    DOMAIN_TX_SIGNING@ + sender.bytes() + enc_action(action) + le_u64(fee) + le_u64(nonce) + le_u64(
        chain_id,
    )
}

/// The bytes a transaction signature covers.
pub fn transaction_signing_payload(sender: &ObjectId, action: &TransactionAction, fee: FlakeAmount, nonce: u64, chain_id: u64) -> (v: Vec<u8>)
    ensures
        v@ == signing_payload(*sender, *action, fee, nonce, chain_id),
{
    let mut v: Vec<u8> = Vec::new();
    let dom = DOMAIN_TX_SIGNING;
    crate::encoding::push_bytes(&mut v, dom.as_slice());
    crate::encoding::push_id(&mut v, sender);
    crate::encoding::push_action(&mut v, action);
    crate::encoding::push_u64_le(&mut v, fee);
    crate::encoding::push_u64_le(&mut v, nonce);
    crate::encoding::push_u64_le(&mut v, chain_id);
    assert(v@ =~= signing_payload(*sender, *action, fee, nonce, chain_id));
    v
}

/// The hexadecimal rendering of bytes as characters.
pub open spec fn hex_chars(b: Seq<u8>) -> Seq<char> {
    ascii_chars(hex_of(b))
}

/// Why a transaction fails verification against `chain_id` (the message of
/// the error), or `None` when it verifies.
pub open spec fn verify_error_text(tx: Transaction, chain_id: u64) -> Option<Seq<char>> {
    let expected = tx_id_bytes(tx.sender, tx.action, tx.fee, tx.nonce, tx.chain_id);
    let derived = blake3_digest(DOMAIN_OBJECT_ID@ + tx.public_key@);
    if tx.chain_id != chain_id {
        Some("Invalid transaction: "@ + "Transaction chain_id "@ + dec_str(tx.chain_id)
            + " does not match network chain_id "@ + dec_str(chain_id) + ""@)
    } else if tx.tx_id.bytes() != expected {
        Some("Invalid transaction: "@ + "Transaction ID mismatch: expected "@ + hex_chars(expected)
            + ", got "@ + hex_chars(tx.tx_id.bytes()) + ""@)
    } else if tx.signature_type != SIGNATURE_TYPE_ED25519 {
        Some("Invalid transaction: "@ + "Unsupported signature type: "@ + dec_str(
            tx.signature_type as u64,
        ) + " (only ed25519 = 0 is supported)"@ + ""@)
    } else if tx.public_key@.len() != 32 {
        Some("Invalid transaction: "@ + "Invalid public key length: "@ + dec_str(
            tx.public_key@.len() as u64,
        ) + " bytes (expected 32 for ed25519)"@ + ""@)
    } else if tx.sender.bytes() != derived {
        Some("Invalid transaction: "@ + "Public key does not match sender: Blake3(pk)="@
            + hex_chars(derived) + ", sender="@ + hex_chars(tx.sender.bytes()) + ""@)
    } else if !(tx.signature@.len() == 64 && ed25519_signature_valid(
        tx.public_key@,
        signing_payload(tx.sender, tx.action, tx.fee, tx.nonce, tx.chain_id),
        tx.signature@,
    )) {
        Some("Invalid signature"@)
    } else {
        None
    }
}

/// Verifies a transaction: its chain id, that its id matches its fields,
/// its signature type (ed25519), its 32-byte public key, that the key is
/// the sender's (its domain-separated Blake3 is the sender id), and the
/// ed25519 signature over the signing payload. Nonce, balance and fee are
/// checked elsewhere.
pub fn verify_transaction(tx: &Transaction, expected_chain_id: u64) -> (r: Result<(), OpolysError>)
    ensures
        r is Ok <==> verify_error_text(*tx, expected_chain_id) is None,
        r matches Err(e) ==> verify_error_text(*tx, expected_chain_id) == Some(error_text(e)),
        tx.chain_id != expected_chain_id ==> r matches Err(OpolysError::InvalidTransaction(_)),
        r matches Err(e) ==> e is InvalidTransaction || e is InvalidSignature,
{
    if tx.chain_id != expected_chain_id {
        let mut m = String::from_str("Transaction chain_id ");
        m.append(decimal_string(tx.chain_id).as_str());
        m.append(" does not match network chain_id ");
        m.append(decimal_string(expected_chain_id).as_str());
        return Err(OpolysError::InvalidTransaction(m));
    }
    let expected = compute_tx_id(&tx.sender, &tx.action, tx.fee, tx.nonce, tx.chain_id);
    if !crate::types::id_eq(&tx.tx_id, &expected) {
        let mut m = String::from_str("Transaction ID mismatch: expected ");
        m.append(expected.to_hex().as_str());
        m.append(", got ");
        m.append(tx.tx_id.to_hex().as_str());
        return Err(OpolysError::InvalidTransaction(m));
    }
    if tx.signature_type != SIGNATURE_TYPE_ED25519 {
        let mut m = String::from_str("Unsupported signature type: ");
        m.append(decimal_string(tx.signature_type as u64).as_str());
        m.append(" (only ed25519 = 0 is supported)");
        return Err(OpolysError::InvalidTransaction(m));
    }
    if tx.public_key.len() != 32 {
        let mut m = String::from_str("Invalid public key length: ");
        m.append(decimal_string(tx.public_key.len() as u64).as_str());
        m.append(" bytes (expected 32 for ed25519)");
        return Err(OpolysError::InvalidTransaction(m));
    }
    let mut pk: [u8; 32] = [0u8; 32];
    let mut i: usize = 0;
    while i < 32
        invariant
            i <= 32,
            tx.public_key@.len() == 32,
            forall|j: int| 0 <= j < i ==> pk@[j] == tx.public_key@[j],
        decreases 32 - i,
    {
        pk[i] = tx.public_key[i];
        i = i + 1;
    }
    assert(pk@ =~= tx.public_key@);
    let derived = crate::crypto::ed25519_public_key_to_object_id(&pk);
    if !crate::types::id_eq(&tx.sender, &derived) {
        let mut m = String::from_str("Public key does not match sender: Blake3(pk)=");
        m.append(derived.to_hex().as_str());
        m.append(", sender=");
        m.append(tx.sender.to_hex().as_str());
        return Err(OpolysError::InvalidTransaction(m));
    }
    let unsigned_data = transaction_signing_payload(&tx.sender, &tx.action, tx.fee, tx.nonce, tx.chain_id);
    if !crate::crypto::verify_ed25519(tx.public_key.as_slice(), unsigned_data.as_slice(), tx.signature.as_slice()) {
        return Err(OpolysError::InvalidSignature);
    }
    Ok(())
}

/// The total a sender must hold for a transaction: amount plus fee for a
/// transfer, plus the assay for a bond, fee plus the largest assay for an
/// unbond (each sum saturating).
pub open spec fn total_cost_spec(tx: Transaction) -> int {
    match tx.action {
        TransactionAction::Transfer { amount, .. } => saturate(amount + tx.fee),
        TransactionAction::ValidatorBond { amount } => saturate(saturate(amount + tx.fee) + assay_spec(amount)),
        TransactionAction::ValidatorUnbond { amount } => saturate(tx.fee + assay_spec(amount)),
    }
}

/// What admission asks of a sender's balance, by action (each sum capped at
/// `u64::MAX`): a transfer needs the amount and the fee; a bond needs the
/// amount, the fee and the assay `⌊⌊amount·15/4⌋/1000⌋`; an unbond needs only
/// the fee and that assay, never the unbonded amount itself. So an unbond
/// costs exactly the bond of the same amount less the amount, whenever
/// neither saturates.
pub proof fn lemma_admission_cost(tx: Transaction)
    ensures
        tx.action matches TransactionAction::Transfer { amount, .. } ==> total_cost_spec(tx) == (if amount + tx.fee
            > u64::MAX {
            u64::MAX as int
        } else {
            amount + tx.fee
        }),
        tx.action matches TransactionAction::ValidatorBond { amount } ==> total_cost_spec(tx) == (if amount + tx.fee
            + amount * 15 / 4 / 1000 > u64::MAX {
            u64::MAX as int
        } else {
            amount + tx.fee + amount * 15 / 4 / 1000
        }),
        tx.action matches TransactionAction::ValidatorUnbond { amount } ==> total_cost_spec(tx) == (if tx.fee + amount
            * 15 / 4 / 1000 > u64::MAX {
            u64::MAX as int
        } else {
            tx.fee + amount * 15 / 4 / 1000
        }),
        tx.action matches TransactionAction::ValidatorUnbond { amount } ==> (amount + tx.fee + amount * 15 / 4 / 1000
            <= u64::MAX ==> total_cost_spec(tx) + amount == total_cost_spec((Transaction {
            action: TransactionAction::ValidatorBond { amount },
            ..tx
        }))),
{
}

/// Quick admission check of a transaction against the sender's balance and
/// nonce: minimum fee, matching nonce, and a balance covering the total cost.
/// The signature is not checked here.
pub fn validate_transaction_basic(tx: &Transaction, sender_balance: FlakeAmount, sender_nonce: u64) -> (r: Result<(), OpolysError>)
    ensures
        tx.fee < MIN_FEE ==> (r matches Err(OpolysError::InvalidParams(m)) && m@
            == "Fee below minimum: need at least "@ + dec_str(MIN_FEE) + " flakes, got "@ + dec_str(tx.fee)),
        tx.fee >= MIN_FEE && tx.nonce != sender_nonce ==> r == Err::<(), OpolysError>(
            OpolysError::InvalidNonce { expected: sender_nonce, got: tx.nonce },
        ),
        tx.fee >= MIN_FEE && tx.nonce == sender_nonce && sender_balance < total_cost_spec(*tx) ==> r
            == Err::<(), OpolysError>(
            OpolysError::InsufficientBalance { need: total_cost_spec(*tx) as u64, have: sender_balance },
        ),
        r is Ok <==> (tx.fee >= MIN_FEE && tx.nonce == sender_nonce && sender_balance >= total_cost_spec(*tx)),
{
    if tx.fee < MIN_FEE {
        let mut m = String::from_str("Fee below minimum: need at least ");
        m.append(decimal_string(MIN_FEE).as_str());
        m.append(" flakes, got ");
        m.append(decimal_string(tx.fee).as_str());
        return Err(OpolysError::InvalidParams(m));
    }
    if tx.nonce != sender_nonce {
        return Err(OpolysError::InvalidNonce { expected: sender_nonce, got: tx.nonce });
    }
    let total_cost = match tx.action {
        TransactionAction::Transfer { amount, .. } => amount.saturating_add(tx.fee),
        TransactionAction::ValidatorBond { amount } => amount.saturating_add(tx.fee).saturating_add(assay(amount)),
        TransactionAction::ValidatorUnbond { amount } => tx.fee.saturating_add(assay(amount)),
    };
    if sender_balance < total_cost {
        return Err(OpolysError::InsufficientBalance { need: total_cost, have: sender_balance });
    }
    Ok(())
}


/// Whether a transfer of `amount` with `fee` from `from` to `to` succeeds.
pub open spec fn transfer_succeeds(m: Map<ObjectId, crate::account::Account>, from: ObjectId, to: ObjectId, amount: u64, fee: u64) -> bool {
    &&& amount + fee <= u64::MAX
    &&& m.contains_key(from)
    &&& m[from].balance >= amount + fee
    &&& m[from].nonce < u64::MAX
    &&& (from == to || recipient_before(m, to).balance + amount <= u64::MAX)
}

/// The message of a refused transfer.
pub open spec fn transfer_error_text(m: Map<ObjectId, crate::account::Account>, from: ObjectId, to: ObjectId, amount: u64, fee: u64) -> Seq<char> {
    if amount + fee > u64::MAX {
        "Invalid params: "@ + ("Transfer cost overflow: amount "@ + dec_str(amount) + " + fee "@ + dec_str(fee)) + ""@
    } else if !m.contains_key(from) {
        "Account not found: "@ + hex_str(from) + ""@
    } else if m[from].balance < amount + fee {
        "Insufficient balance: need "@ + dec_str((amount + fee) as u64) + ", have "@ + dec_str(m[from].balance)
    } else if m[from].nonce == u64::MAX {
        "Invalid params: "@ + "Nonce overflow"@ + ""@
    } else {
        "Invalid params: "@ + ("Recipient balance overflow when crediting "@ + dec_str(amount) + " flakes to "@ + hex_str(to)) + ""@
    }
}

/// The Flakes a bond takes from the sender: stake, fee and assay (each sum
/// saturating).
pub open spec fn bond_total(stake: u64, fee: u64) -> int {
    saturate(saturate(stake + fee) + assay_spec(stake))
}

/// The Flakes an unbond takes from the sender: fee and assay (saturating).
pub open spec fn unbond_fee(amount: u64, fee: u64) -> int {
    saturate(fee + assay_spec(amount))
}

/// The account `a` after paying `paid` and advancing its nonce.
pub open spec fn paid_and_advanced(a: crate::account::Account, paid: int) -> crate::account::Account {
    crate::account::Account { balance: (a.balance - paid) as u64, nonce: (a.nonce + 1) as u64, ..a }
}

/// Whether `f` is `m` with the sender's public key registered as `pk` (when
/// `pk` is not empty and the sender exists).
pub open spec fn key_registered(m: Map<ObjectId, crate::account::Account>, f: Map<ObjectId, crate::account::Account>, sender: ObjectId, pk: Seq<u8>) -> bool {
    if pk.len() > 0 && m.contains_key(sender) {
        &&& f == m.insert(sender, f[sender])
        &&& f[sender]@ == (AccountView { public_key: Some(pk), ..m[sender]@ })
    } else {
        f == m
    }
}

/// The error message of an `ApplyResult`, as characters.
pub open spec fn error_is(r: ApplyResult, t: Seq<char>) -> bool {
    r.error matches Some(m) && m@ == t
}

/// Whether the refiner set is unchanged.
pub open spec fn refiners_unchanged(a: &RefinerSet, b: &RefinerSet) -> bool {
    &&& b@ == a@
    &&& b.same_books(a)
}

/// Executes a transfer (the fee is burned).
fn apply_transfer(tx: &Transaction, sender: &ObjectId, recipient: &ObjectId, amount: FlakeAmount, accounts: &mut AccountStore) -> (r: ApplyResult)
    requires
        old(accounts).wf(),
    ensures
        final(accounts).wf(),
        r.success <==> transfer_succeeds(old(accounts)@, *sender, *recipient, amount, tx.fee),
        r.success ==> r.fee_burned == tx.fee && final(accounts)@ == transfer_result_map(old(accounts)@, *sender, *recipient, amount, tx.fee),
        !r.success ==> r.fee_burned == 0 && final(accounts)@ == old(accounts)@ && error_is(r, transfer_error_text(old(accounts)@, *sender, *recipient, amount, tx.fee)),
{
    match accounts.transfer(sender, recipient, amount, tx.fee) {
        Ok(t) => ApplyResult::ok(t.fee_burned),
        Err(e) => {
            let m = e.message();
            ApplyResult::err(m.as_str())
        },
    }
}

/// Bonds `stake` of the sender as refiner stake: the sender pays stake, fee
/// and assay and its nonce advances; fee and assay are burned. A failed
/// bond is refunded.
fn apply_bond(tx: &Transaction, sender: &ObjectId, stake: FlakeAmount, accounts: &mut AccountStore, refiners: &mut RefinerSet, block_height: u64, block_timestamp: u64) -> (r: ApplyResult)
    requires
        old(accounts).wf(),
        old(refiners).wf(),
        old(accounts)@.contains_key(*sender),
    ensures
        final(accounts).wf(),
        final(refiners).wf(),
        stake < MIN_BOND_STAKE ==> !r.success && error_is(r, "Insufficient bond stake per entry: need "@ + dec_str(MIN_BOND_STAKE) + ", got "@ + dec_str(stake)),
        stake >= MIN_BOND_STAKE && old(accounts)@[*sender].balance < bond_total(stake, tx.fee) ==> !r.success && error_is(r, "Insufficient balance for bond: need "@ + dec_str(bond_total(stake, tx.fee) as u64) + ", have "@ + dec_str(old(accounts)@[*sender].balance)),
        stake >= MIN_BOND_STAKE && old(accounts)@[*sender].balance >= bond_total(stake, tx.fee) && old(accounts)@[*sender].nonce == u64::MAX ==> !r.success && error_is(r, "Nonce overflow"@),
        r.success <==> (stake >= MIN_BOND_STAKE && old(accounts)@[*sender].balance >= bond_total(stake, tx.fee) && old(accounts)@[*sender].nonce < u64::MAX && bond_succeeds(old(refiners)@, *sender, stake, block_height, block_timestamp, 0)),
        r.success ==> r.fee_burned == saturate(tx.fee + assay_spec(stake)) && final(accounts)@ == old(accounts)@.insert(*sender, paid_and_advanced(old(accounts)@[*sender], bond_total(stake, tx.fee))) && bond_applied(old(refiners), final(refiners), *sender, stake, block_height, block_timestamp),
        !r.success ==> r.fee_burned == 0 && r.error is Some && final(accounts)@ == old(accounts)@ && refiners_unchanged(old(refiners), final(refiners)),
{
    if stake < MIN_BOND_STAKE {
        let mut m = String::from_str("Insufficient bond stake per entry: need ");
        m.append(decimal_string(MIN_BOND_STAKE).as_str());
        m.append(", got ");
        m.append(decimal_string(stake).as_str());
        return ApplyResult::err(m.as_str());
    }
    let bond_assay = assay(stake);
    let total_needed = stake.saturating_add(tx.fee).saturating_add(bond_assay);
    let (balance, nonce) = match accounts.get_account(sender) {
        Some(a) => (a.balance, a.nonce),
        None => (0, 0),
    };
    if balance < total_needed {
        let mut m = String::from_str("Insufficient balance for bond: need ");
        m.append(decimal_string(total_needed).as_str());
        m.append(", have ");
        m.append(decimal_string(balance).as_str());
        return ApplyResult::err(m.as_str());
    }
    if nonce == u64::MAX {
        return ApplyResult::err("Nonce overflow");
    }
    if let Err(e) = accounts.debit(sender, total_needed) {
        let m = e.message();
        return ApplyResult::err(m.as_str());
    }
    proof {
        assert(crate::refiner::minimum_bond_spec(0) == MIN_BOND_STAKE) by {
            assert(crate::emission::floor_sqrt(0) == 0);
        }
    }
    if let Err(e) = refiners.bond(*sender, stake, block_height, block_timestamp, 0) {
        if let Err(refund_error) = accounts.credit(sender, total_needed) {
            let mut m = String::from_str("Bond failed (");
            m.append(e.as_str());
            m.append(") and refund failed: ");
            m.append(refund_error.message().as_str());
            return ApplyResult::err(m.as_str());
        }
        proof {
            assert(accounts@ =~= old(accounts)@);
        }
        return ApplyResult::err(e.as_str());
    }
    match accounts.get_account_mut(sender) {
        Some(a) => {
            a.nonce = a.nonce + 1;
        },
        None => {},
    }
    ApplyResult::ok(tx.fee.saturating_add(bond_assay))
}

/// What an unbond of `amount` by `id` takes: the amount, at most the
/// refiner's whole stake.
pub open spec fn unbond_effective(r: Map<ObjectId, crate::refiner::RefinerInfo>, id: ObjectId, amount: u64) -> u64 {
    if amount > saturate(r[id].stake()) {
        saturate(r[id].stake()) as u64
    } else {
        amount
    }
}

/// The refiner set after `id` unbonds `amount`: as `unbond_applied`, except
/// that a refiner left without stake is removed (its withdrawal stays queued).
pub open spec fn unbond_settled(old: &RefinerSet, new: &RefinerSet, id: ObjectId, amount: u64, height: u64) -> bool {
    if fifo_remove(old@[id].entries@, amount as nat).len() == 0 {
        &&& new@ == old@.remove(id)
        &&& new.queue() == old.queue().push(PendingUnbond { account: id, amount, matures_at: saturate(height + EPOCH) as u64 })
        &&& new.active_ids() == without_id(old.active_ids(), id)
        &&& new.dirty() == old.dirty().insert(id)
    } else {
        unbond_applied(old, new, id, amount, height)
    }
}

/// Unbonds `amount` of the sender's refiner stake, or all of it when it
/// holds less (queued for one epoch): the sender must be able to pay the fee
/// and the assay of the requested amount, and pays the fee and the assay of
/// what was unbonded, both burned; its nonce advances. A refiner left
/// without stake is removed.
fn apply_unbond(tx: &Transaction, sender: &ObjectId, amount: FlakeAmount, accounts: &mut AccountStore, refiners: &mut RefinerSet, block_height: u64) -> (r: ApplyResult)
    requires
        old(accounts).wf(),
        old(refiners).wf(),
        old(accounts)@.contains_key(*sender),
    ensures
        final(accounts).wf(),
        final(refiners).wf(),
        !old(refiners)@.contains_key(*sender) ==> !r.success && error_is(r, "Refiner not bonded"@),
        old(refiners)@.contains_key(*sender) && old(accounts)@[*sender].balance < unbond_fee(amount, tx.fee) ==> !r.success && error_is(r, "Insufficient balance for unbond fees: need "@ + dec_str(unbond_fee(amount, tx.fee) as u64) + ", have "@ + dec_str(old(accounts)@[*sender].balance)),
        old(refiners)@.contains_key(*sender) && old(accounts)@[*sender].balance >= unbond_fee(amount, tx.fee) && old(accounts)@[*sender].nonce == u64::MAX ==> !r.success && error_is(r, "Nonce overflow"@),
        r.success <==> (old(accounts)@[*sender].balance >= unbond_fee(amount, tx.fee) && old(accounts)@[*sender].nonce < u64::MAX && unbond_succeeds(old(refiners)@, *sender, unbond_effective(old(refiners)@, *sender, amount))),
        r.success ==> r.fee_burned == unbond_fee(unbond_effective(old(refiners)@, *sender, amount), tx.fee) && final(accounts)@ == old(accounts)@.insert(*sender, paid_and_advanced(old(accounts)@[*sender], unbond_fee(unbond_effective(old(refiners)@, *sender, amount), tx.fee))) && unbond_settled(old(refiners), final(refiners), *sender, unbond_effective(old(refiners)@, *sender, amount), block_height),
        !r.success ==> r.fee_burned == 0 && r.error is Some && final(accounts)@ == old(accounts)@ && refiners_unchanged(old(refiners), final(refiners)),
{
    let stake = match refiners.get_refiner(sender) {
        Some(v) => v.total_stake(),
        None => {
            return ApplyResult::err("Refiner not bonded");
        },
    };
    let effective = if amount > stake {
        stake
    } else {
        amount
    };
    let max_assay = assay(amount);
    let total_fee = tx.fee.saturating_add(max_assay);
    let (balance, nonce) = match accounts.get_account(sender) {
        Some(a) => (a.balance, a.nonce),
        None => (0, 0),
    };
    if balance < total_fee {
        let mut m = String::from_str("Insufficient balance for unbond fees: need ");
        m.append(decimal_string(total_fee).as_str());
        m.append(", have ");
        m.append(decimal_string(balance).as_str());
        return ApplyResult::err(m.as_str());
    }
    if nonce == u64::MAX {
        return ApplyResult::err("Nonce overflow");
    }
    let unbonded = match refiners.unbond_amount(sender, effective, block_height) {
        Ok(stake) => stake,
        Err(e) => {
            return ApplyResult::err(e.as_str());
        },
    };
    if unbonded == 0 {
        return ApplyResult::err("No stake unbonded");
    }
    let emptied = match refiners.get_refiner(sender) {
        Some(v) => v.entries.len() == 0,
        None => false,
    };
    if emptied {
        proof {
            lemma_without_id_twice(old(refiners).active_ids(), *sender);
            assert(refiners@.remove(*sender) =~= old(refiners)@.remove(*sender));
        }
        refiners.remove_refiner(sender);
    }
    let unbond_assay = assay(unbonded);
    let total_fee = tx.fee.saturating_add(unbond_assay);
    match accounts.get_account_mut(sender) {
        Some(a) => {
            a.balance = a.balance - total_fee;
            a.nonce = a.nonce + 1;
        },
        None => {},
    }
    ApplyResult::ok(total_fee)
}

/// The accounts after the action of a verified transaction from an existing
/// sender with the right nonce, when it succeeds.
pub open spec fn action_succeeds(tx: Transaction, a: Map<ObjectId, crate::account::Account>, r: Map<ObjectId, crate::refiner::RefinerInfo>, height: u64, timestamp: u64) -> bool {
    match tx.action {
        TransactionAction::Transfer { recipient, amount } => transfer_succeeds(a, tx.sender, recipient, amount, tx.fee),
        TransactionAction::ValidatorBond { amount } => amount >= MIN_BOND_STAKE && a[tx.sender].balance >= bond_total(amount, tx.fee) && a[tx.sender].nonce < u64::MAX && bond_succeeds(r, tx.sender, amount, height, timestamp, 0),
        TransactionAction::ValidatorUnbond { amount } => a[tx.sender].balance >= unbond_fee(amount, tx.fee) && a[tx.sender].nonce < u64::MAX && unbond_succeeds(r, tx.sender, unbond_effective(r, tx.sender, amount)),
    }
}

/// The accounts after a successful action (before the key is registered).
pub open spec fn accounts_after_action(tx: Transaction, a: Map<ObjectId, crate::account::Account>, r: Map<ObjectId, crate::refiner::RefinerInfo>) -> Map<ObjectId, crate::account::Account> {
    match tx.action {
        TransactionAction::Transfer { recipient, amount } => transfer_result_map(a, tx.sender, recipient, amount, tx.fee),
        TransactionAction::ValidatorBond { amount } => a.insert(tx.sender, paid_and_advanced(a[tx.sender], bond_total(amount, tx.fee))),
        TransactionAction::ValidatorUnbond { amount } => a.insert(tx.sender, paid_and_advanced(a[tx.sender], unbond_fee(unbond_effective(r, tx.sender, amount), tx.fee))),
    }
}

/// The Flakes a successful action burns, given the refiners before it.
pub open spec fn action_burn(tx: Transaction, r: Map<ObjectId, crate::refiner::RefinerInfo>) -> int {
    match tx.action {
        TransactionAction::Transfer { .. } => tx.fee as int,
        TransactionAction::ValidatorBond { amount } => saturate(tx.fee + assay_spec(amount)),
        TransactionAction::ValidatorUnbond { amount } => unbond_fee(unbond_effective(r, tx.sender, amount), tx.fee),
    }
}

/// Whether the refiners after a successful action are as the action says.
pub open spec fn refiners_after_action(tx: Transaction, old: &RefinerSet, new: &RefinerSet, height: u64, timestamp: u64) -> bool {
    match tx.action {
        TransactionAction::Transfer { .. } => refiners_unchanged(old, new),
        TransactionAction::ValidatorBond { amount } => bond_applied(old, new, tx.sender, amount, height, timestamp),
        TransactionAction::ValidatorUnbond { amount } => unbond_settled(old, new, tx.sender, unbond_effective(old@, tx.sender, amount), height),
    }
}

/// Applies transactions to chain state. It holds no state of its own:
/// execution is a function of the transaction and the state it is given.
pub struct TransactionDispatcher;

impl TransactionDispatcher {
    /// Applies a transaction: it must verify (chain id, id, key, signature),
    /// pay at least the minimum fee, come from an existing account with the
    /// right nonce, and its action must succeed; then the sender's public key is
    /// registered. A refused transaction changes nothing.
    pub fn apply_transaction(tx: &Transaction, accounts: &mut AccountStore, refiners: &mut RefinerSet, block_height: u64, block_timestamp: u64, expected_chain_id: u64) -> (r: ApplyResult)
        requires
            old(accounts).wf(),
            old(refiners).wf(),
        ensures
            final(accounts).wf(),
            final(refiners).wf(),
            verify_error_text(*tx, expected_chain_id) matches Some(t) ==> !r.success && error_is(r, t),
            verify_error_text(*tx, expected_chain_id) is None && tx.fee < MIN_FEE ==> !r.success && error_is(r, "Fee below minimum: need at least "@ + dec_str(MIN_FEE) + " flakes, got "@ + dec_str(tx.fee)),
            verify_error_text(*tx, expected_chain_id) is None && tx.fee >= MIN_FEE && !old(accounts)@.contains_key(tx.sender) ==> !r.success && error_is(r, "Sender account not found: "@ + hex_str(tx.sender)),
            verify_error_text(*tx, expected_chain_id) is None && tx.fee >= MIN_FEE && old(accounts)@.contains_key(tx.sender) && old(accounts)@[tx.sender].nonce != tx.nonce ==> !r.success && error_is(r, "Invalid nonce: expected "@ + dec_str(old(accounts)@[tx.sender].nonce) + ", got "@ + dec_str(tx.nonce)),
            r.success <==> (verify_error_text(*tx, expected_chain_id) is None && tx.fee >= MIN_FEE && old(accounts)@.contains_key(tx.sender) && old(accounts)@[tx.sender].nonce == tx.nonce && action_succeeds(*tx, old(accounts)@, old(refiners)@, block_height, block_timestamp)),
            r.success ==> r.fee_burned == action_burn(*tx, old(refiners)@) && key_registered(accounts_after_action(*tx, old(accounts)@, old(refiners)@), final(accounts)@, tx.sender, tx.public_key@) && refiners_after_action(*tx, old(refiners), final(refiners), block_height, block_timestamp),
            !r.success ==> r.fee_burned == 0 && r.error is Some && final(accounts)@ == old(accounts)@ && refiners_unchanged(old(refiners), final(refiners)),
    {
        if let Err(e) = verify_transaction(tx, expected_chain_id) {
            let m = e.message();
            return ApplyResult::err(m.as_str());
        }
        if tx.fee < MIN_FEE {
            let mut m = String::from_str("Fee below minimum: need at least ");
            m.append(decimal_string(MIN_FEE).as_str());
            m.append(" flakes, got ");
            m.append(decimal_string(tx.fee).as_str());
            return ApplyResult::err(m.as_str());
        }
        let sender = &tx.sender;
        match accounts.get_account(sender) {
            Some(account) => {
                if account.nonce != tx.nonce {
                    let mut m = String::from_str("Invalid nonce: expected ");
                    m.append(decimal_string(account.nonce).as_str());
                    m.append(", got ");
                    m.append(decimal_string(tx.nonce).as_str());
                    return ApplyResult::err(m.as_str());
                }
            },
            None => {
                let mut m = String::from_str("Sender account not found: ");
                m.append(sender.to_hex().as_str());
                return ApplyResult::err(m.as_str());
            },
        }
        let result = match &tx.action {
            TransactionAction::Transfer { recipient, amount } => apply_transfer(tx, sender, recipient, *amount, accounts),
            TransactionAction::ValidatorBond { amount } => apply_bond(tx, sender, *amount, accounts, refiners, block_height, block_timestamp),
            TransactionAction::ValidatorUnbond { amount } => apply_unbond(tx, sender, *amount, accounts, refiners, block_height),
        };
        let ghost mid = accounts@;
        if result.success && tx.public_key.len() > 0 {
            match accounts.get_account_mut(sender) {
                Some(account) => {
                    account.public_key = Some(tx.public_key.clone());
                },
                None => {},
            }
        }
        result
    }
}

} // verus!
