//! Accounts of the Opolys ledger and the in-memory account store.
//!
//! Every participant is an [`Account`] identified by its `ObjectId`, with a
//! balance in Flakes and a nonce that grows by one per sent transaction.
//! Transfer fees are burned: they leave the sender and reach nobody.
use crate::crypto::{blake3_digest, Blake3Hasher, DOMAIN_STATE_ROOT};
use crate::encoding::{
    enc_id, enc_opt_byte_vec, le_u64, opt_fits, opt_view, push_id, push_opt_byte_vec, push_u64_le,
};
use crate::errors::OpolysError;
use crate::keyed::{
    find_key, keys_unique, lemma_push_unique, lemma_same_entries_same_map, lemma_to_map_contains,
    lemma_to_map_index, lemma_to_map_push, lemma_to_map_update, sort_by_key, sorted_by_key,
    to_map,
};
use crate::text::{ascii_chars, dec_digits, decimal_string, hex_of};
use crate::types::{FlakeAmount, ObjectId};
use vstd::prelude::*;

verus! {

/// A single account of the ledger.
#[derive(Debug)]
pub struct Account {
    /// Identifier (Blake3 of the account's public key).
    pub object_id: ObjectId,
    /// Balance in Flakes.
    pub balance: FlakeAmount,
    /// Number of transactions sent so far (replay protection).
    pub nonce: u64,
    /// The 32-byte ed25519 public key, once registered; `None` for accounts
    /// created by genesis, pre-funding or as a transfer's recipient.
    pub public_key: Option<Vec<u8>>,
}

/// The value of an account, with its key as a byte sequence.
pub struct AccountView {
    pub object_id: ObjectId,
    pub balance: u64,
    pub nonce: u64,
    pub public_key: Option<Seq<u8>>,
}

impl View for Account {
    type V = AccountView;

    open spec fn view(&self) -> AccountView {
        AccountView {
            object_id: self.object_id,
            balance: self.balance,
            nonce: self.nonce,
            public_key: opt_view(self.public_key),
        }
    }
}

impl Clone for Account {
    fn clone(&self) -> (a: Self)
        ensures
            a@ == self@,
    {
        let public_key = match &self.public_key {
            Some(k) => Some(k.clone()),
            None => None,
        };
        Account { object_id: self.object_id, balance: self.balance, nonce: self.nonce, public_key }
    }
}

/// The canonical (borsh) encoding of an account: id, balance and nonce
/// little-endian, then the optional length-prefixed public key.
pub open spec fn enc_account(a: Account) -> Seq<u8> {
    enc_id(a.object_id) + le_u64(a.balance) + le_u64(a.nonce) + enc_opt_byte_vec(
        opt_view(a.public_key),
    )
}

/// The canonical encoding of an account.
pub fn encode_account(a: &Account) -> (v: Vec<u8>)
    requires
        opt_fits(a.public_key),
    ensures
        v@ == enc_account(*a),
{
    let mut v: Vec<u8> = Vec::new();
    push_id(&mut v, &a.object_id);
    push_u64_le(&mut v, a.balance);
    push_u64_le(&mut v, a.nonce);
    push_opt_byte_vec(&mut v, &a.public_key);
    assert(v@ =~= enc_account(*a));
    v
}

impl Account {
    /// A new account with zero balance, zero nonce and no public key.
    pub fn new(object_id: ObjectId) -> (a: Account)
        ensures
            a.object_id == object_id,
            a.balance == 0,
            a.nonce == 0,
            a.public_key is None,
    {
        Account { object_id, balance: 0, nonce: 0, public_key: None }
    }

    /// A new account with zero balance and nonce and the given public key.
    pub fn with_public_key(object_id: ObjectId, public_key: Vec<u8>) -> (a: Account)
        ensures
            a.object_id == object_id,
            a.balance == 0,
            a.nonce == 0,
            a.public_key == Some(public_key),
    {
        Account { object_id, balance: 0, nonce: 0, public_key: Some(public_key) }
    }

    /// Whether the account holds at least `amount` Flakes.
    pub fn can_spend(&self, amount: FlakeAmount) -> (b: bool)
        ensures
            b == (self.balance >= amount),
    {
        self.balance >= amount
    }
}

/// The result of a successful transfer.
#[derive(Debug, Clone, Copy)]
pub struct TransferResult {
    /// Flakes delivered to the recipient.
    pub amount: FlakeAmount,
    /// Flakes burned as the fee.
    pub fee_burned: FlakeAmount,
    /// The sender's nonce after the transfer.
    pub new_nonce: u64,
}

/// The map that a list of accounts loads into: each account under its own
/// identifier, a later account replacing an earlier one with the same id.
pub open spec fn accounts_map(s: Seq<Account>) -> Map<ObjectId, Account>
    decreases s.len(),
{
    if s.len() == 0 {
        Map::empty()
    } else {
        accounts_map(s.drop_last()).insert(s.last().object_id, s.last())
    }
}

/// Whether some account of the map has the value `v`.
pub open spec fn holds_account(m: Map<ObjectId, Account>, v: AccountView) -> bool {
    exists|k: ObjectId| #[trigger] m.contains_key(k) && m[k]@ == v
}

/// The map of account identifiers to the encodings of their accounts.
pub open spec fn encoded_accounts(m: Map<ObjectId, Account>) -> Map<ObjectId, Seq<u8>> {
    m.map_values(|a: Account| enc_account(a))
}

/// The concatenation of the values of key-sorted entries.
pub open spec fn concat_values(s: Seq<(ObjectId, Seq<u8>)>) -> Seq<u8>
    decreases s.len(),
{
    if s.len() == 0 {
        Seq::empty()
    } else {
        concat_values(s.drop_last()) + s.last().1
    }
}

/// The bytes hashed into the account state root, given the key-sorted
/// encoded accounts.
pub open spec fn account_root_preimage(sorted: Seq<(ObjectId, Seq<u8>)>) -> Seq<u8> {
    DOMAIN_STATE_ROOT@ + ACCOUNTS_TAG@ + concat_values(sorted)
}

/// ASCII `accounts`, the section tag of the account state root.
pub const ACCOUNTS_TAG: [u8; 8] = [97u8, 99u8, 99u8, 111u8, 117u8, 110u8, 116u8, 115u8];

/// In-memory store of all accounts.
#[derive(Debug)]
pub struct AccountStore {
    entries: Vec<(ObjectId, Account)>,
}

impl View for AccountStore {
    type V = Map<ObjectId, Account>;

    closed spec fn view(&self) -> Map<ObjectId, Account> {
        to_map(self.entries@)
    }
}

impl AccountStore {
    /// The store's invariant: no identifier is stored twice.
    pub closed spec fn wf(&self) -> bool {
        keys_unique(self.entries@)
    }

    /// Whether every stored public key fits its length prefix (so that every
    /// account can be encoded).
    pub open spec fn encodable(&self) -> bool {
        forall|k: ObjectId| #[trigger] self@.contains_key(k) ==> opt_fits(self@[k].public_key)
    }

    /// Checks that every stored public key fits its length prefix.
    pub fn is_encodable(&self) -> (b: bool)
        requires
            self.wf(),
        ensures
            b == self.encodable(),
    {
        let mut i: usize = 0;
        while i < self.entries.len()
            invariant
                i <= self.entries@.len(),
                self.wf(),
                forall|j: int| 0 <= j < i ==> opt_fits(#[trigger] self.entries@[j].1.public_key),
            decreases self.entries.len() - i,
        {
            match &self.entries[i].1.public_key {
                Some(k) => {
                    if k.len() > 0xffff_ffffusize {
                        proof {
                            lemma_to_map_index(self.entries@, i as int);
                        }
                        return false;
                    }
                },
                None => {},
            }
            i = i + 1;
        }
        proof {
            assert forall|k: ObjectId| #[trigger] self@.contains_key(k) implies opt_fits(self@[k].public_key) by {
                lemma_to_map_contains(self.entries@, k);
                let j = choose|j: int| 0 <= j < self.entries@.len() && #[trigger] self.entries@[j].0 == k;
                lemma_to_map_index(self.entries@, j);
                assert(opt_fits(self.entries@[j].1.public_key));
            }
        }
        true
    }

    /// An empty store.
    pub fn new() -> (s: AccountStore)
        ensures
            s.wf(),
            s@ == Map::<ObjectId, Account>::empty(),
    {
        AccountStore { entries: Vec::new() }
    }

    /// Inserts or replaces the account stored under `id`.
    fn put(&mut self, id: ObjectId, account: Account)
        requires
            old(self).wf(),
        ensures
            final(self).wf(),
            final(self)@ == old(self)@.insert(id, account),
    {
        match find_key(&self.entries, &id) {
            Some(i) => {
                proof {
                    lemma_to_map_update(self.entries@, i as int, account);
                }
                self.entries.set(i, (id, account));
            },
            None => {
                proof {
                    lemma_push_unique(self.entries@, id, account);
                    lemma_to_map_push(self.entries@, id, account);
                }
                self.entries.push((id, account));
            },
        }
    }

    /// Copies of all accounts, each stored account exactly once.
    pub fn all_accounts(&self) -> (r: Vec<Account>)
        requires
            self.wf(),
        ensures
            r@.len() == self@.len(),
            forall|i: int| 0 <= i < r@.len() ==> holds_account(self@, #[trigger] r@[i]@),
            forall|k: ObjectId| #[trigger]
                self@.contains_key(k) ==> exists|i: int| 0 <= i < r@.len() && r@[i]@ == self@[k]@,
    {
        let mut r: Vec<Account> = Vec::new();
        let mut i: usize = 0;
        while i < self.entries.len()
            invariant
                i <= self.entries@.len(),
                keys_unique(self.entries@),
                r@.len() == i,
                forall|j: int| 0 <= j < i ==> (#[trigger] r@[j])@ == self.entries@[j].1@,
            decreases self.entries@.len() - i,
        {
            let a = self.entries[i].1.clone();
            r.push(a);
            i = i + 1;
        }
        proof {
            lemma_map_len(self.entries@);
            assert forall|j: int| 0 <= j < r@.len() implies holds_account(self@, #[trigger] r@[j]@) by {
                lemma_to_map_index(self.entries@, j);
                assert(self@.contains_key(self.entries@[j].0));
            }
            assert forall|k: ObjectId| #[trigger]
                self@.contains_key(k) implies exists|j: int| 0 <= j < r@.len() && r@[j]@
                == self@[k]@ by {
                lemma_to_map_contains(self.entries@, k);
                let j = choose|j: int| 0 <= j < self.entries@.len() && #[trigger] self.entries@[j].0 == k;
                lemma_to_map_index(self.entries@, j);
                assert(r@[j]@ == self@[k]@);
            }
        }
        r
    }

    /// A store holding the given accounts, each under its own identifier; of
    /// two accounts with the same identifier the later one is kept.
    pub fn load_from_accounts(accounts: Vec<Account>) -> (s: AccountStore)
        ensures
            s.wf(),
            s@ == accounts_map(accounts@),
    {
        let mut store = AccountStore::new();
        let mut rest = accounts;
        let ghost orig = rest@;
        let ghost mut done: int = 0;
        while rest.len() > 0
            invariant
                store.wf(),
                0 <= done <= orig.len(),
                rest@ == orig.subrange(done, orig.len() as int),
                store@ == accounts_map(orig.take(done)),
            decreases rest@.len(),
        {
            let a = rest.remove(0);
            proof {
                assert(a == orig[done]);
                assert(orig.take(done + 1).drop_last() =~= orig.take(done));
                assert(orig.take(done + 1).last() == a);
            }
            let id = a.object_id;
            store.put(id, a);
            proof {
                done = done + 1;
                assert(rest@ =~= orig.subrange(done, orig.len() as int));
            }
        }
        proof {
            assert(orig.take(done) =~= orig);
        }
        store
    }

    /// Registers a new, empty account; refused if the identifier exists.
    pub fn create_account(&mut self, object_id: ObjectId) -> (r: Result<&Account, OpolysError>)
        requires
            old(self).wf(),
        ensures
            final(self).wf(),
            old(self)@.contains_key(object_id) ==> (r matches Err(OpolysError::AccountNotFound(s))
                && s@ == "Account already exists: "@ + ascii_chars(hex_of(object_id.bytes()))
                && final(self)@ == old(self)@),
            !old(self)@.contains_key(object_id) ==> (r matches Ok(a) && *a == Account::new_spec(
                object_id,
            ) && final(self)@ == old(self)@.insert(object_id, Account::new_spec(object_id))),
    {
        match find_key(&self.entries, &object_id) {
            Some(i) => {
                proof {
                    lemma_to_map_index(self.entries@, i as int);
                }
                let mut msg = String::from_str("Account already exists: ");
                let h = object_id.to_hex();
                msg.append(h.as_str());
                Err(OpolysError::AccountNotFound(msg))
            },
            None => {
                let n = self.entries.len();
                proof {
                    lemma_to_map_contains(self.entries@, object_id);
                    lemma_push_unique(self.entries@, object_id, Account::new_spec(object_id));
                    lemma_to_map_push(self.entries@, object_id, Account::new_spec(object_id));
                }
                self.entries.push((object_id, Account::new(object_id)));
                Ok(&self.entries[n].1)
            },
        }
    }

    /// The account stored under `object_id`, if any.
    pub fn get_account(&self, object_id: &ObjectId) -> (r: Option<&Account>)
        requires
            self.wf(),
        ensures
            r is Some <==> self@.contains_key(*object_id),
            r matches Some(a) ==> *a == self@[*object_id],
    {
        match find_key(&self.entries, object_id) {
            Some(i) => {
                proof {
                    lemma_to_map_index(self.entries@, i as int);
                }
                Some(&self.entries[i].1)
            },
            None => {
                proof {
                    lemma_to_map_contains(self.entries@, *object_id);
                }
                None
            },
        }
    }

    /// Sets the balance of the entry at position `i`.
    fn set_balance_at(&mut self, i: usize, balance: u64)
        requires
            old(self).wf(),
            i < old(self).entries@.len(),
        ensures
            final(self).wf(),
            final(self).entries@.len() == old(self).entries@.len(),
            final(self)@ == old(self)@.insert(
                old(self).entries@[i as int].0,
                Account { balance, ..old(self).entries@[i as int].1 },
            ),
            forall|j: int|
                0 <= j < final(self).entries@.len() ==> #[trigger] final(self).entries@[j].0
                    == old(self).entries@[j].0,
            final(self).entries@ == old(self).entries@.update(
                i as int,
                (old(self).entries@[i as int].0, Account { balance, ..old(self).entries@[i as int].1 }),
            ),
    {
        proof {
            lemma_to_map_update(
                self.entries@,
                i as int,
                Account { balance, ..self.entries@[i as int].1 },
            );
        }
        self.entries[i].1.balance = balance;
    }

    /// Sets the nonce of the entry at position `i`.
    fn set_nonce_at(&mut self, i: usize, nonce: u64)
        requires
            old(self).wf(),
            i < old(self).entries@.len(),
        ensures
            final(self).wf(),
            final(self).entries@.len() == old(self).entries@.len(),
            final(self)@ == old(self)@.insert(
                old(self).entries@[i as int].0,
                Account { nonce, ..old(self).entries@[i as int].1 },
            ),
            forall|j: int|
                0 <= j < final(self).entries@.len() ==> #[trigger] final(self).entries@[j].0
                    == old(self).entries@[j].0,
            final(self).entries@ == old(self).entries@.update(
                i as int,
                (old(self).entries@[i as int].0, Account { nonce, ..old(self).entries@[i as int].1 }),
            ),
    {
        proof {
            lemma_to_map_update(self.entries@, i as int, Account { nonce, ..self.entries@[i as int].1 });
        }
        self.entries[i].1.nonce = nonce;
    }

    /// Number of stored accounts.
    pub fn account_count(&self) -> (n: usize)
        requires
            self.wf(),
        ensures
            n == self@.len(),
    {
        proof {
            lemma_map_len(self.entries@);
        }
        self.entries.len()
    }
}

impl Account {
    /// The account that `Account::new` returns.
    pub open spec fn new_spec(object_id: ObjectId) -> Account {
        Account { object_id, balance: 0, nonce: 0, public_key: None }
    }
}

/// With distinct keys, the map has one key per entry.
pub proof fn lemma_map_len<V>(s: Seq<(ObjectId, V)>)
    requires
        keys_unique(s),
    ensures
        to_map(s).len() == s.len(),
        to_map(s).dom().finite(),
    decreases s.len(),
{
    if s.len() > 0 {
        let t = s.drop_last();
        assert(keys_unique(t)) by {
            assert forall|i: int, j: int|
                #![trigger t[i].0, t[j].0]
                0 <= i < t.len() && 0 <= j < t.len() && i != j implies t[i].0 != t[j].0 by {
                assert(t[i] == s[i] && t[j] == s[j]);
            }
        }
        lemma_map_len(t);
        lemma_to_map_contains(t, s.last().0);
        if to_map(t).contains_key(s.last().0) {
            let i = choose|i: int| 0 <= i < t.len() && #[trigger] t[i].0 == s.last().0;
            assert(s[i].0 == s[s.len() - 1].0);
        }
    }
}


/// The decimal rendering of `n` as characters.
pub open spec fn dec_str(n: u64) -> Seq<char> {
    ascii_chars(dec_digits(n as nat))
}

/// The hexadecimal rendering of an identifier as characters.
pub open spec fn hex_str(id: ObjectId) -> Seq<char> {
    ascii_chars(hex_of(id.bytes()))
}

/// `account` with its balance replaced.
pub open spec fn with_balance(account: Account, balance: u64) -> Account {
    Account { balance, ..account }
}

/// The sum of the balances of entries.
pub open spec fn balance_sum(s: Seq<(ObjectId, Account)>) -> int
    decreases s.len(),
{
    if s.len() == 0 {
        0
    } else {
        balance_sum(s.drop_last()) + s.last().1.balance
    }
}

/// Replacing one entry changes the sum by the change of its balance.
proof fn lemma_balance_sum_update(s: Seq<(ObjectId, Account)>, i: int, e: (ObjectId, Account))
    requires
        0 <= i < s.len(),
    ensures
        balance_sum(s.update(i, e)) == balance_sum(s) - s[i].1.balance + e.1.balance,
    decreases s.len(),
{
    let t = s.update(i, e);
    if i == s.len() - 1 {
        assert(t.drop_last() =~= s.drop_last());
    } else {
        lemma_balance_sum_update(s.drop_last(), i, e);
        assert(t.drop_last() =~= s.drop_last().update(i, e));
    }
}

/// The recipient account of a transfer before it is credited: the stored
/// one, or a fresh empty account.
pub open spec fn recipient_before(m: Map<ObjectId, Account>, to: ObjectId) -> Account {
    if m.contains_key(to) {
        m[to]
    } else {
        Account::new_spec(to)
    }
}

/// The accounts after a successful transfer: the sender pays `amount + fee`
/// and its nonce grows by one; the recipient (created if missing) gains
/// `amount`; the fee reaches nobody.
pub open spec fn transfer_result_map(
    m: Map<ObjectId, Account>,
    from: ObjectId,
    to: ObjectId,
    amount: u64,
    fee: u64,
) -> Map<ObjectId, Account> {
    let sender = m[from];
    let paid = Account {
        balance: (sender.balance - amount - fee) as u64,
        nonce: (sender.nonce + 1) as u64,
        ..sender
    };
    if from == to {
        m.insert(from, Account { balance: (paid.balance + amount) as u64, ..paid })
    } else {
        let r = recipient_before(m, to);
        m.insert(from, paid).insert(to, with_balance(r, (r.balance + amount) as u64))
    }
}

/// Builds `a` followed by the decimal rendering of `n`.
fn push_decimal(s: &mut String, n: u64)
    ensures
        final(s)@ == old(s)@ + dec_str(n),
{
    let d = decimal_string(n);
    s.append(d.as_str());
}

/// Builds `a` followed by the hexadecimal rendering of `id`.
fn push_hex_id(s: &mut String, id: &ObjectId)
    ensures
        final(s)@ == old(s)@ + hex_str(*id),
{
    let h = id.to_hex();
    s.append(h.as_str());
}

impl AccountStore {
    /// Adds `amount` Flakes to an account; refused (with nothing changed) when
    /// the account is missing or the balance would overflow.
    pub fn credit(&mut self, object_id: &ObjectId, amount: FlakeAmount) -> (r: Result<(), OpolysError>)
        requires
            old(self).wf(),
        ensures
            final(self).wf(),
            !old(self)@.contains_key(*object_id) ==> (r matches Err(OpolysError::AccountNotFound(s))
                && s@ == hex_str(*object_id) && final(self)@ == old(self)@),
            old(self)@.contains_key(*object_id) && old(self)@[*object_id].balance + amount
                > u64::MAX ==> (r matches Err(OpolysError::InvalidParams(s)) && s@
                == "Balance overflow when crediting "@ + dec_str(amount) + " flakes to "@ + hex_str(
                *object_id,
            ) && final(self)@ == old(self)@),
            old(self)@.contains_key(*object_id) && old(self)@[*object_id].balance + amount
                <= u64::MAX ==> (r is Ok && final(self)@ == old(self)@.insert(
                *object_id,
                with_balance(
                    old(self)@[*object_id],
                    (old(self)@[*object_id].balance + amount) as u64,
                ),
            )),
    {
        match find_key(&self.entries, object_id) {
            None => {
                proof {
                    lemma_to_map_contains(self.entries@, *object_id);
                }
                Err(OpolysError::AccountNotFound(object_id.to_hex()))
            },
            Some(i) => {
                proof {
                    lemma_to_map_index(self.entries@, i as int);
                }
                let b = self.entries[i].1.balance;
                match b.checked_add(amount) {
                    None => {
                        let mut m = String::from_str("Balance overflow when crediting ");
                        push_decimal(&mut m, amount);
                        m.append(" flakes to ");
                        push_hex_id(&mut m, object_id);
                        Err(OpolysError::InvalidParams(m))
                    },
                    Some(nb) => {
                        self.set_balance_at(i, nb);
                        Ok(())
                    },
                }
            },
        }
    }

    /// Takes `amount` Flakes from an account; refused (with nothing changed)
    /// when the account is missing or holds less.
    pub fn debit(&mut self, object_id: &ObjectId, amount: FlakeAmount) -> (r: Result<(), OpolysError>)
        requires
            old(self).wf(),
        ensures
            final(self).wf(),
            !old(self)@.contains_key(*object_id) ==> (r matches Err(OpolysError::AccountNotFound(s))
                && s@ == hex_str(*object_id) && final(self)@ == old(self)@),
            old(self)@.contains_key(*object_id) && old(self)@[*object_id].balance < amount ==> (
            r matches Err(OpolysError::InsufficientBalance { need, have }) && need == amount
                && have == old(self)@[*object_id].balance && final(self)@ == old(self)@),
            old(self)@.contains_key(*object_id) && old(self)@[*object_id].balance >= amount ==> (r
                is Ok && final(self)@ == old(self)@.insert(
                *object_id,
                with_balance(
                    old(self)@[*object_id],
                    (old(self)@[*object_id].balance - amount) as u64,
                ),
            )),
    {
        match find_key(&self.entries, object_id) {
            None => {
                proof {
                    lemma_to_map_contains(self.entries@, *object_id);
                }
                Err(OpolysError::AccountNotFound(object_id.to_hex()))
            },
            Some(i) => {
                proof {
                    lemma_to_map_index(self.entries@, i as int);
                }
                let b = self.entries[i].1.balance;
                if b < amount {
                    return Err(OpolysError::InsufficientBalance { need: amount, have: b });
                }
                self.set_balance_at(i, b - amount);
                Ok(())
            },
        }
    }

    /// The sum of all balances.
    pub closed spec fn total_balance(&self) -> int {
        balance_sum(self.entries@)
    }

    /// Moves `amount` Flakes from `from` to `to` and burns `fee` Flakes of the
    /// sender, whose nonce grows by one; a missing recipient is created.
    /// Every refusal leaves the store unchanged. Balances are conserved but
    /// for the fee: a successful transfer lowers their sum by exactly `fee`.
    pub fn transfer(
        &mut self,
        from: &ObjectId,
        to: &ObjectId,
        amount: FlakeAmount,
        fee: FlakeAmount,
    ) -> (r: Result<TransferResult, OpolysError>)
        requires
            old(self).wf(),
        ensures
            final(self).wf(),
            r is Err ==> final(self)@ == old(self)@,
            amount + fee > u64::MAX ==> (r matches Err(OpolysError::InvalidParams(s)) && s@
                == "Transfer cost overflow: amount "@ + dec_str(amount) + " + fee "@ + dec_str(fee)),
            amount + fee <= u64::MAX && !old(self)@.contains_key(*from) ==> (r matches Err(
                OpolysError::AccountNotFound(s),
            ) && s@ == hex_str(*from)),
            amount + fee <= u64::MAX && old(self)@.contains_key(*from) && old(self)@[*from].balance
                < amount + fee ==> (r matches Err(OpolysError::InsufficientBalance { need, have })
                && need == amount + fee && have == old(self)@[*from].balance),
            amount + fee <= u64::MAX && old(self)@.contains_key(*from) && old(self)@[*from].balance
                >= amount + fee && old(self)@[*from].nonce == u64::MAX ==> (r matches Err(
                OpolysError::InvalidParams(s),
            ) && s@ == "Nonce overflow"@),
            amount + fee <= u64::MAX && old(self)@.contains_key(*from) && old(self)@[*from].balance
                >= amount + fee && old(self)@[*from].nonce < u64::MAX && *from != *to
                && old(self)@.contains_key(*to) && old(self)@[*to].balance + amount > u64::MAX ==> (
            r matches Err(OpolysError::InvalidParams(s)) && s@
                == "Recipient balance overflow when crediting "@ + dec_str(amount) + " flakes to "@
                + hex_str(*to)),
            amount + fee <= u64::MAX && old(self)@.contains_key(*from) && old(self)@[*from].balance
                >= amount + fee && old(self)@[*from].nonce < u64::MAX && (*from == *to
                || recipient_before(old(self)@, *to).balance + amount <= u64::MAX) ==> (r matches Ok(
                t,
            ) && t.amount == amount && t.fee_burned == fee && t.new_nonce == old(self)@[*from].nonce
                + 1 && final(self)@ == transfer_result_map(old(self)@, *from, *to, amount, fee)),
            r is Ok ==> final(self).total_balance() == old(self).total_balance() - fee,
    {
        let total = match amount.checked_add(fee) {
            Some(t) => t,
            None => {
                let mut m = String::from_str("Transfer cost overflow: amount ");
                push_decimal(&mut m, amount);
                m.append(" + fee ");
                push_decimal(&mut m, fee);
                return Err(OpolysError::InvalidParams(m));
            },
        };
        let i = match find_key(&self.entries, from) {
            Some(i) => i,
            None => {
                proof {
                    lemma_to_map_contains(self.entries@, *from);
                }
                return Err(OpolysError::AccountNotFound(from.to_hex()));
            },
        };
        proof {
            lemma_to_map_index(self.entries@, i as int);
        }
        let from_balance = self.entries[i].1.balance;
        if from_balance < total {
            return Err(OpolysError::InsufficientBalance { need: total, have: from_balance });
        }
        let from_nonce = self.entries[i].1.nonce;
        if from_nonce == u64::MAX {
            return Err(OpolysError::InvalidParams(String::from_str("Nonce overflow")));
        }
        let same = crate::types::id_eq(from, to);
        let ghost m0 = self@;
        let j = match find_key(&self.entries, to) {
            Some(j) => {
                proof {
                    lemma_to_map_index(self.entries@, j as int);
                }
                if !same && self.entries[j].1.balance > u64::MAX - amount {
                    let mut m = String::from_str("Recipient balance overflow when crediting ");
                    push_decimal(&mut m, amount);
                    m.append(" flakes to ");
                    push_hex_id(&mut m, to);
                    return Err(OpolysError::InvalidParams(m));
                }
                j
            },
            None => {
                let n = self.entries.len();
                proof {
                    lemma_to_map_contains(self.entries@, *to);
                    lemma_push_unique(self.entries@, *to, Account::new_spec(*to));
                    lemma_to_map_push(self.entries@, *to, Account::new_spec(*to));
                }
                self.entries.push((*to, Account::new(*to)));
                proof {
                    assert(self.entries@[i as int] == old(self).entries@[i as int]);
                    lemma_to_map_index(self.entries@, n as int);
                }
                n
            },
        };
        let ghost m1 = self@;
        proof {
            if self.entries@.len() > old(self).entries@.len() {
                assert(self.entries@.drop_last() =~= old(self).entries@);
            }
            assert(balance_sum(self.entries@) == balance_sum(old(self).entries@));
        }
        proof {
            assert(m1 == m0.insert(*to, recipient_before(m0, *to)));
            assert(self.entries@[i as int].0 == *from);
            assert(self.entries@[j as int].0 == *to);
            lemma_to_map_index(self.entries@, i as int);
            lemma_to_map_index(self.entries@, j as int);
        }
        proof {
            if same {
                assert(self.entries@[i as int].0 == self.entries@[j as int].0);
                assert(i == j);
            } else {
                assert(i != j);
            }
            assert(self.entries@[i as int].1 == m0[*from]);
            assert(self.entries@[j as int].1 == recipient_before(m0, *to));
        }
        let ghost e0 = self.entries@;
        self.set_balance_at(i, from_balance - total);
        proof {
            lemma_balance_sum_update(e0, i as int, self.entries@[i as int]);
        }
        let ghost e1 = self.entries@;
        self.set_nonce_at(i, from_nonce + 1);
        proof {
            lemma_balance_sum_update(e1, i as int, self.entries@[i as int]);
        }
        let ghost m2 = self@;
        let ghost paid = Account {
            balance: (from_balance - total) as u64,
            nonce: (from_nonce + 1) as u64,
            ..m0[*from]
        };
        proof {
            assert(self.entries@[i as int].1 == paid);
            assert(m2 == m1.insert(*from, with_balance(m0[*from], (from_balance - total) as u64)).insert(*from, paid));
            lemma_to_map_index(self.entries@, j as int);
            if !same {
                assert(self.entries@[j as int].1 == recipient_before(m0, *to));
            }
        }
        let rb = self.entries[j].1.balance;
        let ghost e2 = self.entries@;
        self.set_balance_at(j, rb + amount);
        proof {
            lemma_balance_sum_update(e2, j as int, self.entries@[j as int]);
        }
        proof {
            if *from == *to {
                assert(self@ =~= transfer_result_map(old(self)@, *from, *to, amount, fee));
            } else {
                assert(self@ =~= transfer_result_map(old(self)@, *from, *to, amount, fee));
            }
        }
        Ok(TransferResult { amount, fee_burned: fee, new_nonce: from_nonce + 1 })
    }
}


impl AccountStore {
    /// Mutable access to the account stored under `object_id`, if any; what
    /// the caller writes through it becomes the stored account.
    pub fn get_account_mut(&mut self, object_id: &ObjectId) -> (r: Option<&mut Account>)
        requires
            old(self).wf(),
        ensures
            final(self).wf(),
            r is Some <==> old(self)@.contains_key(*object_id),
            r is None ==> final(self)@ == old(self)@,
            r matches Some(a) ==> *a == old(self)@[*object_id] && final(self)@ == old(self)@.insert(
                *object_id,
                *final(a),
            ),
    {
        match find_key(&self.entries, object_id) {
            None => {
                proof {
                    lemma_to_map_contains(self.entries@, *object_id);
                }
                None
            },
            Some(i) => {
                proof {
                    lemma_to_map_index(self.entries@, i as int);
                }
                let entry = &mut self.entries[i];
                let a = &mut entry.1;
                proof {
                    lemma_to_map_update(old(self).entries@, i as int, *final(a));
                }
                Some(a)
            },
        }
    }
}


/// The view of a byte vector.
pub open spec fn vec_view(v: Vec<u8>) -> Seq<u8> {
    v@
}

/// The Blake3 hash of the domain tag, a section tag, the values of
/// key-sorted entries and a trailer, absorbed in order.
pub fn hash_sorted_values(
    domain: &[u8],
    tag: &[u8],
    sorted: &Vec<(ObjectId, Vec<u8>)>,
    trailer: &[u8],
) -> (h: crate::types::Hash)
    ensures
        h.bytes() == blake3_digest(
            domain@ + tag@ + concat_values(crate::keyed::map_entry_values(sorted@, |v: Vec<u8>| v@))
                + trailer@,
        ),
{
    let ghost f = |v: Vec<u8>| v@;
    let mut hasher = Blake3Hasher::new();
    hasher.update(domain);
    hasher.update(tag);
    let mut i: usize = 0;
    while i < sorted.len()
        invariant
            i <= sorted@.len(),
            f == (|v: Vec<u8>| v@),
            hasher.input() == Seq::<u8>::empty() + domain@ + tag@ + concat_values(
                crate::keyed::map_entry_values(sorted@, f).take(i as int),
            ),
        decreases sorted@.len() - i,
    {
        let ghost t = crate::keyed::map_entry_values(sorted@, f);
        proof {
            assert(t.take(i as int + 1).drop_last() =~= t.take(i as int));
            assert(t.take(i as int + 1).last() == t[i as int]);
        }
        let ghost before = hasher.input();
        hasher.update(sorted[i].1.as_slice());
        proof {
            assert(t[i as int] == (sorted@[i as int].0, f(sorted@[i as int].1)));
            assert(f(sorted@[i as int].1) == sorted@[i as int].1@);
            assert(t[i as int].1 == sorted@[i as int].1@);
            assert(concat_values(t.take(i as int + 1)) == concat_values(t.take(i as int)) + t[i as int].1);
            assert(hasher.input() =~= Seq::<u8>::empty() + domain@ + tag@ + concat_values(t.take(i as int + 1)));
        }
        i = i + 1;
    }
    hasher.update(trailer);
    proof {
        let t = crate::keyed::map_entry_values(sorted@, f);
        assert(t.take(i as int) =~= t);
        assert(Seq::<u8>::empty() + domain@ + tag@ + concat_values(t) + trailer@ =~= domain@ + tag@
            + concat_values(t) + trailer@);
    }
    hasher.finalize()
}

impl AccountStore {
    /// The account state root: Blake3 of the state-root domain tag, the tag
    /// `accounts`, and the encodings of all accounts in increasing order of
    /// their identifiers.
    pub fn compute_state_root(&self) -> (h: crate::types::Hash)
        requires
            self.wf(),
            self.encodable(),
        ensures
            is_account_root(h, encoded_accounts(self@)),
    {
        let ghost enc = |a: Account| enc_account(a);
        let ghost view = |v: Vec<u8>| v@;
        let mut encs: Vec<(ObjectId, Vec<u8>)> = Vec::new();
        let mut i: usize = 0;
        while i < self.entries.len()
            invariant
                i <= self.entries@.len(),
                keys_unique(self.entries@),
                self.encodable(),
                encs@.len() == i,
                forall|j: int|
                    0 <= j < i ==> (#[trigger] encs@[j]).0 == self.entries@[j].0 && encs@[j].1@
                        == enc_account(self.entries@[j].1),
            decreases self.entries@.len() - i,
        {
            proof {
                lemma_to_map_index(self.entries@, i as int);
                assert(self@.contains_key(self.entries@[i as int].0));
            }
            let v = encode_account(&self.entries[i].1);
            encs.push((self.entries[i].0, v));
            i = i + 1;
        }
        proof {
            let a = crate::keyed::map_entry_values(encs@, view);
            let b = crate::keyed::map_entry_values(self.entries@, enc);
            assert(a =~= b);
            crate::keyed::lemma_map_entry_values_keys(self.entries@, enc);
            crate::keyed::lemma_to_map_map_values(self.entries@, enc);
            assert forall|x: int, y: int|
                #![trigger encs@[x].0, encs@[y].0]
                0 <= x < encs@.len() && 0 <= y < encs@.len() && x != y implies encs@[x].0
                != encs@[y].0 by {
                assert(encs@[x].0 == self.entries@[x].0 && encs@[y].0 == self.entries@[y].0);
            }
            crate::keyed::lemma_to_map_map_values(encs@, view);
        }
        let ghost encs_map = to_map(encs@);
        let sorted = sort_by_key(encs);
        let tag = ACCOUNTS_TAG;
        let dom = DOMAIN_STATE_ROOT;
        let no_trailer: Vec<u8> = Vec::new();
        let h = hash_sorted_values(dom.as_slice(), tag.as_slice(), &sorted, no_trailer.as_slice());
        proof {
            let s = crate::keyed::map_entry_values(sorted@, view);
            crate::keyed::lemma_map_entry_values_keys(sorted@, view);
            crate::keyed::lemma_to_map_map_values(sorted@, view);
            assert(to_map(s) == encoded_accounts(self@)) by {
                assert(encoded_accounts(self@) =~= to_map(self.entries@).map_values(enc));
            }
            assert(account_root_preimage(s) =~= DOMAIN_STATE_ROOT@ + ACCOUNTS_TAG@ + concat_values(s)
                + no_trailer@);
        }
        h
    }
}

/// A transfer moves the amount and burns exactly the fee: between two
/// accounts the sender's and recipient's balances together drop by the fee
/// (a transfer to oneself drops the balance by the fee), and no other account
/// changes.
pub proof fn lemma_transfer_burns_only_fee(m: Map<ObjectId, Account>, from: ObjectId, to: ObjectId, amount: u64, fee: u64)
    requires
        m.contains_key(from),
        m[from].balance >= amount + fee,
        from != to ==> recipient_before(m, to).balance + amount <= u64::MAX,
        m[from].nonce < u64::MAX,
    ensures
        from != to ==> transfer_result_map(m, from, to, amount, fee)[from].balance + transfer_result_map(
            m,
            from,
            to,
            amount,
            fee,
        )[to].balance + fee == m[from].balance + recipient_before(m, to).balance,
        from == to ==> transfer_result_map(m, from, to, amount, fee)[from].balance + fee == m[from].balance,
        forall|k: ObjectId|
            k != from && k != to ==> (#[trigger] transfer_result_map(m, from, to, amount, fee).contains_key(k)
                == m.contains_key(k)) && (m.contains_key(k) ==> transfer_result_map(m, from, to, amount, fee)[k] == m[k]),
{
}

/// Whether `h` is the account state root of the accounts `m` (as encoded).
pub open spec fn is_account_root(h: crate::types::Hash, m: Map<ObjectId, Seq<u8>>) -> bool {
    exists|sorted: Seq<(ObjectId, Seq<u8>)>|
        {
            &&& sorted_by_key(sorted)
            &&& keys_unique(sorted)
            &&& to_map(sorted) == m
            &&& h.bytes() == blake3_digest(account_root_preimage(sorted))
        }
}

/// The account state root depends on the accounts alone: whatever order
/// they were created in, stores holding the same accounts commit to the same
/// root.
pub proof fn lemma_account_root_deterministic(h1: crate::types::Hash, h2: crate::types::Hash, m: Map<ObjectId, Seq<u8>>)
    requires
        is_account_root(h1, m),
        is_account_root(h2, m),
    ensures
        h1.bytes() == h2.bytes(),
{
    let s1 = choose|sorted: Seq<(ObjectId, Seq<u8>)>|
        {
            &&& sorted_by_key(sorted)
            &&& keys_unique(sorted)
            &&& to_map(sorted) == m
            &&& h1.bytes() == blake3_digest(account_root_preimage(sorted))
        };
    let s2 = choose|sorted: Seq<(ObjectId, Seq<u8>)>|
        {
            &&& sorted_by_key(sorted)
            &&& keys_unique(sorted)
            &&& to_map(sorted) == m
            &&& h2.bytes() == blake3_digest(account_root_preimage(sorted))
        };
    crate::keyed::lemma_sorted_entries_unique(s1, s2);
}

} // verus!
