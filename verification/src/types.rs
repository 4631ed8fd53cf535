//! Core data types of the Opolys ledger: hashes and object ids, transaction
//! actions, refiner/validator status machines, headers, transactions and
//! blocks, and the conversions between OPL and Flakes.
//!
//! All hashes are 32 bytes (Blake3-256). Amounts are Flakes (u64), with 6
//! decimal places per OPL.
use crate::constants::FLAKES_PER_OPL;
use crate::text::{
    all_hex, ascii_chars, ascii_string, dec_digits, decimal_bytes, decimal_bytes_padded,
    decimal_string, hex_decode, hex_of, hex_string, is_ascii_bytes, unhex, zero_pad,
};
use vstd::prelude::*;
use vstd::string::StringSliceAdditionalSpecFns;

verus! {

/// Smallest indivisible unit of currency (1 OPL = 1,000,000 Flakes).
pub type FlakeAmount = u64;

/// Block height; the genesis block has height 0.
pub type BlockHeight = u64;

/// The 32 zero bytes.
pub open spec fn zero_bytes32() -> Seq<u8> {
    Seq::new(32, |i: int| 0u8)
}

/// A 32-byte digest used for block hashes, transaction ids and roots.
#[derive(Clone, Copy, Debug, PartialEq, Eq, Hash)]
pub struct Hash(pub [u8; 32]);

impl Hash {
    /// The bytes of the digest.
    pub open spec fn bytes(self) -> Seq<u8> {
        self.0@
    }

    /// The all-zero hash, a sentinel (e.g. the genesis previous hash).
    pub fn zero() -> (h: Hash)
        ensures
            h.bytes() == zero_bytes32(),
    {
        let h = Hash([0u8; 32]);
        assert(h.bytes() =~= zero_bytes32());
        h
    }

    /// Whether every byte is zero.
    pub fn is_zero(&self) -> (b: bool)
        ensures
            b == (self.bytes() == zero_bytes32()),
    {
        let mut i: usize = 0;
        while i < 32
            invariant
                i <= 32,
                forall|j: int| 0 <= j < i ==> self.0@[j] == 0u8,
            decreases 32 - i,
        {
            if self.0[i] != 0 {
                assert(self.bytes()[i as int] != zero_bytes32()[i as int]);
                return false;
            }
            i = i + 1;
        }
        assert(self.bytes() =~= zero_bytes32());
        true
    }

    /// The inner 32-byte array.
    pub fn as_bytes(&self) -> (r: &[u8; 32])
        ensures
            r@ == self.bytes(),
    {
        &self.0
    }

    /// The hash as 64 lowercase hexadecimal characters.
    pub fn to_hex(&self) -> (s: String)
        ensures
            s@ == ascii_chars(hex_of(self.bytes())),
    {
        hex_string(&self.0)
    }

    /// Wraps a raw 32-byte array.
    pub fn from_bytes(bytes: [u8; 32]) -> (h: Hash)
        ensures
            h.0 == bytes,
    {
        Hash(bytes)
    }
}

/// Equality of two hashes, byte by byte.
pub fn hash_eq(a: &Hash, b: &Hash) -> (r: bool)
    ensures
        r == (*a == *b),
        r == (a.bytes() == b.bytes()),
{
    let mut i: usize = 0;
    while i < 32
        invariant
            i <= 32,
            forall|j: int| 0 <= j < i ==> a.0@[j] == b.0@[j],
        decreases 32 - i,
    {
        if a.0[i] != b.0[i] {
            assert(a.0@[i as int] != b.0@[i as int]);
            assert(a.0@ != b.0@);
            return false;
        }
        i = i + 1;
    }
    assert(a.0@ =~= b.0@);
    proof {
        broadcast use vstd::array::axiom_array_ext_equal;

        assert(a.0 =~= b.0);
    }
    true
}

/// Two hashes are equal exactly when their bytes are.
pub proof fn lemma_hash_bytes_eq(a: Hash, b: Hash)
    ensures
        (a == b) <==> (a.bytes() == b.bytes()),
{
    if a.bytes() == b.bytes() {
        broadcast use vstd::array::axiom_array_ext_equal;

        assert(a.0 =~= b.0);
    }
}

/// A unique on-chain identifier of an account or other entity.
#[derive(Clone, Copy, Debug, PartialEq, Eq, Hash)]
pub struct ObjectId(pub Hash);

impl ObjectId {
    /// The bytes of the identifier.
    pub open spec fn bytes(self) -> Seq<u8> {
        self.0.bytes()
    }

    /// The all-zero identifier, a sentinel (e.g. the genesis producer).
    pub fn zero() -> (id: ObjectId)
        ensures
            id.bytes() == zero_bytes32(),
    {
        ObjectId(Hash::zero())
    }

    /// Whether the identifier is the all-zero sentinel.
    pub fn is_zero(&self) -> (b: bool)
        ensures
            b == (self.bytes() == zero_bytes32()),
    {
        self.0.is_zero()
    }

    /// Parses an identifier from exactly 64 hexadecimal characters.
    pub fn from_hex(hex: &str) -> (r: Result<ObjectId, String>)
        ensures
            r is Ok <==> (hex.spec_bytes().len() == 64 && all_hex(hex.spec_bytes())),
            r matches Ok(id) ==> id.bytes() == unhex(hex.spec_bytes()),
            hex.spec_bytes().len() != 64 ==> (r matches Err(m) && m@ == "ObjectId hex must be 64 characters, got "@ + ascii_chars(dec_digits(hex.spec_bytes().len()))),
            hex.spec_bytes().len() == 64 && !all_hex(hex.spec_bytes()) ==> (r matches Err(m) && m@.take(13) == "Invalid hex: "@),
    {
        let bytes = hex.as_bytes();
        if bytes.len() != 64 {
            let mut msg = String::from_str("ObjectId hex must be 64 characters, got ");
            let n = decimal_string(bytes.len() as u64);
            msg.append(n.as_str());
            return Err(msg);
        }
        match hex_decode(bytes) {
            Ok(v) => {
                let mut arr = [0u8; 32];
                let mut i: usize = 0;
                while i < 32
                    invariant
                        i <= 32,
                        v@.len() == 32,
                        forall|j: int| 0 <= j < i ==> arr@[j] == v@[j],
                    decreases 32 - i,
                {
                    arr[i] = v[i];
                    i = i + 1;
                }
                assert(arr@ =~= v@);
                Ok(ObjectId(Hash(arr)))
            },
            Err(e) => {
                let mut msg = String::from_str("Invalid hex: ");
                msg.append(e.as_str());
                proof {
                    reveal_strlit("Invalid hex: ");
                    assert(msg@.take(13) =~= "Invalid hex: "@);
                }
                Err(msg)
            },
        }
    }

    /// The identifier as 64 lowercase hexadecimal characters.
    pub fn to_hex(&self) -> (s: String)
        ensures
            s@ == ascii_chars(hex_of(self.bytes())),
    {
        self.0.to_hex()
    }

    /// The inner 32-byte array.
    pub fn as_bytes(&self) -> (r: &[u8; 32])
        ensures
            r@ == self.bytes(),
    {
        &self.0.0
    }
}

/// Equality of two identifiers, byte by byte.
pub fn id_eq(a: &ObjectId, b: &ObjectId) -> (r: bool)
    ensures
        r == (*a == *b),
        r == (a.bytes() == b.bytes()),
{
    hash_eq(&a.0, &b.0)
}

/// Lexicographic order of two byte sequences of the same length.
pub open spec fn bytes_lt(a: Seq<u8>, b: Seq<u8>) -> bool {
    exists|k: int|
        #![trigger a[k], b[k]]
        0 <= k < a.len() && k < b.len() && a[k] < b[k] && a.take(k) == b.take(k)
}

/// Strict lexicographic comparison of the bytes of two identifiers.
pub fn id_lt(a: &ObjectId, b: &ObjectId) -> (r: bool)
    ensures
        r == bytes_lt(a.bytes(), b.bytes()),
{
    let x = a.as_bytes();
    let y = b.as_bytes();
    let mut i: usize = 0;
    while i < 32
        invariant
            i <= 32,
            x@ == a.bytes(),
            y@ == b.bytes(),
            x@.take(i as int) == y@.take(i as int),
        decreases 32 - i,
    {
        if x[i] < y[i] {
            assert(x@[i as int] < y@[i as int]);
            return true;
        }
        if x[i] > y[i] {
            assert(!bytes_lt(a.bytes(), b.bytes())) by {
                if bytes_lt(a.bytes(), b.bytes()) {
                    let k = choose|k: int|
                        #![trigger a.bytes()[k], b.bytes()[k]]
                        0 <= k < a.bytes().len() && k < b.bytes().len() && a.bytes()[k]
                            < b.bytes()[k] && a.bytes().take(k) == b.bytes().take(k);
                    if k < i {
                        assert(x@.take(i as int)[k] == x@[k]);
                        assert(y@.take(i as int)[k] == y@[k]);
                    } else if k > i {
                        assert(a.bytes().take(k)[i as int] == x@[i as int]);
                        assert(b.bytes().take(k)[i as int] == y@[i as int]);
                    }
                }
            }
            return false;
        }
        assert(x@.take(i + 1) =~= x@.take(i as int).push(x@[i as int]));
        assert(y@.take(i + 1) =~= y@.take(i as int).push(y@[i as int]));
        i = i + 1;
    }
    assert(x@.take(32) =~= x@);
    assert(y@.take(32) =~= y@);
    assert(!bytes_lt(a.bytes(), b.bytes())) by {
        if bytes_lt(a.bytes(), b.bytes()) {
            let k = choose|k: int|
                #![trigger a.bytes()[k], b.bytes()[k]]
                0 <= k < a.bytes().len() && k < b.bytes().len() && a.bytes()[k] < b.bytes()[k]
                    && a.bytes().take(k) == b.bytes().take(k);
            assert(x@[k] == y@[k]);
        }
    }
    false
}

/// The payload of a transaction: what it does.
///
/// - `Transfer`: move `amount` Flakes from the sender to `recipient`; the fee is burned.
/// - `ValidatorBond`: lock `amount` Flakes as refiner stake (new entry or top-up).
/// - `ValidatorUnbond`: unbond `amount` Flakes of stake, oldest entries first.
#[derive(Clone, Copy, Debug, PartialEq, Eq)]
pub enum TransactionAction {
    Transfer { recipient: ObjectId, amount: FlakeAmount },
    ValidatorBond { amount: FlakeAmount },
    ValidatorUnbond { amount: FlakeAmount },
}

/// The consensus phase of a block height.
#[derive(Clone, Copy, Debug, PartialEq, Eq, Structural)]
pub enum ConsensusPhase {
    ProofOfWork,
    ProofOfStake,
}

/// The bonding status of a validator of the stake-weighted validator set.
#[derive(Clone, Copy, Debug, PartialEq, Eq, Structural)]
pub enum ValidatorStatus {
    /// The account is not a validator.
    NotBonded,
    Bonding,
    Active,
    Unbonding,
    Slashed,
}

/// The lifecycle status of a refiner: Bonding → Waiting → Active, with
/// Unbonding once all stake has been withdrawn and Slashed for good.
#[derive(Clone, Copy, Debug, PartialEq, Eq, Structural)]
pub enum RefinerStatus {
    Bonding,
    Waiting,
    Active,
    Unbonding,
    Slashed,
}

/// How a block was produced: the genesis block, a mined (proof-of-work)
/// block, or a refined (refiner-signed) block.
#[derive(Clone, Copy, Debug, PartialEq, Eq, Structural)]
pub enum BlockProductionKind {
    Genesis,
    Mined,
    Refined,
}

/// Header of a block: everything that is hashed to identify it.
#[derive(Clone, Debug)]
pub struct BlockHeader {
    /// Protocol version.
    pub version: u32,
    /// Sequential height (0 for genesis).
    pub height: BlockHeight,
    /// Hash of the previous header (zero for genesis).
    pub previous_hash: Hash,
    /// State root of the parent state (before this block's execution).
    pub state_root: Hash,
    /// Commitment to the block's transactions.
    pub transaction_root: Hash,
    /// Commitment to the block's double-sign evidence.
    pub evidence_root: Hash,
    /// Commitment to the block's refiner attestations.
    pub attestation_root: Hash,
    /// Commitment to the optional genesis ceremony payload.
    pub genesis_ceremony_hash: Hash,
    /// Unix timestamp (seconds).
    pub timestamp: u64,
    /// Difficulty of this block.
    pub difficulty: u64,
    /// Suggested fee for the next block.
    pub suggested_fee: FlakeAmount,
    /// Optional extension commitment (reserved).
    pub extension_root: Option<Hash>,
    /// The block producer, who earns the reward.
    pub producer: ObjectId,
    /// The proof-of-work nonce bytes of a mined block.
    pub pow_proof: Option<Vec<u8>>,
    /// The refiner's ed25519 signature of a refined block.
    pub refiner_signature: Option<Vec<u8>>,
}

impl BlockHeader {
    /// The production kind of the header, when its proofs are consistent.
    pub open spec fn spec_production_kind(&self) -> Option<BlockProductionKind> {
        if self.pow_proof is Some && self.refiner_signature is None {
            Some(BlockProductionKind::Mined)
        } else if self.pow_proof is None && self.refiner_signature is Some {
            Some(BlockProductionKind::Refined)
        } else if self.pow_proof is None && self.refiner_signature is None && self.height == 0 {
            Some(BlockProductionKind::Genesis)
        } else {
            None
        }
    }

    /// How the block was produced: `Mined` with exactly a PoW proof, `Refined`
    /// with exactly a refiner signature, `Genesis` at height 0 with neither,
    /// `None` otherwise.
    pub fn production_kind(&self) -> (k: Option<BlockProductionKind>)
        ensures
            k == self.spec_production_kind(),
    {
        if self.pow_proof.is_some() && self.refiner_signature.is_none() {
            Some(BlockProductionKind::Mined)
        } else if self.pow_proof.is_none() && self.refiner_signature.is_some() {
            Some(BlockProductionKind::Refined)
        } else if self.pow_proof.is_none() && self.refiner_signature.is_none() && self.height == 0 {
            Some(BlockProductionKind::Genesis)
        } else {
            None
        }
    }
}

/// A signed transaction.
#[derive(Debug)]
pub struct Transaction {
    /// Identifier: hash of the signed content.
    pub tx_id: ObjectId,
    /// The sending account; must equal the object id of `public_key`.
    pub sender: ObjectId,
    /// What the transaction does.
    pub action: TransactionAction,
    /// Fee in Flakes, burned.
    pub fee: FlakeAmount,
    /// Signature over the signing payload.
    pub signature: Vec<u8>,
    /// Signature scheme (0 = ed25519).
    pub signature_type: u8,
    /// Sender nonce for replay protection.
    pub nonce: u64,
    /// Chain id bound into the id and the signature.
    pub chain_id: u64,
    /// Arbitrary data attachment, not interpreted by consensus.
    pub data: Vec<u8>,
    /// The sender's ed25519 public key (32 bytes).
    pub public_key: Vec<u8>,
}

/// Whether two transactions hold the same values.
pub open spec fn same_transaction(a: Transaction, b: Transaction) -> bool {
    &&& a.tx_id == b.tx_id
    &&& a.sender == b.sender
    &&& a.action == b.action
    &&& a.fee == b.fee
    &&& a.signature@ == b.signature@
    &&& a.signature_type == b.signature_type
    &&& a.nonce == b.nonce
    &&& a.chain_id == b.chain_id
    &&& a.data@ == b.data@
    &&& a.public_key@ == b.public_key@
}

impl Clone for Transaction {
    fn clone(&self) -> (t: Self)
        ensures
            same_transaction(t, *self),
    {
        Transaction {
            tx_id: self.tx_id,
            sender: self.sender,
            action: self.action,
            fee: self.fee,
            signature: self.signature.clone(),
            signature_type: self.signature_type,
            nonce: self.nonce,
            chain_id: self.chain_id,
            data: self.data.clone(),
            public_key: self.public_key.clone(),
        }
    }
}

/// A refiner's signed attestation of a refined block.
#[derive(Clone, Debug)]
pub struct BlockAttestation {
    pub refiner: ObjectId,
    pub refiner_pubkey: Vec<u8>,
    pub height: u64,
    pub block_hash: Hash,
    pub signature: Vec<u8>,
}

/// Evidence that a producer signed two different blocks at one height.
#[derive(Clone, Debug)]
pub struct DoubleSignEvidence {
    pub producer: ObjectId,
    pub producer_pubkey: Vec<u8>,
    pub height: u64,
    pub hash_a: Hash,
    pub signature_a: Vec<u8>,
    pub hash_b: Hash,
    pub signature_b: Vec<u8>,
}

/// The genesis ceremony payload carried by the genesis block.
#[derive(Clone, Copy, Debug)]
pub struct GenesisCeremonyData {
    pub ceremony_timestamp: u64,
    pub ceremony_master_hash: [u8; 32],
    pub operator_public_key: [u8; 32],
    pub operator_signature: [u8; 64],
    pub base_reward_flakes: u64,
    pub production_tonnes_milli: u64,
    pub price_usd_cents: u64,
    pub blocks_per_year: u64,
}

/// A complete block: header and body.
#[derive(Clone, Debug)]
pub struct Block {
    pub header: BlockHeader,
    pub transactions: Vec<Transaction>,
    pub slash_evidence: Vec<DoubleSignEvidence>,
    pub attestations: Vec<BlockAttestation>,
    pub genesis_ceremony: Option<GenesisCeremonyData>,
}

/// Whole OPL to Flakes, saturating at `u64::MAX`.
pub fn opl_to_flake(opl: u64) -> (f: FlakeAmount)
    ensures
        f == if opl * FLAKES_PER_OPL <= u64::MAX { opl * FLAKES_PER_OPL } else { u64::MAX as int },
{
    if opl > u64::MAX / FLAKES_PER_OPL {
        u64::MAX
    } else {
        opl * FLAKES_PER_OPL
    }
}

/// Flakes to whole OPL, discarding the fraction.
pub fn flake_to_opl(flakes: FlakeAmount) -> (o: u64)
    ensures
        o == flakes / FLAKES_PER_OPL,
{
    flakes / FLAKES_PER_OPL
}

/// The display bytes of an amount: whole OPL, a dot, six fraction digits,
/// and the ticker.
pub open spec fn opl_display(flakes: u64) -> Seq<u8> {
    dec_digits((flakes / FLAKES_PER_OPL) as nat) + seq![46u8] + zero_pad(
        dec_digits((flakes % FLAKES_PER_OPL) as nat),
        6,
    ) + seq![32u8, 79u8, 80u8, 76u8]
}

/// Formats a Flake amount as `"<whole>.<6 digits> OPL"`.
pub fn format_flake_as_opl(flakes: u64) -> (s: String)
    ensures
        s@ == ascii_chars(opl_display(flakes)),
{
    let mut v = decimal_bytes(flakes / FLAKES_PER_OPL);
    v.push(46u8);
    let frac = decimal_bytes_padded(flakes % FLAKES_PER_OPL, 6);
    let mut i: usize = 0;
    let ghost start = v@;
    while i < frac.len()
        invariant
            i <= frac@.len(),
            v@ == start + frac@.take(i as int),
            is_ascii_bytes(start),
            is_ascii_bytes(frac@),
        decreases frac@.len() - i,
    {
        v.push(frac[i]);
        assert(frac@.take(i + 1) =~= frac@.take(i as int).push(frac@[i as int]));
        i = i + 1;
    }
    assert(frac@.take(frac@.len() as int) =~= frac@);
    v.push(32u8);
    v.push(79u8);
    v.push(80u8);
    v.push(76u8);
    assert(v@ =~= opl_display(flakes));
    assert(is_ascii_bytes(v@)) by {
        assert forall|k: int| 0 <= k < v@.len() implies #[trigger] v@[k] < 128 by {
            if k < start.len() {
                assert(v@[k] == start[k]);
            } else if k < start.len() + frac@.len() {
                assert(v@[k] == frac@[k - start.len()]);
            }
        }
    }
    ascii_string(v)
}

/// Whole OPL converted to Flakes and back are unchanged (short of the
/// saturation at `u64::MAX`).
pub proof fn lemma_opl_flake_roundtrip(opl: u64)
    requires
        opl * FLAKES_PER_OPL <= u64::MAX,
    ensures
        (opl * FLAKES_PER_OPL) / (FLAKES_PER_OPL as int) == opl,
{
    assert((opl * 1_000_000) / 1_000_000 == opl) by (nonlinear_arith);
}

proof fn lemma_hex_of_bytes(s: Seq<u8>)
    ensures
        hex_of(s).len() == 2 * s.len(),
        forall|i: int| 0 <= i < s.len() ==> #[trigger] hex_of(s)[2 * i] == crate::text::hex_digit(s[i] / 16) && hex_of(s)[2 * i + 1] == crate::text::hex_digit(s[i] % 16),
    decreases s.len(),
{
    if s.len() > 0 {
        lemma_hex_of_bytes(s.drop_last());
        assert forall|i: int| 0 <= i < s.len() implies #[trigger] hex_of(s)[2 * i] == crate::text::hex_digit(s[i] / 16) && hex_of(s)[2 * i + 1] == crate::text::hex_digit(s[i] % 16) by {
            if i < s.len() - 1 {
                assert(s.drop_last()[i] == s[i]);
                assert(hex_of(s.drop_last())[2 * i] == crate::text::hex_digit(s[i] / 16));
            }
        }
    }
}

/// Hex rendering and decoding are inverse: the rendering of any bytes is an
/// even-length run of hexadecimal digits that decodes to those bytes.
pub proof fn lemma_hex_roundtrip(s: Seq<u8>)
    ensures
        hex_of(s).len() == 2 * s.len(),
        all_hex(hex_of(s)),
        is_ascii_bytes(hex_of(s)),
        unhex(hex_of(s)) == s,
{
    lemma_hex_of_bytes(s);
    let h = hex_of(s);
    assert forall|k: int| 0 <= k < h.len() implies (#[trigger] crate::text::hex_value(h[k])) is Some && h[k] < 128 by {
        let i = k / 2;
        assert(k == 2 * i || k == 2 * i + 1);
        assert(h[2 * i] == crate::text::hex_digit(s[i] / 16));
    }
    assert forall|k: int| 0 <= k < h.len() implies #[trigger] h[k] < 128 by {
        assert(crate::text::hex_value(h[k]) is Some);
    }
    assert(unhex(h) =~= s) by {
        assert forall|i: int| 0 <= i < s.len() implies #[trigger] unhex(h)[i] == s[i] by {
            assert(h[2 * i] == crate::text::hex_digit(s[i] / 16));
            let hi = s[i] / 16;
            let lo = s[i] % 16;
            assert(crate::text::hex_value(crate::text::hex_digit(hi)) == Some(hi));
            assert(crate::text::hex_value(crate::text::hex_digit(lo)) == Some(lo));
            assert(hi * 16 + lo == s[i]);
        }
    }
}

/// The hex text of an identifier parses back to it: its bytes are 64
/// hexadecimal digits that decode to the identifier's bytes, which is when
/// `ObjectId::from_hex` succeeds with that identifier.
pub proof fn lemma_object_id_hex_roundtrip(id: ObjectId)
    ensures
        vstd::utf8::encode_utf8(ascii_chars(hex_of(id.bytes()))) == hex_of(id.bytes()),
        hex_of(id.bytes()).len() == 64,
        all_hex(hex_of(id.bytes())),
        unhex(hex_of(id.bytes())) == id.bytes(),
{
    let h = hex_of(id.bytes());
    lemma_hex_roundtrip(id.bytes());
    let c = ascii_chars(h);
    assert(vstd::utf8::is_ascii_chars(c)) by {
        assert forall|i: int| 0 <= i < c.len() implies '\0' <= #[trigger] c[i] <= '\u{7f}' by {
            assert(h[i] < 128);
        }
    }
    vstd::utf8::is_ascii_chars_encode_utf8(c);
    assert(vstd::utf8::encode_utf8(c) =~= h);
}

} // verus!
