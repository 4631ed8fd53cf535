//! The error type shared by all Opolys operations.
use crate::text::decimal_string;
use vstd::prelude::*;

verus! {

/// The canonical error of Opolys operations.
#[derive(Debug, Clone)]
pub enum OpolysError {
    /// The sender lacks `need` Flakes; it has `have`.
    InsufficientBalance { need: u64, have: u64 },
    /// The nonce does not match the account's.
    InvalidNonce { expected: u64, got: u64 },
    /// A signature did not verify.
    InvalidSignature,
    /// The proof of work does not meet the difficulty.
    InvalidProofOfWork,
    /// No account exists for the given identifier.
    AccountNotFound(String),
    /// No refiner exists for the given identifier.
    RefinerNotFound(String),
    /// Stake below the required minimum.
    InsufficientStake { need: u64, have: u64 },
    /// The account is already a bonded refiner.
    RefinerAlreadyBonded,
    /// The account is not a bonded refiner.
    RefinerNotBonded,
    /// Invalid parameters (e.g. an overflowing amount).
    InvalidParams(String),
    /// Transaction validation failure.
    InvalidTransaction(String),
    /// Block validation failure.
    BlockValidationFailed(String),
    /// Storage failure.
    StorageError(String),
    /// Network failure.
    NetworkError(String),
    /// The mempool is at capacity.
    MempoolFull,
    /// Serialization failure.
    SerializationError(String),
    /// Genesis failure.
    GenesisError(String),
    /// Any other error.
    Custom(String),
}

fn concat3(a: &str, b: &str, c: &str) -> (s: String)
    ensures
        s@ == a@ + b@ + c@,
{
    let mut s = String::from_str(a);
    s.append(b);
    s.append(c);
    s
}

/// The decimal rendering of `n`.
pub open spec fn dec(n: u64) -> Seq<char> {
    crate::text::ascii_chars(crate::text::dec_digits(n as nat))
}

/// The human-readable message of an error.
pub open spec fn error_text(e: OpolysError) -> Seq<char> {
    match e {
        OpolysError::InsufficientBalance { need, have } => "Insufficient balance: need "@ + dec(need)
            + ", have "@ + dec(have),
        OpolysError::InvalidNonce { expected, got } => "Invalid nonce: expected "@ + dec(expected)
            + ", got "@ + dec(got),
        OpolysError::InvalidSignature => "Invalid signature"@,
        OpolysError::InvalidProofOfWork => "Invalid proof of work"@,
        OpolysError::AccountNotFound(m) => "Account not found: "@ + m@ + ""@,
        OpolysError::RefinerNotFound(m) => "Refiner not found: "@ + m@ + ""@,
        OpolysError::InsufficientStake { need, have } => "Insufficient stake: need "@ + dec(need)
            + ", have "@ + dec(have),
        OpolysError::RefinerAlreadyBonded => "Refiner already bonded"@,
        OpolysError::RefinerNotBonded => "Refiner not bonded"@,
        OpolysError::InvalidParams(m) => "Invalid params: "@ + m@ + ""@,
        OpolysError::InvalidTransaction(m) => "Invalid transaction: "@ + m@ + ""@,
        OpolysError::BlockValidationFailed(m) => "Block validation failed: "@ + m@ + ""@,
        OpolysError::StorageError(m) => "Storage error: "@ + m@ + ""@,
        OpolysError::NetworkError(m) => "Network error: "@ + m@ + ""@,
        OpolysError::MempoolFull => "Mempool full"@,
        OpolysError::SerializationError(m) => "Serialization error: "@ + m@ + ""@,
        OpolysError::GenesisError(m) => "Genesis error: "@ + m@ + ""@,
        OpolysError::Custom(m) => ""@ + m@ + ""@,
    }
}

impl OpolysError {
    /// The human-readable message of the error.
    pub fn message(&self) -> (s: String)
        ensures
            s@ == error_text(*self),
    {
        match self {
            OpolysError::InsufficientBalance { need, have } => {
                let n = decimal_string(*need);
                let h = decimal_string(*have);
                let mut s = concat3("Insufficient balance: need ", n.as_str(), ", have ");
                s.append(h.as_str());
                s
            },
            OpolysError::InvalidNonce { expected, got } => {
                let e = decimal_string(*expected);
                let g = decimal_string(*got);
                let mut s = concat3("Invalid nonce: expected ", e.as_str(), ", got ");
                s.append(g.as_str());
                s
            },
            OpolysError::InvalidSignature => String::from_str("Invalid signature"),
            OpolysError::InvalidProofOfWork => String::from_str("Invalid proof of work"),
            OpolysError::AccountNotFound(m) => concat3("Account not found: ", m.as_str(), ""),
            OpolysError::RefinerNotFound(m) => concat3("Refiner not found: ", m.as_str(), ""),
            OpolysError::InsufficientStake { need, have } => {
                let n = decimal_string(*need);
                let h = decimal_string(*have);
                let mut s = concat3("Insufficient stake: need ", n.as_str(), ", have ");
                s.append(h.as_str());
                s
            },
            OpolysError::RefinerAlreadyBonded => String::from_str("Refiner already bonded"),
            OpolysError::RefinerNotBonded => String::from_str("Refiner not bonded"),
            OpolysError::InvalidParams(m) => concat3("Invalid params: ", m.as_str(), ""),
            OpolysError::InvalidTransaction(m) => concat3("Invalid transaction: ", m.as_str(), ""),
            OpolysError::BlockValidationFailed(m) => concat3(
                "Block validation failed: ",
                m.as_str(),
                "",
            ),
            OpolysError::StorageError(m) => concat3("Storage error: ", m.as_str(), ""),
            OpolysError::NetworkError(m) => concat3("Network error: ", m.as_str(), ""),
            OpolysError::MempoolFull => String::from_str("Mempool full"),
            OpolysError::SerializationError(m) => concat3("Serialization error: ", m.as_str(), ""),
            OpolysError::GenesisError(m) => concat3("Genesis error: ", m.as_str(), ""),
            OpolysError::Custom(m) => concat3("", m.as_str(), ""),
        }
    }
}

} // verus!
