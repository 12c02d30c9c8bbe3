//! What a validation of one transaction at one block can say.

use vstd::prelude::*;

verus! {

/// Why a transaction is invalid.
#[derive(Clone, Copy, Debug, PartialEq, Eq, Structural)]
pub enum InvalidTransaction {
    /// The call of the transaction is not expected.
    Call,
    /// The account cannot pay the fees.
    Payment,
    /// The transaction is not valid yet; it may become so.
    Future,
    /// The transaction is outdated.
    Stale,
    /// The proofs of the transaction are wrong.
    BadProof,
    /// The block in which the transaction was born is too old.
    AncientBirthBlock,
    /// The transaction would exhaust the resources of its block.
    ExhaustsResources,
    /// Another reason, known to the runtime.
    Custom(u8),
    /// A mandatory dispatch cannot be a transaction.
    BadMandatory,
    /// A mandatory dispatch was validated as a transaction.
    MandatoryValidation,
    /// The sender is not allowed to send this transaction.
    BadSigner,
}

/// Why the validity of a transaction cannot be told.
#[derive(Clone, Copy, Debug, PartialEq, Eq, Structural)]
pub enum UnknownTransaction {
    /// Something the validation needs could not be looked up.
    CannotLookup,
    /// No validator was found for the unsigned transaction.
    NoUnsignedValidator,
    /// Another reason, known to the runtime.
    Custom(u8),
}

/// A verdict against a transaction.
#[derive(Clone, Copy, Debug, PartialEq, Eq, Structural)]
pub enum TransactionValidityError {
    /// The transaction is invalid.
    Invalid(InvalidTransaction),
    /// The validity cannot be told.
    Unknown(UnknownTransaction),
}

/// What is known of a valid transaction.
#[derive(Debug, PartialEq, Eq)]
pub struct ValidTransaction {
    /// The priority among the ready transactions.
    pub priority: u64,
    /// The tags that must be provided before the transaction is ready.
    pub requires: Vec<Vec<u8>>,
    /// The tags that the transaction provides.
    pub provides: Vec<Vec<u8>>,
    /// For how many blocks the verdict holds.
    pub longevity: u64,
    /// Whether the transaction is to be gossiped.
    pub propagate: bool,
}

/// Why the chain produced no verdict at all.
#[derive(Debug, PartialEq, Eq)]
pub enum ApiError {
    /// The runtime of the given block has no transaction queue interface.
    MissingTransactionQueueApi(crate::primitives::Hash256),
    /// The number of the given block is not known.
    UnknownBlockNumber(crate::primitives::Hash256),
    /// The call into the runtime failed, or the validation did not run.
    RuntimeApi(String),
}

/// The verdict of a validation.
pub type TransactionValidity = Result<ValidTransaction, TransactionValidityError>;

/// The outcome of asking the chain to validate a transaction: a verdict, or
/// the reason why there is none.
pub type ValidationResult = Result<TransactionValidity, ApiError>;

} // verus!
