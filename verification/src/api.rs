//! What the pool asks of the chain.
//!
//! The pool calls the chain to hash transactions and to validate them. The
//! hashing is a call that returns at once; it is made through [`ChainApi`].
//! A validation has to be waited for and is the caller's part. What is decided
//! here is how the runtime is to be asked: the runtime of a block offers the
//! transaction queue interface in one of several versions, and older versions
//! are called in another way.

use crate::primitives::Hash256;
use crate::transaction_validity::ApiError;
use vstd::prelude::*;

verus! {

/// The chain, as far as the pool calls it without waiting. It is implemented
/// by whoever embeds the pool.
pub trait ChainApi {
    /// The hash of a transaction and the length of its encoding, as this
    /// chain gives them. They depend on the transaction alone: equal bodies
    /// have equal hashes.
    spec fn spec_hash_and_length(&self, tx: Seq<u8>) -> (Hash256, usize);

    /// Returns the hash of a transaction and the length of its encoding.
    fn hash_and_length(&self, tx: &Vec<u8>) -> (r: (Hash256, usize))
        ensures
            r == self.spec_hash_and_length(tx@),
    ;
}

/// The way in which the runtime is asked to validate a transaction.
#[derive(Clone, Copy, Debug, PartialEq, Eq, Structural)]
pub enum ValidationCall {
    /// The present call, which takes the source and the hash of the block.
    Current,
    /// The call of version 2, which takes the source. The block after the
    /// given one has to be initialized before.
    BeforeVersion3,
    /// The call of the first version, which takes the transaction alone. The
    /// block after the given one has to be initialized before.
    BeforeVersion2,
}

/// The call that is due for a runtime that offers the transaction queue
/// interface in version `api_version`, or not at all.
pub open spec fn validation_call_for(at: Hash256, api_version: Option<u32>) -> Result<
    ValidationCall,
    ApiError,
> {
    match api_version {
        None => Err(ApiError::MissingTransactionQueueApi(at)),
        Some(version) => if version >= 3 {
            Ok(ValidationCall::Current)
        } else if version == 2 {
            Ok(ValidationCall::BeforeVersion3)
        } else {
            Ok(ValidationCall::BeforeVersion2)
        },
    }
}

impl ValidationCall {
    /// Whether the block after the given one has to be initialized before
    /// the call.
    pub open spec fn spec_initializes_block(self) -> bool {
        !(self is Current)
    }

    /// Whether the block after the given one has to be initialized before
    /// the call.
    pub fn initializes_block(self) -> (needed: bool)
        ensures
            needed == self.spec_initializes_block(),
    {
        match self {
            ValidationCall::Current => false,
            ValidationCall::BeforeVersion3 => true,
            ValidationCall::BeforeVersion2 => true,
        }
    }
}

/// Decides how to validate a transaction at block `at`, whose runtime offers
/// the transaction queue interface in version `api_version`. Without that
/// interface there is nothing to call.
pub fn validation_call(at: Hash256, api_version: Option<u32>) -> (call: Result<
    ValidationCall,
    ApiError,
>)
    ensures
        call == validation_call_for(at, api_version),
{
    match api_version {
        None => Err(ApiError::MissingTransactionQueueApi(at)),
        Some(version) => {
            if version >= 3 {
                Ok(ValidationCall::Current)
            } else if version == 2 {
                Ok(ValidationCall::BeforeVersion3)
            } else {
                Ok(ValidationCall::BeforeVersion2)
            }
        },
    }
}

/// The number of the block to initialize before a call of an older version:
/// the one after the block with number `number`. A block whose number is not
/// known cannot be followed.
pub fn block_to_initialize(at: Hash256, number: Option<u64>) -> (next: Result<u64, ApiError>)
    requires
        number matches Some(n) ==> n < u64::MAX,
    ensures
        next == match number {
            Some(n) => Ok::<u64, ApiError>((n + 1) as u64),
            None => Err(ApiError::UnknownBlockNumber(at)),
        },
{
    match number {
        Some(n) => Ok(n + 1),
        None => Err(ApiError::UnknownBlockNumber(at)),
    }
}

} // verus!
