//! Plain data shared by every component of the pool.

use vstd::bytes::{
    lemma_auto_spec_u128_to_from_le_bytes, spec_u128_from_le_bytes, spec_u128_to_le_bytes,
    u128_from_le_bytes, u128_to_le_bytes,
};
use vstd::prelude::*;
use vstd::slice::slice_subrange;

verus! {

/// Position of a transaction inside the body of a block.
pub type TxIndex = usize;

/// A 256-bit hash, used for transactions and for blocks alike.
///
/// The 32 bytes are held as two numbers: `first_half` is made of bytes 0 to
/// 15 and `second_half` of bytes 16 to 31, each with its first byte as the
/// lowest.
#[derive(Clone, Copy, Debug, PartialEq, Eq, Structural, Hash)]
pub struct Hash256 {
    pub first_half: u128,
    pub second_half: u128,
}

impl Hash256 {
    /// The 32 bytes of the hash, in order.
    pub open spec fn bytes(self) -> Seq<u8> {
        spec_u128_to_le_bytes(self.first_half) + spec_u128_to_le_bytes(self.second_half)
    }

    /// The hash with the given 32 bytes.
    pub fn from_bytes(bytes: &[u8; 32]) -> (h: Hash256)
        ensures
            h.bytes() == bytes@,
    {
        let all = bytes.as_slice();
        let first = slice_subrange(all, 0, 16);
        let second = slice_subrange(all, 16, 32);
        let h = Hash256 {
            first_half: u128_from_le_bytes(first),
            second_half: u128_from_le_bytes(second),
        };
        proof {
            lemma_auto_spec_u128_to_from_le_bytes();
            assert(h.bytes() =~= bytes@);
        }
        h
    }

    /// The 32 bytes of the hash, in order.
    pub fn to_bytes(&self) -> (bytes: Vec<u8>)
        ensures
            bytes@ == self.bytes(),
            bytes@.len() == 32,
    {
        let mut bytes = u128_to_le_bytes(self.first_half);
        let mut second = u128_to_le_bytes(self.second_half);
        bytes.append(&mut second);
        bytes
    }

    /// The hash whose 32 bytes are all zero.
    pub fn zero() -> (h: Hash256)
        ensures
            h.bytes() == Seq::new(32, |i: int| 0u8),
    {
        Hash256::repeat_byte(0)
    }

    /// The hash whose 32 bytes all equal `byte`.
    pub fn repeat_byte(byte: u8) -> (h: Hash256)
        ensures
            h.bytes() == Seq::new(32, |i: int| byte),
    {
        let bytes: [u8; 32] = [byte;32];
        let h = Hash256::from_bytes(&bytes);
        assert(bytes@ =~= Seq::new(32, |i: int| byte));
        h
    }

    /// Two hashes with the same bytes are the same hash.
    pub proof fn lemma_bytes_tell_hashes_apart(self, other: Hash256)
        requires
            self.bytes() == other.bytes(),
        ensures
            self == other,
    {
        lemma_auto_spec_u128_to_from_le_bytes();
        let a = spec_u128_to_le_bytes(self.first_half);
        let b = spec_u128_to_le_bytes(self.second_half);
        let c = spec_u128_to_le_bytes(other.first_half);
        let d = spec_u128_to_le_bytes(other.second_half);
        assert(a =~= (a + b).subrange(0, 16));
        assert(c =~= (c + d).subrange(0, 16));
        assert(b =~= (a + b).subrange(16, 32));
        assert(d =~= (c + d).subrange(16, 32));
        assert(spec_u128_from_le_bytes(a) == self.first_half);
        assert(spec_u128_from_le_bytes(b) == self.second_half);
    }
}

/// A block, named by its hash and its number.
#[derive(Clone, Copy, Debug, PartialEq, Eq, Structural)]
pub struct HashAndNumber {
    pub hash: Hash256,
    pub number: u64,
}

/// Where a transaction came from. It is an input of validation and never
/// changes after submission.
#[derive(Clone, Copy, Debug, PartialEq, Eq, Structural)]
pub enum TransactionSource {
    /// The transaction is already part of a block.
    InBlock,
    /// The transaction was produced by the node itself.
    Local,
    /// The transaction was received from outside the node.
    External,
}

/// An event in the life of a transaction, as a view reports it and as the
/// submitter receives it.
#[derive(Clone, Debug, PartialEq, Eq)]
pub enum TransactionStatus {
    /// The transaction waits for a dependency that is not in the pool yet.
    Future,
    /// The transaction can be included in a block.
    Ready,
    /// The transaction was announced to the given peers.
    Broadcast(Vec<String>),
    /// The transaction is part of the given block, at the given index.
    InBlock(Hash256, TxIndex),
    /// The block that held the transaction was abandoned.
    Retracted(Hash256),
    /// The given block was not finalized in time.
    FinalityTimeout(Hash256),
    /// The transaction is part of the given finalized block.
    Finalized(Hash256, TxIndex),
    /// The transaction was replaced by the one with the given hash.
    Usurped(Hash256),
    /// The transaction was dropped from the pool.
    Dropped,
    /// The transaction is no longer valid.
    Invalid,
}

impl TransactionStatus {
    /// A terminal status ends the stream that delivers it.
    pub open spec fn is_terminal(self) -> bool {
        self is Finalized || self is Invalid
    }
}

} // verus!
