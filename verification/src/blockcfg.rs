//! The block-level data the chain core works on.
//!
//! The core never interprets a block's payload: all it reads of a block is
//! its own content hash, the hash of its parent and its date. Those are
//! carried here as plain values, so every decision made on them can be
//! stated and checked exactly.

use vstd::prelude::*;

verus! {

/// Content identifier of a block header; used as map key and as the
/// pointer from a block to its parent.
pub type BlockHash = u64;

/// The date (slot number) a block was produced for.
pub type BlockDate = u64;

/// Identifier of a transaction.
pub type TransactionId = u64;

/// A block header: the block's own content hash, the hash of the header
/// of the block it extends, and its date.
#[derive(Clone, Copy, PartialEq, Eq, Structural, Debug)]
pub struct Header {
    pub hash: BlockHash,
    pub parent: BlockHash,
    pub date: BlockDate,
}

impl Header {
    /// The content hash of this header.
    pub fn compute_hash(&self) -> (r: BlockHash)
        ensures
            r == self.hash,
    {
        self.hash
    }

    /// The hash of the header this one declares as its parent.
    pub fn get_previous_header(&self) -> (r: BlockHash)
        ensures
            r == self.parent,
    {
        self.parent
    }
}

/// A block: its header. The chain core reads nothing of a block but the
/// header fields, so the payload carries no further structure here.
#[derive(Clone, Copy, PartialEq, Eq, Structural, Debug)]
pub struct Block {
    pub header: Header,
}

impl Block {
    pub fn get_header(&self) -> (r: Header)
        ensures
            r == self.header,
    {
        self.header
    }
}

/// A pending transaction: its identifier and an opaque payload.
#[derive(Clone, PartialEq, Eq, Debug)]
pub struct Transaction {
    pub id: TransactionId,
    pub payload: Vec<u8>,
}

/// A derived, recomputable summary of the chain ending at `last_block`:
/// the tip's hash, its date (`None` for the empty chain ending at the
/// genesis hash) and the count of blocks from genesis to the tip,
/// inclusive. Replaced wholesale on a tip switch, never mutated field by
/// field.
#[derive(Clone, Copy, PartialEq, Eq, Debug)]
pub struct ChainState {
    pub last_block: BlockHash,
    pub last_date: Option<BlockDate>,
    pub chain_length: u64,
}

/// What the chain core needs of the genesis configuration: the hash every
/// chain starts from (the declared parent of the first real block).
#[derive(Clone, Copy, PartialEq, Eq, Structural, Debug)]
pub struct GenesisData {
    pub genesis_prev: BlockHash,
}

} // verus!
