use vstd::prelude::*;

use crate::hash::H256;

verus! {

/// Derived per-block bookkeeping, created when a block is stored and read
/// back beside it.  `txs_verified` is a tri-state: `None` means verification
/// was not yet attempted, `Some(false)` that it was attempted and failed.
#[derive(Clone, Copy, PartialEq, Eq, Structural, Debug)]
pub struct BlockExt {
    pub received_at: u64,
    pub total_difficulty: u64,
    pub total_uncles_count: u64,
    pub txs_verified: Option<bool>,
}

/// The physical slice of a stored block body where one transaction's bytes
/// live: block hash, byte offset and byte length.
#[derive(Clone, Copy, PartialEq, Eq, Structural, Debug)]
pub struct TransactionAddress {
    pub block_hash: H256,
    pub offset: u64,
    pub length: u64,
}

/// A byte window of a flat-packed block body: offset and length of one
/// transaction's serialized bytes.
#[derive(Clone, Copy, PartialEq, Eq, Structural, Debug)]
pub struct Address {
    pub offset: u64,
    pub length: u64,
}

} // verus!
