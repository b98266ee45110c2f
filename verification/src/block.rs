use vstd::prelude::*;

use crate::hash::H256;
use crate::transaction::{CellOutputView, ProposalShortId, Transaction, TransactionView};

verus! {

/// A block header.  Its hash is the digest of its serialized bytes.
#[derive(Clone, Copy, PartialEq, Eq, Structural, Hash, Debug)]
pub struct Header {
    pub version: u32,
    pub parent_hash: H256,
    pub timestamp: u64,
    pub number: u64,
    pub difficulty: u64,
}

impl Header {
    pub fn number(&self) -> (r: u64)
        ensures
            r == self.number,
    {
        self.number
    }

    pub fn timestamp(&self) -> (r: u64)
        ensures
            r == self.timestamp,
    {
        self.timestamp
    }

    pub fn difficulty(&self) -> (r: u64)
        ensures
            r == self.difficulty,
    {
        self.difficulty
    }
}

/// An uncle: a competing block remembered by its header.
#[derive(Clone, Copy, PartialEq, Eq, Structural, Hash, Debug)]
pub struct UncleBlock {
    pub header: Header,
}

/// A block: header, uncle list, ordered transactions (transaction 0 is the
/// cellbase), and proposal-id list.
#[derive(Clone, PartialEq, Eq, Hash, Debug)]
pub struct Block {
    pub header: Header,
    pub uncles: Vec<UncleBlock>,
    pub transactions: Vec<Transaction>,
    pub proposals: Vec<ProposalShortId>,
}

/// The mathematical value of a [`Block`].
pub struct BlockView {
    pub header: Header,
    pub uncles: Seq<UncleBlock>,
    pub transactions: Seq<TransactionView>,
    pub proposals: Seq<ProposalShortId>,
}

impl View for Block {
    type V = BlockView;

    open spec fn view(&self) -> BlockView {
        BlockView {
            header: self.header,
            uncles: self.uncles@,
            transactions: self.transactions@.map_values(|t: Transaction| t@),
            proposals: self.proposals@,
        }
    }
}

impl Block {
    pub fn header(&self) -> (r: &Header)
        ensures
            *r == self.header,
    {
        &self.header
    }
}

} // verus!
