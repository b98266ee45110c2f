//! On-chain state core of a UTXO-model blockchain node.
//!
//! The crate models blocks and transactions as a graph of cells produced and
//! consumed by transactions, resolves a candidate transaction's inputs and
//! dependencies against layered views of that graph, and persists blocks and
//! their derived indices into a column-oriented key/value store that supports
//! both forward attachment and rollback.

pub mod hash;
pub mod capacity;
pub mod transaction;
pub mod block;
pub mod extras;
pub mod codec;
pub mod cell;
pub mod kv;
pub mod store;
