//! A single-writer ledger: signed transactions, balance deltas, a fork
//! tree of proof-of-work blocks, and the assembly of new blocks from a mempool.
pub mod err;
pub mod codec;
pub mod keys;
pub mod balance;
pub mod transaction;
pub mod blockhash;
pub mod block;
pub mod link;
pub mod blockchain;
pub mod ledger;
