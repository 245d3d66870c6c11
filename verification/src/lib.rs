//! A single-node proof-of-work ledger: a chain of hash-linked blocks, each
//! holding a batch of value-transfer records, sealed by a brute-force
//! nonce search and re-checked by a full replay of the chain.

pub mod block;
pub mod chain;
mod clock;
pub mod digest;
pub mod laws;
pub mod text;
pub mod transaction;

pub use block::Block;
pub use chain::Blockchain;
pub use transaction::Transaction;
