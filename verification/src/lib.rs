//! A single-writer, append-only ledger: blocks sealed by proof-of-work and
//! linked by SHA-256 hashes, with every function proved against its contract.

pub mod block;
pub mod canonical;
pub mod chain;
pub mod clock;
pub mod encoding;
pub mod error;
pub mod pow;
pub mod sha256;

pub use crate::block::Block;
pub use crate::chain::Blockchain;
pub use crate::error::LedgerError;
