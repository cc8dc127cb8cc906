//! The ways in which sealing, appending and validating can fail.

use vstd::prelude::*;

verus! {

/// Why the ledger refused to produce or to accept a block.
#[derive(Clone, Copy, Debug, PartialEq, Eq, Structural)]
pub enum LedgerError {
    /// No nonce of the search domain gave a hash that meets the difficulty.
    MiningExhausted,
    /// A block of height zero was asked for on top of a parent.
    InvalidHeight,
    /// The block's parent hash or height does not continue the chain's tip.
    InvalidLinkage,
    /// The hash stored in a block is not the hash of its other fields.
    HashMismatch,
    /// The first block is missing or is not shaped like a genesis block.
    MalformedGenesis,
}

impl LedgerError {
    /// The text that `message` returns for each error.
    pub open spec fn message_spec(self) -> Seq<char> {
        match self {
            LedgerError::MiningExhausted => "proof-of-work search exhausted the nonce domain"@,
            LedgerError::InvalidHeight => "height does not fit the claimed parent"@,
            LedgerError::InvalidLinkage => "block does not link to the chain tip"@,
            LedgerError::HashMismatch => "stored hash does not match the block content"@,
            LedgerError::MalformedGenesis => "first block is not a well-formed genesis block"@,
        }
    }

    /// A one-line description of the error, for a front end to show.
    pub fn message(&self) -> (text: String)
        ensures
            text@ == self.message_spec(),
    {
        match self {
            LedgerError::MiningExhausted => String::from_str(
                "proof-of-work search exhausted the nonce domain",
            ),
            LedgerError::InvalidHeight => String::from_str("height does not fit the claimed parent"),
            LedgerError::InvalidLinkage => String::from_str("block does not link to the chain tip"),
            LedgerError::HashMismatch => String::from_str(
                "stored hash does not match the block content",
            ),
            LedgerError::MalformedGenesis => String::from_str(
                "first block is not a well-formed genesis block",
            ),
        }
    }
}

} // verus!
