//! Blocks and the sealing operation that makes them.

use vstd::prelude::*;
use crate::canonical::{block_hash, canonical_bytes, hash_block};
use crate::clock::now_nanos;
use crate::encoding::to_hex;
use crate::error::LedgerError;
use crate::sha256::lemma_sha256_len;
use crate::pow::{
    lemma_first_solution_is_least, search, search_result, solves, DIFFICULTY_BITS, LAST_NONCE,
};

verus! {

/// What a block holds, as mathematical values.
pub struct BlockData {
    pub timestamp: u128,
    pub payload: Seq<u8>,
    pub prev_hash: Seq<char>,
    pub hash: Seq<char>,
    pub height: usize,
    pub nonce: i32,
}

/// One unit of the ledger. Its fields can be read and never changed.
#[derive(Clone, Debug)]
pub struct Block {
    /// Nanoseconds since the Unix epoch at which the block was made.
    timestamp: u128,
    /// The content that the block records, never looked into.
    payload: Vec<u8>,
    /// The hash of the block before this one.
    prev_hash: String,
    /// The hash of this block's other fields.
    hash: String,
    /// The position in the chain, counted from zero.
    height: usize,
    /// The value that the proof-of-work search found.
    nonce: i32,
}

impl View for Block {
    type V = BlockData;

    closed spec fn view(&self) -> BlockData {
        BlockData {
            timestamp: self.timestamp,
            payload: self.payload@,
            prev_hash: self.prev_hash@,
            hash: self.hash@,
            height: self.height,
            nonce: self.nonce,
        }
    }
}

/// The parent hash of a block that has no parent: sixty-four zeros.
pub open spec fn genesis_prev_hash() -> Seq<char> {
    Seq::new(64, |i: int| '0')
}

/// The parent hash of a block that has no parent.
pub fn genesis_parent() -> (hash: String)
    ensures
        hash@ == genesis_prev_hash(),
{
    let zeros: [u8; 32] = [0u8; 32];
    let hash = to_hex(zeros.as_slice());
    assert(hash@ =~= genesis_prev_hash());
    hash
}

/// The hash that a block's content has.
pub open spec fn content_hash(block: BlockData) -> Seq<char> {
    block_hash(block.timestamp, block.payload, block.prev_hash, block.height, block.nonce)
}

/// A block is sealed when the hash it stores is the hash of its content.
pub open spec fn sealed(block: BlockData) -> bool {
    block.hash == content_hash(block)
}

/// Only a block without a parent can have height zero.
pub open spec fn height_fits_parent(prev_hash: Seq<char>, height: usize) -> bool {
    height == 0 ==> prev_hash == genesis_prev_hash()
}

/// What sealing gives: the block with the first nonce of `0..=last_nonce`
/// whose hash meets `bits`, or the reason why there is none.
pub open spec fn seal_outcome(
    timestamp: u128,
    payload: Seq<u8>,
    prev_hash: Seq<char>,
    height: usize,
    bits: u32,
    last_nonce: i32,
) -> Result<BlockData, LedgerError> {
    if !height_fits_parent(prev_hash, height) {
        Err(LedgerError::InvalidHeight)
    } else {
        match search_result(timestamp, payload, prev_hash, height, bits, last_nonce) {
            Some(nonce) => Ok(
                BlockData {
                    timestamp,
                    payload,
                    prev_hash,
                    hash: block_hash(timestamp, payload, prev_hash, height, nonce),
                    height,
                    nonce,
                },
            ),
            None => Err(LedgerError::MiningExhausted),
        }
    }
}

/// A block that sealing gives is sealed, holds what was asked for, and its
/// nonce is the least of the range whose hash meets the difficulty.
/// Sealing fails on a height that does not fit the parent, and otherwise
/// only when no nonce of the range will do.
pub proof fn lemma_seal_outcome(
    timestamp: u128,
    payload: Seq<u8>,
    prev_hash: Seq<char>,
    height: usize,
    bits: u32,
    last_nonce: i32,
)
    ensures
        match seal_outcome(timestamp, payload, prev_hash, height, bits, last_nonce) {
            Ok(block) => {
                &&& sealed(block)
                &&& block.hash.len() == 64
                &&& block.timestamp == timestamp
                &&& block.payload == payload
                &&& block.prev_hash == prev_hash
                &&& block.height == height
                &&& 0 <= block.nonce <= last_nonce
                &&& height_fits_parent(prev_hash, height)
                &&& solves(timestamp, payload, prev_hash, height, bits, block.nonce)
                &&& forall|m: i32|
                    0 <= m < block.nonce ==> !solves(
                        timestamp,
                        payload,
                        prev_hash,
                        height,
                        bits,
                        m,
                    )
            },
            Err(error) => if height_fits_parent(prev_hash, height) {
                &&& error == LedgerError::MiningExhausted
                &&& forall|m: i32|
                    0 <= m <= last_nonce ==> !solves(
                        timestamp,
                        payload,
                        prev_hash,
                        height,
                        bits,
                        m,
                    )
            } else {
                error == LedgerError::InvalidHeight
            },
        },
{
    lemma_first_solution_is_least(timestamp, payload, prev_hash, height, bits, 0, last_nonce);
    if let Some(nonce) = search_result(timestamp, payload, prev_hash, height, bits, last_nonce) {
        lemma_sha256_len(canonical_bytes(timestamp, payload, prev_hash, height, nonce));
    }
}

impl Block {
    /// Seals a block at the current time, at the ledger's own difficulty.
    ///
    /// The timestamp is read from the clock, so the contract speaks of the
    /// timestamp that the block got; `seal` is the same operation with the
    /// timestamp given.
    pub fn new_block(data: Vec<u8>, prev_block_hash: String, height: usize) -> (result: Result<
        Block,
        LedgerError,
    >)
        ensures
            match result {
                Ok(block) => {
                    &&& sealed(block@)
                    &&& seal_outcome(
                        block@.timestamp,
                        data@,
                        prev_block_hash@,
                        height,
                        DIFFICULTY_BITS,
                        LAST_NONCE,
                    ) == Ok::<BlockData, LedgerError>(block@)
                },
                Err(error) => exists|timestamp: u128| #[trigger]
                    seal_outcome(
                        timestamp,
                        data@,
                        prev_block_hash@,
                        height,
                        DIFFICULTY_BITS,
                        LAST_NONCE,
                    ) == Err::<BlockData, LedgerError>(error),
            },
            !height_fits_parent(prev_block_hash@, height) ==> result matches Err(
                LedgerError::InvalidHeight,
            ),
    {
        let timestamp = now_nanos();
        Block::seal(timestamp, data, prev_block_hash, height)
    }

    /// Seals a block with the given timestamp, at the ledger's own
    /// difficulty.
    pub fn seal(timestamp: u128, payload: Vec<u8>, prev_hash: String, height: usize) -> (result:
        Result<Block, LedgerError>)
        ensures
            match result {
                Ok(block) => {
                    &&& sealed(block@)
                    &&& seal_outcome(
                        timestamp,
                        payload@,
                        prev_hash@,
                        height,
                        DIFFICULTY_BITS,
                        LAST_NONCE,
                    ) == Ok::<BlockData, LedgerError>(block@)
                },
                Err(error) => seal_outcome(
                    timestamp,
                    payload@,
                    prev_hash@,
                    height,
                    DIFFICULTY_BITS,
                    LAST_NONCE,
                ) == Err::<BlockData, LedgerError>(error),
            },
    {
        Block::seal_with(timestamp, payload, prev_hash, height, DIFFICULTY_BITS, LAST_NONCE)
    }

    /// Seals a block: searches the nonces `0..=last_nonce` for the first
    /// whose hash starts with `bits` zero bits, and stores it with that
    /// hash.
    pub fn seal_with(
        timestamp: u128,
        payload: Vec<u8>,
        prev_hash: String,
        height: usize,
        bits: u32,
        last_nonce: i32,
    ) -> (result: Result<Block, LedgerError>)
        ensures
            match result {
                Ok(block) => {
                    &&& sealed(block@)
                    &&& seal_outcome(timestamp, payload@, prev_hash@, height, bits, last_nonce)
                        == Ok::<BlockData, LedgerError>(block@)
                },
                Err(error) => seal_outcome(timestamp, payload@, prev_hash@, height, bits, last_nonce)
                    == Err::<BlockData, LedgerError>(error),
            },
    {
        if height == 0 {
            let sentinel = genesis_parent();
            if !(prev_hash == sentinel) {
                return Err(LedgerError::InvalidHeight);
            }
        }
        match search(timestamp, payload.as_slice(), prev_hash.as_str(), height, bits, last_nonce) {
            Some((nonce, hash)) => Ok(Block { timestamp, payload, prev_hash, hash, height, nonce }),
            None => Err(LedgerError::MiningExhausted),
        }
    }

    /// Puts a block together from stored fields, as when a chain is read
    /// back from where it was kept. Nothing is checked here: such a block
    /// counts only once `Blockchain::append` or `validate_blocks` accepts
    /// it.
    pub fn from_parts(
        timestamp: u128,
        payload: Vec<u8>,
        prev_hash: String,
        hash: String,
        height: usize,
        nonce: i32,
    ) -> (block: Block)
        ensures
            block@ == (BlockData {
                timestamp,
                payload: payload@,
                prev_hash: prev_hash@,
                hash: hash@,
                height,
                nonce,
            }),
    {
        Block { timestamp, payload, prev_hash, hash, height, nonce }
    }

    /// Nanoseconds since the Unix epoch at which the block was made.
    pub fn timestamp(&self) -> (timestamp: u128)
        ensures
            timestamp == self@.timestamp,
    {
        self.timestamp
    }

    /// The content that the block records.
    pub fn payload(&self) -> (payload: &Vec<u8>)
        ensures
            payload@ == self@.payload,
    {
        &self.payload
    }

    /// The hash of the block before this one.
    pub fn prev_hash(&self) -> (prev_hash: &String)
        ensures
            prev_hash@ == self@.prev_hash,
    {
        &self.prev_hash
    }

    /// The hash stored in the block.
    pub fn hash(&self) -> (hash: &String)
        ensures
            hash@ == self@.hash,
    {
        &self.hash
    }

    /// The position in the chain, counted from zero.
    pub fn height(&self) -> (height: usize)
        ensures
            height == self@.height,
    {
        self.height
    }

    /// The value that the proof-of-work search found.
    pub fn nonce(&self) -> (nonce: i32)
        ensures
            nonce == self@.nonce,
    {
        self.nonce
    }

    /// Hashes the block's content anew.
    pub fn compute_hash(&self) -> (hash: String)
        ensures
            hash@ == content_hash(self@),
    {
        hash_block(
            self.timestamp,
            self.payload.as_slice(),
            self.prev_hash.as_str(),
            self.height,
            self.nonce,
        )
    }

    /// Whether the stored hash is the hash of the content.
    pub fn is_sealed(&self) -> (ok: bool)
        ensures
            ok == sealed(self@),
    {
        let hash = self.compute_hash();
        hash == self.hash
    }
}

} // verus!
