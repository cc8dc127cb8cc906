//! The chain: an append-only sequence of blocks, each linked to the one
//! before it, and the checks that find tampering.

use vstd::prelude::*;
use crate::block::{
    content_hash, genesis_parent, genesis_prev_hash, lemma_seal_outcome, seal_outcome, sealed,
    Block, BlockData,
};
use crate::clock::now_nanos;
use crate::error::LedgerError;
use crate::pow::{DIFFICULTY_BITS, LAST_NONCE};

verus! {

/// The payload of every genesis block: the text "Genesis Block".
pub open spec fn genesis_payload() -> Seq<u8> {
    seq![71u8, 101u8, 110u8, 101u8, 115u8, 105u8, 115u8, 32u8, 66u8, 108u8, 111u8, 99u8, 107u8]
}

/// The first block of a chain has height zero and no parent.
pub open spec fn genesis_shaped(block: BlockData) -> bool {
    block.height == 0 && block.prev_hash == genesis_prev_hash()
}

/// A block continues `parent` when it names the parent's hash and stands
/// one higher.
pub open spec fn links_to(parent: BlockData, block: BlockData) -> bool {
    block.prev_hash == parent.hash && block.height == parent.height + 1
}

/// What is wrong with block `i` of `chain`, if anything: its place in the
/// chain is looked at first, then its hash.
pub open spec fn fault_at(chain: Seq<BlockData>, i: int) -> Option<LedgerError> {
    if i == 0 && !genesis_shaped(chain[0]) {
        Some(LedgerError::MalformedGenesis)
    } else if i > 0 && !links_to(chain[i - 1], chain[i]) {
        Some(LedgerError::InvalidLinkage)
    } else if !sealed(chain[i]) {
        Some(LedgerError::HashMismatch)
    } else {
        None
    }
}

/// A chain is valid when it has a genesis block and no block has a fault.
pub open spec fn chain_valid(chain: Seq<BlockData>) -> bool {
    chain.len() > 0 && forall|i: int| 0 <= i < chain.len() ==> fault_at(chain, i) is None
}

/// `report` names the first block of `chain` that has a fault, and that
/// fault. A chain without blocks lacks its genesis block, at index zero.
pub open spec fn first_fault(chain: Seq<BlockData>, report: (usize, LedgerError)) -> bool {
    if chain.len() == 0 {
        report == (0usize, LedgerError::MalformedGenesis)
    } else {
        &&& report.0 < chain.len()
        &&& fault_at(chain, report.0 as int) == Some(report.1)
        &&& forall|j: int| 0 <= j < report.0 ==> fault_at(chain, j) is None
    }
}

/// The blocks of a slice as mathematical values.
pub open spec fn block_views(blocks: Seq<Block>) -> Seq<BlockData> {
    Seq::new(blocks.len(), |i: int| blocks[i]@)
}

/// In a valid chain every block after the first names the hash of the
/// block before it and stands one higher.
pub proof fn lemma_valid_chain_links(chain: Seq<BlockData>, i: int)
    requires
        chain_valid(chain),
        0 < i < chain.len(),
    ensures
        chain[i].prev_hash == chain[i - 1].hash,
        chain[i].height == chain[i - 1].height + 1,
{
    assert(fault_at(chain, i) is None);
}

/// In a valid chain the first block has height zero and no parent.
pub proof fn lemma_valid_chain_genesis(chain: Seq<BlockData>)
    requires
        chain_valid(chain),
    ensures
        chain[0].height == 0,
        chain[0].prev_hash == genesis_prev_hash(),
{
    assert(fault_at(chain, 0) is None);
}

/// In a valid chain every block stores the hash of its own content.
pub proof fn lemma_valid_chain_sealed(chain: Seq<BlockData>, i: int)
    requires
        chain_valid(chain),
        0 <= i < chain.len(),
    ensures
        chain[i].hash == content_hash(chain[i]),
{
    assert(fault_at(chain, i) is None);
}

proof fn lemma_heights_up_to(chain: Seq<BlockData>, i: int)
    requires
        0 <= i < chain.len(),
        forall|j: int| 0 <= j <= i ==> fault_at(chain, j) is None,
    ensures
        chain[i].height == i,
    decreases i,
{
    assert(fault_at(chain, i) is None);
    if i > 0 {
        lemma_heights_up_to(chain, i - 1);
    }
}

/// In a valid chain a block's height is its index.
pub proof fn lemma_valid_chain_heights(chain: Seq<BlockData>, i: int)
    requires
        chain_valid(chain),
        0 <= i < chain.len(),
    ensures
        chain[i].height == i,
{
    lemma_heights_up_to(chain, i);
}

/// A chain with a first fault is not valid, and no chain has two first
/// faults: what validation reports is fixed by the chain.
pub proof fn lemma_first_fault_unique(
    chain: Seq<BlockData>,
    one: (usize, LedgerError),
    other: (usize, LedgerError),
)
    requires
        first_fault(chain, one),
    ensures
        !chain_valid(chain),
        first_fault(chain, other) ==> one == other,
{
    if chain.len() > 0 && first_fault(chain, other) {
        if one.0 < other.0 {
            assert(fault_at(chain, one.0 as int) is None);
        } else if other.0 < one.0 {
            assert(fault_at(chain, other.0 as int) is None);
        }
    }
}

/// The first block whose height is not its index is where validation
/// stops, if no block before it has a fault: so blocks put in another
/// order, a block left out and a block put in twice are all found.
pub proof fn lemma_misplaced_height_found(chain: Seq<BlockData>, k: int)
    requires
        0 <= k < chain.len() <= usize::MAX,
        forall|j: int| 0 <= j < k ==> fault_at(chain, j) is None,
        chain[k].height != k,
    ensures
        first_fault(
            chain,
            (
                k as usize,
                if k == 0 {
                    LedgerError::MalformedGenesis
                } else {
                    LedgerError::InvalidLinkage
                },
            ),
        ),
{
    if k > 0 {
        lemma_heights_up_to(chain, k - 1);
        assert(!links_to(chain[k - 1], chain[k]));
    } else {
        assert(!genesis_shaped(chain[0]));
    }
}

/// The two blocks differ in one field and agree in the other five.
pub open spec fn differs_in_one_field(a: BlockData, b: BlockData) -> bool {
    (if a.timestamp != b.timestamp {
        1int
    } else {
        0int
    }) + (if a.payload != b.payload {
        1int
    } else {
        0int
    }) + (if a.prev_hash != b.prev_hash {
        1int
    } else {
        0int
    }) + (if a.hash != b.hash {
        1int
    } else {
        0int
    }) + (if a.height != b.height {
        1int
    } else {
        0int
    }) + (if a.nonce != b.nonce {
        1int
    } else {
        0int
    }) == 1
}

/// Changing one field of one block of a valid chain gives a chain whose
/// first fault is at that block: a changed parent hash or height breaks
/// the block's place in the chain, and any other change leaves a stored
/// hash that is not the hash of the content. The one change that escapes
/// is a new timestamp, payload or nonce with the same hash as the old,
/// a collision of SHA-256, which the last premise leaves out.
pub proof fn lemma_tampering_found_at_block(chain: Seq<BlockData>, i: int, forged: BlockData)
    requires
        chain_valid(chain),
        0 <= i < chain.len() <= usize::MAX,
        differs_in_one_field(chain[i], forged),
        forged.prev_hash == chain[i].prev_hash && forged.hash == chain[i].hash && forged.height
            == chain[i].height ==> content_hash(forged) != content_hash(chain[i]),
    ensures
        fault_at(chain.update(i, forged), i) is Some,
        first_fault(chain.update(i, forged), (i as usize, fault_at(chain.update(i, forged), i)->0)),
        forged.prev_hash == chain[i].prev_hash && forged.height == chain[i].height ==> fault_at(
            chain.update(i, forged),
            i,
        ) == Some(LedgerError::HashMismatch),
{
    let changed = chain.update(i, forged);
    assert(fault_at(chain, i) is None);
    assert forall|j: int| 0 <= j < i implies fault_at(changed, j) is None by {
        assert(fault_at(chain, j) is None);
    }
}

fn check_block(blocks: &[Block], i: usize, sentinel: &String) -> (fault: Option<LedgerError>)
    requires
        i < blocks@.len(),
        sentinel@ == genesis_prev_hash(),
    ensures
        fault == fault_at(block_views(blocks@), i as int),
{
    let block = &blocks[i];
    assert(block_views(blocks@)[i as int] == block@);
    if i == 0 {
        if block.height() != 0 || !(*block.prev_hash() == *sentinel) {
            return Some(LedgerError::MalformedGenesis);
        }
    } else {
        let parent = &blocks[i - 1];
        assert(block_views(blocks@)[i - 1] == parent@);
        if !(*block.prev_hash() == *parent.hash()) || parent.height() == usize::MAX
            || block.height() != parent.height() + 1 {
            return Some(LedgerError::InvalidLinkage);
        }
    }
    if block.is_sealed() {
        None
    } else {
        Some(LedgerError::HashMismatch)
    }
}

/// Checks a sequence of blocks from the first to the last: the first must
/// be shaped like a genesis block, every other must continue the one
/// before it, and every one must store the hash of its own content.
/// Reports the first block that fails, and how.
pub fn validate_blocks(blocks: &[Block]) -> (result: Result<(), (usize, LedgerError)>)
    ensures
        result is Ok <==> chain_valid(block_views(blocks@)),
        match result {
            Ok(()) => true,
            Err(report) => first_fault(block_views(blocks@), report),
        },
{
    let ghost chain = block_views(blocks@);
    if blocks.len() == 0 {
        return Err((0, LedgerError::MalformedGenesis));
    }
    let sentinel = genesis_parent();
    let mut i: usize = 0;
    while i < blocks.len()
        invariant
            i <= blocks@.len(),
            chain == block_views(blocks@),
            sentinel@ == genesis_prev_hash(),
            forall|j: int| 0 <= j < i ==> fault_at(chain, j) is None,
        decreases blocks@.len() - i,
    {
        match check_block(blocks, i, &sentinel) {
            Some(error) => {
                proof {
                    lemma_first_fault_unique(chain, (i, error), (i, error));
                }
                return Err((i, error));
            },
            None => {},
        }
        i = i + 1;
    }
    Ok(())
}

/// An append-only chain of blocks that starts with a genesis block.
#[derive(Debug)]
pub struct Blockchain {
    blocks: Vec<Block>,
}

impl View for Blockchain {
    type V = Seq<BlockData>;

    /// The blocks of the chain, the genesis block first.
    closed spec fn view(&self) -> Seq<BlockData> {
        block_views(self.blocks@)
    }
}

/// What sealing the genesis block at `timestamp` gives.
pub open spec fn genesis_outcome(timestamp: u128) -> Result<BlockData, LedgerError> {
    seal_outcome(
        timestamp,
        genesis_payload(),
        genesis_prev_hash(),
        0,
        DIFFICULTY_BITS,
        LAST_NONCE,
    )
}

/// What sealing a block with `payload` on top of `chain` at `timestamp`
/// gives.
pub open spec fn next_block_outcome(chain: Seq<BlockData>, timestamp: u128, payload: Seq<u8>)
    -> Result<BlockData, LedgerError> {
    seal_outcome(
        timestamp,
        payload,
        chain.last().hash,
        chain.len() as usize,
        DIFFICULTY_BITS,
        LAST_NONCE,
    )
}

fn copy_bytes(data: &[u8]) -> (copy: Vec<u8>)
    ensures
        copy@ == data@,
{
    let mut copy: Vec<u8> = Vec::new();
    let mut i: usize = 0;
    while i < data.len()
        invariant
            i <= data@.len(),
            copy@ == data@.take(i as int),
        decreases data@.len() - i,
    {
        copy.push(data[i]);
        assert(data@.take(i + 1) =~= data@.take(i as int).push(data@[i as int]));
        i = i + 1;
    }
    assert(data@.take(i as int) =~= data@);
    copy
}

impl Blockchain {
    /// The chain's invariant: it is valid.
    pub open spec fn wf(&self) -> bool {
        chain_valid(self@)
    }

    /// A chain that holds only a genesis block, sealed at the current
    /// time. Fails with `MiningExhausted` when no nonce seals a genesis
    /// block with the timestamp that the clock gave.
    pub fn new() -> (result: Result<Blockchain, LedgerError>)
        ensures
            match result {
                Ok(chain) => {
                    &&& chain.wf()
                    &&& chain@.len() == 1
                    &&& chain@[0].height == 0
                    &&& chain@[0].prev_hash == genesis_prev_hash()
                    &&& chain@[0].payload == genesis_payload()
                    &&& genesis_outcome(chain@[0].timestamp) == Ok::<BlockData, LedgerError>(
                        chain@[0],
                    )
                },
                Err(error) => {
                    &&& error == LedgerError::MiningExhausted
                    &&& exists|timestamp: u128| #[trigger]
                        genesis_outcome(timestamp) == Err::<BlockData, LedgerError>(error)
                },
            },
    {
        let timestamp = now_nanos();
        Blockchain::new_at(timestamp)
    }

    /// A chain that holds only a genesis block, sealed with the given
    /// timestamp.
    pub fn new_at(timestamp: u128) -> (result: Result<Blockchain, LedgerError>)
        ensures
            match result {
                Ok(chain) => {
                    &&& chain.wf()
                    &&& chain@.len() == 1
                    &&& chain@[0].height == 0
                    &&& chain@[0].prev_hash == genesis_prev_hash()
                    &&& chain@[0].payload == genesis_payload()
                    &&& chain@[0].timestamp == timestamp
                    &&& genesis_outcome(timestamp) == Ok::<BlockData, LedgerError>(chain@[0])
                },
                Err(error) => {
                    &&& error == LedgerError::MiningExhausted
                    &&& genesis_outcome(timestamp) == Err::<BlockData, LedgerError>(error)
                },
            },
    {
        let payload: Vec<u8> = vec![71u8, 101u8, 110u8, 101u8, 115u8, 105u8, 115u8, 32u8, 66u8,
            108u8, 111u8, 99u8, 107u8];
        assert(payload@ =~= genesis_payload());
        proof {
            lemma_seal_outcome(
                timestamp,
                genesis_payload(),
                genesis_prev_hash(),
                0,
                DIFFICULTY_BITS,
                LAST_NONCE,
            );
        }
        match Block::seal(timestamp, payload, genesis_parent(), 0) {
            Ok(block) => {
                let mut blocks: Vec<Block> = Vec::new();
                blocks.push(block);
                let chain = Blockchain { blocks };
                assert(chain@ =~= seq![block@]);
                Ok(chain)
            },
            Err(error) => Err(error),
        }
    }

    /// The number of blocks, which is the height of the last one plus one.
    pub fn len(&self) -> (len: usize)
        ensures
            len == self@.len(),
            self.wf() ==> len == self@.last().height + 1,
    {
        proof {
            if self.wf() {
                lemma_valid_chain_heights(self@, self@.len() - 1);
            }
        }
        self.blocks.len()
    }

    /// The block at `height`, if the chain is that long.
    pub fn get(&self, height: usize) -> (block: Option<&Block>)
        ensures
            match block {
                Some(block) => height < self@.len() && block@ == self@[height as int],
                None => height >= self@.len(),
            },
    {
        if height < self.blocks.len() {
            Some(&self.blocks[height])
        } else {
            None
        }
    }

    /// Adds a block to the end of the chain if it continues the last
    /// block and stores the hash of its own content; otherwise leaves the
    /// chain as it was and says what is wrong with the block.
    pub fn append(&mut self, block: Block) -> (result: Result<(), LedgerError>)
        requires
            old(self).wf(),
        ensures
            final(self).wf(),
            match result {
                Ok(()) => {
                    &&& fault_at(old(self)@.push(block@), old(self)@.len() as int) is None
                    &&& final(self)@ == old(self)@.push(block@)
                },
                Err(error) => {
                    &&& fault_at(old(self)@.push(block@), old(self)@.len() as int) == Some(error)
                    &&& final(self)@ == old(self)@
                },
            },
    {
        let ghost before = self@;
        let ghost grown = before.push(block@);
        let last = self.blocks.len() - 1;
        let tip = &self.blocks[last];
        assert(before[last as int] == tip@);
        proof {
            lemma_valid_chain_heights(before, last as int);
        }
        if !(*block.prev_hash() == *tip.hash()) || block.height() != tip.height() + 1 {
            return Err(LedgerError::InvalidLinkage);
        }
        if !block.is_sealed() {
            return Err(LedgerError::HashMismatch);
        }
        self.blocks.push(block);
        proof {
            assert(self@ =~= grown);
            assert forall|i: int| 0 <= i < grown.len() implies fault_at(grown, i) is None by {
                if i < before.len() {
                    assert(fault_at(before, i) is None);
                }
            }
        }
        Ok(())
    }

    /// Seals a block with `payload` on top of the last block, at the
    /// current time, and appends it. The chain is left as it was when
    /// sealing fails.
    pub fn mine_block(&mut self, payload: &[u8]) -> (result: Result<(), LedgerError>)
        requires
            old(self).wf(),
        ensures
            final(self).wf(),
            match result {
                Ok(()) => {
                    &&& final(self)@.len() == old(self)@.len() + 1
                    &&& final(self)@.drop_last() == old(self)@
                    &&& next_block_outcome(old(self)@, final(self)@.last().timestamp, payload@)
                        == Ok::<BlockData, LedgerError>(final(self)@.last())
                },
                Err(error) => {
                    &&& error == LedgerError::MiningExhausted
                    &&& final(self)@ == old(self)@
                    &&& exists|timestamp: u128| #[trigger]
                        next_block_outcome(old(self)@, timestamp, payload@) == Err::<
                            BlockData,
                            LedgerError,
                        >(error)
                },
            },
    {
        let timestamp = now_nanos();
        self.mine_block_at(timestamp, payload)
    }

    /// Seals a block with `payload` and the given timestamp on top of the
    /// last block, and appends it. The chain is left as it was when
    /// sealing fails.
    pub fn mine_block_at(&mut self, timestamp: u128, payload: &[u8]) -> (result: Result<
        (),
        LedgerError,
    >)
        requires
            old(self).wf(),
        ensures
            final(self).wf(),
            match result {
                Ok(()) => {
                    &&& final(self)@.len() == old(self)@.len() + 1
                    &&& final(self)@.drop_last() == old(self)@
                    &&& next_block_outcome(old(self)@, timestamp, payload@) == Ok::<
                        BlockData,
                        LedgerError,
                    >(final(self)@.last())
                },
                Err(error) => {
                    &&& error == LedgerError::MiningExhausted
                    &&& final(self)@ == old(self)@
                    &&& next_block_outcome(old(self)@, timestamp, payload@) == Err::<
                        BlockData,
                        LedgerError,
                    >(error)
                },
            },
    {
        let ghost before = self@;
        let last = self.blocks.len() - 1;
        let tip = &self.blocks[last];
        assert(before[last as int] == tip@);
        proof {
            lemma_valid_chain_heights(before, last as int);
            lemma_seal_outcome(
                timestamp,
                payload@,
                before.last().hash,
                before.len() as usize,
                DIFFICULTY_BITS,
                LAST_NONCE,
            );
        }
        let parent_hash = tip.hash().clone();
        let height = tip.height() + 1;
        match Block::seal(timestamp, copy_bytes(payload), parent_hash, height) {
            Ok(block) => {
                let result = self.append(block);
                assert(self@.drop_last() =~= before);
                result
            },
            Err(error) => Err(error),
        }
    }

    /// Checks the whole chain, from the genesis block to the last block,
    /// and reports the first block that has a fault.
    pub fn validate(&self) -> (result: Result<(), (usize, LedgerError)>)
        ensures
            result is Ok <==> chain_valid(self@),
            match result {
                Ok(()) => true,
                Err(report) => first_fault(self@, report),
            },
    {
        validate_blocks(self.blocks.as_slice())
    }
}

} // verus!
