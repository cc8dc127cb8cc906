use rust_ledger::block::genesis_parent;
use rust_ledger::chain::validate_blocks;
use rust_ledger::{Block, Blockchain, LedgerError};

const ZEROS: &str = "0000000000000000000000000000000000000000000000000000000000000000";

fn three_blocks() -> Blockchain {
    let mut chain = Blockchain::new_at(1700000000000000000).unwrap();
    chain.mine_block_at(1700000000000000001, b"hello").unwrap();
    chain.mine_block_at(1700000000000000002, b"world").unwrap();
    chain
}

fn copy_of(chain: &Blockchain) -> Vec<Block> {
    (0..chain.len()).map(|i| chain.get(i).unwrap().clone()).collect()
}

/// A copy of `block` in which one field, chosen by `field`, is changed.
fn tampered(block: &Block, field: usize) -> Block {
    let mut timestamp = block.timestamp();
    let mut payload = block.payload().clone();
    let mut prev_hash = block.prev_hash().clone();
    let mut hash = block.hash().clone();
    let mut height = block.height();
    let mut nonce = block.nonce();
    match field {
        0 => timestamp ^= 1,
        1 => payload[0] ^= 1,
        2 => prev_hash = prev_hash.replacen('0', "1", 1),
        3 => hash = hash.replacen('0', "1", 1),
        4 => height ^= 1,
        _ => nonce ^= 1,
    }
    Block::from_parts(timestamp, payload, prev_hash, hash, height, nonce)
}

#[test]
fn bootstrap_gives_one_valid_genesis_block() {
    let chain = Blockchain::new().unwrap();
    assert_eq!(chain.len(), 1);
    assert_eq!(chain.validate(), Ok(()));
    let genesis = chain.get(0).unwrap();
    assert_eq!(genesis.height(), 0);
    assert_eq!(genesis.prev_hash(), ZEROS);
    assert_eq!(genesis.payload().as_slice(), b"Genesis Block");
    assert!(genesis.is_sealed());
    assert!(chain.get(1).is_none());
}

#[test]
fn bootstrap_at_a_given_time_is_reproducible() {
    let chain = Blockchain::new_at(1700000000000000000).unwrap();
    assert_eq!(chain.len(), 1);
    assert_eq!(chain.validate(), Ok(()));
    let genesis = chain.get(0).unwrap();
    assert_eq!(genesis.timestamp(), 1700000000000000000);
    assert_eq!(genesis.height(), 0);
    assert_eq!(genesis.prev_hash(), ZEROS);
    assert_eq!(genesis.nonce(), 96345);
    assert_eq!(
        genesis.hash(),
        "0000ebbf3e7901c14401aa3d3e227ac7a8c9df32b8f81ee8c33982ac3924f878"
    );
}

#[test]
fn mine_one_block_on_a_fresh_chain() {
    let mut chain = Blockchain::new().unwrap();
    chain.mine_block(b"hello").unwrap();
    assert_eq!(chain.len(), 2);
    assert_eq!(chain.get(1).unwrap().prev_hash(), chain.get(0).unwrap().hash());
    assert_eq!(chain.get(1).unwrap().height(), 1);
    assert_eq!(chain.get(1).unwrap().payload().as_slice(), b"hello");
    assert_eq!(chain.validate(), Ok(()));
}

#[test]
fn mined_blocks_have_the_expected_nonces() {
    let chain = three_blocks();
    assert_eq!(chain.len(), 3);
    let first = chain.get(1).unwrap();
    assert_eq!(first.nonce(), 44504);
    assert_eq!(first.hash(), "00005bc4ed14c47ddb291006533d5b14769cbbe773809a6f12be58fedf3f13dd");
    let second = chain.get(2).unwrap();
    assert_eq!(second.nonce(), 104891);
    assert_eq!(second.hash(), "000046b98c89a84d61134c28da8d0c1dd83a030e0ea7ddedd9b1e06f961b8f1a");
    assert_eq!(second.timestamp(), 1700000000000000002);
    assert_eq!(second.payload().as_slice(), b"world");
}

#[test]
fn every_block_links_to_the_one_before() {
    let chain = three_blocks();
    assert_eq!(chain.validate(), Ok(()));
    for i in 1..chain.len() {
        let block = chain.get(i).unwrap();
        let parent = chain.get(i - 1).unwrap();
        assert_eq!(block.prev_hash(), parent.hash());
        assert_eq!(block.height(), parent.height() + 1);
        assert_eq!(block.height(), i);
    }
    for i in 0..chain.len() {
        assert!(chain.get(i).unwrap().is_sealed());
    }
}

#[test]
fn corrupted_genesis_payload_fails_at_index_zero() {
    let mut chain = Blockchain::new().unwrap();
    chain.mine_block(b"hello").unwrap();
    let mut copy = copy_of(&chain);
    assert_eq!(validate_blocks(&copy), Ok(()));
    copy[0] = tampered(&copy[0], 1);
    assert_eq!(validate_blocks(&copy), Err((0, LedgerError::HashMismatch)));
    assert_eq!(chain.validate(), Ok(()));
}

#[test]
fn append_refuses_a_block_that_skips_a_height() {
    let mut chain = Blockchain::new().unwrap();
    let tip_hash = chain.get(0).unwrap().hash().clone();
    let block = Block::new_block(b"skipped".to_vec(), tip_hash, 5).unwrap();
    assert_eq!(chain.append(block), Err(LedgerError::InvalidLinkage));
    assert_eq!(chain.len(), 1);
    assert_eq!(chain.validate(), Ok(()));
}

#[test]
fn append_refuses_a_block_on_another_parent() {
    let mut chain = three_blocks();
    let genesis_hash = chain.get(0).unwrap().hash().clone();
    let block = Block::seal(5, b"fork".to_vec(), genesis_hash, 3).unwrap();
    assert_eq!(chain.append(block), Err(LedgerError::InvalidLinkage));
    let duplicate = chain.get(2).unwrap().clone();
    assert_eq!(chain.append(duplicate), Err(LedgerError::InvalidLinkage));
    assert_eq!(chain.len(), 3);
}

#[test]
fn append_refuses_a_block_whose_hash_does_not_match() {
    let mut chain = three_blocks();
    let tip_hash = chain.get(2).unwrap().hash().clone();
    let good = Block::seal(9, b"next".to_vec(), tip_hash, 3).unwrap();
    for field in [0usize, 1, 3, 5] {
        assert_eq!(chain.append(tampered(&good, field)), Err(LedgerError::HashMismatch));
        assert_eq!(chain.len(), 3);
    }
    assert_eq!(chain.append(tampered(&good, 2)), Err(LedgerError::InvalidLinkage));
    assert_eq!(chain.append(tampered(&good, 4)), Err(LedgerError::InvalidLinkage));
    assert_eq!(chain.len(), 3);
    assert_eq!(chain.append(good), Ok(()));
    assert_eq!(chain.len(), 4);
    assert_eq!(chain.validate(), Ok(()));
}

#[test]
fn append_accepts_a_block_sealed_elsewhere() {
    let mut chain = Blockchain::new_at(1700000000000000000).unwrap();
    let tip_hash = chain.get(0).unwrap().hash().clone();
    let block = Block::seal(1700000000000000001, b"hello".to_vec(), tip_hash, 1).unwrap();
    assert_eq!(chain.append(block), Ok(()));
    assert_eq!(chain.len(), 2);
    assert_eq!(chain.get(1).unwrap().nonce(), 44504);
}

#[test]
fn tampering_with_any_field_is_found_at_that_block() {
    let chain = three_blocks();
    for index in 0..3usize {
        for field in 0..6usize {
            let mut copy = copy_of(&chain);
            copy[index] = tampered(&copy[index], field);
            let expected = if field == 2 || field == 4 {
                if index == 0 {
                    LedgerError::MalformedGenesis
                } else {
                    LedgerError::InvalidLinkage
                }
            } else {
                LedgerError::HashMismatch
            };
            assert_eq!(
                validate_blocks(&copy),
                Err((index, expected)),
                "block {} field {}",
                index,
                field
            );
        }
    }
}

#[test]
fn validation_reports_the_first_of_two_faults() {
    let chain = three_blocks();
    let mut copy = copy_of(&chain);
    copy[2] = tampered(&copy[2], 1);
    copy[1] = tampered(&copy[1], 5);
    assert_eq!(validate_blocks(&copy), Err((1, LedgerError::HashMismatch)));
}

#[test]
fn validation_finds_reordered_blocks() {
    let chain = three_blocks();
    let mut copy = copy_of(&chain);
    copy.swap(1, 2);
    assert_eq!(validate_blocks(&copy), Err((1, LedgerError::InvalidLinkage)));
    let mut copy = copy_of(&chain);
    copy.swap(0, 1);
    assert_eq!(validate_blocks(&copy), Err((0, LedgerError::MalformedGenesis)));
}

#[test]
fn validation_finds_gaps_and_duplicates() {
    let chain = three_blocks();
    let mut gap = copy_of(&chain);
    gap.remove(1);
    assert_eq!(validate_blocks(&gap), Err((1, LedgerError::InvalidLinkage)));
    let mut twice = copy_of(&chain);
    let again = twice[1].clone();
    twice.insert(1, again);
    assert_eq!(validate_blocks(&twice), Err((2, LedgerError::InvalidLinkage)));
}

#[test]
fn validation_finds_a_malformed_genesis() {
    let chain = three_blocks();
    let copy = copy_of(&chain);
    assert_eq!(validate_blocks(&copy[1..]), Err((0, LedgerError::MalformedGenesis)));
    assert_eq!(validate_blocks(&[]), Err((0, LedgerError::MalformedGenesis)));
    let resealed = Block::seal(1, b"Genesis Block".to_vec(), String::from("parent"), 1).unwrap();
    assert_eq!(validate_blocks(&[resealed]), Err((0, LedgerError::MalformedGenesis)));
}

#[test]
fn validation_accepts_a_genesis_with_any_payload() {
    let genesis = Block::seal(3, b"another start".to_vec(), genesis_parent(), 0).unwrap();
    assert_eq!(validate_blocks(&[genesis]), Ok(()));
}

#[test]
fn get_and_len_agree() {
    let chain = three_blocks();
    assert_eq!(chain.len(), 3);
    for i in 0..3usize {
        assert_eq!(chain.get(i).unwrap().height(), i);
    }
    assert!(chain.get(3).is_none());
    assert!(chain.get(usize::MAX).is_none());
}

#[test]
fn mine_a_block_with_an_empty_payload() {
    let mut chain = Blockchain::new_at(1700000000000000000).unwrap();
    chain.mine_block(b"").unwrap();
    assert_eq!(chain.len(), 2);
    assert!(chain.get(1).unwrap().payload().is_empty());
    assert_eq!(chain.validate(), Ok(()));
}
