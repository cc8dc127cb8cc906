use rust_ledger::block::{genesis_parent, Block};
use rust_ledger::canonical::hash_block;
use rust_ledger::clock::timestamp_from;
use rust_ledger::pow::{count_leading_zero_bits, search, DIFFICULTY_BITS, LAST_NONCE};
use rust_ledger::LedgerError;

const ZEROS: &str = "0000000000000000000000000000000000000000000000000000000000000000";

fn digest_starting(first: &[u8]) -> [u8; 32] {
    let mut digest = [0xffu8; 32];
    digest[..first.len()].copy_from_slice(first);
    digest
}

#[test]
fn leading_zero_bits_of_each_first_bit() {
    assert_eq!(count_leading_zero_bits(&digest_starting(&[0x80])), 0);
    assert_eq!(count_leading_zero_bits(&digest_starting(&[0xff])), 0);
    assert_eq!(count_leading_zero_bits(&digest_starting(&[0x40])), 1);
    assert_eq!(count_leading_zero_bits(&digest_starting(&[0x7f])), 1);
    assert_eq!(count_leading_zero_bits(&digest_starting(&[0x20])), 2);
    assert_eq!(count_leading_zero_bits(&digest_starting(&[0x10])), 3);
    assert_eq!(count_leading_zero_bits(&digest_starting(&[0x08])), 4);
    assert_eq!(count_leading_zero_bits(&digest_starting(&[0x04])), 5);
    assert_eq!(count_leading_zero_bits(&digest_starting(&[0x02])), 6);
    assert_eq!(count_leading_zero_bits(&digest_starting(&[0x01])), 7);
}

#[test]
fn leading_zero_bits_across_bytes() {
    assert_eq!(count_leading_zero_bits(&digest_starting(&[0x00])), 8);
    assert_eq!(count_leading_zero_bits(&digest_starting(&[0x00, 0x00, 0x1f])), 19);
    assert_eq!(count_leading_zero_bits(&digest_starting(&[0x00, 0x01, 0x00])), 15);
    assert_eq!(count_leading_zero_bits(&[0u8; 32]), 256);
    let mut last = [0u8; 32];
    last[31] = 1;
    assert_eq!(count_leading_zero_bits(&last), 255);
}

#[test]
fn ledger_difficulty_and_range() {
    assert_eq!(DIFFICULTY_BITS, 16);
    assert_eq!(LAST_NONCE, i32::MAX);
}

#[test]
fn search_finds_the_first_nonce() {
    let found = search(42, b"payload", ZEROS, 0, 8, LAST_NONCE);
    assert_eq!(
        found,
        Some((
            334,
            String::from("00dcf30e2514d64cd79456148985fa8a4527575accf934994d75f6edb141fc76")
        ))
    );
}

#[test]
fn search_with_no_difficulty_takes_nonce_zero() {
    let found = search(42, b"payload", ZEROS, 0, 0, LAST_NONCE);
    assert_eq!(
        found,
        Some((
            0,
            String::from("ef47663c28c4831c30493f776d21e722dbb7fe346af04a3a054690d693ef5a42")
        ))
    );
}

#[test]
fn search_stops_at_the_last_nonce() {
    assert_eq!(search(42, b"payload", ZEROS, 0, 8, 10), None);
    assert_eq!(search(42, b"payload", ZEROS, 0, 8, 333), None);
    assert_eq!(search(42, b"payload", ZEROS, 0, 8, 334).map(|found| found.0), Some(334));
}

#[test]
fn search_over_an_empty_range_finds_nothing() {
    assert_eq!(search(42, b"payload", ZEROS, 0, 0, -1), None);
    assert_eq!(search(42, b"payload", ZEROS, 0, 0, i32::MIN), None);
}

#[test]
fn search_cannot_meet_more_bits_than_a_digest_has() {
    assert_eq!(search(42, b"payload", ZEROS, 0, 257, 50), None);
}

#[test]
fn no_earlier_nonce_meets_the_difficulty() {
    let (nonce, hash) = search(42, b"payload", ZEROS, 0, 8, LAST_NONCE).unwrap();
    assert!(hash.starts_with("00"));
    assert_eq!(hash, hash_block(42, b"payload", ZEROS, 0, nonce));
    for earlier in 0..nonce {
        assert!(!hash_block(42, b"payload", ZEROS, 0, earlier).starts_with("00"));
    }
}

#[test]
fn mining_is_reproducible() {
    let first = search(1700000000000000001, b"hello", "parent", 1, 12, LAST_NONCE);
    let second = search(1700000000000000001, b"hello", "parent", 1, 12, LAST_NONCE);
    assert!(first.is_some());
    assert_eq!(first, second);
}

#[test]
fn genesis_parent_is_sixty_four_zeros() {
    assert_eq!(genesis_parent(), ZEROS);
}

#[test]
fn seal_gives_the_expected_block() {
    let block = Block::seal(
        1700000000000000000,
        b"Genesis Block".to_vec(),
        genesis_parent(),
        0,
    )
    .unwrap();
    assert_eq!(block.timestamp(), 1700000000000000000);
    assert_eq!(block.payload().as_slice(), b"Genesis Block");
    assert_eq!(block.prev_hash(), ZEROS);
    assert_eq!(block.height(), 0);
    assert_eq!(block.nonce(), 96345);
    assert_eq!(
        block.hash(),
        "0000ebbf3e7901c14401aa3d3e227ac7a8c9df32b8f81ee8c33982ac3924f878"
    );
}

#[test]
fn seal_on_a_parent_at_any_height() {
    let parent = String::from("0000ebbf3e7901c14401aa3d3e227ac7a8c9df32b8f81ee8c33982ac3924f878");
    let block = Block::seal(7, b"skip".to_vec(), parent.clone(), 5).unwrap();
    assert_eq!(block.height(), 5);
    assert_eq!(block.prev_hash(), &parent);
    assert_eq!(block.nonce(), 99330);
    assert_eq!(
        block.hash(),
        "0000a51bf89f594aea5b03588fb555711c19f71c8802d66ad90edb86a03e44ec"
    );
}

#[test]
fn sealed_block_stores_the_hash_of_its_content() {
    let block = Block::seal_with(3, b"abc".to_vec(), String::from("p"), 9, 10, LAST_NONCE).unwrap();
    assert!(block.is_sealed());
    assert_eq!(block.compute_hash(), *block.hash());
    assert_eq!(
        *block.hash(),
        hash_block(
            block.timestamp(),
            block.payload(),
            block.prev_hash(),
            block.height(),
            block.nonce()
        )
    );
}

#[test]
fn sealing_is_reproducible() {
    let one = Block::seal_with(11, b"same".to_vec(), String::from("parent"), 4, 12, LAST_NONCE)
        .unwrap();
    let two = Block::seal_with(11, b"same".to_vec(), String::from("parent"), 4, 12, LAST_NONCE)
        .unwrap();
    assert_eq!(one.nonce(), two.nonce());
    assert_eq!(one.hash(), two.hash());
}

#[test]
fn seal_fails_when_the_range_is_exhausted() {
    let result = Block::seal_with(42, b"payload".to_vec(), genesis_parent(), 0, 8, 333);
    assert_eq!(result.err(), Some(LedgerError::MiningExhausted));
    let result = Block::seal_with(42, b"payload".to_vec(), genesis_parent(), 0, 256, 100);
    assert_eq!(result.err(), Some(LedgerError::MiningExhausted));
}

#[test]
fn seal_refuses_height_zero_on_a_parent() {
    let parent = String::from("0000ebbf3e7901c14401aa3d3e227ac7a8c9df32b8f81ee8c33982ac3924f878");
    let result = Block::seal(1, b"x".to_vec(), parent.clone(), 0);
    assert_eq!(result.err(), Some(LedgerError::InvalidHeight));
    let result = Block::new_block(b"x".to_vec(), parent, 0);
    assert_eq!(result.err(), Some(LedgerError::InvalidHeight));
    let result = Block::seal_with(1, b"x".to_vec(), String::new(), 0, 0, 0);
    assert_eq!(result.err(), Some(LedgerError::InvalidHeight));
}

#[test]
fn invalid_height_comes_before_the_search() {
    let result = Block::seal_with(1, b"x".to_vec(), String::from("parent"), 0, 256, 3);
    assert_eq!(result.err(), Some(LedgerError::InvalidHeight));
}

#[test]
fn new_block_seals_at_the_current_time() {
    let block = Block::new_block(b"now".to_vec(), genesis_parent(), 0).unwrap();
    assert!(block.timestamp() > 1_600_000_000_000_000_000);
    assert_eq!(block.payload().as_slice(), b"now");
    assert_eq!(block.prev_hash(), ZEROS);
    assert_eq!(block.height(), 0);
    assert!(block.nonce() >= 0);
    assert!(block.is_sealed());
    assert!(block.hash().starts_with("0000"));
    let again = Block::seal(block.timestamp(), b"now".to_vec(), genesis_parent(), 0).unwrap();
    assert_eq!(again.nonce(), block.nonce());
    assert_eq!(again.hash(), block.hash());
}

#[test]
fn from_parts_keeps_every_field() {
    let block = Block::from_parts(
        8,
        vec![1, 2, 3],
        String::from("parent"),
        String::from("stored"),
        6,
        -4,
    );
    assert_eq!(block.timestamp(), 8);
    assert_eq!(block.payload(), &vec![1u8, 2, 3]);
    assert_eq!(block.prev_hash(), "parent");
    assert_eq!(block.hash(), "stored");
    assert_eq!(block.height(), 6);
    assert_eq!(block.nonce(), -4);
    assert!(!block.is_sealed());
    assert_eq!(block.compute_hash(), hash_block(8, &[1, 2, 3], "parent", 6, -4));
}

#[test]
fn error_messages() {
    assert_eq!(
        LedgerError::MiningExhausted.message(),
        "proof-of-work search exhausted the nonce domain"
    );
    assert_eq!(LedgerError::InvalidHeight.message(), "height does not fit the claimed parent");
    assert_eq!(LedgerError::InvalidLinkage.message(), "block does not link to the chain tip");
    assert_eq!(
        LedgerError::HashMismatch.message(),
        "stored hash does not match the block content"
    );
    assert_eq!(
        LedgerError::MalformedGenesis.message(),
        "first block is not a well-formed genesis block"
    );
}

#[test]
fn timestamp_of_a_clock_reading() {
    assert_eq!(timestamp_from(Some(1_700_000_000_000_000_000)), 1_700_000_000_000_000_000);
    assert_eq!(timestamp_from(Some(0)), 0);
    assert_eq!(timestamp_from(Some(u128::MAX)), u128::MAX);
    assert_eq!(timestamp_from(None), 0);
}
