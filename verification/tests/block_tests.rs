use fastcrypto::hash::HashFunction;
use ledger_core::block::{Block, BlockAPI, BlockDigest, BlockRef, BlockV1, Transaction, VerifiedBlock};

fn sample_block() -> Block {
    let ancestor = BlockRef::new_test(4, 8, BlockDigest([9u8; 32]));
    Block::V1(BlockV1::new(
        1,
        2,
        3,
        vec![ancestor],
        vec![Transaction::new(vec![1u8, 2, 3])],
    ))
}

#[test]
fn test_transaction_accessors() {
    let tx = Transaction::new(vec![5u8, 6, 7]);
    assert_eq!(tx.data(), &[5u8, 6, 7]);
    assert_eq!(tx.into_data(), vec![5u8, 6, 7]);
}

#[test]
fn test_block_accessors() {
    let block = sample_block();
    assert_eq!(block.round(), 1);
    assert_eq!(block.author(), 2);
    assert_eq!(block.timestamp_ms(), 3);
    assert_eq!(block.ancestors().len(), 1);
    assert_eq!(block.ancestors()[0].round, 8);
    assert_eq!(block.ancestors()[0].author, 4);
}

#[test]
fn test_block_reference_carries_digest() {
    let block = sample_block();
    let reference = block.reference();
    assert_eq!(reference.round, 1);
    assert_eq!(reference.author, 2);
    assert_eq!(reference.digest, block.digest());
}

#[test]
fn test_canonical_serialization_matches_bcs() {
    // The canonical encoding is the BCS encoding of the version tag followed
    // by the fields: round, author, timestamp, ancestors, transactions.
    let block = sample_block();
    let fields: (u32, u32, u64, Vec<(u32, u32, [u8; 32])>, Vec<Vec<u8>>) = (
        1,
        2,
        3,
        vec![(8, 4, [9u8; 32])],
        vec![vec![1u8, 2, 3]],
    );
    let mut expected = vec![0u8];
    expected.extend_from_slice(&bcs::to_bytes(&fields).unwrap());
    assert_eq!(block.serialize(), expected);
}

#[test]
fn test_serialization_length_prefixes() {
    // An empty block: tag, round, author, timestamp, two zero-length lists.
    let block = Block::V1(BlockV1::new(0, 0, 0, vec![], vec![]));
    let bytes = block.serialize();
    assert_eq!(bytes.len(), 1 + 4 + 4 + 8 + 1 + 1);
    assert_eq!(bytes[0], 0);
    assert_eq!(bytes[17], 0);
    assert_eq!(bytes[18], 0);
}

#[test]
fn test_digest_is_hash_of_canonical_bytes() {
    let block = sample_block();
    let expected = fastcrypto::hash::Blake2b256::digest(block.serialize().as_slice()).digest;
    assert_eq!(block.digest().0, expected);
    // Cross-check against an independent BLAKE2b-256 implementation.
    let independent = <blake2::Blake2b256 as blake2::Digest>::digest(block.serialize());
    assert_eq!(block.digest().0.as_slice(), independent.as_slice());
}

#[test]
fn test_digest_distinguishes_blocks() {
    let b1 = Block::V1(BlockV1::new(1, 2, 3, vec![], vec![]));
    let b2 = Block::V1(BlockV1::new(1, 2, 4, vec![], vec![]));
    assert_ne!(b1.digest(), b2.digest());
    // Deterministic: the same content always hashes the same.
    let b3 = Block::V1(BlockV1::new(1, 2, 3, vec![], vec![]));
    assert_eq!(b1.digest(), b3.digest());
}

#[test]
fn test_digest_base64_rendering() {
    let digest = BlockDigest::default();
    assert_eq!(digest.to_base64(), "AAAAAAAAAAAAAAAAAAAAAAAAAAAAAAAAAAAAAAAAAAA=");
}

#[test]
fn test_verified_block_exposes_content() {
    let block = sample_block();
    let digest = block.digest();
    let verified = VerifiedBlock::new_for_test(block);
    assert_eq!(verified.block().digest(), digest);
    assert_eq!(verified.signature, Vec::<u8>::new());
}

#[test]
fn test_serialize_deserialize_roundtrip() {
    // Deserialising a serialised block yields a block with the same fields
    // and therefore the same digest.
    let block = sample_block();
    let bytes = block.serialize();
    let decoded = Block::deserialize(&bytes).unwrap();
    assert_eq!(decoded.round(), block.round());
    assert_eq!(decoded.author(), block.author());
    assert_eq!(decoded.timestamp_ms(), block.timestamp_ms());
    assert_eq!(decoded.ancestors(), block.ancestors());
    assert_eq!(decoded.digest(), block.digest());
    assert_eq!(decoded.serialize(), bytes);
}

#[test]
fn test_deserialize_rejects_garbage() {
    assert!(Block::deserialize(&vec![]).is_none());
    // Wrong version tag.
    assert!(Block::deserialize(&vec![1u8, 0, 0, 0, 0]).is_none());
    // Truncated input.
    let mut bytes = sample_block().serialize();
    bytes.pop();
    assert!(Block::deserialize(&bytes).is_none());
    // Trailing bytes.
    let mut bytes = sample_block().serialize();
    bytes.push(0);
    assert!(Block::deserialize(&bytes).is_none());
}
