use ledger_core::block::{BlockDigest, BlockRef};
use ledger_core::committee::Committee;
use ledger_core::threshold_clock::ThresholdClock;

fn test_committee() -> Committee {
    Committee::new(vec![1, 1, 1, 1]).unwrap()
}

#[test]
fn test_threshold_clock_add_block() {
    let mut aggregator = ThresholdClock::new(0, test_committee());

    aggregator.add_block(BlockRef::new_test(0, 0, BlockDigest::default()));
    assert_eq!(aggregator.get_round(), 0);
    aggregator.add_block(BlockRef::new_test(1, 0, BlockDigest::default()));
    assert_eq!(aggregator.get_round(), 0);
    aggregator.add_block(BlockRef::new_test(2, 0, BlockDigest::default()));
    assert_eq!(aggregator.get_round(), 1);
    aggregator.add_block(BlockRef::new_test(0, 1, BlockDigest::default()));
    assert_eq!(aggregator.get_round(), 1);
    aggregator.add_block(BlockRef::new_test(3, 1, BlockDigest::default()));
    assert_eq!(aggregator.get_round(), 1);
    aggregator.add_block(BlockRef::new_test(1, 2, BlockDigest::default()));
    assert_eq!(aggregator.get_round(), 2);
    aggregator.add_block(BlockRef::new_test(1, 1, BlockDigest::default()));
    assert_eq!(aggregator.get_round(), 2);
    aggregator.add_block(BlockRef::new_test(2, 5, BlockDigest::default()));
    assert_eq!(aggregator.get_round(), 5);
}

#[test]
fn test_threshold_clock_add_blocks() {
    let mut aggregator = ThresholdClock::new(0, test_committee());

    let block_refs = vec![
        BlockRef::new_test(0, 0, BlockDigest::default()),
        BlockRef::new_test(1, 0, BlockDigest::default()),
        BlockRef::new_test(2, 0, BlockDigest::default()),
        BlockRef::new_test(0, 1, BlockDigest::default()),
        BlockRef::new_test(3, 1, BlockDigest::default()),
        BlockRef::new_test(1, 2, BlockDigest::default()),
        BlockRef::new_test(1, 1, BlockDigest::default()),
        BlockRef::new_test(2, 5, BlockDigest::default()),
    ];

    let result = aggregator.add_blocks(block_refs);
    assert_eq!(Some(5), result);
}

#[test]
fn test_threshold_clock_jump_keeps_single_author() {
    // A higher-round block vacates the current round: only its author counts
    // for the new round, so two more distinct authors are needed to advance.
    let mut clock = ThresholdClock::new(0, test_committee());
    clock.add_block(BlockRef::new_test(0, 0, BlockDigest::default()));
    clock.add_block(BlockRef::new_test(1, 0, BlockDigest::default()));
    clock.add_block(BlockRef::new_test(2, 5, BlockDigest::default()));
    assert_eq!(clock.get_round(), 5);
    clock.add_block(BlockRef::new_test(2, 5, BlockDigest::default()));
    assert_eq!(clock.get_round(), 5);
    clock.add_block(BlockRef::new_test(0, 5, BlockDigest::default()));
    assert_eq!(clock.get_round(), 5);
    clock.add_block(BlockRef::new_test(1, 5, BlockDigest::default()));
    assert_eq!(clock.get_round(), 6);
}

#[test]
fn test_threshold_clock_stale_rounds_ignored() {
    let mut clock = ThresholdClock::new(3, test_committee());
    clock.add_block(BlockRef::new_test(0, 2, BlockDigest::default()));
    clock.add_block(BlockRef::new_test(1, 0, BlockDigest::default()));
    assert_eq!(clock.get_round(), 3);
}

#[test]
fn test_threshold_clock_equivocation_counts_once() {
    // Two blocks by the same author for the same round (different digests)
    // contribute only one author to the quorum.
    let mut clock = ThresholdClock::new(0, test_committee());
    clock.add_block(BlockRef::new_test(0, 0, BlockDigest::default()));
    clock.add_block(BlockRef::new_test(0, 0, BlockDigest([7u8; 32])));
    clock.add_block(BlockRef::new_test(1, 0, BlockDigest::default()));
    assert_eq!(clock.get_round(), 0);
    clock.add_block(BlockRef::new_test(2, 0, BlockDigest::default()));
    assert_eq!(clock.get_round(), 1);
}
