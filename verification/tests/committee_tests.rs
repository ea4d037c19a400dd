use ledger_core::committee::Committee;
use ledger_core::stake_aggregator::{StakeAggregator, ThresholdKind};

#[test]
fn test_committee_thresholds_equal_stakes() {
    let c = Committee::new(vec![1, 1, 1, 1]).unwrap();
    assert_eq!(c.size(), 4);
    assert_eq!(c.total_stake(), 4);
    assert_eq!(c.quorum_threshold(), 3);
    assert_eq!(c.validity_threshold(), 2);
}

#[test]
fn test_committee_thresholds_basis_points() {
    let c = Committee::new(vec![2500, 2500, 2500, 2500]).unwrap();
    assert_eq!(c.total_stake(), 10000);
    assert_eq!(c.quorum_threshold(), 6667);
    assert_eq!(c.validity_threshold(), 3334);
}

#[test]
fn test_committee_single_authority() {
    let c = Committee::new(vec![5]).unwrap();
    assert_eq!(c.quorum_threshold(), 4);
    assert_eq!(c.validity_threshold(), 2);
    assert_eq!(c.stake(0), 5);
}

#[test]
fn test_committee_rejects_empty_and_overflow() {
    assert!(Committee::new(vec![]).is_none());
    assert!(Committee::new(vec![u64::MAX, 1]).is_none());
}

#[test]
fn test_stake_aggregator_reaches_quorum() {
    let c = Committee::new(vec![1, 1, 1, 1]).unwrap();
    let mut agg = StakeAggregator::new(ThresholdKind::Quorum);
    assert!(!agg.add(0, &c));
    assert!(!agg.add(1, &c));
    assert!(agg.add(2, &c));
    assert!(agg.add(3, &c));
    agg.clear();
    assert_eq!(agg.stake, 0);
    assert!(!agg.add(1, &c));
}

#[test]
fn test_stake_aggregator_add_is_idempotent() {
    // Adding the same author twice has the same effect as adding it once,
    // in both state and return value.
    let c = Committee::new(vec![1, 1, 1, 1]).unwrap();
    let mut agg = StakeAggregator::new(ThresholdKind::Quorum);
    let first = agg.add(0, &c);
    let stake_after_first = agg.stake;
    let votes_after_first = agg.votes.clone();
    let second = agg.add(0, &c);
    assert_eq!(first, second);
    assert_eq!(agg.stake, stake_after_first);
    assert_eq!(agg.votes, votes_after_first);
}

#[test]
fn test_stake_aggregator_validity_threshold() {
    let c = Committee::new(vec![2500, 2500, 2500, 2500]).unwrap();
    let mut agg = StakeAggregator::new(ThresholdKind::Validity);
    assert!(!agg.add(3, &c));
    assert!(agg.add(1, &c));
}

#[test]
fn test_stake_aggregator_weighted_stakes() {
    // One authority holding a supermajority crosses the quorum alone.
    let c = Committee::new(vec![10, 1, 1]).unwrap();
    let mut agg = StakeAggregator::new(ThresholdKind::Quorum);
    // quorum threshold of 12 is 9
    assert_eq!(c.quorum_threshold(), 9);
    assert!(agg.add(0, &c));
}
