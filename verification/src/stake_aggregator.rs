//! Accumulates authority votes toward a stake threshold.

use crate::committee::{quorum_threshold_of, total_stake_of, validity_threshold_of, voted_stake,
    lemma_voted_stake_empty, lemma_voted_stake_insert, lemma_voted_stake_le_total,
    lemma_voted_stake_nonneg, Committee};
use vstd::prelude::*;

verus! {

/// The threshold rule an aggregator is parametrized by.
#[derive(Clone, Copy, PartialEq, Eq, Structural, Debug)]
pub enum ThresholdKind {
    /// At least two thirds of the total stake (`2f + 1`).
    Quorum,
    /// At least one third of the total stake (`f + 1`).
    Validity,
}

/// The stake amount `kind` demands of the given committee.
pub open spec fn threshold_of(kind: ThresholdKind, stakes: Seq<u64>) -> int {
    match kind {
        ThresholdKind::Quorum => quorum_threshold_of(total_stake_of(stakes)),
        ThresholdKind::Validity => validity_threshold_of(total_stake_of(stakes)),
    }
}

/// The abstract effect of one `add` on an aggregator over the given
/// committee: the new vote set, the new accumulated stake, and the returned
/// flag (whether the stake now meets the threshold).
pub open spec fn aggregator_add_spec(
    voted: Set<u32>,
    stakes: Seq<u64>,
    kind: ThresholdKind,
    vote: u32,
) -> (Set<u32>, int, bool) {
    let voted2 = voted.insert(vote);
    let stake2 = voted_stake(stakes, voted2);
    (voted2, stake2, stake2 >= threshold_of(kind, stakes))
}

/// Adding the same author twice has the same effect as adding it once, in
/// both the resulting state and the returned flag.
pub proof fn lemma_aggregator_add_idempotent(
    voted: Set<u32>,
    stakes: Seq<u64>,
    kind: ThresholdKind,
    vote: u32,
)
    ensures
        aggregator_add_spec(
            aggregator_add_spec(voted, stakes, kind, vote).0,
            stakes,
            kind,
            vote,
        ) == aggregator_add_spec(voted, stakes, kind, vote),
{
    assert(voted.insert(vote).insert(vote) =~= voted.insert(vote));
}

/// Set of authorities already counted, with their accumulated stake.
pub struct StakeAggregator {
    pub kind: ThresholdKind,
    pub votes: Vec<u32>,
    pub stake: u64,
}

impl StakeAggregator {
    /// The set of authorities counted so far.
    pub open spec fn voted(&self) -> Set<u32> {
        self.votes@.to_set()
    }

    /// Authorities are recorded once each, lie within the committee, and the
    /// accumulated stake is exactly the stake of the recorded authorities.
    pub open spec fn wf(&self, c: Committee) -> bool {
        &&& self.votes@.no_duplicates()
        &&& forall|i: int|
            0 <= i < self.votes@.len() ==> (#[trigger] self.votes@[i]) < c.stakes@.len()
        &&& self.stake as int == voted_stake(c.stakes@, self.voted())
    }

    /// An empty aggregator for the given threshold rule.
    pub fn new(kind: ThresholdKind) -> (r: Self)
        ensures
            r.kind == kind,
            r.voted() == Set::<u32>::empty(),
            r.stake == 0,
            forall|c: Committee| r.wf(c),
    {
        let r = StakeAggregator { kind, votes: Vec::new(), stake: 0 };
        proof {
            assert(r.voted() =~= Set::<u32>::empty());
            assert forall|c: Committee| r.wf(c) by {
                lemma_voted_stake_empty(c.stakes@);
            }
        }
        r
    }

    /// Resets the aggregator to empty.
    pub fn clear(&mut self)
        ensures
            final(self).kind == old(self).kind,
            final(self).voted() == Set::<u32>::empty(),
            final(self).stake == 0,
            forall|c: Committee| final(self).wf(c),
    {
        self.votes.clear();
        self.stake = 0;
        proof {
            assert(self.voted() =~= Set::<u32>::empty());
            assert forall|c: Committee| self.wf(c) by {
                lemma_voted_stake_empty(c.stakes@);
            }
        }
    }

    /// Records a vote. If the author is new its stake is accumulated;
    /// a repeated author changes nothing. Returns whether the accumulated
    /// stake now meets the aggregator's threshold.
    pub fn add(&mut self, vote: u32, committee: &Committee) -> (r: bool)
        requires
            old(self).wf(*committee),
            committee.wf(),
            vote < committee.spec_size(),
        ensures
            final(self).wf(*committee),
            final(self).kind == old(self).kind,
            (final(self).voted(), final(self).stake as int, r) == aggregator_add_spec(
                old(self).voted(),
                committee.stakes@,
                old(self).kind,
                vote,
            ),
            old(self).voted().contains(vote) ==> *final(self) == *old(self),
    {
        let ghost prior = *self;
        let mut present = false;
        let mut i: usize = 0;
        while i < self.votes.len()
            invariant
                0 <= i <= self.votes@.len(),
                present == exists|j: int| 0 <= j < i && self.votes@[j] == vote,
                *self == prior,
            decreases self.votes@.len() - i,
        {
            if self.votes[i] == vote {
                present = true;
            }
            i = i + 1;
        }
        assert(present == self.votes@.contains(vote));
        if !present {
            proof {
                lemma_voted_stake_insert(committee.stakes@, self.voted(), vote);
                lemma_voted_stake_le_total(committee.stakes@, self.voted().insert(vote));
                lemma_voted_stake_nonneg(committee.stakes@, self.voted());
            }
            let s = committee.stake(vote);
            self.stake = self.stake + s;
            self.votes.push(vote);
            proof {
                assert forall|a: u32|
                    self.voted().contains(a) <==> prior.voted().insert(vote).contains(a) by {
                    vstd::seq_lib::lemma_seq_contains_after_push(prior.votes@, vote, a);
                }
                assert(self.voted() =~= prior.voted().insert(vote));
            }
        } else {
            proof {
                assert(self.votes@.contains(vote));
                assert(self.voted().contains(vote));
                assert(self.voted() =~= prior.voted().insert(vote));
            }
        }
        let threshold = match self.kind {
            ThresholdKind::Quorum => committee.quorum_threshold(),
            ThresholdKind::Validity => committee.validity_threshold(),
        };
        self.stake >= threshold
    }
}

} // verus!
