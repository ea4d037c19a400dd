//! Advances the local round once a quorum of distinct authors has produced
//! blocks for the round currently being built.

use crate::block::{BlockRef, Round};
use crate::committee::Committee;
use crate::stake_aggregator::{aggregator_add_spec, StakeAggregator, ThresholdKind};
use vstd::prelude::*;

verus! {

/// Relies on std::time::Instant: an opaque reading of the monotonic clock,
/// stored only so callers can measure quorum receipt latency.
#[verifier::external_type_specification]
#[verifier::external_body]
pub struct ExInstant(std::time::Instant);

/// Relies on std::time::Instant::now; nothing is assumed of the value read.
#[verifier::external_body]
fn instant_now() -> std::time::Instant {
    std::time::Instant::now()
}

/// The effect of observing one block reference on the clock's abstract state
/// (the round being built and the set of authors counted for it).
pub open spec fn clock_step(stakes: Seq<u64>, round: u32, voted: Set<u32>, b: BlockRef) -> (
    u32,
    Set<u32>,
) {
    if b.round < round {
        (round, voted)
    } else if b.round > round {
        (b.round, Set::empty().insert(b.author))
    } else {
        let added = aggregator_add_spec(voted, stakes, ThresholdKind::Quorum, b.author);
        if added.2 {
            ((round + 1) as u32, Set::<u32>::empty())
        } else {
            (round, added.0)
        }
    }
}

/// Whether observing `b` completes a quorum for the round being built.
pub open spec fn clock_quorum_reached(
    stakes: Seq<u64>,
    round: u32,
    voted: Set<u32>,
    b: BlockRef,
) -> bool {
    b.round == round && aggregator_add_spec(voted, stakes, ThresholdKind::Quorum, b.author).2
}

/// The effect of observing a sequence of block references in order.
pub open spec fn clock_steps(
    stakes: Seq<u64>,
    round: u32,
    voted: Set<u32>,
    blocks: Seq<BlockRef>,
) -> (u32, Set<u32>)
    decreases blocks.len(),
{
    if blocks.len() == 0 {
        (round, voted)
    } else {
        let first = clock_step(stakes, round, voted, blocks[0]);
        clock_steps(stakes, first.0, first.1, blocks.drop_first())
    }
}

/// One observation never moves the round backwards.
pub proof fn lemma_clock_step_monotonic(stakes: Seq<u64>, round: u32, voted: Set<u32>, b: BlockRef)
    requires
        b.round < u32::MAX,
    ensures
        clock_step(stakes, round, voted, b).0 >= round,
{
}

/// The round never decreases across any sequence of observations.
pub proof fn lemma_clock_steps_monotonic(
    stakes: Seq<u64>,
    round: u32,
    voted: Set<u32>,
    blocks: Seq<BlockRef>,
)
    requires
        forall|i: int| 0 <= i < blocks.len() ==> (#[trigger] blocks[i]).round < u32::MAX,
    ensures
        clock_steps(stakes, round, voted, blocks).0 >= round,
    decreases blocks.len(),
{
    if blocks.len() > 0 {
        lemma_clock_step_monotonic(stakes, round, voted, blocks[0]);
        let first = clock_step(stakes, round, voted, blocks[0]);
        lemma_clock_steps_monotonic(stakes, first.0, first.1, blocks.drop_first());
    }
}

/// Tracks the round being built and the quorum evidence for it.
pub struct ThresholdClock {
    pub aggregator: StakeAggregator,
    pub round: Round,
    pub last_quorum_ts: std::time::Instant,
    pub committee: Committee,
}

impl ThresholdClock {
    /// The aggregator counts quorum stake for this committee.
    pub open spec fn wf(&self) -> bool {
        &&& self.committee.wf()
        &&& self.aggregator.wf(self.committee)
        &&& self.aggregator.kind == ThresholdKind::Quorum
    }

    /// The set of authors counted for the round being built.
    pub open spec fn voted(&self) -> Set<u32> {
        self.aggregator.voted()
    }

    pub fn new(round: Round, committee: Committee) -> (r: Self)
        requires
            committee.wf(),
        ensures
            r.wf(),
            r.round == round,
            r.voted() == Set::<u32>::empty(),
            r.committee == committee,
    {
        Self {
            aggregator: StakeAggregator::new(ThresholdKind::Quorum),
            round,
            last_quorum_ts: instant_now(),
            committee,
        }
    }

    /// Time of receipt of the last quorum.
    pub fn last_quorum_ts(&self) -> std::time::Instant {
        self.last_quorum_ts
    }

    /// Add the block references that have been successfully processed and
    /// advance the round accordingly. If the round has indeed advanced then
    /// the new round is returned, otherwise None is returned.
    pub fn add_blocks(&mut self, blocks: Vec<BlockRef>) -> (r: Option<Round>)
        requires
            old(self).wf(),
            forall|i: int| 0 <= i < blocks@.len() ==> (#[trigger] blocks@[i]).round < u32::MAX,
            forall|i: int|
                0 <= i < blocks@.len() ==> (#[trigger] blocks@[i]).author
                    < old(self).committee.spec_size(),
        ensures
            final(self).wf(),
            final(self).committee == old(self).committee,
            (final(self).round, final(self).voted()) == clock_steps(
                old(self).committee.stakes@,
                old(self).round,
                old(self).voted(),
                blocks@,
            ),
            r == if final(self).round > old(self).round {
                Some(final(self).round)
            } else {
                None::<Round>
            },
    {
        let ghost stakes = self.committee.stakes@;
        let ghost r0 = self.round;
        let ghost v0 = self.voted();
        let previous_round = self.round;
        proof {
            assert(blocks@.skip(0) =~= blocks@);
        }
        let mut i: usize = 0;
        while i < blocks.len()
            invariant
                0 <= i <= blocks@.len(),
                self.wf(),
                self.committee == old(self).committee,
                stakes == self.committee.stakes@,
                forall|k: int| 0 <= k < blocks@.len() ==> (#[trigger] blocks@[k]).round < u32::MAX,
                forall|k: int|
                    0 <= k < blocks@.len() ==> (#[trigger] blocks@[k]).author
                        < self.committee.spec_size(),
                clock_steps(stakes, self.round, self.voted(), blocks@.skip(i as int))
                    == clock_steps(stakes, r0, v0, blocks@),
            decreases blocks@.len() - i,
        {
            let ghost pre_round = self.round;
            let ghost pre_voted = self.voted();
            self.add_block(blocks[i]);
            proof {
                assert(blocks@.skip(i as int)[0] == blocks@[i as int]);
                let stepped = clock_step(stakes, pre_round, pre_voted, blocks@[i as int]);
                assert(stepped.0 == self.round && stepped.1 == self.voted());
                assert(blocks@.skip(i as int).drop_first() =~= blocks@.skip(i as int + 1));
                assert(clock_steps(stakes, pre_round, pre_voted, blocks@.skip(i as int))
                    == clock_steps(stakes, self.round, self.voted(), blocks@.skip(i as int + 1)));
            }
            i = i + 1;
        }
        proof {
            assert(blocks@.skip(blocks@.len() as int) =~= Seq::<BlockRef>::empty());
        }
        if self.round > previous_round {
            return Some(self.round);
        }
        None
    }

    pub fn add_block(&mut self, block: BlockRef)
        requires
            old(self).wf(),
            block.round < u32::MAX,
            block.author < old(self).committee.spec_size(),
        ensures
            final(self).wf(),
            final(self).committee == old(self).committee,
            (final(self).round, final(self).voted()) == clock_step(
                old(self).committee.stakes@,
                old(self).round,
                old(self).voted(),
                block,
            ),
            !clock_quorum_reached(
                old(self).committee.stakes@,
                old(self).round,
                old(self).voted(),
                block,
            ) ==> final(self).last_quorum_ts == old(self).last_quorum_ts,
    {
        if block.round < self.round {
            // Blocks with round less than what we currently build are irrelevant here.
        } else if block.round > self.round {
            // A higher-round block implies its author saw a quorum there; the
            // evidence gathered for the round built so far is vacated.
            self.aggregator.clear();
            let _ = self.aggregator.add(block.author, &self.committee);
            self.round = block.round;
        } else {
            if self.aggregator.add(block.author, &self.committee) {
                // A quorum of distinct authors produced blocks for the
                // current round: advance.
                self.aggregator.clear();
                self.round = block.round + 1;
                self.last_quorum_ts = instant_now();
            }
        }
    }

    pub fn get_round(&self) -> (r: Round)
        ensures
            r == self.round,
    {
        self.round
    }
}

} // verus!
