//! Stake-weighted committee of validators and its two canonical thresholds.

use vstd::arithmetic::div_mod::{lemma_div_is_ordered, lemma_div_multiples_vanish};
use vstd::prelude::*;

verus! {

/// Dense zero-based index of a validator within a committee.
pub type AuthorityIndex = u32;

/// Voting power of a single validator.
pub type Stake = u64;

/// Sum of the stakes of the members of `voted` whose index is below `n`.
pub open spec fn voted_stake_upto(stakes: Seq<u64>, voted: Set<u32>, n: int) -> int
    decreases n,
{
    if n <= 0 {
        0
    } else {
        voted_stake_upto(stakes, voted, n - 1) + if voted.contains((n - 1) as u32) {
            stakes[n - 1] as int
        } else {
            0
        }
    }
}

/// Sum of the stakes of the members of `voted`.
pub open spec fn voted_stake(stakes: Seq<u64>, voted: Set<u32>) -> int {
    voted_stake_upto(stakes, voted, stakes.len() as int)
}

/// Sum of all stakes of the committee.
pub open spec fn total_stake_of(stakes: Seq<u64>) -> int {
    voted_stake_upto(stakes, Set::full(), stakes.len() as int)
}

/// Smallest stake amount that is at least two thirds of the total,
/// i.e. the least `s` with `s >= (2 * total + 1) / 3` rounded up.
pub open spec fn quorum_threshold_of(total: int) -> int {
    (2 * total + 3) / 3
}

/// Smallest stake amount that is at least one third of the total,
/// i.e. the least `s` with `s >= (total + 1) / 3` rounded up.
pub open spec fn validity_threshold_of(total: int) -> int {
    (total + 3) / 3
}

proof fn lemma_voted_stake_upto_empty(stakes: Seq<u64>, voted: Set<u32>, n: int)
    requires
        forall|a: u32| !voted.contains(a),
    ensures
        voted_stake_upto(stakes, voted, n) == 0,
    decreases n,
{
    if n > 0 {
        lemma_voted_stake_upto_empty(stakes, voted, n - 1);
    }
}

/// An empty vote set carries no stake.
pub proof fn lemma_voted_stake_empty(stakes: Seq<u64>)
    ensures
        voted_stake(stakes, Set::empty()) == 0,
{
    lemma_voted_stake_upto_empty(stakes, Set::empty(), stakes.len() as int);
}

proof fn lemma_voted_stake_upto_subset(stakes: Seq<u64>, v1: Set<u32>, v2: Set<u32>, n: int)
    requires
        forall|a: u32| v1.contains(a) ==> v2.contains(a),
    ensures
        voted_stake_upto(stakes, v1, n) <= voted_stake_upto(stakes, v2, n),
    decreases n,
{
    if n > 0 {
        lemma_voted_stake_upto_subset(stakes, v1, v2, n - 1);
    }
}

/// Every vote set within the committee carries at most the total stake.
pub proof fn lemma_voted_stake_le_total(stakes: Seq<u64>, voted: Set<u32>)
    ensures
        voted_stake(stakes, voted) <= total_stake_of(stakes),
{
    lemma_voted_stake_upto_subset(stakes, voted, Set::full(), stakes.len() as int);
}

proof fn lemma_voted_stake_upto_insert(stakes: Seq<u64>, voted: Set<u32>, a: u32, n: int)
    requires
        !voted.contains(a),
        n <= u32::MAX as int + 1,
        a < stakes.len(),
    ensures
        a < n ==> voted_stake_upto(stakes, voted.insert(a), n) == voted_stake_upto(
            stakes,
            voted,
            n,
        ) + stakes[a as int],
        n <= a ==> voted_stake_upto(stakes, voted.insert(a), n) == voted_stake_upto(
            stakes,
            voted,
            n,
        ),
    decreases n,
{
    if n > 0 {
        lemma_voted_stake_upto_insert(stakes, voted, a, n - 1);
    }
}

/// Adding a new voter adds exactly that voter's stake.
pub proof fn lemma_voted_stake_insert(stakes: Seq<u64>, voted: Set<u32>, a: u32)
    requires
        !voted.contains(a),
        a < stakes.len(),
        stakes.len() <= u32::MAX as int + 1,
    ensures
        voted_stake(stakes, voted.insert(a)) == voted_stake(stakes, voted) + stakes[a as int],
{
    lemma_voted_stake_upto_insert(stakes, voted, a, stakes.len() as int);
}

proof fn lemma_voted_stake_upto_nonneg(stakes: Seq<u64>, voted: Set<u32>, n: int)
    ensures
        voted_stake_upto(stakes, voted, n) >= 0,
    decreases n,
{
    if n > 0 {
        lemma_voted_stake_upto_nonneg(stakes, voted, n - 1);
    }
}

/// Stake sums are never negative.
pub proof fn lemma_voted_stake_nonneg(stakes: Seq<u64>, voted: Set<u32>)
    ensures
        voted_stake(stakes, voted) >= 0,
{
    lemma_voted_stake_upto_nonneg(stakes, voted, stakes.len() as int);
}

/// A committee: one stake weight per authority, indexed densely from zero,
/// with the total stake cached at construction.
#[derive(Clone)]
pub struct Committee {
    pub stakes: Vec<Stake>,
    pub total_stake: Stake,
}

impl Committee {
    /// The cached total matches the stakes and authority indices fit in `u32`.
    pub open spec fn wf(&self) -> bool {
        &&& self.total_stake as int == total_stake_of(self.stakes@)
        &&& 1 <= self.stakes@.len()
        &&& self.stakes@.len() <= u32::MAX as int
    }

    pub open spec fn spec_size(&self) -> int {
        self.stakes@.len() as int
    }

    /// Builds a committee from the stake of each authority; `None` when the
    /// committee is empty, larger than the index space, or its total stake
    /// does not fit in a machine word.
    pub fn new(stakes: Vec<Stake>) -> (r: Option<Committee>)
        ensures
            match r {
                Some(c) => c.wf() && c.stakes@ == stakes@,
                None => stakes@.len() == 0 || stakes@.len() > u32::MAX
                    || total_stake_of(stakes@) > u64::MAX,
            },
    {
        if stakes.len() == 0 || stakes.len() > u32::MAX as usize {
            return None;
        }
        let mut total: u64 = 0;
        let mut i: usize = 0;
        while i < stakes.len()
            invariant
                0 <= i <= stakes@.len(),
                total as int == voted_stake_upto(stakes@, Set::full(), i as int),
            decreases stakes@.len() - i,
        {
            let s = stakes[i];
            if total > u64::MAX - s {
                proof {
                    lemma_voted_stake_upto_prefix_le(stakes@, Set::full(), (i + 1) as int);
                }
                return None;
            }
            total = total + s;
            i = i + 1;
        }
        Some(Committee { stakes, total_stake: total })
    }

    /// Number of authorities.
    pub fn size(&self) -> (r: usize)
        ensures
            r as int == self.spec_size(),
    {
        self.stakes.len()
    }

    /// Stake of one authority.
    pub fn stake(&self, authority: AuthorityIndex) -> (r: Stake)
        requires
            authority < self.spec_size(),
        ensures
            r == self.stakes@[authority as int],
    {
        self.stakes[authority as usize]
    }

    /// Total stake of the committee.
    pub fn total_stake(&self) -> (r: Stake)
        requires
            self.wf(),
        ensures
            r as int == total_stake_of(self.stakes@),
    {
        self.total_stake
    }

    /// The quorum threshold (classical `2f + 1` out of `3f + 1`).
    pub fn quorum_threshold(&self) -> (r: Stake)
        requires
            self.wf(),
        ensures
            r as int == quorum_threshold_of(total_stake_of(self.stakes@)),
    {
        let t: u128 = self.total_stake as u128;
        let q: u128 = (2 * t + 3) / 3;
        proof {
            lemma_threshold_fits(t as int);
        }
        q as u64
    }

    /// The validity threshold (`f + 1` out of `3f + 1`).
    pub fn validity_threshold(&self) -> (r: Stake)
        requires
            self.wf(),
        ensures
            r as int == validity_threshold_of(total_stake_of(self.stakes@)),
    {
        let t: u128 = self.total_stake as u128;
        let q: u128 = (t + 3) / 3;
        proof {
            lemma_threshold_fits(t as int);
            lemma_div_is_ordered(t + 3, 2 * t + 3, 3);
        }
        q as u64
    }
}

proof fn lemma_voted_stake_upto_prefix_le(stakes: Seq<u64>, voted: Set<u32>, n: int)
    requires
        0 <= n <= stakes.len(),
    ensures
        voted_stake_upto(stakes, voted, n) <= voted_stake_upto(
            stakes,
            voted,
            stakes.len() as int,
        ),
    decreases stakes.len() - n,
{
    if n < stakes.len() {
        lemma_voted_stake_upto_prefix_le(stakes, voted, n + 1);
    }
}

proof fn lemma_threshold_fits(t: int)
    requires
        0 <= t <= u64::MAX,
    ensures
        (2 * t + 3) / 3 <= u64::MAX,
{
    if t >= 3 {
        lemma_div_is_ordered(2 * t + 3, 3 * t, 3);
        lemma_div_multiples_vanish(t, 3);
    } else {
        lemma_div_is_ordered(2 * t + 3, 9, 3);
    }
}

} // verus!
