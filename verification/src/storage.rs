//! Write-ahead log of pending bridge actions, keyed by action digest.
//!
//! The executor inserts an action before working on it and removes it only
//! once its effects report success; the surrounding process makes the log
//! durable. The log is modelled as a map from digest to action.

use crate::bridge_types::BridgeAction;
use vstd::prelude::*;

verus! {

/// No two entries share a digest.
pub open spec fn distinct_digests(s: Seq<BridgeAction>) -> bool {
    forall|i: int, j: int|
        0 <= i < j < s.len() ==> (#[trigger] s[i]).digest != (#[trigger] s[j]).digest
}

/// Some entry carries digest `k`.
pub open spec fn has_digest(s: Seq<BridgeAction>, k: u64) -> bool {
    exists|i: int| 0 <= i < s.len() && (#[trigger] s[i]).digest == k
}

/// Index of the entry carrying digest `k` (unique when digests are distinct).
pub open spec fn digest_index(s: Seq<BridgeAction>, k: u64) -> int {
    choose|i: int| 0 <= i < s.len() && (#[trigger] s[i]).digest == k
}

/// The map of pending actions a sequence of entries represents.
pub open spec fn pending_view(s: Seq<BridgeAction>) -> Map<u64, BridgeAction> {
    Map::new(|k: u64| has_digest(s, k), |k: u64| s[digest_index(s, k)])
}

/// Appending an entry with a fresh digest inserts it into the map.
pub proof fn lemma_pending_view_push(s: Seq<BridgeAction>, a: BridgeAction)
    requires
        distinct_digests(s),
        !has_digest(s, a.digest),
    ensures
        distinct_digests(s.push(a)),
        pending_view(s.push(a)) == pending_view(s).insert(a.digest, a),
{
    let t = s.push(a);
    assert forall|i: int, j: int| 0 <= i < j < t.len() implies (#[trigger] t[i]).digest != (
    #[trigger] t[j]).digest by {
        if j == s.len() as int {
            assert(t[i] == s[i]);
        }
    }
    assert forall|k: u64|
        pending_view(t).dom().contains(k) <==> pending_view(s).insert(
            a.digest,
            a,
        ).dom().contains(k) by {
        if has_digest(t, k) {
            let i = digest_index(t, k);
            if i < s.len() {
                assert(s[i].digest == k);
            }
        }
        if has_digest(s, k) {
            let i = digest_index(s, k);
            assert(t[i].digest == k);
        }
        if k == a.digest {
            assert(t[s.len() as int].digest == k);
        }
    }
    assert forall|k: u64| #[trigger]
        pending_view(t).dom().contains(k) implies pending_view(t)[k] == pending_view(s).insert(
        a.digest,
        a,
    )[k] by {
        let i = digest_index(t, k);
        assert(0 <= i < t.len() && t[i].digest == k);
        if k == a.digest {
            if i < s.len() {
                assert(s[i].digest == k);
                assert(false);
            }
            assert(t[i] == a);
        } else {
            assert(i < s.len());
            assert(has_digest(s, k));
            let j = digest_index(s, k);
            assert(s[j].digest == k);
            assert(i == j);
        }
    }
    assert(pending_view(t) =~= pending_view(s).insert(a.digest, a));
}

/// Removing the entry carrying a digest removes that digest from the map.
pub proof fn lemma_pending_view_remove(s: Seq<BridgeAction>, i: int)
    requires
        distinct_digests(s),
        0 <= i < s.len(),
    ensures
        distinct_digests(s.remove(i)),
        pending_view(s.remove(i)) == pending_view(s).remove(s[i].digest),
{
    let t = s.remove(i);
    let k0 = s[i].digest;
    assert forall|p: int, q: int| 0 <= p < q < t.len() implies (#[trigger] t[p]).digest != (
    #[trigger] t[q]).digest by {
        let sp: int = if p < i {
            p
        } else {
            p + 1
        };
        let sq: int = if q < i {
            q
        } else {
            q + 1
        };
        assert(t[p] == s[sp] && t[q] == s[sq]);
    }
    assert forall|k: u64|
        pending_view(t).dom().contains(k) <==> pending_view(s).remove(k0).dom().contains(k) by {
        if has_digest(t, k) {
            let p = digest_index(t, k);
            let sp: int = if p < i {
                p
            } else {
                p + 1
            };
            assert(t[p] == s[sp]);
            assert(s[sp].digest == k);
            assert(k != k0);
        }
        if has_digest(s, k) && k != k0 {
            let p = digest_index(s, k);
            assert(s[p].digest == k);
            assert(p != i);
            if p < i {
                assert(t[p] == s[p]);
            } else {
                assert(t[p - 1] == s[p]);
            }
        }
    }
    assert forall|k: u64| #[trigger]
        pending_view(t).dom().contains(k) implies pending_view(t)[k] == pending_view(s).remove(
        k0,
    )[k] by {
        let p = digest_index(t, k);
        assert(0 <= p < t.len() && t[p].digest == k);
        let sp: int = if p < i {
            p
        } else {
            p + 1
        };
        assert(t[p] == s[sp]);
        assert(has_digest(s, k));
        let q = digest_index(s, k);
        assert(s[q].digest == k);
        assert(q == sp);
    }
    assert(pending_view(t) =~= pending_view(s).remove(k0));
}

/// In-memory representation of the pending-action log.
pub struct BridgeOrchestratorTables {
    pub actions: Vec<BridgeAction>,
}

impl View for BridgeOrchestratorTables {
    type V = Map<u64, BridgeAction>;

    open spec fn view(&self) -> Map<u64, BridgeAction> {
        pending_view(self.actions@)
    }
}

/// The effect of inserting a batch of actions, in order, into a map.
pub open spec fn insert_all(m: Map<u64, BridgeAction>, s: Seq<BridgeAction>) -> Map<
    u64,
    BridgeAction,
>
    decreases s.len(),
{
    if s.len() == 0 {
        m
    } else {
        insert_all(m, s.drop_last()).insert(s.last().digest, s.last())
    }
}

impl BridgeOrchestratorTables {
    /// Entry digests stay distinct, so the map determines the contents.
    pub open spec fn wf(&self) -> bool {
        distinct_digests(self.actions@)
    }

    /// An empty log.
    pub fn new() -> (r: Self)
        ensures
            r.wf(),
            r@ == Map::<u64, BridgeAction>::empty(),
    {
        let r = BridgeOrchestratorTables { actions: Vec::new() };
        proof {
            assert(r@ =~= Map::<u64, BridgeAction>::empty());
        }
        r
    }

    fn find_index(&self, digest: u64) -> (r: Option<usize>)
        ensures
            match r {
                Some(i) => i < self.actions@.len() && self.actions@[i as int].digest == digest,
                None => !has_digest(self.actions@, digest),
            },
    {
        let mut i: usize = 0;
        while i < self.actions.len()
            invariant
                0 <= i <= self.actions@.len(),
                forall|j: int| 0 <= j < i ==> (#[trigger] self.actions@[j]).digest != digest,
            decreases self.actions@.len() - i,
        {
            if self.actions[i].digest == digest {
                return Some(i);
            }
            i = i + 1;
        }
        None
    }

    /// Stores a batch of pending actions; idempotent by digest, with later
    /// entries superseding earlier ones of the same digest.
    pub fn insert_pending_actions(&mut self, actions: Vec<BridgeAction>)
        requires
            old(self).wf(),
        ensures
            final(self).wf(),
            final(self)@ == insert_all(old(self)@, actions@),
    {
        let ghost all = actions@;
        let ghost m0 = self@;
        let mut actions = actions;
        proof {
            vstd::std_specs::vec::axiom_spec_len(&actions);
            assert(all.skip(0) =~= all);
        }
        let mut i: usize = 0;
        while actions.len() > 0
            invariant
                self.wf(),
                all.len() <= usize::MAX,
                i + actions@.len() == all.len(),
                actions@ == all.skip(i as int),
                insert_all(self@, actions@) == insert_all(m0, all),
            decreases actions@.len(),
        {
            let ghost pre = self@;
            let ghost rest = actions@;
            let a = actions.remove(0);
            self.insert_pending_action(a);
            proof {
                assert(rest.drop_first() =~= all.skip(i as int + 1));
                lemma_insert_all_step(pre, rest);
            }
            i = i + 1;
        }
        proof {
            assert(actions@.len() == 0);
        }
    }

    fn insert_pending_action(&mut self, action: BridgeAction)
        requires
            old(self).wf(),
        ensures
            final(self).wf(),
            final(self)@ == old(self)@.insert(action.digest, action),
    {
        let ghost s0 = self.actions@;
        let ghost k = action.digest;
        match self.find_index(action.digest) {
            Some(i) => {
                let removed = self.actions.remove(i);
                proof {
                    lemma_pending_view_remove(s0, i as int);
                    lemma_pending_view_push(self.actions@, action);
                    assert(pending_view(s0).remove(k).insert(k, action) =~= pending_view(
                        s0,
                    ).insert(k, action));
                }
                self.actions.push(action);
            },
            None => {
                proof {
                    lemma_pending_view_push(self.actions@, action);
                }
                self.actions.push(action);
            },
        }
    }

    /// Removes the given digests; digests that are not present are ignored.
    pub fn remove_pending_actions(&mut self, digests: &Vec<u64>)
        requires
            old(self).wf(),
        ensures
            final(self).wf(),
            final(self)@ == old(self)@.remove_keys(digests@.to_set()),
    {
        let ghost m0 = self@;
        let mut i: usize = 0;
        proof {
            assert(m0.remove_keys(digests@.take(0).to_set()) =~= m0);
        }
        while i < digests.len()
            invariant
                0 <= i <= digests@.len(),
                self.wf(),
                self@ == m0.remove_keys(digests@.take(i as int).to_set()),
            decreases digests@.len() - i,
        {
            let ghost pre = self@;
            let k = digests[i];
            match self.find_index(k) {
                Some(idx) => {
                    proof {
                        lemma_pending_view_remove(self.actions@, idx as int);
                    }
                    let _ = self.actions.remove(idx);
                },
                None => {
                },
            }
            proof {
                let ghost kk = digests@[i as int];
                assert(digests@.take(i as int + 1) =~= digests@.take(i as int).push(kk));
                assert forall|a: u64|
                    digests@.take(i as int + 1).to_set().contains(a) <==> digests@.take(
                        i as int,
                    ).to_set().insert(kk).contains(a) by {
                    vstd::seq_lib::lemma_seq_contains_after_push(digests@.take(i as int), kk, a);
                }
                assert(digests@.take(i as int + 1).to_set() =~= digests@.take(
                    i as int,
                ).to_set().insert(kk));
                assert(self@ =~= m0.remove_keys(digests@.take(i as int + 1).to_set()));
            }
            i = i + 1;
        }
        proof {
            assert(digests@.take(digests@.len() as int) =~= digests@);
        }
    }

    /// Whether an action with this digest is pending.
    pub fn contains_pending_action(&self, digest: u64) -> (r: bool)
        ensures
            r == self@.dom().contains(digest),
    {
        match self.find_index(digest) {
            Some(_) => true,
            None => false,
        }
    }

    /// A consistent snapshot of all pending actions. Each returned entry
    /// mirrors the logged action under its digest.
    pub fn get_all_pending_actions(&self) -> (r: Vec<BridgeAction>)
        requires
            self.wf(),
        ensures
            r@.len() == self.actions@.len(),
            forall|i: int|
                0 <= i < r@.len() ==> (#[trigger] r@[i]).digest == self.actions@[i].digest
                    && r@[i].payload@ == self.actions@[i].payload@,
            forall|i: int| 0 <= i < r@.len() ==> self@.dom().contains((#[trigger] r@[i]).digest),
            forall|k: u64| #[trigger] self@.dom().contains(k) ==> has_digest(r@, k),
    {
        let mut r: Vec<BridgeAction> = Vec::new();
        let mut i: usize = 0;
        while i < self.actions.len()
            invariant
                0 <= i <= self.actions@.len(),
                r@.len() == i,
                forall|j: int|
                    0 <= j < i ==> (#[trigger] r@[j]).digest == self.actions@[j].digest
                        && r@[j].payload@ == self.actions@[j].payload@,
            decreases self.actions@.len() - i,
        {
            r.push(self.actions[i].duplicate());
            i = i + 1;
        }
        proof {
            assert forall|j: int| 0 <= j < r@.len() implies self@.dom().contains(
                (#[trigger] r@[j]).digest,
            ) by {
                assert(self.actions@[j].digest == r@[j].digest);
            }
            assert forall|k: u64| #[trigger] self@.dom().contains(k) implies has_digest(r@, k) by {
                let j = digest_index(self.actions@, k);
                assert(r@[j].digest == k);
            }
        }
        r
    }
}

proof fn lemma_insert_all_step(m: Map<u64, BridgeAction>, s: Seq<BridgeAction>)
    requires
        s.len() > 0,
    ensures
        insert_all(m, s) == insert_all(m.insert(s[0].digest, s[0]), s.drop_first()),
    decreases s.len(),
{
    if s.len() == 1 {
        assert(s.drop_last() =~= Seq::<BridgeAction>::empty());
        assert(s.drop_first() =~= Seq::<BridgeAction>::empty());
        assert(s.last() == s[0]);
        assert(insert_all(m, s) == insert_all(m, s.drop_last()).insert(s.last().digest, s.last()));
        assert(insert_all(m, s.drop_last()) == m);
        assert(insert_all(m.insert(s[0].digest, s[0]), s.drop_first()) == m.insert(
            s[0].digest,
            s[0],
        ));
    } else {
        let m1 = m.insert(s[0].digest, s[0]);
        lemma_insert_all_step(m, s.drop_last());
        assert(s.drop_last()[0] == s[0]);
        assert(s.drop_first().drop_last() =~= s.drop_last().drop_first());
        assert(s.drop_first().last() == s.last());
        assert(s.drop_first().len() > 0);
        assert(insert_all(m1, s.drop_first()) == insert_all(
            m1,
            s.drop_first().drop_last(),
        ).insert(s.drop_first().last().digest, s.drop_first().last()));
        assert(insert_all(m1, s.drop_first().drop_last()) == insert_all(
            m1,
            s.drop_last().drop_first(),
        ));
        assert(insert_all(m1, s.drop_last().drop_first()) == insert_all(m, s.drop_last()));
        assert(insert_all(m, s) == insert_all(m, s.drop_last()).insert(s.last().digest, s.last()));
    }
}

} // verus!
