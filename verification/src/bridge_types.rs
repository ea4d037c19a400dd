//! Value models of the bridge data the executor decides over: actions,
//! certificates, gas object references, owners, effects and errors.

use crate::committee::{validity_threshold_of, total_stake_of, voted_stake, Committee};
use crate::stake_aggregator::{StakeAggregator, ThresholdKind};
use vstd::prelude::*;

verus! {

/// Address of an on-chain account, as an opaque identity.
pub type SuiAddress = u64;

/// Owner of an on-chain object.
#[derive(Clone, Copy, PartialEq, Eq, Structural, Debug)]
pub enum Owner {
    /// Owned by a single address.
    AddressOwner(SuiAddress),
    /// Any other ownership kind (shared, immutable, object-owned).
    Other,
}

/// Reference to one version of an on-chain object. Each successful
/// transaction that spends the object yields a new version.
#[derive(Clone, Copy, PartialEq, Eq, Structural, Hash, Debug)]
pub struct ObjectRef {
    pub object_id: u64,
    pub version: u64,
    pub digest: u64,
}

/// A cross-chain bridge action: an opaque authorization target carrying a
/// stable content digest that keys the write-ahead log.
#[derive(Clone, PartialEq, Eq, Debug)]
pub struct BridgeAction {
    pub digest: u64,
    pub payload: Vec<u8>,
}

impl BridgeAction {
    pub fn new(digest: u64, payload: Vec<u8>) -> (r: Self)
        ensures
            r == (BridgeAction { digest, payload }),
    {
        Self { digest, payload }
    }

    /// The stable content digest of this action.
    pub fn digest(&self) -> (r: u64)
        ensures
            r == self.digest,
    {
        self.digest
    }

    /// An owned copy of this action.
    pub fn duplicate(&self) -> (r: Self)
        ensures
            r.digest == self.digest,
            r.payload@ == self.payload@,
    {
        let mut payload: Vec<u8> = Vec::new();
        let mut i: usize = 0;
        while i < self.payload.len()
            invariant
                0 <= i <= self.payload@.len(),
                payload@ == self.payload@.take(i as int),
            decreases self.payload@.len() - i,
        {
            payload.push(self.payload[i]);
            proof {
                assert(payload@ =~= self.payload@.take(i as int + 1));
            }
            i = i + 1;
        }
        proof {
            assert(self.payload@.take(self.payload@.len() as int) =~= self.payload@);
        }
        BridgeAction { digest: self.digest, payload }
    }
}

/// A bridge action together with evidence that authorities holding at least
/// the validity threshold of stake have signed it. Built only by `certify`.
#[derive(Clone, PartialEq, Eq, Debug)]
pub struct VerifiedCertifiedBridgeAction {
    action: BridgeAction,
}

impl VerifiedCertifiedBridgeAction {
    /// The certified action.
    pub closed spec fn spec_action(&self) -> BridgeAction {
        self.action
    }

    pub fn data(&self) -> (r: &BridgeAction)
        ensures
            *r == self.spec_action(),
    {
        &self.action
    }

    /// Certifies `action` from the distinct signing authorities in
    /// `signers`: succeeds exactly when their stake meets the validity
    /// threshold of the committee.
    pub fn certify(action: BridgeAction, signers: &Vec<u32>, committee: &Committee) -> (r: Option<
        Self,
    >)
        requires
            committee.wf(),
            forall|i: int| 0 <= i < signers@.len() ==> (#[trigger] signers@[i]) < committee.spec_size(),
        ensures
            match r {
                Some(c) => c.spec_action() == action && voted_stake(
                    committee.stakes@,
                    signers@.to_set(),
                ) >= validity_threshold_of(total_stake_of(committee.stakes@)),
                None => voted_stake(committee.stakes@, signers@.to_set())
                    < validity_threshold_of(total_stake_of(committee.stakes@)),
            },
    {
        let mut aggregator = StakeAggregator::new(ThresholdKind::Validity);
        let mut i: usize = 0;
        proof {
            assert(signers@.take(0).to_set() =~= Set::<u32>::empty());
        }
        while i < signers.len()
            invariant
                0 <= i <= signers@.len(),
                aggregator.wf(*committee),
                aggregator.kind == ThresholdKind::Validity,
                committee.wf(),
                forall|k: int|
                    0 <= k < signers@.len() ==> (#[trigger] signers@[k]) < committee.spec_size(),
                aggregator.voted() == signers@.take(i as int).to_set(),
            decreases signers@.len() - i,
        {
            let _ = aggregator.add(signers[i], committee);
            proof {
                assert(signers@.take(i as int + 1) =~= signers@.take(i as int).push(
                    signers@[i as int],
                ));
                assert forall|a: u32|
                    signers@.take(i as int + 1).to_set().contains(a) <==> signers@.take(
                        i as int,
                    ).to_set().insert(signers@[i as int]).contains(a) by {
                    vstd::seq_lib::lemma_seq_contains_after_push(
                        signers@.take(i as int),
                        signers@[i as int],
                        a,
                    );
                }
                assert(signers@.take(i as int + 1).to_set() =~= signers@.take(
                    i as int,
                ).to_set().insert(signers@[i as int]));
            }
            i = i + 1;
        }
        proof {
            assert(signers@.take(signers@.len() as int) =~= signers@);
        }
        let threshold = committee.validity_threshold();
        if aggregator.stake >= threshold {
            Some(Self { action })
        } else {
            None
        }
    }
}

/// Error classes the executor distinguishes; everything else is opaque and
/// treated as transient.
#[derive(Clone, PartialEq, Eq, Debug)]
pub enum BridgeError {
    /// The chain rejected the transaction because the gas object reference
    /// was out of date.
    SuiTxFailureStaleGasData(String),
    /// The chain rejected the transaction because the gas object cannot pay
    /// for it.
    SuiTxFailureInsufficientGas(String),
    /// The gas object is no longer owned by the signer address: a protocol
    /// invariant is violated and the node must stop.
    GasObjectOwnerChanged,
    /// Any other failure.
    Generic(String),
}

/// Execution status reported by transaction effects.
#[derive(Clone, PartialEq, Eq, Debug)]
pub enum SuiExecutionStatus {
    Success,
    Failure { error: String },
}

/// The part of on-chain transaction effects the executor reads: the status
/// and the post-execution gas object with its owner.
#[derive(Clone, PartialEq, Eq, Debug)]
pub struct SuiTransactionBlockEffects {
    pub status: SuiExecutionStatus,
    pub gas_object: ObjectRef,
    pub gas_owner: Owner,
}

impl SuiTransactionBlockEffects {
    pub fn status(&self) -> (r: &SuiExecutionStatus)
        ensures
            *r == self.status,
    {
        &self.status
    }

    pub fn gas_object(&self) -> (r: (ObjectRef, Owner))
        ensures
            r == (self.gas_object, self.gas_owner),
    {
        (self.gas_object, self.gas_owner)
    }
}

} // verus!
