//! Decision logic of the bridge action executor.
//!
//! The executor runs as two consumer loops. The signing stage asks the
//! authority aggregator for a validity-threshold certificate and retries with
//! exponential backoff; the execution stage submits one transaction per
//! certificate and interprets the outcome. Both loops live with the process
//! plumbing outside the library; each of their decisions is a verified
//! function here, taking the observed outcome as an argument and returning
//! the new state and a directive.

use crate::bridge_types::{
    BridgeAction, BridgeError, ObjectRef, Owner, SuiAddress, SuiExecutionStatus,
    SuiTransactionBlockEffects, VerifiedCertifiedBridgeAction,
};
use crate::storage::BridgeOrchestratorTables;
use vstd::arithmetic::power2::{lemma2_to64, lemma_pow2_strictly_increases, pow2};
use vstd::bits::lemma_u64_shl_is_mul;
use vstd::prelude::*;

verus! {

/// Capacity of the signing and execution channels.
pub const CHANNEL_SIZE: usize = 1000;

/// A bridge action queued for signing, with the number of attempts already
/// made.
#[derive(Clone, PartialEq, Eq, Debug)]
pub struct BridgeActionExecutionWrapper(pub BridgeAction, pub u64);

/// Largest attempt index that is retried; an action that has already failed
/// this many times is dropped for manual intervention, so at most
/// `MAX_SIGNING_ATTEMPTS + 1` attempts are made in total.
pub const MAX_SIGNING_ATTEMPTS: u64 = 15;

/// Milliseconds to wait before re-enqueueing a certificate whose submission
/// failed on stale gas data.
pub const STALE_GAS_REENQUEUE_DELAY_MS: u64 = 500;

/// What the signing loop does with one aggregation outcome.
#[derive(Clone, PartialEq, Eq, Debug)]
pub enum SigningDecision {
    /// The certificate was produced: hand it to the execution stage.
    Certified(VerifiedCertifiedBridgeAction),
    /// Aggregation failed: re-enqueue the wrapper after the given delay in
    /// milliseconds.
    Retry(BridgeActionExecutionWrapper, u64),
    /// Aggregation failed too often: drop the action and alert the operator.
    GiveUp,
}

/// Decides how the signing stage proceeds after one aggregation attempt for
/// `wrapper` came back as `outcome`. Failures back off exponentially, 100ms
/// doubled at each attempt, until the attempt budget is spent.
pub fn request_signature(
    wrapper: BridgeActionExecutionWrapper,
    outcome: Result<VerifiedCertifiedBridgeAction, BridgeError>,
) -> (r: SigningDecision)
    ensures
        outcome matches Ok(c) ==> r == SigningDecision::Certified(c),
        outcome is Err && wrapper.1 >= MAX_SIGNING_ATTEMPTS ==> r == SigningDecision::GiveUp,
        outcome is Err && wrapper.1 < MAX_SIGNING_ATTEMPTS ==> r == SigningDecision::Retry(
            BridgeActionExecutionWrapper(wrapper.0, (wrapper.1 + 1) as u64),
            (100 * pow2(wrapper.1 as nat)) as u64,
        ),
{
    let BridgeActionExecutionWrapper(action, attempt_times) = wrapper;
    match outcome {
        Ok(certificate) => SigningDecision::Certified(certificate),
        Err(_e) => {
            if attempt_times >= MAX_SIGNING_ATTEMPTS {
                SigningDecision::GiveUp
            } else {
                proof {
                    lemma2_to64();
                    if attempt_times < 14 {
                        lemma_pow2_strictly_increases(attempt_times as nat, 14);
                    }
                    lemma_u64_shl_is_mul(1u64, attempt_times);
                }
                let delay_ms: u64 = 100 * (1u64 << attempt_times);
                SigningDecision::Retry(
                    BridgeActionExecutionWrapper(action, attempt_times + 1),
                    delay_ms,
                )
            }
        },
    }
}

/// The transaction the executor submits for a certificate: a fixed payment
/// built deterministically from the gas object reference in use.
#[derive(Clone, Copy, PartialEq, Eq, Structural, Debug)]
pub struct TransactionData {
    pub sender: SuiAddress,
    pub gas_payment: ObjectRef,
    pub gas_budget: u64,
    pub gas_price: u64,
    pub recipient: SuiAddress,
    pub amount: u64,
}

/// Builds the on-chain transaction for the current gas object reference.
/// The result is a function of that reference alone.
pub fn build_transaction(gas_object_ref: &ObjectRef) -> (r: TransactionData)
    ensures
        r == (TransactionData {
            sender: 0,
            gas_payment: *gas_object_ref,
            gas_budget: 15_000_000,
            gas_price: 1500,
            recipient: 0,
            amount: 1,
        }),
{
    TransactionData {
        sender: 0,
        gas_payment: *gas_object_ref,
        gas_budget: 15_000_000,
        gas_price: 1500,
        recipient: 0,
        amount: 1,
    }
}

/// What the execution loop does next after one submission outcome.
#[derive(Clone, Copy, PartialEq, Eq, Structural, Debug)]
pub enum ExecutionDirective {
    /// Effects were received and handled; take the next certificate.
    Completed,
    /// The gas data was stale: look the gas object up, refresh the reference,
    /// and re-enqueue the certificate after
    /// `STALE_GAS_REENQUEUE_DELAY_MS` milliseconds.
    RefreshAndReenqueue,
    /// The gas object cannot pay: keep the action logged and stop retrying;
    /// an operator must intervene.
    EscalateInsufficientGas,
    /// Transient failure: re-enqueue the certificate.
    Reenqueue,
    /// The gas object is no longer owned by the signer: a protocol invariant
    /// is violated and the process must stop.
    FatalOwnerChanged,
}

/// The new gas object reference after terminal effects, provided the gas
/// object is still owned by the signer address.
pub fn refresh_gas_data_with_effects(
    sui_address: SuiAddress,
    effects: &SuiTransactionBlockEffects,
) -> (r: Option<ObjectRef>)
    ensures
        r == if effects.gas_owner == Owner::AddressOwner(sui_address) {
            Some(effects.gas_object)
        } else {
            None::<ObjectRef>
        },
{
    if effects.gas_owner == Owner::AddressOwner(sui_address) {
        Some(effects.gas_object)
    } else {
        None
    }
}

/// The gas object reference obtained by an explicit lookup, provided the
/// object is still owned by the signer address.
pub fn refresh_gas_data_with_gas_object_id(
    sui_address: SuiAddress,
    gas_obj_ref: ObjectRef,
    owner: Owner,
) -> (r: Option<ObjectRef>)
    ensures
        r == if owner == Owner::AddressOwner(sui_address) {
            Some(gas_obj_ref)
        } else {
            None::<ObjectRef>
        },
{
    if owner == Owner::AddressOwner(sui_address) {
        Some(gas_obj_ref)
    } else {
        None
    }
}

/// Handles the effects of a submitted transaction: on success the action is
/// removed from the pending log, on failure it is kept; either way the gas
/// object reference is refreshed from the effects, and a change of the gas
/// object's owner is a fatal protocol violation.
pub fn handle_execution_effects(
    effects: &SuiTransactionBlockEffects,
    gas_object_ref: &mut ObjectRef,
    sui_address: SuiAddress,
    store: &mut BridgeOrchestratorTables,
    certificate: &VerifiedCertifiedBridgeAction,
) -> (r: Result<(), BridgeError>)
    requires
        old(store).wf(),
    ensures
        final(store).wf(),
        effects.status is Success ==> final(store)@ == old(store)@.remove(
            certificate.spec_action().digest,
        ),
        !(effects.status is Success) ==> final(store)@ == old(store)@,
        r is Ok <==> effects.gas_owner == Owner::AddressOwner(sui_address),
        effects.gas_owner == Owner::AddressOwner(sui_address) ==> *final(gas_object_ref)
            == effects.gas_object,
        effects.gas_owner != Owner::AddressOwner(sui_address) ==> *final(gas_object_ref) == *old(
            gas_object_ref,
        ),
{
    match effects.status() {
        SuiExecutionStatus::Success => {
            let ghost pre = store@;
            let digest = certificate.data().digest();
            let digests = vec![digest];
            store.remove_pending_actions(&digests);
            proof {
                assert(digests@.to_set() =~= Set::<u64>::empty().insert(digest));
                assert(pre.remove_keys(digests@.to_set()) =~= pre.remove(digest));
            }
        },
        SuiExecutionStatus::Failure { error: _ } => {
            // The transaction executed and failed on chain: deterministic,
            // so retries would fail too. The action stays logged for
            // post-mortem and an operator must intervene.
        },
    }
    match refresh_gas_data_with_effects(sui_address, effects) {
        Some(new_ref) => {
            *gas_object_ref = new_ref;
            Ok(())
        },
        None => Err(BridgeError::GasObjectOwnerChanged),
    }
}

/// One step of the execution loop: interprets the outcome of submitting a
/// certificate, updates the gas object reference and the pending log, and
/// says what the loop does next.
///
/// Whenever the effects report a gas object whose version is at least the
/// current one (which the chain guarantees for every terminal transaction
/// spending it), the tracked reference never moves to a smaller version.
pub fn run_onchain_execution_step(
    result: Result<SuiTransactionBlockEffects, BridgeError>,
    gas_object_ref: &mut ObjectRef,
    sui_address: SuiAddress,
    store: &mut BridgeOrchestratorTables,
    certificate: &VerifiedCertifiedBridgeAction,
) -> (r: ExecutionDirective)
    requires
        old(store).wf(),
    ensures
        final(store).wf(),
        result matches Ok(effects) ==> {
            &&& effects.gas_owner == Owner::AddressOwner(sui_address) ==> r
                == ExecutionDirective::Completed && *final(gas_object_ref) == effects.gas_object
            &&& effects.gas_owner != Owner::AddressOwner(sui_address) ==> r
                == ExecutionDirective::FatalOwnerChanged && *final(gas_object_ref) == *old(
                gas_object_ref,
            )
            &&& effects.status is Success ==> final(store)@ == old(store)@.remove(
                certificate.spec_action().digest,
            )
            &&& !(effects.status is Success) ==> final(store)@ == old(store)@
            &&& (effects.gas_owner == Owner::AddressOwner(sui_address)
                && effects.gas_object.version >= old(gas_object_ref).version)
                ==> final(gas_object_ref).version >= old(gas_object_ref).version
        },
        result matches Err(e) ==> {
            &&& final(store)@ == old(store)@
            &&& *final(gas_object_ref) == *old(gas_object_ref)
            &&& r == (match e {
                BridgeError::SuiTxFailureStaleGasData(_) =>
                    ExecutionDirective::RefreshAndReenqueue,
                BridgeError::SuiTxFailureInsufficientGas(_) =>
                    ExecutionDirective::EscalateInsufficientGas,
                _ => ExecutionDirective::Reenqueue,
            })
        },
{
    match result {
        Ok(effects) => {
            match handle_execution_effects(
                &effects,
                gas_object_ref,
                sui_address,
                store,
                certificate,
            ) {
                Ok(()) => ExecutionDirective::Completed,
                Err(_) => ExecutionDirective::FatalOwnerChanged,
            }
        },
        Err(BridgeError::SuiTxFailureStaleGasData(_err)) => {
            // Fixed by refreshing the gas object reference and retrying.
            ExecutionDirective::RefreshAndReenqueue
        },
        Err(BridgeError::SuiTxFailureInsufficientGas(_err)) => {
            // Retries would most likely fail as well; the action stays
            // logged and is picked up again after the node restarts.
            ExecutionDirective::EscalateInsufficientGas
        },
        Err(_err) => {
            // Opaque transient failure: try the certificate again.
            ExecutionDirective::Reenqueue
        },
    }
}

} // verus!
