use ledger_core::action_executor::{
    build_transaction, request_signature, run_onchain_execution_step,
    refresh_gas_data_with_effects, refresh_gas_data_with_gas_object_id,
    BridgeActionExecutionWrapper, ExecutionDirective, SigningDecision,
    MAX_SIGNING_ATTEMPTS, STALE_GAS_REENQUEUE_DELAY_MS, CHANNEL_SIZE,
};
use ledger_core::bridge_types::{
    BridgeAction, BridgeError, ObjectRef, Owner, SuiExecutionStatus,
    SuiTransactionBlockEffects, VerifiedCertifiedBridgeAction,
};
use ledger_core::committee::Committee;
use ledger_core::storage::BridgeOrchestratorTables;

const SIGNER: u64 = 77;

fn gas(version: u64) -> ObjectRef {
    ObjectRef { object_id: 42, version, digest: 100 + version }
}

fn certificate(digest: u64) -> VerifiedCertifiedBridgeAction {
    let committee = Committee::new(vec![1, 1, 1, 1]).unwrap();
    let action = BridgeAction::new(digest, vec![1, 2, 3]);
    VerifiedCertifiedBridgeAction::certify(action, &vec![0, 1], &committee).unwrap()
}

fn success_effects(new_gas: ObjectRef) -> SuiTransactionBlockEffects {
    SuiTransactionBlockEffects {
        status: SuiExecutionStatus::Success,
        gas_object: new_gas,
        gas_owner: Owner::AddressOwner(SIGNER),
    }
}

#[test]
fn test_certify_needs_validity_threshold() {
    let committee = Committee::new(vec![1, 1, 1, 1]).unwrap();
    let action = BridgeAction::new(7, vec![]);
    assert!(VerifiedCertifiedBridgeAction::certify(action.clone(), &vec![0], &committee).is_none());
    // A repeated signer is counted once.
    assert!(VerifiedCertifiedBridgeAction::certify(action.clone(), &vec![0, 0], &committee)
        .is_none());
    let cert = VerifiedCertifiedBridgeAction::certify(action.clone(), &vec![0, 3], &committee)
        .unwrap();
    assert_eq!(cert.data().digest(), 7);
}

#[test]
fn test_executor_success_removes_action_and_advances_gas() {
    let mut store = BridgeOrchestratorTables::new();
    let cert = certificate(7);
    store.insert_pending_actions(vec![cert.data().clone()]);
    assert!(store.contains_pending_action(7));

    let mut gas_ref = gas(1);
    let tx = build_transaction(&gas_ref);
    assert_eq!(tx.gas_payment, gas(1));
    let directive = run_onchain_execution_step(
        Ok(success_effects(gas(2))),
        &mut gas_ref,
        SIGNER,
        &mut store,
        &cert,
    );
    assert_eq!(directive, ExecutionDirective::Completed);
    assert!(!store.contains_pending_action(7));
    assert!(store.get_all_pending_actions().is_empty());
    assert_eq!(gas_ref, gas(2));
}

#[test]
fn test_executor_onchain_failure_keeps_action() {
    let mut store = BridgeOrchestratorTables::new();
    let cert = certificate(8);
    store.insert_pending_actions(vec![cert.data().clone()]);

    let mut gas_ref = gas(1);
    let effects = SuiTransactionBlockEffects {
        status: SuiExecutionStatus::Failure { error: "failure is mother of success".to_string() },
        gas_object: gas(2),
        gas_owner: Owner::AddressOwner(SIGNER),
    };
    let directive =
        run_onchain_execution_step(Ok(effects), &mut gas_ref, SIGNER, &mut store, &cert);
    assert_eq!(directive, ExecutionDirective::Completed);
    // Kept in the log for manual intervention, but gas still refreshed.
    assert!(store.contains_pending_action(8));
    assert_eq!(gas_ref, gas(2));
}

#[test]
fn test_executor_stale_gas_retry() {
    let mut store = BridgeOrchestratorTables::new();
    let cert = certificate(9);
    store.insert_pending_actions(vec![cert.data().clone()]);

    let mut gas_ref = gas(1);
    let tx1 = build_transaction(&gas_ref);
    let directive = run_onchain_execution_step(
        Err(BridgeError::SuiTxFailureStaleGasData("stale gas data".to_string())),
        &mut gas_ref,
        SIGNER,
        &mut store,
        &cert,
    );
    assert_eq!(directive, ExecutionDirective::RefreshAndReenqueue);
    assert_eq!(STALE_GAS_REENQUEUE_DELAY_MS, 500);
    // Still pending, gas untouched until the explicit lookup lands.
    assert!(store.contains_pending_action(9));
    assert_eq!(gas_ref, gas(1));

    // The lookup returns the current reference; the retry builds a distinct
    // transaction.
    gas_ref = refresh_gas_data_with_gas_object_id(SIGNER, gas(5), Owner::AddressOwner(SIGNER))
        .unwrap();
    let tx2 = build_transaction(&gas_ref);
    assert_ne!(tx1, tx2);

    let directive = run_onchain_execution_step(
        Ok(success_effects(gas(6))),
        &mut gas_ref,
        SIGNER,
        &mut store,
        &cert,
    );
    assert_eq!(directive, ExecutionDirective::Completed);
    assert!(store.get_all_pending_actions().is_empty());
    assert_eq!(gas_ref, gas(6));
}

#[test]
fn test_executor_insufficient_gas_escalates() {
    let mut store = BridgeOrchestratorTables::new();
    let cert = certificate(10);
    store.insert_pending_actions(vec![cert.data().clone()]);

    let mut gas_ref = gas(1);
    let directive = run_onchain_execution_step(
        Err(BridgeError::SuiTxFailureInsufficientGas("insufficent gas".to_string())),
        &mut gas_ref,
        SIGNER,
        &mut store,
        &cert,
    );
    assert_eq!(directive, ExecutionDirective::EscalateInsufficientGas);
    assert!(store.contains_pending_action(10));
    assert_eq!(gas_ref, gas(1));
}

#[test]
fn test_executor_transient_error_reenqueues() {
    let mut store = BridgeOrchestratorTables::new();
    let cert = certificate(11);
    store.insert_pending_actions(vec![cert.data().clone()]);

    let mut gas_ref = gas(1);
    let directive = run_onchain_execution_step(
        Err(BridgeError::Generic("small issue".to_string())),
        &mut gas_ref,
        SIGNER,
        &mut store,
        &cert,
    );
    assert_eq!(directive, ExecutionDirective::Reenqueue);
    assert!(store.contains_pending_action(11));
    assert_eq!(gas_ref, gas(1));
}

#[test]
fn test_executor_owner_change_is_fatal() {
    let mut store = BridgeOrchestratorTables::new();
    let cert = certificate(12);
    store.insert_pending_actions(vec![cert.data().clone()]);

    let mut gas_ref = gas(1);
    let effects = SuiTransactionBlockEffects {
        status: SuiExecutionStatus::Success,
        gas_object: gas(2),
        gas_owner: Owner::AddressOwner(SIGNER + 1),
    };
    let directive =
        run_onchain_execution_step(Ok(effects), &mut gas_ref, SIGNER, &mut store, &cert);
    assert_eq!(directive, ExecutionDirective::FatalOwnerChanged);
    // The reference is not taken from a stranger's object.
    assert_eq!(gas_ref, gas(1));
    assert!(refresh_gas_data_with_effects(SIGNER, &success_effects(gas(3))).is_some());
    assert!(
        refresh_gas_data_with_gas_object_id(SIGNER, gas(3), Owner::AddressOwner(SIGNER + 1))
            .is_none()
    );
}

#[test]
fn test_signing_backoff_schedule() {
    let action = BridgeAction::new(13, vec![]);
    let mut wrapper = BridgeActionExecutionWrapper(action, 0);
    let mut delays: Vec<u64> = vec![];
    for _ in 0..4 {
        match request_signature(
            wrapper.clone(),
            Err(BridgeError::Generic("no quorum".to_string())),
        ) {
            SigningDecision::Retry(next, delay) => {
                delays.push(delay);
                wrapper = next;
            }
            _ => panic!("expected a retry"),
        }
    }
    assert_eq!(delays, vec![100, 200, 400, 800]);
    assert_eq!(wrapper.1, 4);

    // Once the aggregator succeeds, the certificate goes to execution.
    let cert = certificate(13);
    match request_signature(wrapper, Ok(cert.clone())) {
        SigningDecision::Certified(c) => assert_eq!(c.data().digest(), 13),
        _ => panic!("expected a certificate"),
    }
}

#[test]
fn test_signing_gives_up_after_attempt_budget() {
    let action = BridgeAction::new(14, vec![]);
    let wrapper = BridgeActionExecutionWrapper(action, MAX_SIGNING_ATTEMPTS);
    let decision =
        request_signature(wrapper, Err(BridgeError::Generic("still failing".to_string())));
    assert_eq!(decision, SigningDecision::GiveUp);
}

#[test]
fn test_signing_last_retry_delay() {
    let action = BridgeAction::new(15, vec![]);
    let wrapper = BridgeActionExecutionWrapper(action, 14);
    match request_signature(wrapper, Err(BridgeError::Generic("late".to_string()))) {
        SigningDecision::Retry(next, delay) => {
            assert_eq!(delay, 100 * (1 << 14));
            assert_eq!(next.1, 15);
        }
        _ => panic!("expected a retry"),
    }
}

#[test]
fn test_storage_insert_remove_get_all() {
    let mut store = BridgeOrchestratorTables::new();
    assert_eq!(CHANNEL_SIZE, 1000);
    store.insert_pending_actions(vec![
        BridgeAction::new(1, vec![1]),
        BridgeAction::new(2, vec![2]),
    ]);
    // Idempotent by key: a second insert of digest 2 supersedes the first.
    store.insert_pending_actions(vec![BridgeAction::new(2, vec![9])]);
    let all = store.get_all_pending_actions();
    assert_eq!(all.len(), 2);
    let two = all.iter().find(|a| a.digest == 2).unwrap();
    assert_eq!(two.payload, vec![9]);

    // Removing an absent digest is not an error.
    store.remove_pending_actions(&vec![5, 1]);
    assert!(!store.contains_pending_action(1));
    assert!(store.contains_pending_action(2));
    store.remove_pending_actions(&vec![2]);
    assert!(store.get_all_pending_actions().is_empty());
}

#[test]
fn test_build_transaction_is_deterministic() {
    let g = gas(3);
    let tx = build_transaction(&g);
    assert_eq!(tx, build_transaction(&g));
    assert_eq!(tx.sender, 0);
    assert_eq!(tx.gas_budget, 15_000_000);
    assert_eq!(tx.gas_price, 1500);
    assert_eq!(tx.amount, 1);
    assert_ne!(tx, build_transaction(&gas(4)));
}
