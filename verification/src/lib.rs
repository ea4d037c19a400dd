//! Verified core of a BFT consensus block layer and a bridge action executor.
//!
//! The consensus side provides immutable block values with content-addressed
//! references, a stake-weighted committee model, a stake aggregator, and a
//! threshold clock that advances the local round once a quorum of distinct
//! authors has produced blocks for the current round.
//!
//! The bridge side provides the decision logic of a two-stage pipeline that
//! collects authority signatures on bridge actions and submits the resulting
//! certificates as on-chain transactions, with gas-object lifecycle
//! management and failure-class-specific recovery. Channel plumbing and RPC
//! live outside the library; every decision the pipeline takes is verified
//! here as a function from state and event to new state and directive.

pub mod committee;
pub mod stake_aggregator;

pub mod block;
pub mod threshold_clock;
pub mod bridge_types;
pub mod storage;
pub mod action_executor;
