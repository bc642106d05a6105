//! Raft-backed control plane: state machine and persistence formats.

pub mod adapter;
pub mod fsm;
pub mod laws;
pub mod storage;
pub mod types;

pub use fsm::{AbixioStateMachine, Op, State, VoterKind};
