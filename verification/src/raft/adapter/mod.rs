//! Decisions of the adapters between the Raft library and the stores.

pub mod fsm;
pub mod log;
pub mod network;
