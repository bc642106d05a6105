//! Bucket policy parsing and evaluation.

pub mod action;
pub mod action_laws;
pub mod eval;
pub mod glob;
pub mod laws;
pub mod types;

pub use action::op_to_action;
pub use eval::Args;
pub use types::{Effect, Policy, Principal, Statement};
