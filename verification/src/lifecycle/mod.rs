//! Lifecycle enforcement: which actions a pass over a bucket takes.

pub mod engine;
pub mod evaluator;
pub mod filter;
pub mod laws;
pub mod types;

pub use engine::{LifecycleEngine, PassStats};
pub use evaluator::Evaluator;
pub use types::{parse_lifecycle_config, unix_now_secs, Action, Event, ObjectOpts};
