//! The admin interface.

pub mod handlers;
pub mod laws;
pub mod stats;
pub mod types;

pub use stats::HealStats;
