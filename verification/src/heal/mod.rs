//! Healing: which objects to check, which are damaged, and how to repair them.

pub mod laws;
pub mod mrf;
pub mod scanner;
pub mod worker;
