//! Reconciliation: making the remote store hold what the local tree holds.

pub mod laws;
pub mod machine;
pub mod model;
