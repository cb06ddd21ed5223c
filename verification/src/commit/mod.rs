//! Commits: how a batch becomes a transaction, and what is recorded of it.

pub mod metadata;
pub mod descriptor;
pub mod preflight;
pub mod prepare;
pub mod apply;
pub mod coordinator;
pub mod durability;
pub mod steps;
