//! The running instance: its state, the order of its writes, and how it is shut down.

pub mod lifecycle;
pub mod state;
pub mod write_gate;
