//! Synchronisation primitives.

pub mod queue;
