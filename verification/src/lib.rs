//! Building blocks of a small executor library: a promise/future cell, a
//! multi-producer multi-consumer queue, and the bookkeeping of a scheduler that
//! hands tasks to its least-loaded worker.

pub mod channel;
pub mod future;
pub mod scheduler;
pub mod sync;
