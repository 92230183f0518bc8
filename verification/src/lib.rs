//! A deduplicating FIFO queue: a value is enqueued only while no equal value
//! is pending, and leaves in the order in which it was accepted.

pub mod model;
pub mod laws;
pub mod raw;
mod lock;
pub mod concurrent;

pub use concurrent::{ConcurrentSetQueue, Drain};
pub use raw::RawCSQ;
