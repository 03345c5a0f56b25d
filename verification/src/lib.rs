//! A fixed-capacity key/value cache that evicts in first-in-first-out order.
//!
//! When a new key arrives at a full cache, the key that has been resident the
//! longest leaves, however often or recently it was read or updated.
//!
//! * [`model`] is the mathematical model: a capacity, the eviction order and the table.
//! * [`cache`] is the executable cache, whose contracts are stated over the model.
//! * [`laws`] holds the properties of the model that callers can rely on.
//!
//! The cache is not synchronized: a caller that shares it between threads
//! wraps it in a lock of its own.

pub mod cache;
pub mod laws;
pub mod model;

pub use cache::FifoCache;
