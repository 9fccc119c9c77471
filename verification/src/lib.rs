//! A fixed-capacity sharded hash map for concurrent use.
//!
//! The shard count is chosen at construction and never changes. A key's shard
//! is its 64-bit hash reduced modulo the shard count; each shard is a bucket of
//! entries behind its own reader-writer lock.

pub mod bucket;
pub mod guard;
pub mod hint;
pub mod index;
pub mod laws;
pub mod map;

pub use crate::guard::ReadGuard;
pub use crate::guard::WriteGuard;
pub use crate::map::ConcurrentFixedHashMap;
