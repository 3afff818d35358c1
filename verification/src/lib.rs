//! A capacity-bounded, key-unique associative store.
//!
//! The store keeps an ordered sequence of key/value entries under a fixed
//! ceiling chosen at construction time, and exposes exact, allocation-free
//! capacity accounting so callers can decide whether an operation fits
//! before attempting it.

pub mod account_shard;
pub mod errors;
pub mod model;
pub mod shard;
pub mod traits;

pub use account_shard::estimate_shard_account_size;
pub use errors::ShardError;
pub use shard::CapacityStats;
pub use shard::MappingShard;
pub use traits::ShardKey;
pub use traits::ShardValue;
pub use traits::ShardedMap;
