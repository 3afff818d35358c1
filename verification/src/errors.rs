//! Error outcomes of the store's fallible operations.

use vstd::prelude::*;

verus! {

/// Why a store operation was rejected. Every fallible operation reports its
/// failure through this type; none of them panics.
#[derive(Clone, Copy, Debug, PartialEq, Eq, Structural)]
pub enum ShardError {
    /// Admitting another key would push the store past its ceiling.
    ShardFull,
    /// The key asked to be removed is not in the store.
    KeyNotFound,
    /// The shard index or derived address does not belong to this store.
    InvalidShard,
    /// The requested ceiling lies below the number of live entries.
    InvalidCapacity,
}

} // verus!
