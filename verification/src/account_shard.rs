//! Sizing help for the flat record that backs a store.
//!
//! Address derivation and the authority-holding account wrapper live with
//! the host program, not here: they go through the host chain's own types.

use vstd::prelude::*;

verus! {

/// Conservative upper bound, in bytes, of the flat record needed to host a
/// store of at most `max_items` entries: an 8-byte record discriminator, a
/// 4-byte list length prefix, per entry the key and value sizes plus 4 bytes
/// of slack for variable-length prefixes, and a 32-byte trailer.
pub fn estimate_shard_account_size(k_size: usize, v_size: usize, max_items: usize) -> (r: usize)
    requires
        k_size + v_size + 4 <= usize::MAX,
        8 + 4 + max_items * (k_size + v_size + 4) + 32 <= usize::MAX,
    ensures
        r == 8 + 4 + max_items * (k_size + v_size + 4) + 32,
{
    8 + 4 + (max_items * (k_size + v_size + 4)) + 32
}

} // verus!
