//! Sizing rules for the serving layer's cache tiers: which payloads the
//! in-process tier and the networked tier accept.

use vstd::prelude::*;

verus! {

/// The largest payload the in-process cache tier stores, in bytes.
pub const MAX_MEMORY_ENTRY_SIZE: u32 = 1024 * 1024;

/// The largest payload the networked cache tier stores, in bytes.
pub const MAX_REDIS_SIZE: usize = 5 * 1024 * 1024;

/// Whether a payload is small enough for the in-process cache tier.
pub fn fits_in_memory(data: &[u8]) -> (r: bool)
    ensures
        r == (data@.len() <= MAX_MEMORY_ENTRY_SIZE),
{
    data.len() <= MAX_MEMORY_ENTRY_SIZE as usize
}

/// Whether a payload is small enough for the networked cache tier.
pub fn fits_in_redis(data: &[u8]) -> (r: bool)
    ensures
        r == (data@.len() <= MAX_REDIS_SIZE),
{
    data.len() <= MAX_REDIS_SIZE
}

} // verus!
