//! Tags of the mappings of a user address space.

use std::sync::Arc;
use vstd::prelude::*;
use super::address::PageAlignedVirtualAddress;
use super::mem_flags::MemFlags;
use super::memory_mapper::{MemoryMapper, MemoryUnmappingError, UnmapRequest};
use super::region::{AccessMask, MemoryRegion};
use crate::num::NonZeroUsize;

verus! {

/// What a mapping of a user address space holds: its current flags, the
/// region that owns the frames, and the ceiling of access that the caller
/// was granted when mapping it (a remap may not go above it).
pub struct MappingTag {
    pub flags: MemFlags,
    pub region: Arc<MemoryRegion>,
    pub grant: AccessMask,
    /// Token of the revocation hook that the mapping keeps alive, if the
    /// mapping came from a capability.
    pub revocation: Option<u64>,
}

/// Whether a range whose unmapping ended with `result` goes back to the
/// address-space allocator: after a successful unmapping, and when nothing
/// was mapped there any more (a second teardown of the same mapping).
pub fn range_released(result: Result<(), MemoryUnmappingError>) -> (r: bool)
    ensures
        r == (result is Ok || result == Err::<(), MemoryUnmappingError>(
            MemoryUnmappingError::NotMapped,
        )),
{
    match result {
        Ok(()) => true,
        Err(MemoryUnmappingError::NotMapped) => true,
        Err(_) => false,
    }
}

/// Tears down the mapping `[base, base + size)`: asks `mapper` for the
/// unmapping of [`range_request`] and tells, by [`range_released`] of the unmapping's result,
/// whether the range goes back to the allocator. Tearing down twice is
/// harmless: the second unmapping finds nothing mapped. What `mapper`
/// returns is up to it, so the result is stated only through
/// [`range_released`].
pub fn unmap_range<M: MemoryMapper>(mapper: &M, base: PageAlignedVirtualAddress, size: NonZeroUsize) -> (r: bool)
{
    let request = range_request(base, size);
    range_released(mapper.unmap(request.va, request.size))
}

/// The unmapping that tears down the mapping `[base, base + size)`.
pub fn range_request(base: PageAlignedVirtualAddress, size: NonZeroUsize) -> (r: UnmapRequest)
    ensures
        r == (UnmapRequest { va: base, size: size@ }),
{
    UnmapRequest { va: base, size: size.get() }
}

} // verus!
