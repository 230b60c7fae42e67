//! The interface of an address-space mapper.

use vstd::prelude::*;
use super::address::{PageAlignedAddress, PageAlignedVirtualAddress};
use super::mem_flags::MemFlags;

verus! {

/// Failure to map memory.
#[derive(Debug, Clone, Copy, PartialEq, Eq, Structural)]
pub enum MemoryMappingError {
    /// Frames or page-table memory ran out.
    OutOfMemory,
    /// The virtual range cannot be mapped.
    VirtualMappingError,
}

/// Failure to unmap memory.
#[derive(Debug, Clone, Copy, PartialEq, Eq, Structural)]
pub enum MemoryUnmappingError {
    /// Nothing is mapped there.
    NotMapped,
    /// The range is not one that was mapped.
    InvalidRange,
}

/// One unmapping: `size` bytes at `va`.
#[derive(Debug, Clone, Copy, PartialEq, Eq, Structural)]
pub struct UnmapRequest {
    pub va: PageAlignedVirtualAddress,
    pub size: usize,
}

/// Maps and unmaps pages of one address space.
pub trait MemoryMapper {
    /// Maps `page_count` fresh zeroed pages at `va`, copying `init` to their
    /// start.
    fn map(
        &self,
        va: PageAlignedVirtualAddress,
        page_count: usize,
        init: &[u8],
        flags: MemFlags,
    ) -> Result<(), MemoryMappingError>;

    /// Maps `size` bytes at `source_address` onto the physical range at
    /// `target_address`.
    fn map_exact(
        &self,
        source_address: PageAlignedVirtualAddress,
        target_address: PageAlignedAddress,
        size: usize,
        flags: MemFlags,
    ) -> Result<(), MemoryMappingError>;

    /// Unmaps `size` bytes at `address`.
    fn unmap(&self, address: PageAlignedVirtualAddress, size: usize) -> Result<
        (),
        MemoryUnmappingError,
    >;

    /// Fills the frame at `pa` with zeroes.
    fn zero_owned_frame(&self, pa: PageAlignedAddress);
}

} // verus!
