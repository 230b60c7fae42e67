//! Descriptions that the runtime consumes to load and start a user process.

use std::sync::Arc;
use vstd::prelude::*;
use crate::memory::address::{PageAlignedVirtualAddress, VirtualAddress};
use crate::memory::mem_flags::MemFlags;
use crate::memory::memory_mapper::MemoryMappingError;
use crate::memory::region::MemoryRegion;
use super::errors::{IpcError, SpawnError};

verus! {

/// A segment of an image, ready to be installed in the child's address
/// space.
pub struct UserSegmentInstall {
    /// Base of the segment in the child's address space.
    pub va_base: PageAlignedVirtualAddress,
    /// Size of the region in bytes (the region's size).
    pub mapped_size: usize,
    /// Region whose frames are installed.
    pub region: Arc<MemoryRegion>,
    /// Flags of the mapping in the child's address space.
    pub flags: MemFlags,
}

/// An image that the scheduler installs in the child's address space.
pub struct UserImageInstall {
    pub segments: Vec<UserSegmentInstall>,
    /// First user instruction.
    pub entry: VirtualAddress,
    /// Top of the user stack.
    pub user_stack_top: VirtualAddress,
    /// Size of the user stack in bytes, a multiple of the page size.
    pub user_stack_size: usize,
    /// Base of the range of the user virtual-memory allocator.
    pub user_vm_base: PageAlignedVirtualAddress,
    /// Size of that range in bytes.
    pub user_vm_size: usize,
}

/// Failure to load an image into a process.
#[derive(Debug, Clone, Copy, PartialEq, Eq, Structural)]
pub enum LoadImageError {
    ProcessNotFound,
    /// The image is already loaded, or the process has threads or handles.
    WrongState,
    /// The process lives in the kernel address space.
    NoUserAddressSpace,
    /// `user_vm_base + user_vm_size` overflows.
    UserVmRangeOverflow,
    /// Installing a segment or the stack failed.
    MappingFailed(MemoryMappingError),
}

/// Failure to start a loaded process. None of them changes the loader's
/// handle table.
#[derive(Debug, Clone, Copy, PartialEq, Eq, Structural)]
pub enum StartProcessError {
    ProcessNotFound,
    /// The process is not loaded yet, or already started.
    WrongState,
    /// A handle to pass is missing, lacks `TRANSFER`, or occurs twice.
    HandleValidationFailed(IpcError),
    /// The first user thread could not be created.
    SpawnFailed(SpawnError),
}

} // verus!
