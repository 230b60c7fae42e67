//! Descriptions of what the loader handed to the kernel.

use vstd::prelude::*;
use crate::memory::address::{PageAlignedAddress, PageAlignedVirtualAddress};
use crate::num::NonZeroUsize;

verus! {

/// The userland image found in the initrd.
#[derive(Clone, Copy)]
pub struct UserlandImage {
    pub bytes: &'static [u8],
    pub phys_base: PageAlignedAddress,
}

/// The device tree blob from the loader: its physical range, reserved for
/// the kernel's whole life.
#[derive(Clone, Copy)]
pub struct BootDtb {
    pub phys_base: PageAlignedAddress,
    pub size_bytes: NonZeroUsize,
}

impl BootDtb {
    pub fn new(phys_base: PageAlignedAddress, size_bytes: NonZeroUsize) -> (r: Self)
        ensures
            r.phys_base == phys_base,
            r.size_bytes == size_bytes,
    {
        BootDtb { phys_base, size_bytes }
    }
}

/// The virtual window that kernel MMIO mappings are carved from.
#[derive(Clone, Copy)]
pub struct KmmioArena {
    pub base: PageAlignedVirtualAddress,
    pub size: NonZeroUsize,
}

} // verus!
