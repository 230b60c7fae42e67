//! Decisions of the kernel MMIO service: which physical window a request
//! maps and with which access.

use vstd::prelude::*;
use crate::memory::address::{page_aligned, PageAlignedAddress, PageAlignedVirtualAddress};
use crate::memory::mem_flags::{AccessMode, DeviceMemoryPermission, MemFlags, Owners};
use crate::memory::memory_mapper::{MemoryMapper, MemoryMappingError};
use crate::memory::page::{round_up_to_page, PAGE_SIZE};
use crate::memory::region::{AccessMask, BackingView, MemoryRegion};
use crate::num::NonZeroUsize;

verus! {

/// Why an MMIO request cannot be mapped.
#[derive(Debug, Clone, Copy, PartialEq, Eq, Structural)]
pub enum MmioMapError {
    /// The base address is not page-aligned.
    Unaligned,
    /// The size is zero.
    ZeroSize,
    /// Rounding the size up to whole pages overflows.
    SizeOverflow,
}

impl MmioMapError {
    /// Text of the error.
    pub fn message(&self) -> (r: &'static str)
        ensures
            *self == MmioMapError::Unaligned ==> r@ == "Mmio address is not aligned to 4K boundary"@,
            *self == MmioMapError::ZeroSize ==> r@ == "Mmio region size must be non-zero"@,
            *self == MmioMapError::SizeOverflow ==> r@ == "Mmio region size overflows when rounded up"@,
    {
        match self {
            MmioMapError::Unaligned => "Mmio address is not aligned to 4K boundary",
            MmioMapError::ZeroSize => "Mmio region size must be non-zero",
            MmioMapError::SizeOverflow => "Mmio region size overflows when rounded up",
        }
    }
}

/// The physical window that an MMIO request maps: its page-aligned base and
/// its size rounded up to whole pages. Errors in the order of the checks:
/// alignment, then size, then overflow of the rounding.
pub fn mmio_window(base: usize, size: usize) -> (r: Result<(PageAlignedAddress, NonZeroUsize), MmioMapError>)
    ensures
        !page_aligned(base as int) ==> r == Err::<(PageAlignedAddress, NonZeroUsize), MmioMapError>(
            MmioMapError::Unaligned,
        ),
        page_aligned(base as int) && size == 0 ==> r == Err::<
            (PageAlignedAddress, NonZeroUsize),
            MmioMapError,
        >(MmioMapError::ZeroSize),
        page_aligned(base as int) && size != 0 && round_up_to_page(size as int) > usize::MAX
            ==> r == Err::<(PageAlignedAddress, NonZeroUsize), MmioMapError>(
            MmioMapError::SizeOverflow,
        ),
        r matches Ok((pa, sz)) ==> pa@ == base && sz@ == round_up_to_page(size as int),
        page_aligned(base as int) && size != 0 && round_up_to_page(size as int) <= usize::MAX
            ==> r is Ok,
{
    let target = match PageAlignedAddress::from_usize(base) {
        Some(t) => t,
        None => {
            return Err(MmioMapError::Unaligned);
        },
    };
    if size == 0 {
        return Err(MmioMapError::ZeroSize);
    }
    let pages = size / PAGE_SIZE + if size % PAGE_SIZE != 0 {
        1usize
    } else {
        0usize
    };
    let bytes = match pages.checked_mul(PAGE_SIZE) {
        Some(b) => b,
        None => {
            return Err(MmioMapError::SizeOverflow);
        },
    };
    match NonZeroUsize::new(bytes) {
        Some(sz) => Ok((target, sz)),
        None => Err(MmioMapError::SizeOverflow),
    }
}

/// Access bits that a device mapping needs: read/write (3) where either
/// owner writes, read (1) where either reads, else none.
pub open spec fn device_access_bits(permissions: Owners<DeviceMemoryPermission>) -> u8 {
    if permissions.kernel.access == AccessMode::Writable || permissions.user.access
        == AccessMode::Writable {
        3
    } else if permissions.kernel.access == AccessMode::Readonly || permissions.user.access
        == AccessMode::Readonly {
        1
    } else {
        0
    }
}

/// The access that a device mapping needs: read/write where either owner
/// writes, read where either reads, else none.
pub fn access_mask_for_device(permissions: Owners<DeviceMemoryPermission>) -> (r: AccessMask)
    ensures
        r@ == device_access_bits(permissions),
{
    match (permissions.kernel.access, permissions.user.access) {
        (AccessMode::Writable, _) | (_, AccessMode::Writable) => AccessMask::RW(),
        (AccessMode::Readonly, _) | (_, AccessMode::Readonly) => AccessMask::R(),
        _ => AccessMask::NONE(),
    }
}

/// Maps the device window `[pa, pa + size)` at the kernel address `va` as
/// device memory with `permissions`, through a physical region whose access
/// follows [`access_mask_for_device`]. Returns the installed region; on a
/// mapping error the caller gives `va` back to its arena. Whether the
/// mapping succeeds is up to `mapper`, whose trait states nothing of it.
pub fn install_device_window<M: MemoryMapper>(
    mapper: &M,
    pa: PageAlignedAddress,
    size: NonZeroUsize,
    va: PageAlignedVirtualAddress,
    permissions: Owners<DeviceMemoryPermission>,
) -> (r: Result<MemoryRegion, MemoryMappingError>)
    ensures
        r matches Ok(region) ==> {
            &&& region.spec_backing() == (BackingView::Physical { pa_base: pa@ })
            &&& region.spec_size() == size@
            &&& region.spec_access()@ == device_access_bits(permissions)
            &&& region.spec_refund() is None
        },
{
    let mut region = MemoryRegion::create_physical_device(
        pa,
        size,
        access_mask_for_device(permissions),
    );
    match region.install(mapper, va, MemFlags::Device(permissions)) {
        Ok(()) => Ok(region),
        Err(e) => Err(e),
    }
}

} // verus!
