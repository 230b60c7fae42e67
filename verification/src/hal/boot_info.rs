//! Boot information passed from the loader to the kernel.

use vstd::prelude::*;
use crate::memory::address::PhysicalAddress;

verus! {

/// Information that the loader passes at start-up.
#[non_exhaustive]
pub struct BootInfo {
    /// Description of the hardware.
    pub hw_description: HwDescription,
    /// Userland blob that the loader left in physical memory, if any.
    pub userland_blob: Option<BootPayloadRange>,
}

impl BootInfo {
    /// Boot information with the device tree at `phys` and no payload.
    pub fn new_fdt(phys: PhysicalAddress) -> (r: Self)
        ensures
            r.hw_description == HwDescription::Fdt(FdtBlob { phys }),
            r.userland_blob is None,
    {
        Self::new_fdt_with_payload(phys, None)
    }

    /// Boot information with the device tree at `phys` and the given
    /// userland blob.
    pub fn new_fdt_with_payload(phys: PhysicalAddress, userland_blob: Option<BootPayloadRange>) -> (r:
        Self)
        ensures
            r.hw_description == HwDescription::Fdt(FdtBlob { phys }),
            r.userland_blob == userland_blob,
    {
        BootInfo { hw_description: HwDescription::Fdt(FdtBlob { phys }), userland_blob }
    }
}

/// A non-empty range of boot-time payload in physical memory that does not
/// wrap around the address space.
#[derive(Clone, Copy, Debug, PartialEq, Eq, Structural)]
pub struct BootPayloadRange {
    start: PhysicalAddress,
    size_bytes: usize,
}

impl BootPayloadRange {
    #[verifier::type_invariant]
    spec fn range_inv(self) -> bool {
        self.size_bytes != 0 && self.start@ + self.size_bytes <= usize::MAX
    }

    pub closed spec fn spec_start(self) -> PhysicalAddress {
        self.start
    }

    pub closed spec fn spec_size(self) -> usize {
        self.size_bytes
    }

    /// The range `[start, start + size_bytes)`; `None` where it is empty or
    /// passes the end of the address space.
    pub fn new(start: PhysicalAddress, size_bytes: usize) -> (r: Option<Self>)
        ensures
            r is Some <==> (size_bytes != 0 && start@ + size_bytes <= usize::MAX),
            r matches Some(p) ==> p.spec_start() == start && p.spec_size() == size_bytes,
    {
        if size_bytes == 0 || start.checked_add(size_bytes).is_none() {
            return None;
        }
        Some(BootPayloadRange { start, size_bytes })
    }

    pub fn start(self) -> (r: PhysicalAddress)
        ensures
            r == self.spec_start(),
    {
        self.start
    }

    pub fn size_bytes(self) -> (r: usize)
        ensures
            r == self.spec_size(),
    {
        self.size_bytes
    }

    /// First address past the range.
    pub fn end_exclusive(self) -> (r: PhysicalAddress)
        ensures
            r@ == self.spec_start()@ + self.spec_size(),
    {
        proof {
            use_type_invariant(self);
        }
        PhysicalAddress::new(self.start.as_usize() + self.size_bytes)
    }
}

/// The payload that the `/chosen` initrd bounds describe: `None` where a
/// bound is missing, the end is below the start, or the range is empty or
/// wraps around.
pub fn payload_from_initrd_bounds(start: Option<usize>, end: Option<usize>) -> (r: Option<
    BootPayloadRange,
>)
    ensures
        r is Some <==> (start is Some && end is Some && start->Some_0 < end->Some_0),
        r matches Some(p) ==> p.spec_start()@ == start->Some_0 && p.spec_size() == end->Some_0
            - start->Some_0,
{
    let s = match start {
        Some(s) => s,
        None => {
            return None;
        },
    };
    let e = match end {
        Some(e) => e,
        None => {
            return None;
        },
    };
    let size = match e.checked_sub(s) {
        Some(size) => size,
        None => {
            return None;
        },
    };
    BootPayloadRange::new(PhysicalAddress::new(s), size)
}

/// Where the hardware description comes from.
#[non_exhaustive]
pub enum HwDescription {
    /// A device tree blob at a physical address.
    Fdt(FdtBlob),
    /// ACPI tables (reserved).
    Acpi(AcpiTables),
}

/// Physical address of a device tree blob.
pub struct FdtBlob {
    pub phys: PhysicalAddress,
}

/// ACPI tables (reserved for later use).
pub struct AcpiTables {
    reserved: (),
}

} // verus!
