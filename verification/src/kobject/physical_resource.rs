//! A grant over a physical address range with an access mask, from which
//! device regions may be cut.

use vstd::prelude::*;
use crate::memory::address::PageAlignedAddress;
use crate::memory::region::AccessMask;
use crate::num::NonZeroUsize;

verus! {

/// Right to create regions inside `[pa_base, pa_base + size_bytes)` with at
/// most `access_mask`.
#[derive(Debug)]
pub struct PhysicalResource {
    pa_base: PageAlignedAddress,
    size_bytes: NonZeroUsize,
    access_mask: AccessMask,
}

impl PhysicalResource {
    pub closed spec fn spec_pa_base(self) -> PageAlignedAddress {
        self.pa_base
    }

    pub closed spec fn spec_size(self) -> NonZeroUsize {
        self.size_bytes
    }

    pub closed spec fn spec_access(self) -> AccessMask {
        self.access_mask
    }

    pub fn new(pa_base: PageAlignedAddress, size_bytes: NonZeroUsize, access_mask: AccessMask) -> (r:
        Self)
        ensures
            r.spec_pa_base() == pa_base,
            r.spec_size() == size_bytes,
            r.spec_access() == access_mask,
    {
        PhysicalResource { pa_base, size_bytes, access_mask }
    }

    pub fn pa_base(&self) -> (r: PageAlignedAddress)
        ensures
            r == self.spec_pa_base(),
    {
        self.pa_base
    }

    pub fn size_bytes(&self) -> (r: NonZeroUsize)
        ensures
            r == self.spec_size(),
    {
        self.size_bytes
    }

    pub fn access_mask(&self) -> (r: AccessMask)
        ensures
            r == self.spec_access(),
    {
        self.access_mask
    }

    /// Whether the range `[pa_base, pa_base + size_bytes)` with access
    /// `access_mask` lies within the grant. A range whose end does not fit in
    /// `usize` is never permitted.
    pub fn permits(&self, pa_base: PageAlignedAddress, size_bytes: NonZeroUsize, access_mask: AccessMask) -> (r:
        bool)
        ensures
            r == {
                &&& self.spec_access().spec_allows(access_mask)
                &&& self.spec_pa_base()@ + self.spec_size()@ <= usize::MAX
                &&& pa_base@ + size_bytes@ <= usize::MAX
                &&& self.spec_pa_base()@ <= pa_base@
                &&& pa_base@ + size_bytes@ <= self.spec_pa_base()@ + self.spec_size()@
            },
    {
        if !self.access_mask.allows(access_mask) {
            return false;
        }
        let resource_start = self.pa_base.as_usize();
        let resource_end = match resource_start.checked_add(self.size_bytes.get()) {
            Some(e) => e,
            None => {
                return false;
            },
        };
        let requested_start = pa_base.as_usize();
        let requested_end = match requested_start.checked_add(size_bytes.get()) {
            Some(e) => e,
            None => {
                return false;
            },
        };
        resource_start <= requested_start && requested_end <= resource_end
    }
}

} // verus!
