//! Memory regions: anonymous frames or a fixed device range, with an access
//! mask, that can be installed into an address space.

use vstd::prelude::*;
use super::address::{Frame, PAGE, PageAlignedAddress, PageAlignedVirtualAddress, page_aligned};
use super::frame_allocator::FrameAllocator;
use super::mem_flags::MemFlags;
use super::memory_mapper::{MemoryMapper, MemoryMappingError, MemoryUnmappingError, UnmapRequest};
use crate::num::NonZeroUsize;

verus! {

/// Mask of the access bits known to [`AccessMask`].
pub const ACCESS_ALL_BITS: u8 = 7;

/// Allowed access to a region: read, write, execute bits.
#[derive(Debug, Clone, Copy, PartialEq, Eq, Structural)]
pub struct AccessMask {
    bits: u8,
}

impl AccessMask {
    #[verifier::type_invariant]
    spec fn mask_inv(self) -> bool {
        self.bits <= ACCESS_ALL_BITS
    }

    pub closed spec fn view(self) -> u8 {
        self.bits
    }

    /// Masks with the same bits are the same mask.
    pub proof fn lemma_view_injective(a: AccessMask, b: AccessMask)
        requires
            a@ == b@,
        ensures
            a == b,
    {
    }

    /// Whether every bit of `requested` is in `self`.
    pub open spec fn spec_allows(self, requested: AccessMask) -> bool {
        self@ & requested@ == requested@
    }

    /// No access.
    #[allow(non_snake_case)]
    pub fn NONE() -> (r: Self)
        ensures
            r@ == 0,
    {
        AccessMask { bits: 0 }
    }

    /// Read.
    #[allow(non_snake_case)]
    pub fn R() -> (r: Self)
        ensures
            r@ == 1,
    {
        AccessMask { bits: 1 }
    }

    /// Write.
    #[allow(non_snake_case)]
    pub fn W() -> (r: Self)
        ensures
            r@ == 2,
    {
        AccessMask { bits: 2 }
    }

    /// Execute.
    #[allow(non_snake_case)]
    pub fn X() -> (r: Self)
        ensures
            r@ == 4,
    {
        AccessMask { bits: 4 }
    }

    /// Read and write.
    #[allow(non_snake_case)]
    pub fn RW() -> (r: Self)
        ensures
            r@ == 3,
    {
        AccessMask { bits: 3 }
    }

    /// Read and execute.
    #[allow(non_snake_case)]
    pub fn RX() -> (r: Self)
        ensures
            r@ == 5,
    {
        AccessMask { bits: 5 }
    }

    /// Read, write and execute.
    #[allow(non_snake_case)]
    pub fn RWX() -> (r: Self)
        ensures
            r@ == 7,
    {
        AccessMask { bits: 7 }
    }

    /// Keeps the known bits of `bits`.
    pub fn from_bits_truncate(bits: u8) -> (r: Self)
        ensures
            r@ == bits & ACCESS_ALL_BITS,
    {
        assert(bits & 7u8 <= 7u8) by (bit_vector);
        AccessMask { bits: bits & ACCESS_ALL_BITS }
    }

    /// The bits of the mask; only known bits are ever set.
    pub fn bits(self) -> (r: u8)
        ensures
            r == self@,
            r & ACCESS_ALL_BITS == r,
    {
        proof {
            use_type_invariant(self);
        }
        let b = self.bits;
        assert(b <= 7u8 ==> b & 7u8 == b) by (bit_vector);
        b
    }

    /// Whether every bit of `requested` is allowed.
    pub fn allows(self, requested: Self) -> (r: bool)
        ensures
            r == self.spec_allows(requested),
    {
        (self.bits & requested.bits) == requested.bits
    }
}

/// Gives back the budget charged for a region once the region is
/// released. Regions store refunds as tokens; whoever receives the token
/// from `release` calls `refund` on what it stands for.
pub trait BudgetRefund {
    fn refund(&self);
}

/// Kind of memory of a region.
#[derive(Debug, Clone, Copy, PartialEq, Eq, Structural)]
pub enum MemoryType {
    Normal,
    Device,
}

/// Token of the metering budget that a region gives back when released.
pub type RefundToken = u64;

/// Physical backing of a region.
pub enum MemoryBacking {
    /// Anonymous frames taken from a frame allocator.
    Virtual { frames: Vec<Frame> },
    /// A fixed device range that the region does not own.
    Physical { pa_base: PageAlignedAddress },
}

/// Failure to create a region.
#[derive(Debug, Clone, Copy, PartialEq, Eq, Structural)]
pub enum RegionCreateError {
    OutOfMemory,
}

/// Failure to cut a sub-region with [`MemoryRegion::slice`].
#[derive(Debug, Clone, Copy, PartialEq, Eq, Structural)]
pub enum RegionSliceError {
    /// The window `[offset, offset + size)` leaves the region.
    OutOfBounds,
    /// The offset is not page-aligned.
    MisalignedOffset,
    /// The access asked for is wider than the region's.
    AccessEscalation,
    /// The backing cannot be sliced.
    UnsupportedBacking,
}

/// Spec view of a backing.
pub enum BackingView {
    Virtual { frames: Seq<Frame>, zeroed: bool },
    Physical { pa_base: usize },
}

/// `after` is `before` with its anonymous frames marked as zeroed.
pub open spec fn installed_from(before: MemoryRegion, after: MemoryRegion) -> bool {
    &&& after.spec_size() == before.spec_size()
    &&& after.spec_access() == before.spec_access()
    &&& after.spec_refund() == before.spec_refund()
    &&& match before.spec_backing() {
        BackingView::Virtual { frames, .. } => after.spec_backing() == (BackingView::Virtual {
            frames,
            zeroed: true,
        }),
        BackingView::Physical { .. } => after.spec_backing() == before.spec_backing(),
    }
}

/// One mapping that an installation makes: `size` bytes at `va` onto the
/// physical range at `pa`.
#[derive(Clone, Copy, Debug, PartialEq, Eq, Structural)]
pub struct PageMapping {
    pub va: PageAlignedVirtualAddress,
    pub pa: PageAlignedAddress,
    pub size: usize,
}

/// One `map_exact` call of an installation: the range of a
/// [`PageMapping`] with the flags that the caller asked for.
#[derive(Clone, Copy, Debug)]
pub struct MapExactRequest {
    pub va: PageAlignedVirtualAddress,
    pub pa: PageAlignedAddress,
    pub size: usize,
    pub flags: MemFlags,
}

/// The `map_exact` calls that make the mappings of `plan`, in order, each
/// with `flags`.
pub fn map_exact_requests(plan: &[PageMapping], flags: MemFlags) -> (r: Vec<MapExactRequest>)
    ensures
        r@.len() == plan@.len(),
        forall|i: int|
            0 <= i < plan@.len() ==> #[trigger] r@[i] == (MapExactRequest {
                va: plan@[i].va,
                pa: plan@[i].pa,
                size: plan@[i].size,
                flags,
            }),
{
    let mut out: Vec<MapExactRequest> = Vec::new();
    let mut i: usize = 0;
    while i < plan.len()
        invariant
            i <= plan@.len(),
            out@.len() == i,
            forall|k: int|
                0 <= k < i ==> #[trigger] out@[k] == (MapExactRequest {
                    va: plan@[k].va,
                    pa: plan@[k].pa,
                    size: plan@[k].size,
                    flags,
                }),
        decreases plan.len() - i,
    {
        let m = plan[i];
        out.push(MapExactRequest { va: m.va, pa: m.pa, size: m.size, flags });
        i += 1;
    }
    out
}

/// Whether `m` maps frame `i` of `frames` at page `i` from `va`.
pub open spec fn page_mapping_of(m: PageMapping, va: int, frames: Seq<Frame>, i: int) -> bool {
    &&& m.va@ == va + i * PAGE
    &&& m.pa == frames[i].spec_page_address()
    &&& m.size == PAGE
}

/// Whether installing `region` at `va` reaches a page whose address does
/// not fit: only an anonymous region maps page by page.
pub open spec fn install_overflows(region: MemoryRegion, va: int) -> bool {
    match region.spec_backing() {
        BackingView::Virtual { frames, .. } => frames.len() > 0 && va + (frames.len() - 1) * PAGE
            > usize::MAX,
        BackingView::Physical { .. } => false,
    }
}

/// The unmappings that undo the first `count` mappings of `plan`, in
/// order: each mapping's range.
pub fn undo_plan(plan: &[PageMapping], count: usize) -> (r: Vec<UnmapRequest>)
    requires
        count <= plan@.len(),
    ensures
        r@.len() == count,
        forall|j: int|
            0 <= j < count ==> #[trigger] r@[j] == (UnmapRequest { va: plan@[j].va, size: plan@[j].size }),
{
    let mut out: Vec<UnmapRequest> = Vec::new();
    let mut j: usize = 0;
    while j < count
        invariant
            j <= count,
            count <= plan@.len(),
            out@.len() == j,
            forall|k: int|
                0 <= k < j ==> #[trigger] out@[k] == (UnmapRequest { va: plan@[k].va, size: plan@[k].size }),
        decreases count - j,
    {
        out.push(UnmapRequest { va: plan[j].va, size: plan[j].size });
        j += 1;
    }
    out
}

/// Asks `mapper` for each unmapping of `requests`, in order. Their results
/// are not looked at: the caller is already on its way out.
fn unmap_all<M: MemoryMapper>(mapper: &M, requests: &[UnmapRequest]) {
    let mut j: usize = 0;
    while j < requests.len()
        invariant
            j <= requests@.len(),
        decreases requests.len() - j,
    {
        let _ = mapper.unmap(requests[j].va, requests[j].size);
        j += 1;
    }
}

/// Gives each frame of `frames` back to `fa`, in order.
fn return_frames<FA: FrameAllocator>(fa: &FA, frames: &[Frame]) {
    let mut k: usize = 0;
    while k < frames.len()
        invariant
            k <= frames@.len(),
        decreases frames.len() - k,
    {
        let _ = fa.deallocate_frame(frames[k]);
        k += 1;
    }
}

/// A region of memory.
pub struct MemoryRegion {
    backing: MemoryBacking,
    /// Whether anonymous frames were cleared before a first installation.
    zeroed: bool,
    size_bytes: usize,
    access_mask: AccessMask,
    refund: Option<RefundToken>,
}

impl MemoryRegion {
    #[verifier::type_invariant]
    spec fn region_inv(self) -> bool {
        &&& self.size_bytes > 0
        &&& self.backing matches MemoryBacking::Virtual { frames, .. } ==> frames@.len() * PAGE
            == self.size_bytes
    }

    pub closed spec fn spec_backing(self) -> BackingView {
        match self.backing {
            MemoryBacking::Virtual { frames } => BackingView::Virtual {
                frames: frames@,
                zeroed: self.zeroed,
            },
            MemoryBacking::Physical { pa_base } => BackingView::Physical { pa_base: pa_base@ },
        }
    }

    /// The physical backing of the region.
    pub fn backing(&self) -> (r: &MemoryBacking)
        ensures
            match *r {
                MemoryBacking::Virtual { frames } => self.spec_backing() matches BackingView::Virtual {
                    frames: f,
                    ..
                } && f == frames@,
                MemoryBacking::Physical { pa_base } => self.spec_backing() == (BackingView::Physical {
                    pa_base: pa_base@,
                }),
            },
    {
        &self.backing
    }

    pub closed spec fn spec_size(self) -> usize {
        self.size_bytes
    }

    pub closed spec fn spec_access(self) -> AccessMask {
        self.access_mask
    }

    pub closed spec fn spec_refund(self) -> Option<RefundToken> {
        self.refund
    }

    /// Takes `pages` frames from `fa` for an anonymous region. When a frame
    /// is missing, every frame already taken goes back to `fa`. Whether a
    /// frame is missing is up to `fa`, whose trait states nothing of its
    /// results; the contract says what a successful result holds.
    pub fn create_virtual<FA: FrameAllocator>(fa: &FA, pages: NonZeroUsize, access: AccessMask) -> (r:
        Result<Self, RegionCreateError>)
        requires
            pages@ * PAGE <= usize::MAX,
        ensures
            r matches Ok(region) ==> {
                &&& region.spec_backing() matches BackingView::Virtual { frames, zeroed }
                    && frames.len() == pages@ && !zeroed
                &&& region.spec_size() == pages@ * PAGE
                &&& region.spec_access() == access
                &&& region.spec_refund() is None
            },
            r matches Err(e) ==> e == RegionCreateError::OutOfMemory,
    {
        let n = pages.get();
        let mut frames: Vec<Frame> = Vec::new();
        let mut i: usize = 0;
        while i < n
            invariant
                i <= n,
                frames@.len() == i,
            decreases n - i,
        {
            match fa.allocate_frame() {
                Some(frame) => {
                    frames.push(frame);
                },
                None => {
                    return_frames(fa, frames.as_slice());
                    return Err(RegionCreateError::OutOfMemory);
                },
            }
            i += 1;
        }
        Ok(MemoryRegion {
            backing: MemoryBacking::Virtual { frames },
            zeroed: false,
            size_bytes: n * PAGE,
            access_mask: access,
            refund: None,
        })
    }

    /// A region over the fixed device range `[pa_base, pa_base + size)`.
    pub fn create_physical_device(pa_base: PageAlignedAddress, size: NonZeroUsize, access: AccessMask) -> (r:
        Self)
        ensures
            r.spec_backing() == (BackingView::Physical { pa_base: pa_base@ }),
            r.spec_size() == size@,
            r.spec_access() == access,
            r.spec_refund() is None,
    {
        MemoryRegion {
            backing: MemoryBacking::Physical { pa_base },
            zeroed: false,
            size_bytes: size.get(),
            access_mask: access,
            refund: None,
        }
    }

    /// The sub-region `[offset_bytes, offset_bytes + size)` with access
    /// `access`. The offset must be page-aligned, the window must lie inside
    /// the region and `access` must be allowed by the region. The result
    /// carries no refund. Anonymous regions cannot be sliced.
    pub fn slice(&self, offset_bytes: usize, size: NonZeroUsize, access: AccessMask) -> (r: Result<
        Self,
        RegionSliceError,
    >)
        ensures
            !self.spec_access().spec_allows(access) ==> r == Err::<Self, RegionSliceError>(
                RegionSliceError::AccessEscalation,
            ),
            self.spec_access().spec_allows(access) && !page_aligned(offset_bytes as int) ==> r
                == Err::<Self, RegionSliceError>(RegionSliceError::MisalignedOffset),
            self.spec_access().spec_allows(access) && page_aligned(offset_bytes as int)
                && offset_bytes + size@ > self.spec_size() ==> r == Err::<Self, RegionSliceError>(
                RegionSliceError::OutOfBounds,
            ),
            self.spec_access().spec_allows(access) && page_aligned(offset_bytes as int)
                && offset_bytes + size@ <= self.spec_size() ==> match self.spec_backing() {
                BackingView::Virtual { .. } => r == Err::<Self, RegionSliceError>(
                    RegionSliceError::UnsupportedBacking,
                ),
                BackingView::Physical { pa_base } => if pa_base + offset_bytes > usize::MAX {
                    r == Err::<Self, RegionSliceError>(RegionSliceError::OutOfBounds)
                } else {
                    r matches Ok(sub) && sub.spec_backing() == (BackingView::Physical {
                        pa_base: (pa_base + offset_bytes) as usize,
                    }) && sub.spec_size() == size@ && sub.spec_access() == access
                        && sub.spec_refund() is None
                },
            },
    {
        if !self.access_mask.allows(access) {
            return Err(RegionSliceError::AccessEscalation);
        }
        if offset_bytes % PAGE != 0 {
            return Err(RegionSliceError::MisalignedOffset);
        }
        let end = match offset_bytes.checked_add(size.get()) {
            Some(e) => e,
            None => {
                return Err(RegionSliceError::OutOfBounds);
            },
        };
        if end > self.size_bytes {
            return Err(RegionSliceError::OutOfBounds);
        }
        match &self.backing {
            MemoryBacking::Physical { pa_base } => {
                let base = pa_base.as_usize();
                let sub = match base.checked_add(offset_bytes) {
                    Some(v) => v,
                    None => {
                        return Err(RegionSliceError::OutOfBounds);
                    },
                };
                assert(page_aligned(sub as int)) by (nonlinear_arith)
                    requires
                        page_aligned(base as int),
                        page_aligned(offset_bytes as int),
                        sub == base + offset_bytes,
                ;
                let sub_pa = match PageAlignedAddress::from_usize(sub) {
                    Some(a) => a,
                    None => {
                        return Err(RegionSliceError::OutOfBounds);
                    },
                };
                Ok(MemoryRegion {
                    backing: MemoryBacking::Physical { pa_base: sub_pa },
                    zeroed: false,
                    size_bytes: size.get(),
                    access_mask: access,
                    refund: None,
                })
            },
            MemoryBacking::Virtual { .. } => Err(RegionSliceError::UnsupportedBacking),
        }
    }

    /// Attaches a metering obligation, settled when the region is released.
    pub fn with_refund(self, refund: RefundToken) -> (r: Self)
        ensures
            r.spec_backing() == self.spec_backing(),
            r.spec_size() == self.spec_size(),
            r.spec_access() == self.spec_access(),
            r.spec_refund() == Some(refund),
    {
        proof {
            use_type_invariant(&self);
        }
        let mut me = self;
        me.refund = Some(refund);
        me
    }

    pub fn size_bytes(&self) -> (r: usize)
        ensures
            r == self.spec_size(),
            r > 0,
    {
        proof {
            use_type_invariant(self);
        }
        self.size_bytes
    }

    pub fn access_mask(&self) -> (r: AccessMask)
        ensures
            r == self.spec_access(),
    {
        self.access_mask
    }

    /// 8-bit tag of the backing: 1 for anonymous frames, 2 for a device
    /// range.
    pub fn kind_tag(&self) -> (r: u8)
        ensures
            r == (if self.spec_backing() is Virtual { 1u8 } else { 2u8 }),
    {
        match self.backing {
            MemoryBacking::Virtual { .. } => 1,
            MemoryBacking::Physical { .. } => 2,
        }
    }

    /// Base of a device region; `None` for anonymous memory.
    pub fn physical_base(&self) -> (r: Option<PageAlignedAddress>)
        ensures
            match self.spec_backing() {
                BackingView::Virtual { .. } => r is None,
                BackingView::Physical { pa_base } => r matches Some(a) && a@ == pa_base,
            },
    {
        match self.backing {
            MemoryBacking::Physical { pa_base } => Some(pa_base),
            MemoryBacking::Virtual { .. } => None,
        }
    }

    /// Memory type derived from the backing.
    pub fn memory_type(&self) -> (r: MemoryType)
        ensures
            r == (if self.spec_backing() is Virtual {
                MemoryType::Normal
            } else {
                MemoryType::Device
            }),
    {
        match self.backing {
            MemoryBacking::Virtual { .. } => MemoryType::Normal,
            MemoryBacking::Physical { .. } => MemoryType::Device,
        }
    }

    /// The mappings that installing the region at `va` makes, in order, and
    /// whether the installation stops at a page whose address does not fit:
    /// a device region maps its whole range at once; an anonymous region
    /// maps each frame, one page each, at its page of `va`, up to the first
    /// page whose address overflows.
    pub fn install_plan(&self, va: PageAlignedVirtualAddress) -> (r: (Vec<PageMapping>, bool))
        ensures
            match self.spec_backing() {
                BackingView::Physical { pa_base } => {
                    &&& r.0@.len() == 1
                    &&& r.0@[0] == (PageMapping { va, pa: r.0@[0].pa, size: self.spec_size() })
                    &&& r.0@[0].pa@ == pa_base
                    &&& !r.1
                },
                BackingView::Virtual { frames, .. } => {
                    &&& r.0@.len() <= frames.len()
                    &&& forall|i: int|
                        0 <= i < r.0@.len() ==> page_mapping_of(#[trigger] r.0@[i], va@ as int, frames, i)
                    &&& r.1 <==> r.0@.len() < frames.len()
                    &&& r.1 ==> va@ + r.0@.len() * PAGE > usize::MAX
                    &&& r.1 <==> install_overflows(*self, va@ as int)
                },
            },
    {
        proof {
            use_type_invariant(self);
        }
        let mut plan: Vec<PageMapping> = Vec::new();
        match &self.backing {
            MemoryBacking::Physical { pa_base } => {
                plan.push(PageMapping { va, pa: *pa_base, size: self.size_bytes });
                proof {
                    assert(plan@[0] == PageMapping { va, pa: *pa_base, size: self.size_bytes });
                }
                (plan, false)
            },
            MemoryBacking::Virtual { frames } => {
                let n = frames.len();
                let base = va.as_usize();
                let mut i: usize = 0;
                while i < n
                    invariant
                        n == frames@.len(),
                        n * PAGE == self.size_bytes,
                        i <= n,
                        base == va@,
                        page_aligned(base as int),
                        self.spec_backing() == (BackingView::Virtual { frames: frames@, zeroed: self.zeroed }),
                        plan@.len() == i,
                        forall|k: int|
                            0 <= k < i ==> page_mapping_of(#[trigger] plan@[k], va@ as int, frames@, k),
                    decreases n - i,
                {
                    assert(i * PAGE < n * PAGE) by (nonlinear_arith)
                        requires
                            i < n,
                    ;
                    match va.offset(i * PAGE) {
                        Some(t) => {
                            plan.push(PageMapping { va: t, pa: frames[i].page_address(), size: PAGE });
                            proof {
                                assert(page_mapping_of(plan@[i as int], va@ as int, frames@, i as int));
                            }
                        },
                        None => {
                            proof {
                                assert(page_aligned(base + i * PAGE)) by (nonlinear_arith)
                                    requires
                                        page_aligned(base as int),
                                ;
                                assert(va@ + (n - 1) * PAGE >= va@ + i * PAGE) by (nonlinear_arith)
                                    requires
                                        i < n,
                                ;
                                assert(va@ + i * PAGE > usize::MAX);
                                assert(plan@.len() < frames@.len());
                                assert(install_overflows(*self, va@ as int));
                            }
                            return (plan, true);
                        },
                    }
                    i += 1;
                }
                proof {
                    if n > 0 {
                        assert(page_mapping_of(plan@[n - 1], va@ as int, frames@, n - 1));
                    }
                }
                (plan, false)
            },
        }
    }

    /// Maps the region at `va` with `flags`: first zeroes the frames of
    /// [`zeroing_plan`](Self::zeroing_plan), then makes the mappings of
    /// [`install_plan`](Self::install_plan) in order, each with `flags`,
    /// as [`map_exact_requests`] lists the calls. When a mapping fails,
    /// or the installation stops at a page whose address overflows
    /// (`VirtualMappingError`), it asks for the unmappings of
    /// [`undo_plan`] over the mappings already made, in order, and maps
    /// nothing more. What the mapper does with each call is up to it: its
    /// trait states nothing of its results.
    pub fn install<M: MemoryMapper>(&mut self, mapper: &M, va: PageAlignedVirtualAddress, flags: MemFlags) -> (r:
        Result<(), MemoryMappingError>)
        ensures
            installed_from(*old(self), *final(self)),
            install_overflows(*old(self), va@ as int) ==> r is Err,
    {
        proof {
            use_type_invariant(&*self);
        }
        let zeros = self.zeroing_plan();
        let is_virtual = match &self.backing {
            MemoryBacking::Virtual { .. } => true,
            MemoryBacking::Physical { .. } => false,
        };
        if is_virtual {
            self.zeroed = true;
        }
        let ghost snap = *self;
        assert(installed_from(*old(self), snap));
        assert(install_overflows(*old(self), va@ as int) == install_overflows(snap, va@ as int));
        let (plan, overflow) = self.install_plan(va);
        let calls = map_exact_requests(plan.as_slice(), flags);
        let mut k: usize = 0;
        while k < zeros.len()
            invariant
                k <= zeros@.len(),
                *self == snap,
                installed_from(*old(self), snap),
            decreases zeros.len() - k,
        {
            mapper.zero_owned_frame(zeros[k]);
            k += 1;
        }
        let n = plan.len();
        let mut i: usize = 0;
        while i < n
            invariant
                n == plan@.len(),
                i <= n,
                *self == snap,
                installed_from(*old(self), snap),
                overflow <==> install_overflows(*old(self), va@ as int),
                calls@.len() == n,
                forall|j: int|
                    0 <= j < n ==> (#[trigger] calls@[j]).flags == flags && calls@[j].va == plan@[j].va
                        && calls@[j].pa == plan@[j].pa && calls@[j].size == plan@[j].size,
            decreases n - i,
        {
            let c = calls[i];
            if let Err(e) = mapper.map_exact(c.va, c.pa, c.size, c.flags) {
                let undo = undo_plan(plan.as_slice(), i);
                unmap_all(mapper, undo.as_slice());
                return Err(e);
            }
            i += 1;
        }
        if overflow {
            let undo = undo_plan(plan.as_slice(), n);
            unmap_all(mapper, undo.as_slice());
            return Err(MemoryMappingError::VirtualMappingError);
        }
        Ok(())
    }

    /// Unmaps the region from `va`, asking `mapper` for the unmapping of
    /// [`unmap_request`](Self::unmap_request). The frames stay with the
    /// region. The result is the one `mapper` gives; the mapper's trait
    /// states nothing of it.
    pub fn uninstall<M: MemoryMapper>(&self, mapper: &M, va: PageAlignedVirtualAddress) -> (r: Result<
        (),
        MemoryUnmappingError,
    >) {
        let request = self.unmap_request(va);
        mapper.unmap(request.va, request.size)
    }

    /// The unmapping that takes the region away from `va`: its whole size.
    pub fn unmap_request(&self, va: PageAlignedVirtualAddress) -> (r: UnmapRequest)
        ensures
            r == (UnmapRequest { va, size: self.spec_size() }),
    {
        UnmapRequest { va, size: self.size_bytes }
    }

    /// The frames that ending the region gives back to the frame
    /// allocator: all of an anonymous region's frames, in order; none for a
    /// device region.
    pub fn frames_to_return(&self) -> (r: Vec<Frame>)
        ensures
            match self.spec_backing() {
                BackingView::Virtual { frames, .. } => r@ == frames,
                BackingView::Physical { .. } => r@.len() == 0,
            },
    {
        match &self.backing {
            MemoryBacking::Virtual { frames } => frames.clone(),
            MemoryBacking::Physical { .. } => Vec::new(),
        }
    }

    /// The frames that a first installation zeroes, in order: all of an
    /// anonymous region's frames while they were never zeroed; none
    /// otherwise.
    pub fn zeroing_plan(&self) -> (r: Vec<PageAlignedAddress>)
        ensures
            match self.spec_backing() {
                BackingView::Virtual { frames, zeroed } => if zeroed {
                    r@.len() == 0
                } else {
                    &&& r@.len() == frames.len()
                    &&& forall|i: int| 0 <= i < frames.len() ==> #[trigger] r@[i] == frames[i].spec_page_address()
                },
                BackingView::Physical { .. } => r@.len() == 0,
            },
    {
        let mut out: Vec<PageAlignedAddress> = Vec::new();
        match &self.backing {
            MemoryBacking::Virtual { frames } => {
                if !self.zeroed {
                    let mut k: usize = 0;
                    while k < frames.len()
                        invariant
                            k <= frames@.len(),
                            out@.len() == k,
                            forall|i: int| 0 <= i < k ==> #[trigger] out@[i] == frames@[i].spec_page_address(),
                        decreases frames.len() - k,
                    {
                        out.push(frames[k].page_address());
                        k += 1;
                    }
                }
                out
            },
            MemoryBacking::Physical { .. } => out,
        }
    }

    /// Ends the region: the frames of
    /// [`frames_to_return`](Self::frames_to_return) go back to `fa`, in
    /// order; the returned token, if any, is the metering budget to give
    /// back.
    pub fn release<FA: FrameAllocator>(self, fa: &FA) -> (r: Option<RefundToken>)
        ensures
            r == self.spec_refund(),
    {
        let frames = self.frames_to_return();
        return_frames(fa, frames.as_slice());
        self.refund
    }
}

} // verus!
