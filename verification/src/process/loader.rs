//! Loading a [`UserImage`] into a user address space through a
//! [`MemoryMapper`].

use vstd::prelude::*;
use crate::memory::address::PageAlignedVirtualAddress;
use crate::memory::mem_flags::{user_private, AccessMode, Executable, MemFlags};
use crate::memory::memory_mapper::MemoryMapper;
use super::image::{validation, UserImage, UserImageError, PAGE};

verus! {

/// One call to make to the mapper: `page_count` pages at `va`, starting
/// with `init_bytes`, with `flags`.
pub struct MapRequest<'a> {
    pub va: PageAlignedVirtualAddress,
    pub page_count: usize,
    pub init_bytes: &'a [u8],
    pub flags: MemFlags,
}

/// The mapper calls that load a valid image: each segment in order, then
/// the stack, read/write for the user and empty.
pub fn map_plan<'a>(image: &UserImage<'a>) -> (r: Result<Vec<MapRequest<'a>>, UserImageError>)
    ensures
        validation(*image) matches Err(e) ==> r == Err::<Vec<MapRequest<'a>>, UserImageError>(e),
        validation(*image) is Ok ==> {
            let segs = image.segments@;
            &&& r is Ok
            &&& r->Ok_0@.len() == segs.len() + 1
            &&& forall|i: int|
                0 <= i < segs.len() ==> {
                    let q = #[trigger] r->Ok_0@[i];
                    &&& q.va == segs[i].va_base
                    &&& q.page_count == segs[i].mapped_size / PAGE
                    &&& q.init_bytes@ == segs[i].init_bytes@
                    &&& q.flags == segs[i].perms
                }
            &&& r->Ok_0@[segs.len() as int].va@ == image.user_stack_top@ - image.user_stack_size
            &&& r->Ok_0@[segs.len() as int].page_count == image.user_stack_size / PAGE
            &&& r->Ok_0@[segs.len() as int].init_bytes@.len() == 0
            &&& r->Ok_0@[segs.len() as int].flags == user_private(
                AccessMode::Writable,
                Executable::NotAllowed,
            )
        },
{
    image.validate()?;
    let n = image.segments.len();
    let mut plan: Vec<MapRequest<'a>> = Vec::new();
    let mut i: usize = 0;
    while i < n
        invariant
            n == image.segments@.len(),
            i <= n,
            plan@.len() == i,
            forall|k: int|
                0 <= k < i ==> {
                    let q = #[trigger] plan@[k];
                    &&& q.va == image.segments@[k].va_base
                    &&& q.page_count == image.segments@[k].mapped_size / PAGE
                    &&& q.init_bytes@ == image.segments@[k].init_bytes@
                    &&& q.flags == image.segments@[k].perms
                },
        decreases n - i,
    {
        let seg = &image.segments[i];
        plan.push(
            MapRequest {
                va: seg.va_base,
                page_count: seg.mapped_size / PAGE,
                init_bytes: seg.init_bytes,
                flags: seg.perms,
            },
        );
        i = i + 1;
    }
    let stack_base = image.user_stack_base()?;
    let empty: &[u8] = &[];
    plan.push(
        MapRequest {
            va: stack_base,
            page_count: image.user_stack_size / PAGE,
            init_bytes: empty,
            flags: MemFlags::user_rw(),
        },
    );
    Ok(plan)
}

/// Maps every segment and then the user stack of `image` through `mapper`,
/// which allocates the frames and copies the initial bytes. An invalid
/// image is refused before any mapping; the first mapping error stops the
/// loading, leaving what was mapped to the address space.
pub fn load_user_image<M: MemoryMapper>(mapper: &M, image: &UserImage) -> (r: Result<
    (),
    UserImageError,
>)
    ensures
        validation(*image) matches Err(e) ==> r == Err::<(), UserImageError>(e),
        r is Ok ==> validation(*image) is Ok,
        r matches Err(e) ==> validation(*image) == Err::<(), UserImageError>(e) || e is Mapping,
{
    let plan = map_plan(image)?;
    let mut i: usize = 0;
    while i < plan.len()
        invariant
            i <= plan@.len(),
            validation(*image) is Ok,
        decreases plan@.len() - i,
    {
        let q = &plan[i];
        match mapper.map(q.va, q.page_count, q.init_bytes, q.flags) {
            Ok(()) => {},
            Err(e) => {
                return Err(UserImageError::Mapping(e));
            },
        }
        i = i + 1;
    }
    Ok(())
}

} // verus!
