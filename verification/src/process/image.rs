//! Architecture-independent description of a user-process image: segments
//! of virtual memory with their initial bytes and permissions, and the user
//! stack.

use vstd::prelude::*;
use crate::memory::address::{PageAlignedVirtualAddress, VirtualAddress};
use crate::memory::mem_flags::{Executable, MemFlags};
use crate::memory::memory_mapper::MemoryMappingError;

verus! {

/// Bytes in a page.
pub const PAGE: usize = 4096;

/// One segment of a user image: a contiguous virtual range with initial
/// data and permissions.
pub struct UserSegment<'a> {
    /// Page-aligned base of the segment.
    pub va_base: PageAlignedVirtualAddress,
    /// Bytes mapped, a multiple of the page size. The part past
    /// `init_bytes` stays zeroed.
    pub mapped_size: usize,
    /// Bytes copied to the start of the segment; at most `mapped_size`.
    pub init_bytes: &'a [u8],
    /// Access permissions.
    pub perms: MemFlags,
}

/// Description of a user-process image.
pub struct UserImage<'a> {
    /// Program segments; their ranges must not overlap.
    pub segments: &'a [UserSegment<'a>],
    /// Entry point of the first user thread.
    pub entry: VirtualAddress,
    /// Top of the user stack, page-aligned. The stack occupies
    /// `[user_stack_top - user_stack_size, user_stack_top)`.
    pub user_stack_top: VirtualAddress,
    /// Size of the user stack, a multiple of the page size.
    pub user_stack_size: usize,
}

/// Errors of validating or loading a [`UserImage`].
#[derive(Debug, Clone, Copy, PartialEq, Eq, Structural)]
pub enum UserImageError {
    /// A segment's size or base is not page-aligned, or its size is zero.
    MisalignedSegment,
    /// The stack's size or base is not page-aligned, or its size is zero.
    MisalignedStack,
    /// A segment has more initial bytes than mapped bytes.
    InitBytesExceedMapped,
    /// Two segments overlap.
    OverlappingSegments,
    /// The entry point lies in no executable segment.
    EntryNotInExecSegment,
    /// The stack overlaps a segment.
    StackOverlapsSegment,
    /// A segment's end does not fit in the address space.
    SegmentAddressOverflow,
    /// Mapping or frame allocation failed.
    Mapping(MemoryMappingError),
}

impl From<MemoryMappingError> for UserImageError {
    fn from(value: MemoryMappingError) -> (r: Self)
        ensures
            r == UserImageError::Mapping(value),
    {
        UserImageError::Mapping(value)
    }
}

impl vstd::std_specs::convert::FromSpecImpl<MemoryMappingError> for UserImageError {
    open spec fn obeys_from_spec() -> bool {
        true
    }

    open spec fn from_spec(v: MemoryMappingError) -> UserImageError {
        UserImageError::Mapping(v)
    }
}

/// Whether flags allow user execution.
pub open spec fn spec_is_executable(flags: MemFlags) -> bool {
    match flags {
        MemFlags::Private(p) => p.user.executable == Executable::Allowed,
        MemFlags::Device(_) => false,
    }
}

/// Whether flags allow user execution.
pub fn segment_is_executable(flags: MemFlags) -> (r: bool)
    ensures
        r == spec_is_executable(flags),
{
    match flags {
        MemFlags::Private(p) => match p.user.executable {
            Executable::Allowed => true,
            Executable::NotAllowed => false,
        },
        MemFlags::Device(_) => false,
    }
}

/// Start of a segment.
pub open spec fn seg_start(s: UserSegment) -> int {
    s.va_base@ as int
}

/// Exclusive end of a segment, possibly past the address space.
pub open spec fn seg_end(s: UserSegment) -> int {
    s.va_base@ + s.mapped_size
}

/// Whether the half-open ranges `[a, b)` and `[c, d)` overlap.
pub open spec fn ranges_overlap(a: int, b: int, c: int, d: int) -> bool {
    b > c && d > a
}

/// Error of the stack parameters, if any.
pub open spec fn stack_error(size: usize, top: usize) -> Option<UserImageError> {
    if size == 0 || size % PAGE != 0 || top % PAGE != 0 || top < size {
        Some(UserImageError::MisalignedStack)
    } else {
        None
    }
}

/// Error of segment `i`, the segments before it being valid.
pub open spec fn segment_error(segs: Seq<UserSegment>, i: int, stack_base: int, stack_end: int) -> Option<
    UserImageError,
> {
    let s = segs[i];
    if s.mapped_size == 0 || s.mapped_size % PAGE != 0 || s.va_base@ % PAGE != 0 {
        Some(UserImageError::MisalignedSegment)
    } else if s.init_bytes@.len() > s.mapped_size {
        Some(UserImageError::InitBytesExceedMapped)
    } else if seg_end(s) > usize::MAX {
        Some(UserImageError::SegmentAddressOverflow)
    } else if ranges_overlap(seg_start(s), seg_end(s), stack_base, stack_end) {
        Some(UserImageError::StackOverlapsSegment)
    } else if exists|j: int|
        0 <= j < i && ranges_overlap(
            seg_start(s),
            seg_end(s),
            seg_start(#[trigger] segs[j]),
            seg_end(segs[j]),
        ) {
        Some(UserImageError::OverlappingSegments)
    } else {
        None
    }
}

/// Error of the first invalid segment from `i` on.
pub open spec fn first_segment_error(segs: Seq<UserSegment>, i: int, stack_base: int, stack_end: int) -> Option<
    UserImageError,
>
    decreases segs.len() - i,
{
    if i >= segs.len() || i < 0 {
        None
    } else {
        match segment_error(segs, i, stack_base, stack_end) {
            Some(e) => Some(e),
            None => first_segment_error(segs, i + 1, stack_base, stack_end),
        }
    }
}

/// Whether `entry` lies in an executable segment.
pub open spec fn entry_in_exec(segs: Seq<UserSegment>, entry: int) -> bool {
    exists|i: int|
        0 <= i < segs.len() && seg_start(#[trigger] segs[i]) <= entry < seg_end(segs[i])
            && spec_is_executable(segs[i].perms)
}

/// Outcome of validating an image: the first error in the order of the
/// checks (stack, then each segment in turn, then the entry point).
pub open spec fn validation(image: UserImage) -> Result<(), UserImageError> {
    let size = image.user_stack_size;
    let top = image.user_stack_top@;
    match stack_error(size, top) {
        Some(e) => Err(e),
        None => match first_segment_error(image.segments@, 0, top - size, top as int) {
            Some(e) => Err(e),
            None => if entry_in_exec(image.segments@, image.entry@ as int) {
                Ok(())
            } else {
                Err(UserImageError::EntryNotInExecSegment)
            },
        },
    }
}

/// Whether the range `[start, end)` overlaps one of the first `i`
/// segments.
fn overlaps_earlier(segments: &[UserSegment], i: usize, start: usize, end: usize) -> (r: Result<
    bool,
    UserImageError,
>)
    requires
        i <= segments@.len(),
        forall|m: int| 0 <= m < i ==> seg_end(#[trigger] segments@[m]) <= usize::MAX,
    ensures
        r == Ok::<bool, UserImageError>(
            exists|j: int|
                0 <= j < i && ranges_overlap(
                    start as int,
                    end as int,
                    seg_start(#[trigger] segments@[j]),
                    seg_end(segments@[j]),
                ),
        ),
{
    let mut j: usize = 0;
    while j < i
        invariant
            i <= segments@.len(),
            j <= i,
            forall|m: int| 0 <= m < i ==> seg_end(#[trigger] segments@[m]) <= usize::MAX,
            forall|m: int|
                0 <= m < j ==> !ranges_overlap(
                    start as int,
                    end as int,
                    seg_start(#[trigger] segments@[m]),
                    seg_end(segments@[m]),
                ),
        decreases i - j,
    {
        let other = &segments[j];
        let other_start = other.va_base.as_usize();
        let other_end = match other_start.checked_add(other.mapped_size) {
            Some(e) => e,
            None => {
                proof {
                    assert(seg_end(segments@[j as int]) <= usize::MAX);
                }
                return Err(UserImageError::SegmentAddressOverflow);
            },
        };
        if end > other_start && other_end > start {
            proof {
                assert(ranges_overlap(
                    start as int,
                    end as int,
                    seg_start(segments@[j as int]),
                    seg_end(segments@[j as int]),
                ));
            }
            return Ok(true);
        }
        j = j + 1;
    }
    Ok(false)
}

impl UserImage<'_> {
    /// Base of the user stack, `top - size`; `MisalignedStack` where it is
    /// below zero or not page-aligned.
    pub fn user_stack_base(&self) -> (r: Result<PageAlignedVirtualAddress, UserImageError>)
        ensures
            r matches Ok(b) ==> b@ == self.user_stack_top@ - self.user_stack_size,
            r is Ok <==> (self.user_stack_top@ >= self.user_stack_size && (self.user_stack_top@
                - self.user_stack_size) % (PAGE as int) == 0),
            r matches Err(e) ==> e == UserImageError::MisalignedStack,
    {
        let base = match self.user_stack_top.as_usize().checked_sub(self.user_stack_size) {
            Some(b) => b,
            None => {
                return Err(UserImageError::MisalignedStack);
            },
        };
        match PageAlignedVirtualAddress::from_usize(base) {
            Some(b) => Ok(b),
            None => Err(UserImageError::MisalignedStack),
        }
    }

    /// Checks the image's invariants without allocating anything.
    pub fn validate(&self) -> (r: Result<(), UserImageError>)
        ensures
            r == validation(*self),
            r is Ok ==> exists|i: int|
                0 <= i < self.segments@.len() && seg_start(#[trigger] self.segments@[i]) <= self.entry@
                    < seg_end(self.segments@[i]) && spec_is_executable(self.segments@[i].perms),
            forall|i: int|
                0 <= i < self.segments@.len() && seg_start(#[trigger] self.segments@[i]) <= self.entry@
                    < seg_end(self.segments@[i]) && spec_is_executable(self.segments@[i].perms)
                    && stack_error(self.user_stack_size, self.user_stack_top@) is None
                    && first_segment_error(
                    self.segments@,
                    0,
                    self.user_stack_top@ - self.user_stack_size,
                    self.user_stack_top@ as int,
                ) is None ==> r is Ok,
    {
        let size = self.user_stack_size;
        if size == 0 || size % PAGE != 0 {
            return Err(UserImageError::MisalignedStack);
        }
        if self.user_stack_top.as_usize() % PAGE != 0 {
            return Err(UserImageError::MisalignedStack);
        }
        let stack_base = self.user_stack_base()?;
        let stack_base = stack_base.as_usize();
        let stack_end = self.user_stack_top.as_usize();
        let ghost segs = self.segments@;
        let entry = self.entry.as_usize();
        let mut found_entry_in_exec = false;
        let n = self.segments.len();
        let mut i: usize = 0;
        proof {
            assert(stack_base == stack_end - size);
        }
        while i < n
            invariant
                segs == self.segments@,
                n == segs.len(),
                i <= n,
                stack_base == stack_end - size,
                entry == self.entry@,
                validation(*self) == match first_segment_error(segs, i as int, stack_base as int, stack_end as int) {
                    Some(e) => Err(e),
                    None => if entry_in_exec(segs, entry as int) {
                        Ok(())
                    } else {
                        Err(UserImageError::EntryNotInExecSegment)
                    },
                },
                forall|j: int| 0 <= j < i ==> seg_end(#[trigger] segs[j]) <= usize::MAX,
                found_entry_in_exec <==> exists|j: int|
                    0 <= j < i && seg_start(#[trigger] segs[j]) <= entry < seg_end(segs[j])
                        && spec_is_executable(segs[j].perms),
            decreases n - i,
        {
            let seg = &self.segments[i];
            let mapped = seg.mapped_size;
            if mapped == 0 || mapped % PAGE != 0 {
                return Err(UserImageError::MisalignedSegment);
            }
            if seg.va_base.as_usize() % PAGE != 0 {
                return Err(UserImageError::MisalignedSegment);
            }
            if seg.init_bytes.len() > mapped {
                return Err(UserImageError::InitBytesExceedMapped);
            }
            let start = seg.va_base.as_usize();
            let end = match start.checked_add(mapped) {
                Some(e) => e,
                None => {
                    return Err(UserImageError::SegmentAddressOverflow);
                },
            };
            if end > stack_base && stack_end > start {
                return Err(UserImageError::StackOverlapsSegment);
            }
            if overlaps_earlier(self.segments, i, start, end)? {
                proof {
                    assert(segment_error(segs, i as int, stack_base as int, stack_end as int)
                        == Some(UserImageError::OverlappingSegments));
                }
                return Err(UserImageError::OverlappingSegments);
            }
            proof {
                assert(segment_error(segs, i as int, stack_base as int, stack_end as int) is None);
            }
            if entry >= start && entry < end && segment_is_executable(seg.perms) {
                found_entry_in_exec = true;
            }
            i = i + 1;
        }
        proof {
            assert(found_entry_in_exec == entry_in_exec(segs, entry as int));
        }
        if !found_entry_in_exec {
            return Err(UserImageError::EntryNotInExecSegment);
        }
        Ok(())
    }
}

/// The entry point may lie in any segment of the image, not only the first:
/// an image is valid only if some executable segment holds its entry, and an
/// image whose stack and segments pass their checks is valid as soon as one
/// executable segment, wherever it stands in the list, holds the entry.
pub proof fn lemma_entry_in_any_exec_segment(image: UserImage, k: int)
    ensures
        validation(image) is Ok ==> exists|i: int|
            0 <= i < image.segments@.len() && seg_start(#[trigger] image.segments@[i]) <= image.entry@
                < seg_end(image.segments@[i]) && spec_is_executable(image.segments@[i].perms),
        0 <= k < image.segments@.len() && seg_start(image.segments@[k]) <= image.entry@ < seg_end(
            image.segments@[k],
        ) && spec_is_executable(image.segments@[k].perms) && stack_error(
            image.user_stack_size,
            image.user_stack_top@,
        ) is None && first_segment_error(
            image.segments@,
            0,
            image.user_stack_top@ - image.user_stack_size,
            image.user_stack_top@ as int,
        ) is None ==> validation(image) is Ok,
{
}

} // verus!
