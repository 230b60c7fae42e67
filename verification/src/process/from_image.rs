//! Pieces of a user image assembled from a program description.

use vstd::prelude::*;
use crate::memory::address::{PageAlignedVirtualAddress, VirtualAddress, page_aligned};
use crate::memory::mem_flags::{AccessMode, Executable, MemFlags, user_private};
use super::image::{UserImage, UserSegment, PAGE};

verus! {

/// Smallest multiple of the page size at or above `size`, if it fits.
pub open spec fn spec_round_up_to_frame(size: int) -> int {
    if size % PAGE as int == 0 {
        size
    } else {
        size - size % PAGE as int + PAGE
    }
}

/// Rounds `size` up to a whole number of frames; `None` on overflow.
pub fn round_up_to_frame(size: usize) -> (r: Option<usize>)
    ensures
        spec_round_up_to_frame(size as int) <= usize::MAX ==> r == Some(
            spec_round_up_to_frame(size as int) as usize,
        ),
        spec_round_up_to_frame(size as int) > usize::MAX ==> r is None,
{
    let rem = size % PAGE;
    if rem == 0 {
        Some(size)
    } else {
        size.checked_add(PAGE - rem)
    }
}

/// Owned parts of a user image: its segments, entry point and stack.
pub struct UserImageParts<'a> {
    segments: Vec<UserSegment<'a>>,
    entry: VirtualAddress,
    user_stack_top: VirtualAddress,
    user_stack_size: usize,
}

impl<'a> UserImageParts<'a> {
    pub closed spec fn spec_segments(self) -> Seq<UserSegment<'a>> {
        self.segments@
    }

    pub closed spec fn spec_entry(self) -> VirtualAddress {
        self.entry
    }

    pub closed spec fn spec_stack(self) -> (VirtualAddress, usize) {
        (self.user_stack_top, self.user_stack_size)
    }

    /// Parts of an image with the given segments, entry and stack.
    pub fn new(
        segments: Vec<UserSegment<'a>>,
        entry: VirtualAddress,
        user_stack_top: VirtualAddress,
        user_stack_size: usize,
    ) -> (r: Self)
        ensures
            r.spec_segments() == segments@,
            r.spec_entry() == entry,
            r.spec_stack() == (user_stack_top, user_stack_size),
    {
        UserImageParts { segments, entry, user_stack_top, user_stack_size }
    }

    /// The image these parts make up.
    pub fn image(&self) -> (r: UserImage<'_>)
        ensures
            r.segments@ == self.spec_segments(),
            r.entry == self.spec_entry(),
            (r.user_stack_top, r.user_stack_size) == self.spec_stack(),
    {
        UserImage {
            segments: self.segments.as_slice(),
            entry: self.entry,
            user_stack_top: self.user_stack_top,
            user_stack_size: self.user_stack_size,
        }
    }
}

/// Access permissions of a program segment.
#[derive(Debug, Clone, Copy, PartialEq, Eq, Structural)]
pub enum SegmentPermissions {
    ReadWrite,
    ReadOnly,
    ReadExecute,
}

/// A program segment as a program description gives it.
pub struct SegmentSource<'a> {
    /// Virtual base of the segment.
    pub va_base: u64,
    /// Bytes the segment occupies in memory.
    pub mem_size: u64,
    /// Access permissions.
    pub permissions: SegmentPermissions,
    /// Initial bytes of the segment.
    pub bytes: &'a [u8],
}

/// Errors of turning a program description into image parts. `V` is what
/// the validation of the description reports.
#[derive(Debug, Clone, Copy, PartialEq, Eq)]
pub enum UserImageFromModelError<V> {
    /// The description failed validation.
    Semantic(V),
    /// A segment base is not page-aligned.
    MisalignedSegment,
    /// A segment size does not fit, rounded up to frames, in `usize`.
    SegmentSizeOverflow,
    /// An address or the stack size does not fit in `usize`.
    FieldOverflow,
}

/// Mapping flags of segment permissions: user access only.
pub open spec fn permission_flags(permissions: SegmentPermissions) -> MemFlags {
    match permissions {
        SegmentPermissions::ReadWrite => user_private(AccessMode::Writable, Executable::NotAllowed),
        SegmentPermissions::ReadOnly => user_private(AccessMode::Readonly, Executable::NotAllowed),
        SegmentPermissions::ReadExecute => user_private(AccessMode::Readonly, Executable::Allowed),
    }
}

fn permissions_to_mem_flags(permissions: SegmentPermissions) -> (r: MemFlags)
    ensures
        r == permission_flags(permissions),
{
    match permissions {
        SegmentPermissions::ReadWrite => MemFlags::user_rw(),
        SegmentPermissions::ReadOnly => MemFlags::user_ro(),
        SegmentPermissions::ReadExecute => MemFlags::user_rx(),
    }
}

/// Why a segment cannot become a segment of the image, if it cannot.
pub open spec fn segment_error<V>(s: SegmentSource) -> Option<UserImageFromModelError<V>> {
    if s.va_base > usize::MAX {
        Some(UserImageFromModelError::FieldOverflow)
    } else if !page_aligned(s.va_base as int) {
        Some(UserImageFromModelError::MisalignedSegment)
    } else if s.mem_size > usize::MAX || spec_round_up_to_frame(s.mem_size as int) > usize::MAX {
        Some(UserImageFromModelError::SegmentSizeOverflow)
    } else {
        None
    }
}

/// `seg` is the image segment made of `s`.
pub open spec fn converted_segment(s: SegmentSource, seg: UserSegment) -> bool {
    &&& seg.va_base@ == s.va_base
    &&& seg.mapped_size == spec_round_up_to_frame(s.mem_size as int)
    &&& seg.init_bytes@ == s.bytes@
    &&& seg.perms == permission_flags(s.permissions)
}

/// Turns a program description into image parts. `validation` is the
/// verdict of validating the description; a rejected description is
/// `Semantic`. Then each segment in order: its base must fit in `usize`
/// and be page-aligned, its size rounded up to frames must fit in `usize`;
/// the first segment that fails decides the error. Last the entry point and
/// the stack size must fit in `usize`. The stack ends at `user_va_end`.
pub fn user_image_parts_from_entry<'a, V>(
    validation: Result<(), V>,
    segments: &[SegmentSource<'a>],
    entry_va: u64,
    stack_size: u64,
    user_va_end: usize,
) -> (r: Result<UserImageParts<'a>, UserImageFromModelError<V>>)
    ensures
        validation matches Err(e) ==> r == Err::<UserImageParts<'a>, UserImageFromModelError<V>>(
            UserImageFromModelError::Semantic(e),
        ),
        validation is Ok ==> (r is Ok <==> (forall|i: int|
            0 <= i < segments@.len() ==> segment_error::<V>(#[trigger] segments@[i]) is None)
            && entry_va <= usize::MAX && stack_size <= usize::MAX),
        validation is Ok && r is Err ==> (exists|k: int|
            0 <= k < segments@.len() && segment_error::<V>(#[trigger] segments@[k]) == Some(r->Err_0)
                && forall|j: int| 0 <= j < k ==> segment_error::<V>(#[trigger] segments@[j]) is None)
            || ((forall|i: int| 0 <= i < segments@.len() ==> segment_error::<V>(#[trigger] segments@[i]) is None)
                && r->Err_0 == UserImageFromModelError::<V>::FieldOverflow),
        r matches Ok(parts) ==> {
            &&& parts.spec_segments().len() == segments@.len()
            &&& forall|i: int| 0 <= i < segments@.len() ==> converted_segment(
                #[trigger] segments@[i],
                parts.spec_segments()[i],
            )
            &&& parts.spec_entry()@ == entry_va
            &&& parts.spec_stack().0@ == user_va_end
            &&& parts.spec_stack().1 == stack_size
        },
{
    match validation {
        Err(e) => {
            return Err(UserImageFromModelError::Semantic(e));
        },
        Ok(()) => {},
    }
    let mut out: Vec<UserSegment<'a>> = Vec::new();
    let mut i: usize = 0;
    while i < segments.len()
        invariant
            validation is Ok,
            i <= segments@.len(),
            out@.len() == i,
            forall|j: int| 0 <= j < i ==> segment_error::<V>(#[trigger] segments@[j]) is None,
            forall|j: int| 0 <= j < i ==> converted_segment(#[trigger] segments@[j], out@[j]),
        decreases segments.len() - i,
    {
        let seg = &segments[i];
        if seg.va_base > usize::MAX as u64 {
            proof {
                assert(segment_error::<V>(segments@[i as int]) == Some(UserImageFromModelError::<V>::FieldOverflow));
            }
            return Err(UserImageFromModelError::FieldOverflow);
        }
        let va_base = match PageAlignedVirtualAddress::from_usize(seg.va_base as usize) {
            Some(a) => a,
            None => {
                proof {
                    assert(segment_error::<V>(segments@[i as int]) == Some(UserImageFromModelError::<V>::MisalignedSegment));
                }
                return Err(UserImageFromModelError::MisalignedSegment);
            },
        };
        if seg.mem_size > usize::MAX as u64 {
            proof {
                assert(segment_error::<V>(segments@[i as int]) == Some(UserImageFromModelError::<V>::SegmentSizeOverflow));
            }
            return Err(UserImageFromModelError::SegmentSizeOverflow);
        }
        let mapped_size = match round_up_to_frame(seg.mem_size as usize) {
            Some(m) => m,
            None => {
                proof {
                    assert(segment_error::<V>(segments@[i as int]) == Some(UserImageFromModelError::<V>::SegmentSizeOverflow));
                }
                return Err(UserImageFromModelError::SegmentSizeOverflow);
            },
        };
        out.push(UserSegment {
            va_base,
            mapped_size,
            init_bytes: seg.bytes,
            perms: permissions_to_mem_flags(seg.permissions),
        });
        i += 1;
    }
    if entry_va > usize::MAX as u64 || stack_size > usize::MAX as u64 {
        return Err(UserImageFromModelError::FieldOverflow);
    }
    Ok(UserImageParts {
        segments: out,
        entry: VirtualAddress::new(entry_va as usize),
        user_stack_top: VirtualAddress::new(user_va_end),
        user_stack_size: stack_size as usize,
    })
}

} // verus!
