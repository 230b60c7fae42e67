//! Size and alignment of a requested allocation.

use vstd::prelude::*;

verus! {

/// Whether `a` is a power of two.
pub open spec fn is_power_of_two(a: usize) -> bool {
    a != 0 && a & ((a - 1) as usize) == 0
}

/// Whether `size` bytes aligned to `align` make a valid layout: `align` is
/// a power of two and `size`, rounded up to it, fits in `isize`.
pub open spec fn layout_ok(size: usize, align: usize) -> bool {
    is_power_of_two(align) && size <= isize::MAX - (align - 1)
}

/// Smallest multiple of `align` at or above `x`.
pub open spec fn spec_align_up(x: int, align: int) -> int {
    if x % align == 0 {
        x
    } else {
        x - x % align + align
    }
}

/// Size and alignment of an allocation.
#[derive(Clone, Copy, Debug, PartialEq, Eq, Structural)]
pub struct Layout {
    size: usize,
    align: usize,
}

/// A size and alignment that make no valid layout.
#[derive(Clone, Copy, Debug, PartialEq, Eq, Structural)]
pub struct LayoutError;

impl Layout {
    #[verifier::type_invariant]
    spec fn layout_inv(self) -> bool {
        layout_ok(self.size, self.align)
    }

    pub closed spec fn spec_size(self) -> usize {
        self.size
    }

    pub closed spec fn spec_align(self) -> usize {
        self.align
    }

    /// The layout of `size` bytes aligned to `align`, if valid.
    pub fn from_size_align(size: usize, align: usize) -> (r: Result<Self, LayoutError>)
        ensures
            r is Ok <==> layout_ok(size, align),
            r matches Ok(l) ==> l.spec_size() == size && l.spec_align() == align,
    {
        if align == 0 {
            return Err(LayoutError);
        }
        let low = align & (align - 1);
        if low != 0 {
            return Err(LayoutError);
        }
        let max = isize::MAX as usize;
        if align - 1 > max || size > max - (align - 1) {
            return Err(LayoutError);
        }
        Ok(Layout { size, align })
    }

    pub fn size(&self) -> (r: usize)
        ensures
            r == self.spec_size(),
    {
        self.size
    }

    pub fn align(&self) -> (r: usize)
        ensures
            r == self.spec_align(),
            is_power_of_two(r),
            self.spec_size() <= isize::MAX - (r - 1),
    {
        proof {
            use_type_invariant(*self);
        }
        self.align
    }
}

/// Rounds `x` up to a multiple of `align`; `None` when that overflows.
pub fn checked_align_up(x: usize, align: usize) -> (r: Option<usize>)
    requires
        align > 0,
    ensures
        spec_align_up(x as int, align as int) <= usize::MAX ==> r == Some(
            spec_align_up(x as int, align as int) as usize,
        ),
        spec_align_up(x as int, align as int) > usize::MAX ==> r is None,
{
    let rem = x % align;
    if rem == 0 {
        Some(x)
    } else {
        x.checked_add(align - rem)
    }
}

} // verus!
