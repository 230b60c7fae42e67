//! Bump allocator over a physical range: allocations advance an offset and
//! are never given back.

use vstd::prelude::*;
use super::address::{PageAlignedAddress, PhysicalAddress};
use super::layout::{checked_align_up, spec_align_up, Layout};
use super::memory_range::MemoryRange;

verus! {

/// Failure to allocate from a [`BumpAllocator`].
#[derive(Debug, Clone, Copy, PartialEq, Eq, Structural)]
pub enum BumpAllocError {
    /// The request needs `required_size` bytes from the current offset, but
    /// only `available_size` are left.
    OutOfMemory { required_size: usize, available_size: usize },
    /// The aligned request does not fit in the address space.
    AddressOverflow,
}

/// Hands out consecutive pieces of `[start, end)`.
pub struct BumpAllocator {
    start: usize,
    end: usize,
    offset: usize,
}

impl BumpAllocator {
    #[verifier::type_invariant]
    spec fn bump_inv(self) -> bool {
        self.start + self.offset <= self.end
    }

    pub closed spec fn spec_start(self) -> usize {
        self.start
    }

    pub closed spec fn spec_end(self) -> usize {
        self.end
    }

    /// First address not yet handed out.
    pub closed spec fn spec_current(self) -> int {
        self.start + self.offset
    }

    /// An allocator over `[start, end)`; empty when `end` is below `start`.
    pub fn new(start: PageAlignedAddress, end: PageAlignedAddress) -> (r: Self)
        ensures
            r.spec_start() == start@,
            r.spec_end() == if end@ < start@ {
                start@
            } else {
                end@
            },
            r.spec_current() == start@,
    {
        let s = start.as_usize();
        let e = end.as_usize();
        let e = if e < s {
            s
        } else {
            e
        };
        BumpAllocator { start: s, end: e, offset: 0 }
    }

    /// Bytes left.
    pub fn remaining(&self) -> (r: usize)
        ensures
            r == self.spec_end() - self.spec_current(),
    {
        proof {
            use_type_invariant(self);
        }
        self.end - (self.start + self.offset)
    }

    /// The range handed out so far.
    pub fn used(&self) -> (r: MemoryRange<PhysicalAddress>)
        ensures
            r.spec_start()@ == self.spec_start(),
            r.spec_end()@ == self.spec_current(),
    {
        proof {
            use_type_invariant(self);
        }
        MemoryRange::new(PhysicalAddress::new(self.start), PhysicalAddress::new(self.start + self.offset))
    }

    /// Hands out `layout.size()` bytes at the first address at or after the
    /// current offset aligned to `layout.align()`.
    ///
    /// `AddressOverflow` where the aligned address or its end passes the
    /// address space; `OutOfMemory` where the end passes the range, with the
    /// bytes needed from the current offset and the bytes left. A failed
    /// request changes nothing.
    pub fn allocate(&mut self, layout: Layout) -> (r: Result<usize, BumpAllocError>)
        ensures
            final(self).spec_start() == old(self).spec_start(),
            final(self).spec_end() == old(self).spec_end(),
            ({
                let cur = old(self).spec_current();
                let aligned = spec_align_up(cur, layout.spec_align() as int);
                let alloc_end = aligned + layout.spec_size();
                if alloc_end > usize::MAX {
                    r == Err::<usize, BumpAllocError>(BumpAllocError::AddressOverflow)
                        && final(self).spec_current() == cur
                } else if alloc_end > old(self).spec_end() {
                    r == Err::<usize, BumpAllocError>(
                        BumpAllocError::OutOfMemory {
                            required_size: (alloc_end - cur) as usize,
                            available_size: (old(self).spec_end() - cur) as usize,
                        },
                    ) && final(self).spec_current() == cur
                } else {
                    r == Ok::<usize, BumpAllocError>(aligned as usize) && final(self).spec_current()
                        == alloc_end
                }
            }),
    {
        proof {
            use_type_invariant(&*self);
        }
        let align = layout.align();
        let size = layout.size();
        let current = self.start + self.offset;
        let aligned = match checked_align_up(current, align) {
            Some(a) => a,
            None => {
                return Err(BumpAllocError::AddressOverflow);
            },
        };
        let alloc_end = match aligned.checked_add(size) {
            Some(e) => e,
            None => {
                return Err(BumpAllocError::AddressOverflow);
            },
        };
        if alloc_end > self.end {
            return Err(
                BumpAllocError::OutOfMemory {
                    required_size: alloc_end - current,
                    available_size: self.end - current,
                },
            );
        }
        self.offset = alloc_end - self.start;
        Ok(aligned)
    }
}

/// Successive allocations never overlap: each ends where the offset moves
/// to, and the next starts at or after it.
pub proof fn lemma_successive_allocations_disjoint(cur: int, align1: int, size1: int, align2: int)
    requires
        cur >= 0,
        align1 > 0,
        align2 > 0,
        size1 >= 0,
    ensures
        cur <= spec_align_up(cur, align1),
        spec_align_up(cur, align1) + size1 <= spec_align_up(spec_align_up(cur, align1) + size1, align2),
{
}

} // verus!
