//! Half-open address ranges.

use vstd::prelude::*;
use super::address::{Address, PAGE, PageAlignedAddress};

verus! {

/// Half-open range of addresses `[start, end)`.
#[derive(Copy, Clone, Debug)]
pub struct MemoryRange<A: Address> {
    from_inclusive: A,
    to_exclusive: A,
}

impl<A: Address> MemoryRange<A> {
    pub closed spec fn spec_start(self) -> A {
        self.from_inclusive
    }

    pub closed spec fn spec_end(self) -> A {
        self.to_exclusive
    }

    pub fn new(start: A, end: A) -> (r: Self)
        ensures
            r.spec_start() == start,
            r.spec_end() == end,
    {
        MemoryRange { from_inclusive: start, to_exclusive: end }
    }

    pub fn start(&self) -> (r: A)
        ensures
            r == self.spec_start(),
    {
        self.from_inclusive
    }

    pub fn end(&self) -> (r: A)
        ensures
            r == self.spec_end(),
    {
        self.to_exclusive
    }

    /// Whether `start <= addr < end`.
    pub fn contains(&self, addr: A) -> (r: bool)
        ensures
            r == (self.spec_start().addr() <= addr.addr() && addr.addr()
                < self.spec_end().addr()),
    {
        self.from_inclusive.as_usize() <= addr.as_usize() && addr.as_usize()
            < self.to_exclusive.as_usize()
    }

    /// Length in bytes; zero when `end` is below `start`.
    pub fn size(&self) -> (r: usize)
        ensures
            self.spec_start().addr() <= self.spec_end().addr() ==> r == self.spec_end().addr()
                - self.spec_start().addr(),
            self.spec_start().addr() > self.spec_end().addr() ==> r == 0,
    {
        let start = self.start().as_usize();
        let end = self.end().as_usize();
        end.saturating_sub(start)
    }
}

impl MemoryRange<PageAlignedAddress> {
    /// Number of frames in the range.
    pub fn frame_count(&self) -> (r: usize)
        requires
            self.spec_start()@ <= self.spec_end()@,
        ensures
            r == self.spec_end()@ / PAGE - self.spec_start()@ / PAGE,
            r * PAGE == self.spec_end()@ - self.spec_start()@,
    {
        let start_frame = self.from_inclusive.as_usize() / PAGE;
        let end_frame = self.to_exclusive.as_usize() / PAGE;
        end_frame - start_frame
    }

    /// Iterator over the page-aligned addresses of the range.
    pub fn iter(&self) -> (r: MemoryRangeIter)
        ensures
            r.spec_current() == self.spec_start(),
            r.spec_end() == self.spec_end(),
    {
        MemoryRangeIter::new(self.from_inclusive, self.to_exclusive)
    }

    /// Every page-aligned address of the range, walked with
    /// [`iter`](Self::iter): `frame_count` of them, from the start, a page
    /// apart.
    pub fn addresses(&self) -> (r: Vec<PageAlignedAddress>)
        requires
            self.spec_start()@ <= self.spec_end()@,
        ensures
            r@.len() == self.spec_end()@ / PAGE - self.spec_start()@ / PAGE,
            forall|i: int| 0 <= i < r@.len() ==> (#[trigger] r@[i])@ == self.spec_start()@ + i * PAGE,
    {
        let count = self.frame_count();
        let mut it = self.iter();
        let mut out: Vec<PageAlignedAddress> = Vec::new();
        let mut k: usize = 0;
        while k < count
            invariant
                k <= count,
                count * PAGE == self.spec_end()@ - self.spec_start()@,
                count == self.spec_end()@ / PAGE - self.spec_start()@ / PAGE,
                out@.len() == k,
                it.spec_end() == self.spec_end(),
                it.spec_current()@ == self.spec_start()@ + k * PAGE,
                forall|i: int| 0 <= i < k ==> (#[trigger] out@[i])@ == self.spec_start()@ + i * PAGE,
            decreases count - k,
        {
            assert(self.spec_start()@ + k * PAGE < self.spec_end()@) by (nonlinear_arith)
                requires
                    k < count,
                    count * PAGE == self.spec_end()@ - self.spec_start()@,
            ;
            let a = it.next().unwrap();
            out.push(a);
            k += 1;
        }
        out
    }
}

/// One step of a walk at `cur` towards `end`: the address yielded, if any,
/// and the next position.
pub open spec fn next_step(cur: int, end: int) -> (Option<int>, int) {
    if cur < end {
        (Some(cur), cur + PAGE)
    } else {
        (None, cur)
    }
}

/// Position of a walk from `start` towards `end` after `k` steps.
pub open spec fn walk_position(start: int, end: int, k: nat) -> int
    decreases k,
{
    if k == 0 {
        start
    } else {
        next_step(walk_position(start, end, (k - 1) as nat), end).1
    }
}

/// A walk of `[start, end)` yields, at its step `i`, the address
/// `start + i * PAGE` while that address is below `end`, and nothing from
/// then on.
pub proof fn lemma_walk_yields(start: int, end: int, i: nat)
    ensures
        next_step(walk_position(start, end, i), end).0 == if start + i * PAGE < end {
            Some(start + i * PAGE)
        } else {
            None::<int>
        },
    decreases i,
{
    lemma_walk_position(start, end, i);
}

/// Where a walk stands after `i` steps: at `start + i * PAGE` while that
/// is below `end`, at or past `end` from then on.
proof fn lemma_walk_position(start: int, end: int, i: nat)
    ensures
        start + i * PAGE < end ==> walk_position(start, end, i) == start + i * PAGE,
        start + i * PAGE >= end ==> walk_position(start, end, i) >= end,
    decreases i,
{
    if i > 0 {
        lemma_walk_position(start, end, (i - 1) as nat);
        if start >= end {
            assert(start + (i - 1) * PAGE >= end) by (nonlinear_arith)
                requires
                    start >= end,
                    i > 0,
            ;
        }
    }
}

/// Walks the page-aligned addresses of a range, one page at a time.
pub struct MemoryRangeIter {
    current: PageAlignedAddress,
    end: PageAlignedAddress,
}

impl MemoryRangeIter {
    pub closed spec fn spec_current(self) -> PageAlignedAddress {
        self.current
    }

    pub closed spec fn spec_end(self) -> PageAlignedAddress {
        self.end
    }

    fn new(start: PageAlignedAddress, end: PageAlignedAddress) -> (r: Self)
        ensures
            r.spec_current() == start,
            r.spec_end() == end,
    {
        MemoryRangeIter { current: start, end }
    }

    /// The next address, or `None` once the end is reached.
    pub fn next(&mut self) -> (r: Option<PageAlignedAddress>)
        ensures
            final(self).spec_end() == old(self).spec_end(),
            old(self).spec_current()@ >= old(self).spec_end()@ ==> {
                &&& r is None
                &&& final(self).spec_current() == old(self).spec_current()
            },
            old(self).spec_current()@ < old(self).spec_end()@ ==> {
                &&& r == Some(old(self).spec_current())
                &&& final(self).spec_current()@ == old(self).spec_current()@ + PAGE
            },
            (match r {
                Some(a) => Some(a@ as int),
                None => None::<int>,
            }, final(self).spec_current()@ as int) == next_step(
                old(self).spec_current()@ as int,
                old(self).spec_end()@ as int,
            ),
    {
        let cur = self.current.as_usize();
        let end = self.end.as_usize();
        if cur >= end {
            return None;
        }
        let value = self.current;
        self.current = self.current.next_aligned();
        Some(value)
    }
}

} // verus!
