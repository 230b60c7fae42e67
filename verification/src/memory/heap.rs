//! Kernel heap: a first-fit free list over a virtual window of its own.
//!
//! The heap owns a window of kernel virtual addresses and grows by mapping
//! fresh pages at its top through a [`MemoryMapper`]. Every block, free or
//! handed out, starts with a header of [`HEADER`] bytes; its payload
//! follows. Free blocks are kept sorted by address, and neighbours that
//! touch are merged.

use vstd::prelude::*;
use super::address::PageAlignedVirtualAddress;
use super::layout::{spec_align_up, Layout};
use super::mem_flags::{kernel_rw_flags, MemFlags};
use super::memory_mapper::MemoryMapper;

verus! {

/// Bytes of a block header.
pub const HEADER: usize = 16;
/// Bytes before a handed-out address that point back to its block.
pub const HEADER_PTR_SIZE: usize = 8;
/// Smallest payload handed out.
pub const MIN_ALLOC_SIZE: usize = 16;
/// Alignment of every block and of every payload size.
pub const ALLOC_ALIGN: usize = 8;
/// Bytes in a page.
pub const HEAP_PAGE: usize = 4096;

/// Failure to allocate from the heap.
#[derive(Debug, Clone, Copy, PartialEq, Eq, Structural)]
pub enum AllocationError {
    /// The window is exhausted or mapping failed.
    OutOfMemory,
    /// The request is for zero bytes.
    InvalidLayout,
}

/// A block of the heap: its address and the size of its payload.
#[derive(Debug, Clone, Copy, PartialEq, Eq, Structural)]
pub struct FreeBlock {
    pub addr: usize,
    pub size: usize,
}

/// First address past a block.
pub open spec fn blk_end(b: FreeBlock) -> int {
    b.addr + HEADER + b.size
}

/// Whether two blocks share no byte.
pub open spec fn blocks_disjoint(a: FreeBlock, b: FreeBlock) -> bool {
    blk_end(a) <= b.addr || blk_end(b) <= a.addr
}

/// Blocks sorted by address with a gap between any two: none overlap and
/// none touch.
pub open spec fn sorted_apart(s: Seq<FreeBlock>) -> bool {
    forall|i: int, j: int| 0 <= i < j < s.len() ==> blk_end(#[trigger] s[i]) < (#[trigger] s[j]).addr
}

/// Position at which a block at `addr` goes in a sorted list.
pub open spec fn insert_pos(s: Seq<FreeBlock>, addr: usize) -> int
    decreases s.len(),
{
    if s.len() == 0 {
        0
    } else if s[0].addr >= addr {
        0
    } else {
        1 + insert_pos(s.drop_first(), addr)
    }
}

/// The free list once `b` is inserted in address order and merged with the
/// neighbours that it touches.
pub open spec fn coalesced(s: Seq<FreeBlock>, b: FreeBlock) -> Seq<FreeBlock> {
    let p = insert_pos(s, b.addr);
    let left = p > 0 && blk_end(s[p - 1]) == b.addr;
    let right = p < s.len() && blk_end(b) == s[p].addr;
    if left && right {
        s.remove(p).update(
            p - 1,
            FreeBlock {
                addr: s[p - 1].addr,
                size: (s[p - 1].size + HEADER + b.size + HEADER + s[p].size) as usize,
            },
        )
    } else if left {
        s.update(p - 1, FreeBlock { addr: s[p - 1].addr, size: (s[p - 1].size + HEADER + b.size) as usize })
    } else if right {
        s.update(p, FreeBlock { addr: b.addr, size: (b.size + HEADER + s[p].size) as usize })
    } else {
        s.insert(p, b)
    }
}

/// Facts about the insertion position in a sorted list.
proof fn lemma_insert_pos(s: Seq<FreeBlock>, addr: usize)
    ensures
        0 <= insert_pos(s, addr) <= s.len(),
        forall|i: int| 0 <= i < insert_pos(s, addr) ==> (#[trigger] s[i]).addr < addr,
        insert_pos(s, addr) < s.len() ==> s[insert_pos(s, addr)].addr >= addr,
    decreases s.len(),
{
    if s.len() > 0 && s[0].addr < addr {
        lemma_insert_pos(s.drop_first(), addr);
        assert forall|i: int| 0 <= i < insert_pos(s, addr) implies (#[trigger] s[i]).addr < addr by {
            if i > 0 {
                assert(s[i] == s.drop_first()[i - 1]);
            }
        }
    }
}

/// Inserts `b` into the sorted free list, merging it with the neighbours
/// that it touches.
fn add_to_free_list(free: &mut Vec<FreeBlock>, b: FreeBlock)
    requires
        sorted_apart(old(free)@),
        forall|i: int| 0 <= i < old(free)@.len() ==> blocks_disjoint(#[trigger] old(free)@[i], b),
        forall|i: int| 0 <= i < old(free)@.len() ==> blk_end(#[trigger] old(free)@[i]) <= usize::MAX,
        blk_end(b) <= usize::MAX,
    ensures
        final(free)@ == coalesced(old(free)@, b),
        sorted_apart(final(free)@),
{
    let ghost s = free@;
    proof {
        lemma_insert_pos(s, b.addr);
    }
    let n = free.len();
    let mut p: usize = 0;
    while p < n && free[p].addr < b.addr
        invariant
            free@ == s,
            n == s.len(),
            p <= n,
            p <= insert_pos(s, b.addr),
            0 <= insert_pos(s, b.addr) <= s.len(),
            forall|i: int| 0 <= i < insert_pos(s, b.addr) ==> (#[trigger] s[i]).addr < b.addr,
            insert_pos(s, b.addr) < s.len() ==> s[insert_pos(s, b.addr)].addr >= b.addr,
        decreases n - p,
    {
        p = p + 1;
    }
    proof {
        assert(p == insert_pos(s, b.addr));
    }
    let left = p > 0 && free[p - 1].addr + HEADER + free[p - 1].size == b.addr;
    let right = p < n && b.addr + HEADER + b.size == free[p].addr;
    if left && right {
        let l = free[p - 1];
        let r = free.remove(p);
        free.set(p - 1, FreeBlock { addr: l.addr, size: l.size + HEADER + b.size + HEADER + r.size });
    } else if left {
        let l = free[p - 1];
        free.set(p - 1, FreeBlock { addr: l.addr, size: l.size + HEADER + b.size });
    } else if right {
        let r = free[p];
        free.set(p, FreeBlock { addr: b.addr, size: b.size + HEADER + r.size });
    } else {
        free.insert(p, b);
    }
    proof {
        let t = free@;
        assert(t == coalesced(s, b));
        assert forall|i: int, j: int| 0 <= i < j < t.len() implies blk_end(#[trigger] t[i]) < (#[trigger] t[j]).addr by {
            if p > 0 {
                assert(blk_end(s[p as int - 1]) <= b.addr);
            }
            if p < n {
                assert(blk_end(b) <= s[p as int].addr);
            }
            if left && right {
                if i < p - 1 {
                    assert(t[i] == s[i]);
                }
                if j > p - 1 {
                    assert(t[j] == s[j + 1]);
                }
                if i > p - 1 {
                    assert(t[i] == s[i + 1]);
                }
            } else if left {
            } else if right {
            } else {
                if i < p {
                    assert(t[i] == s[i]);
                } else if i > p {
                    assert(t[i] == s[i - 1]);
                }
                if j < p {
                    assert(t[j] == s[j]);
                } else if j > p {
                    assert(t[j] == s[j - 1]);
                    if i < p {
                        assert(blk_end(s[i]) < s[j - 1].addr);
                    }
                }
                if i < p && p > 0 && i < p - 1 {
                    assert(blk_end(s[i]) < s[p - 1].addr);
                }
            }
        }
    }
}

/// Whether every block of `s` lies in `[lo, hi]`, 8-aligned with an
/// 8-aligned payload size.
pub open spec fn blocks_within(s: Seq<FreeBlock>, lo: int, hi: int) -> bool {
    forall|i: int|
        0 <= i < s.len() ==> {
            &&& lo <= (#[trigger] s[i]).addr
            &&& blk_end(s[i]) <= hi
            &&& s[i].addr % 8 == 0
            &&& s[i].size % 8 == 0
        }
}

/// Whether every block of `s` is disjoint from `x`.
pub open spec fn all_disjoint_from(s: Seq<FreeBlock>, x: FreeBlock) -> bool {
    forall|i: int| 0 <= i < s.len() ==> blocks_disjoint(#[trigger] s[i], x)
}

/// Merging keeps blocks inside the window, aligned, and clear of any block
/// that the parts were clear of.
proof fn lemma_coalesced_props(s: Seq<FreeBlock>, b: FreeBlock, lo: int, hi: int)
    requires
        sorted_apart(s),
        all_disjoint_from(s, b),
        blocks_within(s, lo, hi),
        lo <= b.addr,
        blk_end(b) <= hi,
        b.addr % 8 == 0,
        b.size % 8 == 0,
        hi <= usize::MAX,
    ensures
        blocks_within(coalesced(s, b), lo, hi),
        forall|x: FreeBlock|
            all_disjoint_from(s, x) && blocks_disjoint(b, x) ==> #[trigger] all_disjoint_from(
                coalesced(s, b),
                x,
            ),
{
    lemma_insert_pos(s, b.addr);
    let p = insert_pos(s, b.addr);
    let t = coalesced(s, b);
    if p > 0 {
        assert(blk_end(s[p - 1]) <= b.addr);
    }
    if p < s.len() {
        assert(blk_end(b) <= s[p].addr);
    }
    assert forall|i: int| 0 <= i < t.len() implies {
        &&& lo <= (#[trigger] t[i]).addr
        &&& blk_end(t[i]) <= hi
        &&& t[i].addr % 8 == 0
        &&& t[i].size % 8 == 0
    } by {
        let left = p > 0 && blk_end(s[p - 1]) == b.addr;
        let right = p < s.len() && blk_end(b) == s[p].addr;
        if left && right {
            if i >= p {
                assert(t[i] == s[i + 1]);
            }
        } else if !left && !right {
            if i > p {
                assert(t[i] == s[i - 1]);
            }
        }
    }
    assert forall|x: FreeBlock|
        all_disjoint_from(s, x) && blocks_disjoint(b, x) implies #[trigger] all_disjoint_from(t, x) by {
        assert forall|i: int| 0 <= i < t.len() implies blocks_disjoint(#[trigger] t[i], x) by {
            let left = p > 0 && blk_end(s[p - 1]) == b.addr;
            let right = p < s.len() && blk_end(b) == s[p].addr;
            if left && right {
                if i >= p {
                    assert(t[i] == s[i + 1]);
                } else if i == p - 1 {
                    assert(blocks_disjoint(s[p - 1], x));
                    assert(blocks_disjoint(s[p], x));
                }
            } else if left {
                if i == p - 1 {
                    assert(blocks_disjoint(s[p - 1], x));
                }
            } else if right {
                if i == p {
                    assert(blocks_disjoint(s[p], x));
                }
            } else {
                if i > p {
                    assert(t[i] == s[i - 1]);
                }
            }
        }
    }
}

/// Index of the first block with at least `need` payload bytes
/// (`s.len()` if none).
pub open spec fn first_fit(s: Seq<FreeBlock>, need: usize) -> int
    decreases s.len(),
{
    if s.len() == 0 {
        0
    } else if s[0].size >= need {
        0
    } else {
        1 + first_fit(s.drop_first(), need)
    }
}

proof fn lemma_first_fit(s: Seq<FreeBlock>, need: usize)
    ensures
        0 <= first_fit(s, need) <= s.len(),
        forall|i: int| 0 <= i < first_fit(s, need) ==> (#[trigger] s[i]).size < need,
        first_fit(s, need) < s.len() ==> s[first_fit(s, need)].size >= need,
    decreases s.len(),
{
    if s.len() > 0 && s[0].size < need {
        lemma_first_fit(s.drop_first(), need);
        assert forall|i: int| 0 <= i < first_fit(s, need) implies (#[trigger] s[i]).size < need by {
            if i > 0 {
                assert(s[i] == s.drop_first()[i - 1]);
            }
        }
    }
}

/// Payload size that a request of `need` bytes takes from a block: `need`
/// rounded up to [`ALLOC_ALIGN`].
pub open spec fn taken_size(need: int) -> int {
    spec_align_up(need, ALLOC_ALIGN as int)
}

/// Whether a block of `size` payload bytes is split for a request of
/// `need`: the rest must hold a header and [`MIN_ALLOC_SIZE`] bytes.
pub open spec fn splits(size: int, need: int) -> bool {
    size >= taken_size(need) + HEADER + MIN_ALLOC_SIZE
}

/// The block that a request of `need` takes out of `b`.
pub open spec fn taken_block(b: FreeBlock, need: int) -> FreeBlock {
    if splits(b.size as int, need) {
        FreeBlock { addr: b.addr, size: taken_size(need) as usize }
    } else {
        b
    }
}

/// The free list once a request of `need` took the first block that fits,
/// at index `k`.
pub open spec fn free_after_take(s: Seq<FreeBlock>, k: int, need: int) -> Seq<FreeBlock> {
    let b = s[k];
    if splits(b.size as int, need) {
        coalesced(
            s.remove(k),
            FreeBlock {
                addr: (b.addr + HEADER + taken_size(need)) as usize,
                size: (b.size - taken_size(need) - HEADER) as usize,
            },
        )
    } else {
        s.remove(k)
    }
}

/// Takes the first block with at least `need` payload bytes off the list,
/// splitting off and giving back the rest where it is large enough.
#[verifier::spinoff_prover]
#[verifier::rlimit(50)]
fn find_free_block(free: &mut Vec<FreeBlock>, need: usize, Ghost(lo): Ghost<int>, Ghost(hi): Ghost<int>) -> (r: Option<FreeBlock>)
    requires
        sorted_apart(old(free)@),
        blocks_within(old(free)@, lo, hi),
        hi <= usize::MAX,
    ensures
        sorted_apart(final(free)@),
        blocks_within(final(free)@, lo, hi),
        first_fit(old(free)@, need) == old(free)@.len() ==> r is None && final(free)@ == old(free)@,
        first_fit(old(free)@, need) < old(free)@.len() ==> {
            let k = first_fit(old(free)@, need);
            &&& r == Some(taken_block(old(free)@[k], need as int))
            &&& final(free)@ == free_after_take(old(free)@, k, need as int)
        },
        r matches Some(t) ==> {
            &&& lo <= t.addr
            &&& blk_end(t) <= hi
            &&& t.addr % 8 == 0
            &&& t.size % 8 == 0
            &&& t.size >= need
            &&& all_disjoint_from(final(free)@, t)
            &&& forall|x: FreeBlock|
                all_disjoint_from(old(free)@, x) ==> #[trigger] all_disjoint_from(final(free)@, x)
                    && blocks_disjoint(t, x)
        },
{
    let ghost s = free@;
    proof {
        lemma_first_fit(s, need);
    }
    let n = free.len();
    let mut k: usize = 0;
    while k < n && free[k].size < need
        invariant
            free@ == s,
            n == s.len(),
            k <= n,
            k <= first_fit(s, need),
            0 <= first_fit(s, need) <= s.len(),
            forall|i: int| 0 <= i < first_fit(s, need) ==> (#[trigger] s[i]).size < need,
            first_fit(s, need) < s.len() ==> s[first_fit(s, need)].size >= need,
        decreases n - k,
    {
        k = k + 1;
    }
    if k == n {
        return None;
    }
    proof {
        assert(k == first_fit(s, need));
    }
    let b = free.remove(k);
    let ghost rest = free@;
    proof {
        assert(sorted_apart(rest)) by {
            assert forall|i: int, j: int| 0 <= i < j < rest.len() implies blk_end(#[trigger] rest[i]) < (#[trigger] rest[j]).addr by {
                if i >= k {
                    assert(rest[i] == s[i + 1]);
                }
                if j >= k {
                    assert(rest[j] == s[j + 1]);
                }
            }
        }
        assert(blocks_within(rest, lo, hi)) by {
            assert forall|i: int| 0 <= i < rest.len() implies {
                &&& lo <= (#[trigger] rest[i]).addr
                &&& blk_end(rest[i]) <= hi
                &&& rest[i].addr % 8 == 0
                &&& rest[i].size % 8 == 0
            } by {
                if i >= k {
                    assert(rest[i] == s[i + 1]);
                }
            }
        }
        assert(all_disjoint_from(rest, b)) by {
            assert forall|i: int| 0 <= i < rest.len() implies blocks_disjoint(#[trigger] rest[i], b) by {
                if i >= k {
                    assert(rest[i] == s[i + 1]);
                } else {
                    assert(blk_end(s[i]) < s[k as int].addr);
                }
            }
        }
        assert forall|x: FreeBlock| all_disjoint_from(s, x) implies #[trigger] all_disjoint_from(rest, x) && blocks_disjoint(b, x) by {
            assert(blocks_disjoint(s[k as int], x));
            assert forall|i: int| 0 <= i < rest.len() implies blocks_disjoint(#[trigger] rest[i], x) by {
                if i >= k {
                    assert(rest[i] == s[i + 1]);
                }
            }
        }
    }
    let rem = need % ALLOC_ALIGN;
    let aligned_size = if rem == 0 {
        need
    } else {
        need + (ALLOC_ALIGN - rem)
    };
    if b.size >= aligned_size && b.size - aligned_size >= HEADER + MIN_ALLOC_SIZE {
        let tail = FreeBlock { addr: b.addr + HEADER + aligned_size, size: b.size - aligned_size - HEADER };
        let front = FreeBlock { addr: b.addr, size: aligned_size };
        proof {
            assert(blocks_disjoint(front, tail));
            assert forall|i: int| 0 <= i < rest.len() implies blocks_disjoint(#[trigger] rest[i], tail) by {
                assert(blocks_disjoint(rest[i], b));
            }
            assert(all_disjoint_from(rest, front)) by {
                assert forall|i: int| 0 <= i < rest.len() implies blocks_disjoint(#[trigger] rest[i], front) by {
                    assert(blocks_disjoint(rest[i], b));
                }
            }
            lemma_coalesced_props(rest, tail, lo, hi);
            assert forall|x: FreeBlock| all_disjoint_from(s, x) implies #[trigger] all_disjoint_from(coalesced(rest, tail), x) && blocks_disjoint(front, x) by {
                assert(all_disjoint_from(rest, x) && blocks_disjoint(b, x));
                assert(blocks_disjoint(tail, x));
            }
        }
        add_to_free_list(free, tail);
        Some(front)
    } else {
        Some(b)
    }
}

/// Rounding an 8-aligned address up to an alignment that is a multiple of
/// 8 moves it by at most `align - 8`.
proof fn lemma_align_up_slack(x: int, a: int)
    requires
        x >= 0,
        a > 0,
        x % 8 == 0,
        a % 8 == 0,
    ensures
        x <= spec_align_up(x, a) <= x + a - 8,
        spec_align_up(x, a) % a == 0,
{
    vstd::arithmetic::div_mod::lemma_fundamental_div_mod(x, a);
    vstd::arithmetic::div_mod::lemma_fundamental_div_mod(x, 8);
    vstd::arithmetic::div_mod::lemma_fundamental_div_mod(a, 8);
    let q = x / a;
    let r = x % a;
    let m = a / 8;
    let n = x / 8;
    assert(r == 8 * n - 8 * m * q) by (nonlinear_arith)
        requires
            x == a * q + r,
            a == 8 * m,
            x == 8 * n,
    ;
    assert(r == 8 * (n - m * q)) by (nonlinear_arith)
        requires
            r == 8 * n - 8 * m * q,
    ;
    if r != 0 {
        assert(r >= 8) by (nonlinear_arith)
            requires
                r == 8 * (n - m * q),
                r > 0,
        ;
        assert((x - r + a) % a == 0) by {
            vstd::arithmetic::div_mod::lemma_mod_multiples_basic(q + 1, a);
            assert(x - r + a == (q + 1) * a) by (nonlinear_arith)
                requires
                    x == a * q + r,
            ;
        }
    } else {
        assert(x % a == 0);
    }
}

/// The payload address is aligned, follows the pointer slot, and leaves
/// room for `size` bytes in a block that holds `size + align`.
proof fn lemma_user_address(b: FreeBlock, align: int, size: int)
    requires
        b.addr % 8 == 0,
        align > 0,
        align % 8 == 0,
        size >= 1,
        b.size >= size + align,
    ensures
        user_address(b, align) % align == 0,
        b.addr + HEADER + HEADER_PTR_SIZE <= user_address(b, align),
        user_address(b, align) + size <= blk_end(b),
        user_address(b, align) < blk_end(b),
{
    lemma_align_up_slack(b.addr + HEADER + HEADER_PTR_SIZE, align);
}

/// Index of the first allocation handed out at `user` (`al.len()` if none).
pub open spec fn first_allocation(al: Seq<Allocation>, user: usize) -> int
    decreases al.len(),
{
    if al.len() == 0 {
        0
    } else if al[0].user == user {
        0
    } else {
        1 + first_allocation(al.drop_first(), user)
    }
}

proof fn lemma_first_allocation(al: Seq<Allocation>, user: usize)
    ensures
        0 <= first_allocation(al, user) <= al.len(),
        forall|i: int| 0 <= i < first_allocation(al, user) ==> (#[trigger] al[i]).user != user,
        first_allocation(al, user) < al.len() ==> al[first_allocation(al, user)].user == user,
    decreases al.len(),
{
    if al.len() > 0 && al[0].user != user {
        lemma_first_allocation(al.drop_first(), user);
        assert forall|i: int| 0 <= i < first_allocation(al, user) implies (#[trigger] al[i]).user != user by {
            if i > 0 {
                assert(al[i] == al.drop_first()[i - 1]);
            }
        }
    }
}

/// The window `[base, base + max_size)` of kernel virtual addresses that
/// the heap grows in. It must lie in kernel space and overlap no other
/// kernel mapping.
#[derive(Copy, Clone, Debug)]
pub struct HeapArena {
    pub base: PageAlignedVirtualAddress,
    pub max_size: usize,
}

impl HeapArena {
    pub fn new(base: PageAlignedVirtualAddress, max_size: usize) -> (r: Self)
        ensures
            r.base == base,
            r.max_size == max_size,
    {
        HeapArena { base, max_size }
    }
}

/// A handed-out payload address and the block that holds it.
#[derive(Debug, Clone, Copy, PartialEq, Eq, Structural)]
pub struct Allocation {
    pub user: usize,
    pub block: FreeBlock,
}

/// Where a request aligned to `align` places its payload in block `b`:
/// the first address aligned to `align` that leaves room for the pointer
/// back to the block after the header.
pub open spec fn user_address(b: FreeBlock, align: int) -> int {
    spec_align_up(b.addr + HEADER + HEADER_PTR_SIZE, align)
}

/// Alignment that a request for `layout` is served with.
pub open spec fn effective_align(layout: Layout) -> int {
    if layout.spec_align() < ALLOC_ALIGN {
        ALLOC_ALIGN as int
    } else {
        layout.spec_align() as int
    }
}

/// Payload bytes that a request for `layout` is served with.
pub open spec fn effective_size(layout: Layout) -> int {
    if layout.spec_size() < MIN_ALLOC_SIZE {
        MIN_ALLOC_SIZE as int
    } else {
        layout.spec_size() as int
    }
}

/// Bytes that the block of a request for `layout` must hold: the payload
/// and room to align it.
pub open spec fn request_need(layout: Layout) -> int {
    effective_size(layout) + effective_align(layout)
}

/// Bytes that the heap grows by for a request of `min_size`: whole pages.
pub open spec fn growth_bytes(min_size: int) -> int {
    spec_align_up(min_size, HEAP_PAGE as int)
}

/// The mapping that grows a heap: `page_count` fresh pages at `va`, kernel
/// read/write, with nothing copied in.
#[derive(Clone, Copy, Debug, PartialEq, Eq)]
pub struct GrowthRequest {
    pub va: PageAlignedVirtualAddress,
    pub page_count: usize,
    pub flags: MemFlags,
}

/// The mapping that grows a heap whose mapped part ends at `top` by
/// `bytes`: `bytes / HEAP_PAGE` pages at `top`, kernel read/write.
pub fn growth_request(top: PageAlignedVirtualAddress, bytes: usize) -> (r: GrowthRequest)
    ensures
        r.va == top,
        r.page_count == bytes / HEAP_PAGE,
        r.flags == kernel_rw_flags(),
{
    GrowthRequest { va: top, page_count: bytes / HEAP_PAGE, flags: MemFlags::kernel_rw() }
}

/// A first-fit kernel heap.
pub struct HeapAllocator {
    arena: HeapArena,
    arena_top: usize,
    free: Vec<FreeBlock>,
    allocated: Vec<Allocation>,
    current_size: usize,
}

impl HeapAllocator {
    pub closed spec fn spec_arena(self) -> HeapArena {
        self.arena
    }

    /// First address of the window not mapped yet.
    pub closed spec fn spec_top(self) -> usize {
        self.arena_top
    }

    pub closed spec fn free_blocks(self) -> Seq<FreeBlock> {
        self.free@
    }

    pub closed spec fn allocations(self) -> Seq<Allocation> {
        self.allocated@
    }

    pub closed spec fn spec_current_size(self) -> usize {
        self.current_size
    }

    /// The heap's internal invariant: blocks inside the mapped part of the
    /// window, free blocks sorted and apart, and no two blocks sharing a
    /// byte.
    pub closed spec fn wf(self) -> bool {
        let base = self.arena.base@ as int;
        let top = self.arena_top as int;
        let fr = self.free@;
        let al = self.allocated@;
        &&& base <= top
        &&& top <= base + self.arena.max_size
        &&& top - base == self.current_size
        &&& top % (HEAP_PAGE as int) == 0
        &&& self.current_size % HEAP_PAGE == 0
        &&& sorted_apart(fr)
        &&& blocks_within(fr, base, top)
        &&& forall|a: int|
            0 <= a < al.len() ==> {
                let b = (#[trigger] al[a]).block;
                &&& base <= b.addr
                &&& blk_end(b) <= top
                &&& b.addr % 8 == 0
                &&& b.size % 8 == 0
                &&& b.addr + HEADER + HEADER_PTR_SIZE <= al[a].user < blk_end(b)
                &&& all_disjoint_from(fr, b)
            }
        &&& forall|a: int, c: int|
            0 <= a < c < al.len() ==> blocks_disjoint((#[trigger] al[a]).block, (#[trigger] al[c]).block)
    }

    /// An empty heap over `arena`; nothing is mapped yet.
    pub fn new(arena: HeapArena) -> (r: Self)
        ensures
            r.wf(),
            r.spec_arena() == arena,
            r.spec_top() == arena.base@,
            r.free_blocks() == Seq::<FreeBlock>::empty(),
            r.allocations() == Seq::<Allocation>::empty(),
            r.spec_current_size() == 0,
    {
        let top = arena.base.as_usize();
        HeapAllocator { arena, arena_top: top, free: Vec::new(), allocated: Vec::new(), current_size: 0 }
    }

    /// Maps `growth_bytes(min_size)` more bytes at the top of the window,
    /// asking `mapper` for [`growth_request`] of the old top and those
    /// bytes, and gives them to the free list as one block.
    /// `OutOfMemory`, with nothing changed, where the window's end or the
    /// new top overflows, where the window is too small, or where mapping
    /// fails.
    #[verifier::spinoff_prover]
    #[verifier::rlimit(40)]
    fn expand<M: MemoryMapper>(&mut self, mapper: &M, min_size: usize) -> (r: Result<(), AllocationError>)
        requires
            old(self).wf(),
            min_size >= HEAP_PAGE,
        ensures
            final(self).wf(),
            r matches Err(e) ==> e == AllocationError::OutOfMemory && *final(self) == *old(self),
            ({
                let bytes = growth_bytes(min_size as int);
                let base = old(self).spec_arena().base@ as int;
                let end = base + old(self).spec_arena().max_size;
                let top = old(self).spec_top() as int;
                (bytes > usize::MAX || end > usize::MAX || top + bytes > end) ==> r is Err
            }),
            r is Ok ==> {
                let bytes = growth_bytes(min_size as int);
                &&& final(self).spec_top() == old(self).spec_top() + bytes
                &&& final(self).spec_current_size() == old(self).spec_current_size() + bytes
                &&& final(self).spec_arena() == old(self).spec_arena()
                &&& final(self).allocations() == old(self).allocations()
                &&& final(self).free_blocks() == coalesced(
                    old(self).free_blocks(),
                    FreeBlock { addr: old(self).spec_top(), size: (bytes - HEADER) as usize },
                )
            },
    {
        let rem = min_size % HEAP_PAGE;
        let bytes = if rem == 0 {
            min_size
        } else {
            match min_size.checked_add(HEAP_PAGE - rem) {
                Some(b) => b,
                None => {
                    return Err(AllocationError::OutOfMemory);
                },
            }
        };
        let arena_end = match self.arena.base.as_usize().checked_add(self.arena.max_size) {
            Some(e) => e,
            None => {
                return Err(AllocationError::OutOfMemory);
            },
        };
        let new_top = match self.arena_top.checked_add(bytes) {
            Some(t) => t,
            None => {
                return Err(AllocationError::OutOfMemory);
            },
        };
        if new_top > arena_end {
            return Err(AllocationError::OutOfMemory);
        }
        let block_start = self.arena_top;
        let block_va = match PageAlignedVirtualAddress::from_usize(block_start) {
            Some(va) => va,
            None => {
                return Err(AllocationError::OutOfMemory);
            },
        };
        let request = growth_request(block_va, bytes);
        let empty: &[u8] = &[];
        if mapper.map(request.va, request.page_count, empty, request.flags).is_err() {
            return Err(AllocationError::OutOfMemory);
        }
        let ghost old_free = self.free@;
        let nb = FreeBlock { addr: block_start, size: bytes - HEADER };
        proof {
            let base = self.arena.base@ as int;
            assert(all_disjoint_from(old_free, nb));
            lemma_coalesced_props(old_free, nb, base, new_top as int);
            assert forall|a: int| 0 <= a < self.allocated@.len() implies all_disjoint_from(
                coalesced(old_free, nb),
                (#[trigger] self.allocated@[a]).block,
            ) by {
                assert(blocks_disjoint(nb, self.allocated@[a].block));
            }
        }
        self.arena_top = new_top;
        self.current_size = self.current_size + bytes;
        add_to_free_list(&mut self.free, nb);
        Ok(())
    }

    /// Records `t` as handed out for a payload aligned to `align`, and
    /// returns the payload address.
    fn setup_allocated_block(&mut self, t: FreeBlock, align: usize, Ghost(size): Ghost<int>) -> (r: usize)
        requires
            old(self).wf(),
            align > 0,
            align % 8 == 0,
            size >= 1,
            t.size >= size + align,
            old(self).spec_arena().base@ <= t.addr,
            blk_end(t) <= old(self).spec_top(),
            t.addr % 8 == 0,
            t.size % 8 == 0,
            all_disjoint_from(old(self).free_blocks(), t),
            forall|a: int|
                0 <= a < old(self).allocations().len() ==> blocks_disjoint(
                    (#[trigger] old(self).allocations()[a]).block,
                    t,
                ),
        ensures
            final(self).wf(),
            r == user_address(t, align as int),
            final(self).allocations() == old(self).allocations().push(Allocation { user: r, block: t }),
            final(self).free_blocks() == old(self).free_blocks(),
            final(self).spec_top() == old(self).spec_top(),
            final(self).spec_arena() == old(self).spec_arena(),
            final(self).spec_current_size() == old(self).spec_current_size(),
    {
        proof {
            lemma_user_address(t, align as int, size);
        }
        let x = t.addr + HEADER + HEADER_PTR_SIZE;
        let rem = x % align;
        let user = if rem == 0 {
            x
        } else {
            x + (align - rem)
        };
        self.allocated.push(Allocation { user, block: t });
        proof {
            let al = self.allocated@;
            assert forall|a: int, c: int| 0 <= a < c < al.len() implies blocks_disjoint(
                (#[trigger] al[a]).block,
                (#[trigger] al[c]).block,
            ) by {
                if c == al.len() - 1 {
                    assert(al[c].block == t);
                    assert(blocks_disjoint(old(self).allocations()[a].block, t));
                }
            }
        }
        user
    }

    /// Hands out `layout.size()` bytes aligned to `layout.align()` (sizes
    /// below [`MIN_ALLOC_SIZE`] and alignments below [`ALLOC_ALIGN`] are
    /// raised to them). The first free block that holds the payload and
    /// room to align it is used; where none does, the heap first grows by
    /// whole pages for it. `InvalidLayout` for zero bytes; `OutOfMemory`
    /// where the heap cannot grow or still has no block for it.
    pub fn allocate<M: MemoryMapper>(&mut self, mapper: &M, layout: Layout) -> (r: Result<usize, AllocationError>)
        requires
            old(self).wf(),
        ensures
            final(self).wf(),
            final(self).spec_arena() == old(self).spec_arena(),
            layout.spec_size() == 0 ==> r == Err::<usize, AllocationError>(AllocationError::InvalidLayout)
                && same_heap(*final(self), *old(self)),
            layout.spec_size() != 0 && first_fit(old(self).free_blocks(), request_need(layout) as usize)
                < old(self).free_blocks().len() ==> {
                let s = old(self).free_blocks();
                let k = first_fit(s, request_need(layout) as usize);
                let t = taken_block(s[k], request_need(layout));
                &&& r == Ok::<usize, AllocationError>(user_address(t, effective_align(layout)) as usize)
                &&& final(self).free_blocks() == free_after_take(s, k, request_need(layout))
                &&& final(self).allocations() == old(self).allocations().push(
                    Allocation { user: r->Ok_0, block: t },
                )
                &&& final(self).spec_top() == old(self).spec_top()
                &&& final(self).spec_current_size() == old(self).spec_current_size()
            },
            layout.spec_size() != 0 && first_fit(old(self).free_blocks(), request_need(layout) as usize)
                == old(self).free_blocks().len() ==> {
                let grow = growth_bytes(
                    if request_need(layout) + HEADER < HEAP_PAGE {
                        HEAP_PAGE as int
                    } else {
                        request_need(layout) + HEADER
                    },
                );
                let s1 = coalesced(
                    old(self).free_blocks(),
                    FreeBlock { addr: old(self).spec_top(), size: (grow - HEADER) as usize },
                );
                let k = first_fit(s1, request_need(layout) as usize);
                let t = taken_block(s1[k], request_need(layout));
                ||| (r == Err::<usize, AllocationError>(AllocationError::OutOfMemory) && same_heap(*final(self), *old(self)))
                ||| {
                    &&& final(self).spec_top() == old(self).spec_top() + grow
                    &&& final(self).spec_current_size() == old(self).spec_current_size() + grow
                    &&& if k < s1.len() {
                        &&& r == Ok::<usize, AllocationError>(
                            user_address(t, effective_align(layout)) as usize,
                        )
                        &&& final(self).free_blocks() == free_after_take(s1, k, request_need(layout))
                        &&& final(self).allocations() == old(self).allocations().push(
                            Allocation { user: r->Ok_0, block: t },
                        )
                    } else {
                        &&& r == Err::<usize, AllocationError>(AllocationError::OutOfMemory)
                        &&& final(self).free_blocks() == s1
                        &&& final(self).allocations() == old(self).allocations()
                    }
                }
            },
            r matches Ok(u) ==> {
                let b = final(self).allocations().last().block;
                &&& final(self).allocations().last().user == u
                &&& (u as int) % effective_align(layout) == 0
                &&& b.addr + HEADER + HEADER_PTR_SIZE <= u
                &&& u + effective_size(layout) <= blk_end(b)
            },
    {
        let lsize = layout.size();
        let lalign = layout.align();
        if lsize == 0 {
            return Err(AllocationError::InvalidLayout);
        }
        let align = if lalign < ALLOC_ALIGN {
            ALLOC_ALIGN
        } else {
            lalign
        };
        let size = if lsize < MIN_ALLOC_SIZE {
            MIN_ALLOC_SIZE
        } else {
            lsize
        };
        proof {
            vstd::arithmetic::power2::lemma_pow2_pos(0);
            assert(align % 8 == 0) by {
                let a = align;
                assert(a >= 8 && a & ((a - 1) as usize) == 0 ==> a % 8 == 0) by (bit_vector);
            }
        }
        let need = size + align;
        match self.take_and_setup(need, align, Ghost(size as int)) {
            Some(user) => {
                return Ok(user);
            },
            None => {},
        }
        let expand_size = if need + HEADER < HEAP_PAGE {
            HEAP_PAGE
        } else {
            need + HEADER
        };
        self.expand(mapper, expand_size)?;
        match self.take_and_setup(need, align, Ghost(size as int)) {
            Some(user) => Ok(user),
            None => Err(AllocationError::OutOfMemory),
        }
    }

    /// Takes the first free block that holds `need` bytes, if any, and
    /// hands out its payload aligned to `align`.
    fn take_and_setup(&mut self, need: usize, align: usize, Ghost(size): Ghost<int>) -> (r: Option<usize>)
        requires
            old(self).wf(),
            align > 0,
            align % 8 == 0,
            size >= 1,
            need == size + align,
        ensures
            final(self).wf(),
            final(self).spec_arena() == old(self).spec_arena(),
            final(self).spec_top() == old(self).spec_top(),
            final(self).spec_current_size() == old(self).spec_current_size(),
            first_fit(old(self).free_blocks(), need) >= old(self).free_blocks().len() ==> r is None
                && same_heap(*final(self), *old(self)),
            first_fit(old(self).free_blocks(), need) < old(self).free_blocks().len() ==> {
                let s = old(self).free_blocks();
                let k = first_fit(s, need);
                let t = taken_block(s[k], need as int);
                &&& r == Some(user_address(t, align as int) as usize)
                &&& final(self).free_blocks() == free_after_take(s, k, need as int)
                &&& final(self).allocations() == old(self).allocations().push(
                    Allocation { user: r->Some_0, block: t },
                )
            },
            r matches Some(u) ==> {
                let b = final(self).allocations().last().block;
                &&& final(self).allocations().last().user == u
                &&& (u as int) % (align as int) == 0
                &&& b.addr + HEADER + HEADER_PTR_SIZE <= u
                &&& u + size <= blk_end(b)
            },
    {
        let ghost base = self.arena.base@ as int;
        let ghost top0 = self.arena_top as int;
        proof {
            lemma_first_fit(self.free@, need);
        }
        match find_free_block(&mut self.free, need, Ghost(base), Ghost(top0)) {
            Some(t) => {
                proof {
                    assert forall|a: int| 0 <= a < self.allocated@.len() implies blocks_disjoint(
                        (#[trigger] self.allocated@[a]).block,
                        t,
                    ) by {
                        assert(all_disjoint_from(old(self).free_blocks(), self.allocated@[a].block));
                        assert(all_disjoint_from(self.free@, self.allocated@[a].block));
                    }
                    assert forall|a: int| 0 <= a < self.allocated@.len() implies all_disjoint_from(
                        self.free@,
                        (#[trigger] self.allocated@[a]).block,
                    ) by {
                        assert(all_disjoint_from(old(self).free_blocks(), self.allocated@[a].block));
                    }
                    lemma_user_address(t, align as int, size);
                }
                let user = self.setup_allocated_block(t, align, Ghost(size));
                Some(user)
            },
            None => None,
        }
    }

    /// Gives back the payload at `user`. An address outside the mapped
    /// window, or one that is not a live payload address, is ignored.
    pub fn deallocate(&mut self, user: usize)
        requires
            old(self).wf(),
        ensures
            final(self).wf(),
            final(self).spec_arena() == old(self).spec_arena(),
            final(self).spec_top() == old(self).spec_top(),
            final(self).spec_current_size() == old(self).spec_current_size(),
            ({
                let al = old(self).allocations();
                let k = first_allocation(al, user);
                if user < old(self).spec_arena().base@ || user >= old(self).spec_top() || k == al.len() {
                    *final(self) == *old(self)
                } else {
                    &&& final(self).allocations() == al.remove(k)
                    &&& final(self).free_blocks() == coalesced(old(self).free_blocks(), al[k].block)
                }
            }),
    {
        let base = self.arena.base.as_usize();
        if user < base || user >= self.arena_top {
            return;
        }
        let ghost al = self.allocated@;
        proof {
            lemma_first_allocation(al, user);
        }
        let n = self.allocated.len();
        let mut k: usize = 0;
        while k < n && self.allocated[k].user != user
            invariant
                self.allocated@ == al,
                n == al.len(),
                k <= n,
                k <= first_allocation(al, user),
                0 <= first_allocation(al, user) <= al.len(),
                forall|i: int| 0 <= i < first_allocation(al, user) ==> (#[trigger] al[i]).user != user,
                first_allocation(al, user) < al.len() ==> al[first_allocation(al, user)].user == user,
            decreases n - k,
        {
            k = k + 1;
        }
        if k == n {
            return;
        }
        let a = self.allocated.remove(k);
        let ghost fr = self.free@;
        proof {
            assert(k == first_allocation(al, user));
            let b = a.block;
            lemma_coalesced_props(fr, b, base as int, self.arena_top as int);
            let rest = self.allocated@;
            assert forall|i: int| 0 <= i < rest.len() implies all_disjoint_from(
                coalesced(fr, b),
                (#[trigger] rest[i]).block,
            ) by {
                if i < k {
                    assert(rest[i] == al[i]);
                    assert(blocks_disjoint(al[i].block, b));
                } else {
                    assert(rest[i] == al[i + 1]);
                    assert(blocks_disjoint(b, al[i + 1].block));
                }
            }
            assert forall|i: int, c: int| 0 <= i < c < rest.len() implies blocks_disjoint(
                (#[trigger] rest[i]).block,
                (#[trigger] rest[c]).block,
            ) by {
                let i2 = if i < k { i } else { i + 1 };
                let c2 = if c < k { c } else { c + 1 };
                assert(rest[i] == al[i2]);
                assert(rest[c] == al[c2]);
            }
            assert forall|i: int| 0 <= i < rest.len() implies {
                let bb = (#[trigger] rest[i]).block;
                &&& base <= bb.addr
                &&& blk_end(bb) <= self.arena_top
                &&& bb.addr % 8 == 0
                &&& bb.size % 8 == 0
                &&& bb.addr + HEADER + HEADER_PTR_SIZE <= rest[i].user < blk_end(bb)
            } by {
                if i < k {
                    assert(rest[i] == al[i]);
                } else {
                    assert(rest[i] == al[i + 1]);
                }
            }
        }
        add_to_free_list(&mut self.free, a.block);
    }

    /// Bytes of the window mapped so far.
    pub fn current_size(&self) -> (r: usize)
        ensures
            r == self.spec_current_size(),
    {
        self.current_size
    }
}

/// The mapped part of a heap's window never exceeds the window and is a
/// whole number of pages.
pub proof fn lemma_heap_size_bounds(h: HeapAllocator)
    requires
        h.wf(),
    ensures
        h.spec_current_size() <= h.spec_arena().max_size,
        h.spec_current_size() % HEAP_PAGE == 0,
{
}

/// Whether two heaps hold the same blocks over the same window.
pub open spec fn same_heap(a: HeapAllocator, b: HeapAllocator) -> bool {
    &&& a.free_blocks() == b.free_blocks()
    &&& a.allocations() == b.allocations()
    &&& a.spec_top() == b.spec_top()
    &&& a.spec_arena() == b.spec_arena()
    &&& a.spec_current_size() == b.spec_current_size()
}

/// No two blocks of a heap share a byte: the free blocks are sorted and
/// apart, inside the mapped window; every handed-out block lies in the
/// window, clear of every free block and of every other handed-out block;
/// every payload address lies in its block past the pointer back to it,
/// so no two payload addresses are equal.
pub proof fn lemma_heap_blocks_disjoint(h: HeapAllocator)
    requires
        h.wf(),
    ensures
        sorted_apart(h.free_blocks()),
        blocks_within(h.free_blocks(), h.spec_arena().base@ as int, h.spec_top() as int),
        forall|a: int|
            0 <= a < h.allocations().len() ==> {
                let b = (#[trigger] h.allocations()[a]).block;
                &&& h.spec_arena().base@ <= b.addr
                &&& blk_end(b) <= h.spec_top()
                &&& b.addr + HEADER + HEADER_PTR_SIZE <= h.allocations()[a].user < blk_end(b)
                &&& all_disjoint_from(h.free_blocks(), b)
            },
        forall|a: int, c: int|
            0 <= a < c < h.allocations().len() ==> blocks_disjoint(
                (#[trigger] h.allocations()[a]).block,
                (#[trigger] h.allocations()[c]).block,
            ) && h.allocations()[a].user != h.allocations()[c].user,
{
}

/// Giving back the address that the latest allocation handed out finds
/// that allocation: `deallocate` takes it off and returns its block to the
/// free list.
pub proof fn lemma_latest_allocation_found(h: HeapAllocator)
    requires
        h.wf(),
        h.allocations().len() > 0,
    ensures
        first_allocation(h.allocations(), h.allocations().last().user) == h.allocations().len() - 1,
        h.spec_arena().base@ <= h.allocations().last().user < h.spec_top(),
{
    let al = h.allocations();
    let u = al.last().user;
    lemma_heap_blocks_disjoint(h);
    lemma_first_allocation(al, u);
    let k = first_allocation(al, u);
    if k < al.len() - 1 {
        assert(al[k].user != al[al.len() - 1].user);
    }
}

} // verus!
