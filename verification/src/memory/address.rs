//! Physical and virtual addresses, their page-aligned variants and frames.

use vstd::prelude::*;

verus! {

/// Size of a page (and of a physical frame) in bytes.
pub const PAGE: usize = 4096;

/// A memory address of some kind.
pub trait Address: Copy + Sized {
    /// The numeric value of the address.
    spec fn addr(&self) -> usize;

    /// Returns the address as `usize`.
    fn as_usize(self) -> (r: usize)
        ensures
            r == self.addr(),
    ;

    /// Returns the address as `u64`.
    fn as_u64(self) -> (r: u64)
        ensures
            r as int == self.addr() as int,
    {
        self.as_usize() as u64
    }
}

/// Types whose values carry a guaranteed alignment.
pub trait Aligned {
    /// Alignment in bytes.
    const ALIGNMENT: usize;
}

/// Whether `x` is a multiple of the page size.
pub open spec fn page_aligned(x: int) -> bool {
    x % (PAGE as int) == 0
}

/// A physical address.
#[derive(Clone, Copy, Debug, PartialEq, Eq, Structural, PartialOrd, Ord, Hash)]
pub struct PhysicalAddress {
    value: usize,
}

impl PhysicalAddress {
    pub closed spec fn view(self) -> usize {
        self.value
    }

    pub fn new(value: usize) -> (r: Self)
        ensures
            r@ == value,
    {
        PhysicalAddress { value }
    }

    pub fn as_usize(self) -> (r: usize)
        ensures
            r == self@,
    {
        self.value
    }

    /// `self + bytes`, or `None` on overflow of `usize`.
    pub fn checked_add(self, bytes: usize) -> (r: Option<Self>)
        ensures
            r matches Some(a) <==> self@ + bytes <= usize::MAX,
            r matches Some(a) ==> a@ == self@ + bytes,
    {
        match self.value.checked_add(bytes) {
            Some(v) => Some(PhysicalAddress { value: v }),
            None => None,
        }
    }
}

impl Address for PhysicalAddress {
    open spec fn addr(&self) -> usize {
        self@
    }

    fn as_usize(self) -> (r: usize) {
        self.value
    }
}

/// A page-aligned physical address.
#[derive(Clone, Copy, Debug, PartialEq, Eq, Structural, PartialOrd, Ord, Hash)]
pub struct PageAlignedAddress {
    value: usize,
}

impl PageAlignedAddress {
    #[verifier::type_invariant]
    spec fn aligned_inv(self) -> bool {
        page_aligned(self.value as int)
    }

    pub closed spec fn view(self) -> usize {
        self.value
    }

    /// Builds the address if `value` is page-aligned.
    pub fn from_usize(value: usize) -> (r: Option<Self>)
        ensures
            r matches Some(a) <==> page_aligned(value as int),
            r matches Some(a) ==> a@ == value,
    {
        if value % PAGE == 0 {
            Some(PageAlignedAddress { value })
        } else {
            None
        }
    }

    pub fn as_usize(self) -> (r: usize)
        ensures
            r == self@,
            page_aligned(r as int),
    {
        proof {
            use_type_invariant(self);
        }
        self.value
    }

    /// The following page-aligned address (wrapping at the top of the
    /// address space).
    pub fn next_aligned(self) -> (r: Self)
        ensures
            self@ + PAGE <= usize::MAX ==> r@ == self@ + PAGE,
            self@ + PAGE > usize::MAX ==> r@ == 0,
    {
        proof {
            use_type_invariant(self);
        }
        if self.value <= usize::MAX - PAGE {
            PageAlignedAddress { value: self.value + PAGE }
        } else {
            PageAlignedAddress { value: 0 }
        }
    }
}

impl Address for PageAlignedAddress {
    open spec fn addr(&self) -> usize {
        self@
    }

    fn as_usize(self) -> (r: usize) {
        self.value
    }
}

impl Aligned for PageAlignedAddress {
    const ALIGNMENT: usize = 4096;
}


/// A virtual address.
#[derive(Clone, Copy, Debug, PartialEq, Eq, Structural, PartialOrd, Ord, Hash)]
pub struct VirtualAddress {
    value: usize,
}

impl VirtualAddress {
    pub closed spec fn view(self) -> usize {
        self.value
    }

    pub fn new(value: usize) -> (r: Self)
        ensures
            r@ == value,
    {
        VirtualAddress { value }
    }

    pub fn as_usize(self) -> (r: usize)
        ensures
            r == self@,
    {
        self.value
    }
}

impl Address for VirtualAddress {
    open spec fn addr(&self) -> usize {
        self@
    }

    fn as_usize(self) -> (r: usize) {
        self.value
    }
}

/// A page-aligned virtual address.
#[derive(Clone, Copy, Debug, PartialEq, Eq, Structural, PartialOrd, Ord, Hash)]
pub struct PageAlignedVirtualAddress {
    value: usize,
}

impl PageAlignedVirtualAddress {
    #[verifier::type_invariant]
    spec fn aligned_inv(self) -> bool {
        page_aligned(self.value as int)
    }

    pub closed spec fn view(self) -> usize {
        self.value
    }

    /// Builds the address if `value` is page-aligned.
    pub fn from_usize(value: usize) -> (r: Option<Self>)
        ensures
            r matches Some(a) <==> page_aligned(value as int),
            r matches Some(a) ==> a@ == value,
    {
        if value % PAGE == 0 {
            Some(PageAlignedVirtualAddress { value })
        } else {
            None
        }
    }

    pub fn as_usize(self) -> (r: usize)
        ensures
            r == self@,
            page_aligned(r as int),
    {
        proof {
            use_type_invariant(self);
        }
        self.value
    }

    /// `self + bytes` when the sum fits in `usize` and stays page-aligned.
    pub fn offset(self, bytes: usize) -> (r: Option<Self>)
        ensures
            r matches Some(a) <==> (self@ + bytes <= usize::MAX && page_aligned(
                self@ + bytes,
            )),
            r matches Some(a) ==> a@ == self@ + bytes,
    {
        match self.value.checked_add(bytes) {
            Some(v) => Self::from_usize(v),
            None => None,
        }
    }
}

impl Address for PageAlignedVirtualAddress {
    open spec fn addr(&self) -> usize {
        self@
    }

    fn as_usize(self) -> (r: usize) {
        proof {
            use_type_invariant(self);
        }
        self.value
    }
}

impl Aligned for PageAlignedVirtualAddress {
    const ALIGNMENT: usize = 4096;
}

/// A physical frame, identified by its number.
#[derive(Clone, Copy, Debug, PartialEq, Eq, Structural, PartialOrd, Ord, Hash)]
pub struct Frame {
    start: PageAlignedAddress,
}

impl Frame {
    /// The frame number.
    pub closed spec fn view(self) -> usize {
        (self.start@ / PAGE) as usize
    }

    /// The frame with number `number`; its first byte must be addressable.
    pub fn new(number: usize) -> (r: Self)
        requires
            number * PAGE <= usize::MAX,
        ensures
            r@ == number,
    {
        let v = number * PAGE;
        assert(page_aligned(v as int) && v / PAGE == number) by (nonlinear_arith)
            requires
                v == number * PAGE,
        ;
        Frame { start: PageAlignedAddress::from_usize(v).unwrap() }
    }

    pub fn number(self) -> (r: usize)
        ensures
            r == self@,
    {
        self.start.as_usize() / PAGE
    }

    /// The frame holding the page-aligned address `addr`.
    pub fn containing(addr: PageAlignedAddress) -> (r: Self)
        ensures
            r@ == addr@ / PAGE,
            r.spec_page_address() == addr,
    {
        Frame { start: addr }
    }

    pub closed spec fn spec_page_address(self) -> PageAlignedAddress {
        self.start
    }

    /// Physical address of the first byte of the frame.
    pub fn page_address(self) -> (r: PageAlignedAddress)
        ensures
            r == self.spec_page_address(),
            r@ == self@ * PAGE,
    {
        let a = self.start.as_usize();
        assert(a % PAGE == 0 ==> (a / PAGE) * PAGE == a) by (nonlinear_arith);
        self.start
    }
}

} // verus!
