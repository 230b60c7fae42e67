//! Rights carried by a handle.

use vstd::prelude::*;
use core::ops::{BitAnd, BitOr, Not};
use crate::memory::region::AccessMask;
use super::object::KObject;

verus! {

/// Mask of the rights that are known to the kernel.
pub const RIGHTS_ALL_BITS: u32 = 31;

/// The set of rights attached to a handle, as a bit set.
#[derive(Debug, Clone, Copy, PartialEq, Eq, Structural, Hash)]
pub struct Rights {
    bits: u32,
}

/// Whether every bit of `small` is set in `big`.
pub open spec fn bits_contain(big: u32, small: u32) -> bool {
    big & small == small
}

impl Rights {
    /// No rights.
    #[allow(non_snake_case)]
    pub fn NONE() -> (r: Rights)
        ensures
            r@ == 0,
    {
        Rights { bits: 0 }
    }

    /// May be duplicated.
    #[allow(non_snake_case)]
    pub fn DUPLICATE() -> (r: Rights)
        ensures
            r@ == 1,
    {
        Rights { bits: 1 }
    }

    /// May be transferred to another process.
    #[allow(non_snake_case)]
    pub fn TRANSFER() -> (r: Rights)
        ensures
            r@ == 2,
            r == Rights::spec_transfer(),
    {
        Rights { bits: 2 }
    }

    /// The `TRANSFER` right alone.
    pub closed spec fn spec_transfer() -> Rights {
        Rights { bits: 2 }
    }

    /// May be read from (or received on).
    #[allow(non_snake_case)]
    pub fn READ() -> (r: Rights)
        ensures
            r@ == 4,
    {
        Rights { bits: 4 }
    }

    /// May be written to (or sent on).
    #[allow(non_snake_case)]
    pub fn WRITE() -> (r: Rights)
        ensures
            r@ == 8,
    {
        Rights { bits: 8 }
    }

    /// May be executed.
    #[allow(non_snake_case)]
    pub fn EXECUTE() -> (r: Rights)
        ensures
            r@ == 16,
    {
        Rights { bits: 16 }
    }

    pub closed spec fn view(self) -> u32 {
        self.bits
    }

    /// Whether only known bits are set.
    pub open spec fn well_formed(self) -> bool {
        self@ & RIGHTS_ALL_BITS == self@
    }

    pub open spec fn spec_contains(self, other: Rights) -> bool {
        bits_contain(self@, other@)
    }

    /// The rights held by either set.
    pub closed spec fn union(self, other: Rights) -> Rights {
        Rights { bits: self.bits | other.bits }
    }

    /// The rights held by both sets.
    pub closed spec fn intersection(self, other: Rights) -> Rights {
        Rights { bits: self.bits & other.bits }
    }

    /// The view of a union, an intersection and a complement.
    pub proof fn lemma_set_operations(self, other: Rights)
        ensures
            self.union(other)@ == self@ | other@,
            self.intersection(other)@ == self@ & other@,
            self.complement()@ == !self@ & RIGHTS_ALL_BITS,
    {
    }

    /// The known rights not held by the set.
    pub closed spec fn complement(self) -> Rights {
        Rights { bits: !self.bits & RIGHTS_ALL_BITS }
    }

    pub fn empty() -> (r: Self)
        ensures
            r@ == 0,
    {
        Rights { bits: 0 }
    }

    pub fn all() -> (r: Self)
        ensures
            r@ == RIGHTS_ALL_BITS,
    {
        Rights { bits: RIGHTS_ALL_BITS }
    }

    pub fn bits(self) -> (r: u32)
        ensures
            r == self@,
    {
        self.bits
    }

    /// Keeps the known bits of `bits` and drops the others.
    pub fn from_bits_truncate(bits: u32) -> (r: Self)
        ensures
            r@ == bits & RIGHTS_ALL_BITS,
            r.well_formed(),
    {
        assert((bits & 31u32) & 31u32 == bits & 31u32) by (bit_vector);
        Rights { bits: bits & RIGHTS_ALL_BITS }
    }

    pub fn is_empty(self) -> (r: bool)
        ensures
            r == (self@ == 0),
    {
        self.bits == 0
    }

    /// Whether `self` holds every right of `other`.
    pub fn contains(self, other: Self) -> (r: bool)
        ensures
            r == self.spec_contains(other),
    {
        (self.bits & other.bits) == other.bits
    }

    /// Whether every right of `self` is also in `other`.
    pub fn is_subset_of(self, other: Self) -> (r: bool)
        ensures
            r == other.spec_contains(self),
    {
        let (x, y) = (self.bits, other.bits);
        assert(x & y == y & x) by (bit_vector);
        (x & y) == x
    }
}

impl BitOr for Rights {
    type Output = Self;

    fn bitor(self, rhs: Self) -> (r: Self) {
        Rights { bits: self.bits | rhs.bits }
    }
}

impl vstd::std_specs::ops::BitOrSpecImpl for Rights {
    open spec fn obeys_bitor_spec() -> bool {
        true
    }

    open spec fn bitor_req(self, rhs: Self) -> bool {
        true
    }

    open spec fn bitor_spec(self, rhs: Self) -> Self {
        self.union(rhs)
    }
}

impl BitAnd for Rights {
    type Output = Self;

    fn bitand(self, rhs: Self) -> (r: Self) {
        Rights { bits: self.bits & rhs.bits }
    }
}

impl vstd::std_specs::ops::BitAndSpecImpl for Rights {
    open spec fn obeys_bitand_spec() -> bool {
        true
    }

    open spec fn bitand_req(self, rhs: Self) -> bool {
        true
    }

    open spec fn bitand_spec(self, rhs: Self) -> Self {
        self.intersection(rhs)
    }
}

impl Not for Rights {
    type Output = Self;

    fn not(self) -> (r: Self) {
        Rights { bits: !self.bits & RIGHTS_ALL_BITS }
    }
}

impl vstd::std_specs::ops::NotSpecImpl for Rights {
    open spec fn obeys_not_spec() -> bool {
        true
    }

    open spec fn not_req(self) -> bool {
        true
    }

    open spec fn not_spec(self) -> Self {
        self.complement()
    }
}

/// Subset of rights is transitive.
pub proof fn lemma_rights_subset_transitive(a: Rights, b: Rights, c: Rights)
    requires
        b.spec_contains(a),
        c.spec_contains(b),
    ensures
        c.spec_contains(a),
{
    let (x, y, z) = (a@, b@, c@);
    assert(y & x == x && z & y == y ==> z & x == x) by (bit_vector);
}

/// A union of rights holds each of its parts, and an intersection is held by
/// each of its parts.
pub proof fn lemma_rights_union_intersection(a: Rights, b: Rights)
    ensures
        a.union(b).spec_contains(a),
        a.union(b).spec_contains(b),
        a.spec_contains(a.intersection(b)),
        b.spec_contains(a.intersection(b)),
{
    a.lemma_set_operations(b);
    let (x, y) = (a@, b@);
    assert((x | y) & x == x) by (bit_vector);
    assert((x | y) & y == y) by (bit_vector);
    assert(x & (x & y) == x & y) by (bit_vector);
    assert(y & (x & y) == x & y) by (bit_vector);
}

/// The complement of a set of rights is well formed and shares no right with
/// it; complementing twice gives back a well-formed set.
pub proof fn lemma_rights_complement(a: Rights)
    requires
        a.well_formed(),
    ensures
        a.complement().well_formed(),
        a.complement()@ & a@ == 0,
        a.complement().complement() == a,
{
    a.lemma_set_operations(a);
    a.complement().lemma_set_operations(a);
    let x = a@;
    assert((!x & 31u32) & 31u32 == !x & 31u32) by (bit_vector);
    assert((!x & 31u32) & x == 0) by (bit_vector);
    assert(x & 31u32 == x ==> !(!x & 31u32) & 31u32 == x) by (bit_vector);
    assert(a.complement().complement()@ == a@);
}

/// Bits of the rights that a fresh object of each type starts with: the
/// access of a memory region follows its access mask.
pub open spec fn default_rights_bits(obj: KObject) -> int {
    match obj {
        KObject::Signal(_) => 15,
        KObject::Process(_) => 15,
        KObject::Thread(_) => 15,
        KObject::Memory(m) => 3u32 + (if m.spec_access()@ & 1u8 == 1u8 {
            4u32
        } else {
            0u32
        }) + (if m.spec_access()@ & 2u8 == 2u8 {
            8u32
        } else {
            0u32
        }) + (if m.spec_access()@ & 4u8 == 4u8 {
            16u32
        } else {
            0u32
        }),
        KObject::Resource(_) => 15,
        KObject::Port(_) => 15,
        KObject::Reply(_) => 10,
    }
}

impl Rights {
    /// The rights that a freshly created object of this type starts with.
    /// Signals, processes, threads, resources and ports: read, write,
    /// duplicate, transfer. Memory: duplicate and transfer, with read,
    /// write and execute as its access mask allows. Replies: write and
    /// transfer.
    pub fn defaults_for(obj: &KObject) -> (r: Self)
        ensures
            r@ == default_rights_bits(*obj),
    {
        match obj {
            KObject::Signal(_) => Rights { bits: 15 },
            KObject::Process(_) => Rights { bits: 15 },
            KObject::Thread(_) => Rights { bits: 15 },
            KObject::Memory(region) => {
                let mut bits: u32 = 3;
                let access = region.access_mask();
                if access.allows(AccessMask::R()) {
                    bits = bits + 4;
                }
                if access.allows(AccessMask::W()) {
                    bits = bits + 8;
                }
                if access.allows(AccessMask::X()) {
                    bits = bits + 16;
                }
                Rights { bits }
            },
            KObject::Resource(_) => Rights { bits: 15 },
            KObject::Port(_) => Rights { bits: 15 },
            KObject::Reply(_) => Rights { bits: 10 },
        }
    }
}

impl Default for Rights {
    /// No rights.
    fn default() -> (r: Self)
        ensures
            r@ == 0,
    {
        Rights { bits: 0 }
    }
}

} // verus!
