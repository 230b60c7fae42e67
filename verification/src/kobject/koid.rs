//! Kernel object identifiers.

use vstd::prelude::*;
use crate::num::NonZeroU64;

verus! {

/// Position of the type tag in a koid.
pub const TYPE_SHIFT: u64 = 56;

/// Mask of the address bits of a koid.
pub const ADDR_MASK: u64 = 0x00ff_ffff_ffff_ffff;

/// Diagnostic identifier of a kernel object: an 8-bit type tag above the low
/// 56 bits of the object's address.
#[derive(Debug, Clone, Copy, PartialEq, Eq, Structural, Hash)]
pub struct Koid {
    raw: NonZeroU64,
}

/// The raw value built from a tag and an address.
pub open spec fn koid_bits(tag: u8, addr: u64) -> u64 {
    ((tag as u64) << 56u64) | (addr & 0x00ff_ffff_ffff_ffffu64)
}

impl Koid {
    pub closed spec fn view(self) -> u64 {
        self.raw@
    }

    /// Builds a koid from a non-zero type tag and an address.
    pub fn from_parts(tag: u8, addr: u64) -> (r: Self)
        requires
            tag != 0,
        ensures
            r@ == koid_bits(tag, addr),
            (r@ >> 56u64) as u8 == tag,
            r@ & ADDR_MASK == addr & ADDR_MASK,
    {
        let t = tag as u64;
        let raw = (t << 56u64) | (addr & ADDR_MASK);
        assert(t != 0 && t <= 255 ==> ((t << 56u64) | (addr & 0x00ff_ffff_ffff_ffffu64)) != 0
            && (((t << 56u64) | (addr & 0x00ff_ffff_ffff_ffffu64)) >> 56u64) as u8 == t as u8 && ((t
            << 56u64) | (addr & 0x00ff_ffff_ffff_ffffu64)) & 0x00ff_ffff_ffff_ffffu64 == addr
            & 0x00ff_ffff_ffff_ffffu64) by (bit_vector);
        Koid { raw: NonZeroU64::new(raw).unwrap() }
    }

    pub fn raw(self) -> (r: u64)
        ensures
            r == self@,
    {
        self.raw.get()
    }

    /// The type tag.
    pub fn type_tag(self) -> (r: u8)
        ensures
            r == (self@ >> 56u64) as u8,
    {
        (self.raw.get() >> 56u64) as u8
    }

    /// The koid with its type forgotten.
    pub fn erase(self) -> (r: Self)
        ensures
            r == self,
    {
        self
    }
}

/// Koids with distinct tags, or with distinct low address bits, differ.
pub proof fn lemma_koid_distinct(t1: u8, a1: u64, t2: u8, a2: u64)
    requires
        t1 != t2 || a1 & ADDR_MASK != a2 & ADDR_MASK,
    ensures
        koid_bits(t1, a1) != koid_bits(t2, a2),
{
    let (x1, x2) = (t1 as u64, t2 as u64);
    assert(x1 <= 255 && x2 <= 255 && (x1 != x2 || a1 & 0x00ff_ffff_ffff_ffffu64 != a2
        & 0x00ff_ffff_ffff_ffffu64) ==> ((x1 << 56u64) | (a1 & 0x00ff_ffff_ffff_ffffu64)) != ((x2
        << 56u64) | (a2 & 0x00ff_ffff_ffff_ffffu64))) by (bit_vector);
}

} // verus!
