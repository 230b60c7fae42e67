//! Identifiers of handle-table entries.

use vstd::prelude::*;
use crate::num::NonZeroU32;

verus! {

/// Number of low bits of a handle id that hold the slot index.
pub const SLOT_BITS: u32 = 16;

/// Mask of the slot bits.
pub const SLOT_MASK: u32 = 0xffff;

/// Largest slot index a handle id can name.
pub const MAX_SLOT_INDEX: u32 = 0xffff;

/// Largest generation a handle id can carry.
pub const MAX_GENERATION: u16 = 0xffff;

/// Public identifier of an entry in a handle table: the pair
/// `(generation, slot)` packed into 32 bits, generation in the high half.
#[derive(Debug, Clone, Copy, PartialEq, Eq, Structural, Hash)]
pub struct HandleId {
    raw: NonZeroU32,
}

/// Generation half of a raw handle id.
pub open spec fn raw_generation(raw: u32) -> u16 {
    (raw >> 16u32) as u16
}

/// Slot half of a raw handle id.
pub open spec fn raw_slot(raw: u32) -> u32 {
    raw & 0xffffu32
}

impl HandleId {
    pub closed spec fn view(self) -> u32 {
        self.raw@
    }

    pub open spec fn spec_generation(self) -> u16 {
        raw_generation(self@)
    }

    pub open spec fn spec_slot(self) -> u32 {
        raw_slot(self@)
    }

    /// Packs `(generation, slot)` into an identifier.
    pub fn pack(generation: u16, slot: u32) -> (r: Self)
        requires
            generation >= 1,
            slot <= MAX_SLOT_INDEX,
        ensures
            r.spec_generation() == generation,
            r.spec_slot() == slot,
            r@ == generation * 65536 + slot,
    {
        let g = generation as u32;
        let raw = (g << 16u32) | slot;
        assert(g <= 0xffff && slot <= 0xffff ==> (g << 16u32) | slot == g * 65536 + slot) by (bit_vector);
        assert(g >= 1 && g <= 0xffff && slot <= 0xffff ==> ((g << 16u32) | slot) != 0
            && (((g << 16u32) | slot) >> 16u32) as u16 == g as u16 && ((g << 16u32) | slot)
            & 0xffffu32 == slot) by (bit_vector);
        HandleId { raw: NonZeroU32::new(raw).unwrap() }
    }

    pub fn raw(self) -> (r: NonZeroU32)
        ensures
            r@ == self@,
    {
        self.raw
    }

    /// Rebuilds an id from its 32-bit value. A pair that names no live entry
    /// is rejected by the table with `BadHandle` on first use.
    pub fn from_raw(raw: NonZeroU32) -> (r: Self)
        ensures
            r@ == raw@,
    {
        HandleId { raw }
    }

    pub fn generation(self) -> (r: u16)
        ensures
            r == self.spec_generation(),
    {
        (self.raw.get() >> 16u32) as u16
    }

    pub fn slot(self) -> (r: u32)
        ensures
            r == self.spec_slot(),
            r <= MAX_SLOT_INDEX,
    {
        let x = self.raw.get();
        assert(x & 0xffffu32 <= 0xffff) by (bit_vector);
        x & SLOT_MASK
    }
}

/// The generation and slot halves of `generation * 65536 + slot`.
pub proof fn lemma_raw_parts(generation: u16, slot: u32)
    requires
        slot <= MAX_SLOT_INDEX,
    ensures
        raw_generation((generation * 65536 + slot) as u32) == generation,
        raw_slot((generation * 65536 + slot) as u32) == slot,
{
    let g = generation as u32;
    assert(g <= 0xffff && slot <= 0xffff ==> ((g * 65536 + slot) as u32 >> 16u32) as u16 == g as u16
        && (g * 65536 + slot) as u32 & 0xffffu32 == slot) by (bit_vector);
}

/// Distinct ids differ in their generation or in their slot.
pub proof fn lemma_handle_id_determined(a: HandleId, b: HandleId)
    requires
        a.spec_generation() == b.spec_generation(),
        a.spec_slot() == b.spec_slot(),
    ensures
        a == b,
{
    let (x, y) = (a@, b@);
    assert((x >> 16u32) as u16 == (y >> 16u32) as u16 && x & 0xffffu32 == y & 0xffffu32 ==> x
        == y) by (bit_vector);
    crate::num::lemma_nonzero_u32_injective(a.raw, b.raw);
}

} // verus!
