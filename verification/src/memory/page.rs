//! Page size and rounding to whole pages.

use vstd::prelude::*;
use crate::num::NonZeroUsize;

verus! {

/// Size of a page and of a frame in bytes.
pub const PAGE_SIZE: usize = 4096;

/// The smallest multiple of the page size that is at least `value`.
pub open spec fn round_up_to_page(value: int) -> int {
    if value % (PAGE_SIZE as int) == 0 {
        value
    } else {
        value - value % (PAGE_SIZE as int) + PAGE_SIZE as int
    }
}

/// Rounds a non-zero size up to a multiple of [`PAGE_SIZE`]. `None` only
/// when the result does not fit in `usize`.
pub fn page_round_up(value: NonZeroUsize) -> (r: Option<NonZeroUsize>)
    ensures
        r matches Some(x) <==> round_up_to_page(value@ as int) <= usize::MAX,
        r matches Some(x) ==> x@ == round_up_to_page(value@ as int),
{
    let v = value.get();
    let rem = v % PAGE_SIZE;
    if rem == 0 {
        return Some(value);
    }
    match v.checked_add(PAGE_SIZE - rem) {
        Some(rounded) => NonZeroUsize::new(rounded),
        None => None,
    }
}

/// The rounded size is a multiple of the page size, is not below the value
/// and exceeds it by less than a page.
pub proof fn lemma_round_up_to_page(value: int)
    requires
        value >= 0,
    ensures
        round_up_to_page(value) % (PAGE_SIZE as int) == 0,
        value <= round_up_to_page(value) < value + PAGE_SIZE as int,
        value % (PAGE_SIZE as int) == 0 ==> round_up_to_page(value) == value,
{
}

} // verus!
