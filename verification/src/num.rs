//! Non-zero integers: values whose type rules out zero.

use vstd::prelude::*;

verus! {

/// A `usize` that is never zero.
#[derive(Clone, Copy, Debug, PartialEq, Eq, Structural, PartialOrd, Ord, Hash)]
pub struct NonZeroUsize {
    value: usize,
}

impl NonZeroUsize {
    #[verifier::type_invariant]
    spec fn nonzero_inv(self) -> bool {
        self.value != 0
    }

    pub closed spec fn view(self) -> usize {
        self.value
    }

    /// `Some` exactly when `value` is not zero.
    pub fn new(value: usize) -> (r: Option<Self>)
        ensures
            r matches Some(x) <==> value != 0,
            r matches Some(x) ==> x@ == value,
    {
        if value != 0 {
            Some(NonZeroUsize { value })
        } else {
            None
        }
    }

    pub fn get(self) -> (r: usize)
        ensures
            r == self@,
            r != 0,
    {
        proof {
            use_type_invariant(self);
        }
        self.value
    }
}

/// A `u32` that is never zero.
#[derive(Clone, Copy, Debug, PartialEq, Eq, Structural, PartialOrd, Ord, Hash)]
pub struct NonZeroU32 {
    value: u32,
}

impl NonZeroU32 {
    #[verifier::type_invariant]
    spec fn nonzero_inv(self) -> bool {
        self.value != 0
    }

    pub closed spec fn view(self) -> u32 {
        self.value
    }

    /// `Some` exactly when `value` is not zero.
    pub fn new(value: u32) -> (r: Option<Self>)
        ensures
            r matches Some(x) <==> value != 0,
            r matches Some(x) ==> x@ == value,
    {
        if value != 0 {
            Some(NonZeroU32 { value })
        } else {
            None
        }
    }

    pub fn get(self) -> (r: u32)
        ensures
            r == self@,
            r != 0,
    {
        proof {
            use_type_invariant(self);
        }
        self.value
    }
}

/// Non-zero `u32`s with the same value are the same.
pub proof fn lemma_nonzero_u32_injective(a: NonZeroU32, b: NonZeroU32)
    requires
        a@ == b@,
    ensures
        a == b,
{
}

/// A `u64` that is never zero.
#[derive(Clone, Copy, Debug, PartialEq, Eq, Structural, PartialOrd, Ord, Hash)]
pub struct NonZeroU64 {
    value: u64,
}

impl NonZeroU64 {
    #[verifier::type_invariant]
    spec fn nonzero_inv(self) -> bool {
        self.value != 0
    }

    pub closed spec fn view(self) -> u64 {
        self.value
    }

    /// `Some` exactly when `value` is not zero.
    pub fn new(value: u64) -> (r: Option<Self>)
        ensures
            r matches Some(x) <==> value != 0,
            r matches Some(x) ==> x@ == value,
    {
        if value != 0 {
            Some(NonZeroU64 { value })
        } else {
            None
        }
    }

    pub fn get(self) -> (r: u64)
        ensures
            r == self@,
            r != 0,
    {
        proof {
            use_type_invariant(self);
        }
        self.value
    }
}

} // verus!
