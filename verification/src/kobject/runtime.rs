//! Values exchanged between kernel objects and the kernel runtime.

use vstd::prelude::*;
use crate::num::NonZeroU64;

verus! {

/// Parameters of the first entry into a user thread.
#[derive(Debug, Clone, Copy, PartialEq, Eq, Structural)]
pub struct UserThreadEntry {
    /// Start address of user code.
    pub entry_pc: u64,
    /// Initial user stack pointer.
    pub user_sp: u64,
    /// Argument passed to user code.
    pub arg: u64,
    /// Priority of the new thread (0 is the highest).
    pub priority: u8,
}

/// Park states of a thread waiting for a signal.
pub struct ParkState;

/// Registered, not woken yet.
pub const PARK_REGISTERED: u32 = 0;
/// Woken by a signal.
pub const PARK_SIGNALED: u32 = 1;
/// Woken by the deadline.
pub const PARK_TIMEOUT: u32 = 2;
/// Woken by a cancellation.
pub const PARK_CANCELED: u32 = 3;

/// Opaque token of the current execution context on the wait/wake path.
#[derive(Debug, Clone, Copy, PartialEq, Eq, Structural, Hash)]
pub struct WaitToken {
    raw: NonZeroU64,
}

impl WaitToken {
    pub closed spec fn view(self) -> u64 {
        self.raw@
    }

    pub fn new(raw: NonZeroU64) -> (r: Self)
        ensures
            r@ == raw@,
    {
        WaitToken { raw }
    }

    pub fn raw(self) -> (r: NonZeroU64)
        ensures
            r@ == self@,
    {
        self.raw
    }
}

} // verus!
