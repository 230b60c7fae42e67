//! Errors of handle and kernel-object operations.

use vstd::prelude::*;

verus! {

/// Errors of operations on handles and kernel objects.
#[derive(Debug, Clone, Copy, PartialEq, Eq, Structural)]
pub enum IpcError {
    /// The handle is invalid or already closed.
    BadHandle,
    /// The object has another type than the one expected.
    WrongType,
    /// The handle lacks a required right.
    AccessDenied,
    /// The operation must be retried later.
    ShouldWait,
    /// The peer has been closed.
    PeerClosed,
    /// The deadline passed.
    Timeout,
    /// The wait was canceled because its handle was closed or transferred.
    Canceled,
    /// The receiving buffer is smaller than the message.
    BufferTooSmall,
    /// The message exceeds the size limit.
    MessageTooBig,
    /// The handle table of the process is full.
    OutOfHandles,
    /// The resource budget is exhausted.
    ResourceExhausted,
    /// The capability was revoked through one of its ancestors.
    Revoked,
}

/// Errors of process and thread creation.
#[derive(Debug, Clone, Copy, PartialEq, Eq, Structural)]
pub enum SpawnError {
    NoFreeProcessSlots,
    NoFreeThreadSlots,
    InvalidName,
    InvalidPriority,
    InvalidStackPages,
    StackAllocationFailed,
    AddressSpaceCreationFailed,
    ImageNotLoaded,
}

} // verus!
