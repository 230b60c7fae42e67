//! The interface of a physical frame allocator.

use vstd::prelude::*;
use super::address::Frame;

verus! {

/// Failure to return a frame.
#[derive(Debug, Clone, Copy, PartialEq, Eq, Structural)]
pub enum FrameError {
    /// The frame was not allocated.
    NotAllocated,
    /// The frame lies outside the managed memory.
    OutOfRange,
}

/// Hands out and takes back physical frames.
pub trait FrameAllocator {
    /// One free frame, or `None` when memory is exhausted.
    fn allocate_frame(&self) -> Option<Frame>;

    /// Takes `frame` back.
    fn deallocate_frame(&self, frame: Frame) -> Result<(), FrameError>;
}

} // verus!
