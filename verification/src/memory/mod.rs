//! Memory management primitives: address types, ranges, access flags,
//! memory regions and allocators.

pub mod address;
pub mod bump_allocator;
pub mod frame_allocator;
pub mod heap;
pub mod layout;
pub mod mem_flags;
pub mod memory_mapper;
pub mod memory_range;
pub mod page;
pub mod region;
pub mod user_vm;
