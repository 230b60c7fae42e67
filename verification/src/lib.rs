//! Verified core of a capability-based microkernel: physical and virtual
//! memory bookkeeping, kernel objects and their handle tables, user-process
//! images and boot-time descriptions.

pub mod hal;
pub mod kernelspace;
pub mod kobject;
pub mod memory;
pub mod num;
pub mod process;
