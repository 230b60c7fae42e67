//! Kernel start-up state and kernel-side services.

pub mod context;
pub mod mmio;
