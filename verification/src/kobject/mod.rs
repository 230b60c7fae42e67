//! Kernel objects and the per-process handle tables through which they are
//! reached.

pub mod api;
pub mod errors;
pub mod handle;
pub mod handle_table;
pub mod ipc_buffer;
pub mod ipc_buffer_xfer;
pub mod handle_id;
pub mod koid;
pub mod lifecycle;
pub mod object;
pub mod outcome;
pub mod physical_resource;
pub mod port;
pub mod rendezvous;
pub mod rev_node;
pub mod rights;
pub mod runtime;
pub mod signal;
pub mod spawn;
pub mod termination;
