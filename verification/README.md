# kernel

Verified core of a capability-based microkernel, written in Verus.

- `src/kobject/`: kernel objects and the per-process handle tables through
  which they are reached: handles and their rights, the derivation tree that
  revokes derived capabilities, signals, ports with their rendezvous and
  reply arbitration, IPC buffers and the transfer of a message with its
  capabilities between two buffers.
- `src/memory/`: addresses and pages, memory regions and their installation
  through an address-space mapper, the kernel heap allocator, the bump
  allocator, mapping flags.
- `src/process/`: validating a user image, turning a program description
  into one, and planning and loading its mappings.
- `src/hal/`, `src/kernelspace/`: boot information and the decisions of the
  kernel's MMIO service.
- `app/`: the process-wide slots that the library leaves out (installed
  frame allocator, userland image, power-off handler).

Contracts state what each function computes. Where a result comes from a
call through the mapper or frame-allocator traits, which users implement
and which carry no contract, the contract states what the library decides
around the call (the plan of mappings, the library's own errors) and what
holds whatever the call returns. Laws that relate several functions are
public proof functions beside them.
