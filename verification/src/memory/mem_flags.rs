//! Access permissions of memory mappings.

use vstd::prelude::*;

verus! {

/// Data access allowed to an owner.
#[derive(Copy, Clone, Debug, PartialEq, Eq, Structural)]
pub enum AccessMode {
    NoAccess,
    Readonly,
    Writable,
}

/// Whether an owner may execute the memory.
#[derive(Copy, Clone, Debug, PartialEq, Eq, Structural)]
pub enum Executable {
    Allowed,
    NotAllowed,
}

/// Permission of one owner on private memory.
#[derive(Copy, Clone, Debug, PartialEq, Eq, Structural)]
pub struct PrivateMemoryPermission {
    pub access: AccessMode,
    pub executable: Executable,
}

impl Default for PrivateMemoryPermission {
    /// No access, no execution.
    fn default() -> (r: Self)
        ensures
            r == (PrivateMemoryPermission {
                access: AccessMode::NoAccess,
                executable: Executable::NotAllowed,
            }),
    {
        PrivateMemoryPermission { access: AccessMode::NoAccess, executable: Executable::NotAllowed }
    }
}

/// Permission of one owner on device memory.
#[derive(Copy, Clone, Debug, PartialEq, Eq, Structural)]
pub struct DeviceMemoryPermission {
    pub access: AccessMode,
}

impl DeviceMemoryPermission {
    pub fn readonly() -> (r: Self)
        ensures
            r.access == AccessMode::Readonly,
    {
        DeviceMemoryPermission { access: AccessMode::Readonly }
    }

    pub fn writable() -> (r: Self)
        ensures
            r.access == AccessMode::Writable,
    {
        DeviceMemoryPermission { access: AccessMode::Writable }
    }

    /// Text form, as `[DMA: RW]`.
    pub fn describe(&self) -> (r: &'static str)
        ensures
            self.access == AccessMode::NoAccess ==> r@ == "[DMA: None]"@,
            self.access == AccessMode::Readonly ==> r@ == "[DMA: RO]"@,
            self.access == AccessMode::Writable ==> r@ == "[DMA: RW]"@,
    {
        match self.access {
            AccessMode::NoAccess => "[DMA: None]",
            AccessMode::Readonly => "[DMA: RO]",
            AccessMode::Writable => "[DMA: RW]",
        }
    }
}

impl Default for DeviceMemoryPermission {
    /// No access.
    fn default() -> (r: Self)
        ensures
            r.access == AccessMode::NoAccess,
    {
        DeviceMemoryPermission { access: AccessMode::NoAccess }
    }
}

/// Permissions of the kernel and of user mode.
#[derive(Copy, Clone, Debug, PartialEq, Eq)]
pub struct Owners<T: Default + Copy> {
    pub kernel: T,
    pub user: T,
}

impl Owners<PrivateMemoryPermission> {
    /// `kernel` for the kernel, nothing for user mode.
    pub fn kernel(kernel: PrivateMemoryPermission) -> (r: Self)
        ensures
            r.kernel == kernel,
            r.user == (PrivateMemoryPermission {
                access: AccessMode::NoAccess,
                executable: Executable::NotAllowed,
            }),
    {
        Owners { kernel, user: PrivateMemoryPermission::default() }
    }
}

impl Owners<DeviceMemoryPermission> {
    /// `kernel` for the kernel, nothing for user mode.
    pub fn kernel(kernel: DeviceMemoryPermission) -> (r: Self)
        ensures
            r.kernel == kernel,
            r.user.access == AccessMode::NoAccess,
    {
        Owners { kernel, user: DeviceMemoryPermission::default() }
    }
}

/// Flags of a mapping: private memory or device memory, with the
/// permissions of each owner.
#[derive(Copy, Clone, Debug, PartialEq, Eq)]
pub enum MemFlags {
    Private(Owners<PrivateMemoryPermission>),
    Device(Owners<DeviceMemoryPermission>),
}

/// Kernel read/write, no execution, no user permission.
pub open spec fn kernel_rw_flags() -> MemFlags {
    MemFlags::Private(
        Owners {
            kernel: PrivateMemoryPermission { access: AccessMode::Writable, executable: Executable::NotAllowed },
            user: PrivateMemoryPermission { access: AccessMode::NoAccess, executable: Executable::NotAllowed },
        },
    )
}

/// Private flags with the given user permission and no kernel permission.
pub open spec fn user_private(access: AccessMode, executable: Executable) -> MemFlags {
    MemFlags::Private(
        Owners {
            kernel: PrivateMemoryPermission {
                access: AccessMode::NoAccess,
                executable: Executable::NotAllowed,
            },
            user: PrivateMemoryPermission { access, executable },
        },
    )
}

impl MemFlags {
    /// User read-only, no execution, no kernel permission.
    pub fn user_ro() -> (r: Self)
        ensures
            r == user_private(AccessMode::Readonly, Executable::NotAllowed),
    {
        MemFlags::Private(
            Owners {
                kernel: PrivateMemoryPermission {
                    access: AccessMode::NoAccess,
                    executable: Executable::NotAllowed,
                },
                user: PrivateMemoryPermission {
                    access: AccessMode::Readonly,
                    executable: Executable::NotAllowed,
                },
            },
        )
    }

    /// User read/write, no execution, no kernel permission.
    pub fn user_rw() -> (r: Self)
        ensures
            r == user_private(AccessMode::Writable, Executable::NotAllowed),
    {
        MemFlags::Private(
            Owners {
                kernel: PrivateMemoryPermission {
                    access: AccessMode::NoAccess,
                    executable: Executable::NotAllowed,
                },
                user: PrivateMemoryPermission {
                    access: AccessMode::Writable,
                    executable: Executable::NotAllowed,
                },
            },
        )
    }

    /// User read and execute, no kernel permission.
    pub fn user_rx() -> (r: Self)
        ensures
            r == user_private(AccessMode::Readonly, Executable::Allowed),
    {
        MemFlags::Private(
            Owners {
                kernel: PrivateMemoryPermission {
                    access: AccessMode::NoAccess,
                    executable: Executable::NotAllowed,
                },
                user: PrivateMemoryPermission {
                    access: AccessMode::Readonly,
                    executable: Executable::Allowed,
                },
            },
        )
    }

    /// Kernel read/write, no execution, no user permission.
    pub fn kernel_rw() -> (r: Self)
        ensures
            r == kernel_rw_flags(),
    {
        MemFlags::Private(
            Owners {
                kernel: PrivateMemoryPermission {
                    access: AccessMode::Writable,
                    executable: Executable::NotAllowed,
                },
                user: PrivateMemoryPermission {
                    access: AccessMode::NoAccess,
                    executable: Executable::NotAllowed,
                },
            },
        )
    }
}

} // verus!
