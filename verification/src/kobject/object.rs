//! The kernel objects to which handles grant rights.

use std::sync::Arc;
use vstd::prelude::*;
use crate::memory::region::MemoryRegion;
use super::koid::Koid;
use super::lifecycle::{ProcessObject, ThreadObject};
use super::physical_resource::PhysicalResource;
use super::port::{Port, Reply};
use super::signal::Signal;

verus! {

/// A kernel object: the unit to which the kernel hands out rights. Each
/// variant shares the object itself.
pub enum KObject {
    Signal(Arc<Signal>),
    Process(Arc<ProcessObject>),
    Thread(Arc<ThreadObject>),
    Memory(Arc<MemoryRegion>),
    Resource(Arc<PhysicalResource>),
    Port(Arc<Port>),
    Reply(Arc<Reply>),
}

/// Address of the shared object: the identity part of its koid.
///
/// Calls `Arc::as_ptr`. Nothing is stated of the address: it is whatever
/// the allocator gave.
#[verifier::external_body]
fn shared_address<T>(object: &Arc<T>) -> u64 {
    Arc::as_ptr(object) as usize as u64
}

impl KObject {
    /// Type tag of each variant, from 1 to 7.
    pub open spec fn spec_type_tag(self) -> u8 {
        match self {
            KObject::Signal(_) => 1,
            KObject::Process(_) => 2,
            KObject::Thread(_) => 3,
            KObject::Memory(_) => 4,
            KObject::Resource(_) => 5,
            KObject::Port(_) => 6,
            KObject::Reply(_) => 7,
        }
    }

    /// Type tag of the object.
    pub fn type_tag(&self) -> (r: u8)
        ensures
            r == self.spec_type_tag(),
    {
        match self {
            KObject::Signal(_) => 1,
            KObject::Process(_) => 2,
            KObject::Thread(_) => 3,
            KObject::Memory(_) => 4,
            KObject::Resource(_) => 5,
            KObject::Port(_) => 6,
            KObject::Reply(_) => 7,
        }
    }

    /// Identifier of the object: its type tag above its address.
    pub fn koid(&self) -> (r: Koid)
        ensures
            (r@ >> 56u64) as u8 == self.spec_type_tag(),
    {
        let addr = match self {
            KObject::Signal(s) => shared_address(s),
            KObject::Process(p) => shared_address(p),
            KObject::Thread(t) => shared_address(t),
            KObject::Memory(m) => shared_address(m),
            KObject::Resource(r) => shared_address(r),
            KObject::Port(p) => shared_address(p),
            KObject::Reply(r) => shared_address(r),
        };
        Koid::from_parts(self.type_tag(), addr)
    }

    /// Another reference to the same object.
    pub fn clone_object(&self) -> (r: Self)
        ensures
            r == *self,
    {
        match self {
            KObject::Signal(s) => KObject::Signal(s.clone()),
            KObject::Process(p) => KObject::Process(p.clone()),
            KObject::Thread(t) => KObject::Thread(t.clone()),
            KObject::Memory(m) => KObject::Memory(m.clone()),
            KObject::Resource(r) => KObject::Resource(r.clone()),
            KObject::Port(p) => KObject::Port(p.clone()),
            KObject::Reply(r) => KObject::Reply(r.clone()),
        }
    }
}

impl Clone for KObject {
    fn clone(&self) -> (r: Self)
        ensures
            r == *self,
    {
        self.clone_object()
    }
}

} // verus!
