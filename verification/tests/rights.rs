use std::sync::Arc;

use kernel::kobject::lifecycle::{ProcessObject, ThreadObject};
use kernel::kobject::object::KObject;
use kernel::kobject::physical_resource::PhysicalResource;
use kernel::kobject::port::{Port, Reply};
use kernel::kobject::rights::Rights;
use kernel::kobject::signal::Signal;
use kernel::memory::address::PageAlignedAddress;
use kernel::memory::region::{AccessMask, MemoryRegion};
use kernel::num::NonZeroUsize;

#[test]
fn defaults_for_process_grants_write_and_read() {
    let ko = KObject::Process(Arc::new(ProcessObject::new()));
    let r = Rights::defaults_for(&ko);
    assert!(r.contains(Rights::WRITE()));
    assert!(r.contains(Rights::READ()));
    assert!(r.contains(Rights::DUPLICATE()));
    assert!(r.contains(Rights::TRANSFER()));
}

#[test]
fn defaults_for_process_omits_execute() {
    let ko = KObject::Process(Arc::new(ProcessObject::new()));
    let r = Rights::defaults_for(&ko);
    assert!(!r.contains(Rights::EXECUTE()));
}

#[test]
fn defaults_for_thread_grants_write_and_read() {
    let ko = KObject::Thread(Arc::new(ThreadObject::new()));
    let r = Rights::defaults_for(&ko);
    assert!(r.contains(Rights::WRITE()));
    assert!(r.contains(Rights::READ()));
    assert!(r.contains(Rights::DUPLICATE()));
    assert!(r.contains(Rights::TRANSFER()));
}

#[test]
fn defaults_for_thread_omits_execute() {
    let ko = KObject::Thread(Arc::new(ThreadObject::new()));
    let r = Rights::defaults_for(&ko);
    assert!(!r.contains(Rights::EXECUTE()));
}

fn memory_region(access: AccessMask) -> KObject {
    let region = MemoryRegion::create_physical_device(
        PageAlignedAddress::from_usize(0x4000_0000).unwrap(),
        NonZeroUsize::new(0x1000).unwrap(),
        access,
    );
    KObject::Memory(Arc::new(region))
}

#[test]
fn defaults_for_memory_mirrors_access_mask() {
    let r = Rights::defaults_for(&memory_region(AccessMask::RW()));
    assert!(r.contains(Rights::READ()));
    assert!(r.contains(Rights::WRITE()));
    assert!(!r.contains(Rights::EXECUTE()));
    assert!(r.contains(Rights::DUPLICATE()));
    assert!(r.contains(Rights::TRANSFER()));
}

#[test]
fn defaults_for_memory_readonly_omits_write() {
    let r = Rights::defaults_for(&memory_region(AccessMask::R()));
    assert!(r.contains(Rights::READ()));
    assert!(!r.contains(Rights::WRITE()));
    assert!(!r.contains(Rights::EXECUTE()));
}

#[test]
fn defaults_for_memory_executable_grants_execute() {
    let r = Rights::defaults_for(&memory_region(AccessMask::RX()));
    assert!(r.contains(Rights::READ()));
    assert!(!r.contains(Rights::WRITE()));
    assert!(r.contains(Rights::EXECUTE()));
}

#[test]
fn defaults_for_port_grants_read_write_transfer_duplicate() {
    let r = Rights::defaults_for(&KObject::Port(Arc::new(Port::new())));
    assert!(r.contains(Rights::READ()));
    assert!(r.contains(Rights::WRITE()));
    assert!(r.contains(Rights::TRANSFER()));
    assert!(r.contains(Rights::DUPLICATE()));
    assert!(!r.contains(Rights::EXECUTE()));
}

#[test]
fn defaults_for_resource_grants_rw_transfer_duplicate_no_execute() {
    let resource = PhysicalResource::new(
        PageAlignedAddress::from_usize(0x4000_0000).unwrap(),
        NonZeroUsize::new(0x1000).unwrap(),
        AccessMask::RW(),
    );
    let r = Rights::defaults_for(&KObject::Resource(Arc::new(resource)));
    assert!(r.contains(Rights::READ()));
    assert!(r.contains(Rights::WRITE()));
    assert!(r.contains(Rights::DUPLICATE()));
    assert!(r.contains(Rights::TRANSFER()));
    assert!(!r.contains(Rights::EXECUTE()));
}

#[test]
fn defaults_for_signal_and_reply() {
    let s = Rights::defaults_for(&KObject::Signal(Arc::new(Signal::new())));
    assert_eq!(s.bits(), 15);
    let r = Rights::defaults_for(&KObject::Reply(Arc::new(Reply::new(7))));
    assert_eq!(r, Rights::WRITE() | Rights::TRANSFER());
    assert!(!r.contains(Rights::DUPLICATE()));
}

#[test]
fn bitor_is_union() {
    let r = Rights::READ() | Rights::WRITE();
    assert!(r.contains(Rights::READ()));
    assert!(r.contains(Rights::WRITE()));
    assert!(!r.contains(Rights::EXECUTE()));
}

#[test]
fn bitand_is_intersection() {
    let lhs = Rights::READ() | Rights::WRITE() | Rights::EXECUTE();
    let rhs = Rights::WRITE() | Rights::DUPLICATE();
    assert_eq!(lhs & rhs, Rights::WRITE());
}

#[test]
fn not_masks_to_known_bits_only() {
    let n = !Rights::READ();
    assert!(!n.contains(Rights::READ()));
    assert!(n.contains(Rights::WRITE()));
    assert!(n.contains(Rights::EXECUTE()));
    assert!(n.contains(Rights::DUPLICATE()));
    assert!(n.contains(Rights::TRANSFER()));
    assert_eq!(n.bits() & !Rights::all().bits(), 0);
    assert_eq!(!Rights::all(), Rights::NONE());
    assert_eq!(!Rights::NONE(), Rights::all());
}

#[test]
fn is_subset_of_holds_for_subset_and_fails_for_superset() {
    assert!(Rights::READ().is_subset_of(Rights::READ() | Rights::WRITE()));
    assert!(Rights::NONE().is_subset_of(Rights::READ()));
    assert!(!(Rights::READ() | Rights::WRITE()).is_subset_of(Rights::READ()));
    assert!(Rights::all().is_subset_of(Rights::all()));
}

#[test]
fn from_bits_truncate_drops_unknown_bits() {
    assert_eq!(Rights::from_bits_truncate(0xFFFF_FFFF), Rights::all());
    assert_eq!(Rights::all().bits(), 31);
    assert!(Rights::empty().is_empty());
    assert!(!Rights::READ().is_empty());
    assert_eq!(Rights::default(), Rights::NONE());
}

#[test]
fn subset_is_transitive_on_examples() {
    let a = Rights::READ();
    let b = Rights::READ() | Rights::WRITE();
    let c = Rights::all();
    assert!(a.is_subset_of(b) && b.is_subset_of(c) && a.is_subset_of(c));
}
