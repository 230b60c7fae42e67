use kernel::memory::address::{Aligned, PageAlignedAddress, PhysicalAddress};
use kernel::memory::mem_flags::{AccessMode, Executable, MemFlags, Owners, PrivateMemoryPermission};
use kernel::memory::memory_range::MemoryRange;
use kernel::memory::page::{page_round_up, PAGE_SIZE};
use kernel::num::NonZeroUsize;

const PAGE: usize = <PageAlignedAddress as Aligned>::ALIGNMENT;

fn page(addr: usize) -> PageAlignedAddress {
    PageAlignedAddress::from_usize(addr).expect("address must be page-aligned")
}

fn nz(v: usize) -> NonZeroUsize {
    NonZeroUsize::new(v).unwrap()
}

#[test]
fn page_round_up_keeps_aligned_value() {
    assert_eq!(page_round_up(nz(PAGE_SIZE)), Some(nz(PAGE_SIZE)));
    let two = nz(PAGE_SIZE * 2);
    assert_eq!(page_round_up(two), Some(two));
}

#[test]
fn page_round_up_rounds_partial_page() {
    assert_eq!(page_round_up(nz(1)), Some(nz(PAGE_SIZE)));
    let over = nz(PAGE_SIZE + 1);
    assert_eq!(page_round_up(over), NonZeroUsize::new(PAGE_SIZE * 2));
}

#[test]
fn page_round_up_detects_overflow() {
    let huge = nz(usize::MAX);
    assert_eq!(page_round_up(huge), None);
}

#[test]
fn page_round_up_just_below_overflow() {
    let last = nz(usize::MAX - PAGE_SIZE + 1);
    assert_eq!(page_round_up(last), Some(last));
    assert_eq!(page_round_up(nz(usize::MAX - PAGE_SIZE + 2)), None);
}

fn private_perms(flags: &MemFlags) -> &Owners<PrivateMemoryPermission> {
    match flags {
        MemFlags::Private(p) => p,
        MemFlags::Device(_) => panic!("expected Private flags"),
    }
}

#[test]
fn user_ro_grants_only_user_read() {
    let flags = MemFlags::user_ro();
    let p = private_perms(&flags);
    assert!(matches!(p.kernel.access, AccessMode::NoAccess));
    assert!(matches!(p.kernel.executable, Executable::NotAllowed));
    assert!(matches!(p.user.access, AccessMode::Readonly));
    assert!(matches!(p.user.executable, Executable::NotAllowed));
}

#[test]
fn user_rw_grants_user_write_no_exec() {
    let flags = MemFlags::user_rw();
    let p = private_perms(&flags);
    assert!(matches!(p.kernel.access, AccessMode::NoAccess));
    assert!(matches!(p.user.access, AccessMode::Writable));
    assert!(matches!(p.user.executable, Executable::NotAllowed));
}

#[test]
fn user_rx_grants_user_read_and_exec() {
    let flags = MemFlags::user_rx();
    let p = private_perms(&flags);
    assert!(matches!(p.kernel.access, AccessMode::NoAccess));
    assert!(matches!(p.user.access, AccessMode::Readonly));
    assert!(matches!(p.user.executable, Executable::Allowed));
}

#[test]
fn user_helpers_grant_no_kernel_permissions() {
    for flags in [MemFlags::user_ro(), MemFlags::user_rw(), MemFlags::user_rx()] {
        let p = private_perms(&flags);
        assert!(matches!(p.kernel.access, AccessMode::NoAccess));
        assert!(matches!(p.kernel.executable, Executable::NotAllowed));
    }
}

#[test]
fn kernel_rw_grants_only_kernel_write_no_exec() {
    let flags = MemFlags::kernel_rw();
    let p = private_perms(&flags);
    assert!(matches!(p.kernel.access, AccessMode::Writable));
    assert!(matches!(p.kernel.executable, Executable::NotAllowed));
    assert!(matches!(p.user.access, AccessMode::NoAccess));
    assert!(matches!(p.user.executable, Executable::NotAllowed));
}

#[test]
fn size_is_half_open_span() {
    let range = MemoryRange::new(PhysicalAddress::new(100), PhysicalAddress::new(200));
    assert_eq!(range.size(), 100);
}

#[test]
fn empty_range_has_zero_size() {
    let range = MemoryRange::new(PhysicalAddress::new(42), PhysicalAddress::new(42));
    assert_eq!(range.size(), 0);
}

#[test]
fn size_is_zero_when_end_below_start() {
    let range = MemoryRange::new(PhysicalAddress::new(200), PhysicalAddress::new(100));
    assert_eq!(range.size(), 0);
}

#[test]
fn contains_respects_half_open_boundaries() {
    let range = MemoryRange::new(PhysicalAddress::new(100), PhysicalAddress::new(200));
    assert!(range.contains(PhysicalAddress::new(100)));
    assert!(range.contains(PhysicalAddress::new(150)));
    assert!(range.contains(PhysicalAddress::new(199)));
    assert!(!range.contains(PhysicalAddress::new(200)));
    assert!(!range.contains(PhysicalAddress::new(99)));
}

#[test]
fn contains_is_always_false_for_empty_range() {
    let range = MemoryRange::new(PhysicalAddress::new(50), PhysicalAddress::new(50));
    assert!(!range.contains(PhysicalAddress::new(50)));
    assert!(!range.contains(PhysicalAddress::new(49)));
}

#[test]
fn frame_count_counts_pages_in_span() {
    let range = MemoryRange::new(page(PAGE * 2), page(PAGE * 5));
    assert_eq!(range.frame_count(), 3);
}

#[test]
fn frame_count_is_zero_for_empty_range() {
    let range = MemoryRange::new(page(PAGE * 3), page(PAGE * 3));
    assert_eq!(range.frame_count(), 0);
}

fn collect_pages(range: &MemoryRange<PageAlignedAddress>) -> Vec<usize> {
    let mut it = range.iter();
    let mut out = Vec::new();
    while let Some(a) = it.next() {
        out.push(a.as_usize());
    }
    out
}

#[test]
fn iter_yields_each_page_aligned_address() {
    let range = MemoryRange::new(page(PAGE * 2), page(PAGE * 5));
    let addrs = collect_pages(&range);
    assert_eq!(addrs, vec![PAGE * 2, PAGE * 3, PAGE * 4]);
}

#[test]
fn iter_on_empty_range_yields_nothing() {
    let range = MemoryRange::new(page(PAGE), page(PAGE));
    assert_eq!(collect_pages(&range).len(), 0);
}

#[test]
fn into_iter_matches_frame_count() {
    let range = MemoryRange::new(page(0), page(PAGE * 4));
    assert_eq!(collect_pages(&range).len(), range.frame_count());
}

#[test]
fn range_addresses_walk_every_page_in_order() {
    let start = PageAlignedAddress::from_usize(0x1000).unwrap();
    let end = PageAlignedAddress::from_usize(0x4000).unwrap();
    let range = MemoryRange::new(start, end);
    let got: Vec<usize> = range.addresses().iter().map(|a| a.as_usize()).collect();
    assert_eq!(got, vec![0x1000, 0x2000, 0x3000]);
    assert_eq!(got.len(), range.frame_count());
    assert!(MemoryRange::new(start, start).addresses().is_empty());
}
