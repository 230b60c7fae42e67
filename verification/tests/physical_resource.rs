use kernel::kobject::physical_resource::PhysicalResource;
use kernel::memory::address::PageAlignedAddress;
use kernel::memory::region::AccessMask;
use kernel::num::NonZeroUsize;

fn pa(raw: usize) -> PageAlignedAddress {
    PageAlignedAddress::from_usize(raw).unwrap()
}

fn nz(raw: usize) -> NonZeroUsize {
    NonZeroUsize::new(raw).unwrap()
}

#[test]
fn permits_subrange_with_subset_access() {
    let resource = PhysicalResource::new(pa(0x4000_0000), nz(0x4000), AccessMask::RW());
    assert!(resource.permits(pa(0x4000_1000), nz(0x1000), AccessMask::R()));
}

#[test]
fn rejects_range_outside_resource() {
    let resource = PhysicalResource::new(pa(0x4000_0000), nz(0x4000), AccessMask::RW());
    assert!(!resource.permits(pa(0x4000_3000), nz(0x2000), AccessMask::R()));
    assert!(!resource.permits(pa(0x3fff_f000), nz(0x2000), AccessMask::R()));
}

#[test]
fn rejects_access_outside_resource_mask() {
    let resource = PhysicalResource::new(pa(0x4000_0000), nz(0x4000), AccessMask::R());
    assert!(!resource.permits(pa(0x4000_0000), nz(0x1000), AccessMask::RW()));
}

#[test]
fn rejects_overflowing_requested_range() {
    let resource = PhysicalResource::new(pa(0xffff_f000), nz(0x1000), AccessMask::R());
    assert!(!resource.permits(pa(0xffff_f000), nz(usize::MAX), AccessMask::R()));
}

#[test]
fn resource_reports_its_fields_and_permits_whole_range() {
    let resource = PhysicalResource::new(pa(0x1000_0000), nz(0x2000), AccessMask::RW());
    assert_eq!(resource.pa_base().as_usize(), 0x1000_0000);
    assert_eq!(resource.size_bytes().get(), 0x2000);
    assert_eq!(resource.access_mask(), AccessMask::RW());
    assert!(resource.permits(pa(0x1000_0000), nz(0x2000), AccessMask::RW()));
    assert!(!resource.permits(pa(0x1000_1000), nz(0x2000), AccessMask::R()));
}
