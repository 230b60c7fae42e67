use kernel::hal::boot_info::{payload_from_initrd_bounds, BootInfo, BootPayloadRange, HwDescription};
use kernel::kernelspace::context::{BootDtb, KmmioArena};
use std::sync::Mutex;

use kernel::kernelspace::mmio::{access_mask_for_device, install_device_window, mmio_window, MmioMapError};
use kernel::memory::mem_flags::MemFlags;
use kernel::memory::memory_mapper::{MemoryMapper, MemoryMappingError, MemoryUnmappingError};
use kernel::memory::address::{PageAlignedAddress, PageAlignedVirtualAddress, PhysicalAddress};
use kernel::memory::mem_flags::{AccessMode, DeviceMemoryPermission, Owners};
use kernel::memory::region::AccessMask;
use kernel::num::NonZeroUsize;

#[test]
fn new_fdt_builds_expected_variant() {
    let phys = PhysicalAddress::new(0x4000_0000);
    let info = BootInfo::new_fdt(phys);
    let HwDescription::Fdt(blob) = info.hw_description else {
        panic!("expected Fdt variant");
    };
    assert_eq!(blob.phys.as_usize(), 0x4000_0000);
    assert!(info.userland_blob.is_none());
}

#[test]
fn new_fdt_with_payload_preserves_userland_blob() {
    let phys = PhysicalAddress::new(0x4000_0000);
    let payload = BootPayloadRange::new(PhysicalAddress::new(0x4800_0000), 0x20_0000).unwrap();
    let info = BootInfo::new_fdt_with_payload(phys, Some(payload));
    assert_eq!(info.userland_blob.unwrap().start().as_usize(), 0x4800_0000);
    assert_eq!(info.userland_blob.unwrap().size_bytes(), 0x20_0000);
}

#[test]
fn payload_range_rejects_zero_sized_and_overflowing_ranges() {
    assert!(BootPayloadRange::new(PhysicalAddress::new(0x1000), 0).is_none());
    assert!(BootPayloadRange::new(PhysicalAddress::new(usize::MAX), 1).is_none());
}

#[test]
fn payload_range_reports_end_exclusive() {
    let payload = BootPayloadRange::new(PhysicalAddress::new(0x8000), 0x3000).unwrap();
    assert_eq!(payload.end_exclusive().as_usize(), 0xb000);
}

#[test]
fn initrd_bounds_make_a_payload_only_when_ordered() {
    let p = payload_from_initrd_bounds(Some(0xc800_0000), Some(0xc820_0000)).unwrap();
    assert_eq!(p.start().as_usize(), 0xc800_0000);
    assert_eq!(p.size_bytes(), 0x20_0000);
    assert_eq!(p.end_exclusive().as_usize(), 0xc820_0000);
    assert!(payload_from_initrd_bounds(None, Some(0x1000)).is_none());
    assert!(payload_from_initrd_bounds(Some(0x1000), None).is_none());
    assert!(payload_from_initrd_bounds(Some(0x2000), Some(0x1000)).is_none());
    assert!(payload_from_initrd_bounds(Some(0x2000), Some(0x2000)).is_none());
}

fn user_owners(access: AccessMode) -> Owners<DeviceMemoryPermission> {
    Owners { kernel: DeviceMemoryPermission::default(), user: DeviceMemoryPermission { access } }
}

#[test]
fn access_mask_for_device_covers_kernel_user_readonly_and_none() {
    assert_eq!(
        access_mask_for_device(Owners::<DeviceMemoryPermission>::kernel(DeviceMemoryPermission::writable())).bits(),
        AccessMask::RW().bits()
    );
    assert_eq!(access_mask_for_device(user_owners(AccessMode::Writable)).bits(), AccessMask::RW().bits());
    assert_eq!(
        access_mask_for_device(Owners::<DeviceMemoryPermission>::kernel(DeviceMemoryPermission::readonly())).bits(),
        AccessMask::R().bits()
    );
    assert_eq!(access_mask_for_device(user_owners(AccessMode::Readonly)).bits(), AccessMask::R().bits());
    assert_eq!(access_mask_for_device(user_owners(AccessMode::NoAccess)).bits(), AccessMask::NONE().bits());
}

#[test]
fn mmio_window_rounds_sub_page_size_up_to_page() {
    let (pa, size) = mmio_window(0x9000_0000, 0x100).unwrap();
    assert_eq!(pa.as_usize(), 0x9000_0000);
    assert_eq!(size.get(), 0x1000);
    let (_, size) = mmio_window(0x9000_0000, 0x1001).unwrap();
    assert_eq!(size.get(), 0x2000);
}

#[test]
fn mmio_window_rejects_unaligned_zero_and_overflowing_requests() {
    assert_eq!(mmio_window(0x9000_0010, 0x1000), Err(MmioMapError::Unaligned));
    assert_eq!(mmio_window(0x9000_0000, 0), Err(MmioMapError::ZeroSize));
    assert_eq!(mmio_window(0x9000_0000, usize::MAX), Err(MmioMapError::SizeOverflow));
    assert_eq!(MmioMapError::ZeroSize.message(), "Mmio region size must be non-zero");
}

#[test]
fn boot_descriptions_keep_their_fields() {
    let dtb = BootDtb::new(
        PageAlignedAddress::from_usize(0x4000_0000).unwrap(),
        NonZeroUsize::new(0x2000).unwrap(),
    );
    assert_eq!(dtb.phys_base.as_usize(), 0x4000_0000);
    assert_eq!(dtb.size_bytes.get(), 0x2000);
    let arena = KmmioArena {
        base: PageAlignedVirtualAddress::from_usize(0xffff_0000_0000).unwrap(),
        size: NonZeroUsize::new(0x10_0000).unwrap(),
    };
    assert_eq!(arena.size.get(), 0x10_0000);
}

struct SpyMapper {
    maps: Mutex<Vec<(usize, usize, usize, MemFlags)>>,
    unmaps: Mutex<Vec<(usize, usize)>>,
    fail: bool,
}

impl SpyMapper {
    fn new(fail: bool) -> Self {
        SpyMapper { maps: Mutex::new(Vec::new()), unmaps: Mutex::new(Vec::new()), fail }
    }
}

impl MemoryMapper for SpyMapper {
    fn map(&self, _: PageAlignedVirtualAddress, _: usize, _: &[u8], _: MemFlags) -> Result<(), MemoryMappingError> {
        unreachable!("device windows are mapped onto their physical range")
    }

    fn map_exact(
        &self,
        source_address: PageAlignedVirtualAddress,
        target_address: PageAlignedAddress,
        size: usize,
        flags: MemFlags,
    ) -> Result<(), MemoryMappingError> {
        if self.fail {
            return Err(MemoryMappingError::VirtualMappingError);
        }
        self.maps.lock().unwrap().push((source_address.as_usize(), target_address.as_usize(), size, flags));
        Ok(())
    }

    fn unmap(&self, address: PageAlignedVirtualAddress, size: usize) -> Result<(), MemoryUnmappingError> {
        self.unmaps.lock().unwrap().push((address.as_usize(), size));
        Ok(())
    }

    fn zero_owned_frame(&self, _pa: PageAlignedAddress) {}
}

const ARENA_BASE: usize = 0xffff_fffc_0000_0000;

#[test]
fn device_window_maps_sub_page_request_as_one_writable_page() {
    let mapper = SpyMapper::new(false);
    let (pa, size) = mmio_window(0x0c16_f000, 0x200).unwrap();
    let va = PageAlignedVirtualAddress::from_usize(ARENA_BASE).unwrap();
    let perms = Owners::<DeviceMemoryPermission>::kernel(DeviceMemoryPermission::writable());
    let region = install_device_window(&mapper, pa, size, va, perms).expect("mapping succeeds");
    assert_eq!(region.size_bytes(), 0x1000);
    assert_eq!(region.access_mask(), AccessMask::RW());
    assert_eq!(region.physical_base(), PageAlignedAddress::from_usize(0x0c16_f000));
    let maps = mapper.maps.lock().unwrap().clone();
    assert_eq!(maps.len(), 1);
    assert_eq!((maps[0].0, maps[0].1, maps[0].2), (ARENA_BASE, 0x0c16_f000, 0x1000));
    match maps[0].3 {
        MemFlags::Device(owners) => assert_eq!(owners.kernel.access, AccessMode::Writable),
        MemFlags::Private(_) => panic!("mmio mapping must use device flags"),
    }
    region.uninstall(&mapper, va).expect("unmap");
    assert_eq!(*mapper.unmaps.lock().unwrap(), vec![(ARENA_BASE, 0x1000)]);
}

#[test]
fn device_window_reports_mapping_failure() {
    let mapper = SpyMapper::new(true);
    let (pa, size) = mmio_window(0x0c17_0000, 0x1000).unwrap();
    let va = PageAlignedVirtualAddress::from_usize(ARENA_BASE).unwrap();
    let perms = Owners::<DeviceMemoryPermission>::kernel(DeviceMemoryPermission::writable());
    assert_eq!(
        install_device_window(&mapper, pa, size, va, perms).err(),
        Some(MemoryMappingError::VirtualMappingError)
    );
    assert!(mapper.maps.lock().unwrap().is_empty());
}
