use std::sync::Mutex;

use kernel::memory::address::{PageAlignedAddress, PageAlignedVirtualAddress};
use kernel::memory::mem_flags::MemFlags;
use kernel::memory::memory_mapper::{MemoryMapper, MemoryMappingError, MemoryUnmappingError};
use kernel::memory::user_vm::{range_released, range_request, unmap_range};
use kernel::num::NonZeroUsize;

/// Mapper that remembers what is mapped and unmaps each range once.
struct OnceMapper {
    mapped: Mutex<Vec<(usize, usize)>>,
}

impl MemoryMapper for OnceMapper {
    fn map(&self, _: PageAlignedVirtualAddress, _: usize, _: &[u8], _: MemFlags) -> Result<(), MemoryMappingError> {
        unreachable!()
    }

    fn map_exact(
        &self,
        _: PageAlignedVirtualAddress,
        _: PageAlignedAddress,
        _: usize,
        _: MemFlags,
    ) -> Result<(), MemoryMappingError> {
        unreachable!()
    }

    fn unmap(&self, address: PageAlignedVirtualAddress, size: usize) -> Result<(), MemoryUnmappingError> {
        let mut mapped = self.mapped.lock().unwrap();
        match mapped.iter().position(|&m| m == (address.as_usize(), size)) {
            Some(i) => {
                mapped.remove(i);
                Ok(())
            }
            None => Err(MemoryUnmappingError::NotMapped),
        }
    }

    fn zero_owned_frame(&self, _pa: PageAlignedAddress) {}
}

struct BrokenMapper;

impl MemoryMapper for BrokenMapper {
    fn map(&self, _: PageAlignedVirtualAddress, _: usize, _: &[u8], _: MemFlags) -> Result<(), MemoryMappingError> {
        unreachable!()
    }

    fn map_exact(
        &self,
        _: PageAlignedVirtualAddress,
        _: PageAlignedAddress,
        _: usize,
        _: MemFlags,
    ) -> Result<(), MemoryMappingError> {
        unreachable!()
    }

    fn unmap(&self, _: PageAlignedVirtualAddress, _: usize) -> Result<(), MemoryUnmappingError> {
        Err(MemoryUnmappingError::InvalidRange)
    }

    fn zero_owned_frame(&self, _pa: PageAlignedAddress) {}
}

#[test]
fn unmap_range_releases_and_is_idempotent() {
    let base = PageAlignedVirtualAddress::from_usize(0x4000_0000).unwrap();
    let size = NonZeroUsize::new(0x2000).unwrap();
    let mapper = OnceMapper { mapped: Mutex::new(vec![(0x4000_0000, 0x2000)]) };
    assert!(unmap_range(&mapper, base, size));
    assert!(mapper.mapped.lock().unwrap().is_empty());
    // A second teardown finds nothing mapped and still releases the range.
    assert!(unmap_range(&mapper, base, size));
}

#[test]
fn unmap_range_keeps_range_on_unexpected_error() {
    let base = PageAlignedVirtualAddress::from_usize(0x4000_0000).unwrap();
    let size = NonZeroUsize::new(0x1000).unwrap();
    assert!(!unmap_range(&BrokenMapper, base, size));
    assert!(range_released(Ok(())));
    assert!(range_released(Err(MemoryUnmappingError::NotMapped)));
    assert!(!range_released(Err(MemoryUnmappingError::InvalidRange)));
}

#[test]
fn range_request_names_the_whole_range() {
    let base = PageAlignedVirtualAddress::from_usize(0x4000_0000).unwrap();
    let q = range_request(base, NonZeroUsize::new(0x3000).unwrap());
    assert_eq!((q.va.as_usize(), q.size), (0x4000_0000, 0x3000));
}
