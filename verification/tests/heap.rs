use std::sync::Mutex;

use kernel::memory::address::{PageAlignedAddress, PageAlignedVirtualAddress};
use kernel::memory::heap::{growth_request, AllocationError, HeapAllocator, HeapArena};
use kernel::memory::layout::Layout;
use kernel::memory::mem_flags::MemFlags;
use kernel::memory::memory_mapper::{MemoryMapper, MemoryMappingError, MemoryUnmappingError};

const BASE: usize = 0xffff_8000_0000_0000;
const PAGE: usize = 4096;

#[derive(Default)]
struct CountingMapper {
    maps: Mutex<Vec<(usize, usize)>>,
    fail: bool,
}

impl MemoryMapper for CountingMapper {
    fn map(&self, va: PageAlignedVirtualAddress, page_count: usize, init: &[u8], flags: MemFlags) -> Result<(), MemoryMappingError> {
        assert!(init.is_empty());
        assert_eq!(flags, MemFlags::kernel_rw());
        if self.fail {
            return Err(MemoryMappingError::OutOfMemory);
        }
        self.maps.lock().unwrap().push((va.as_usize(), page_count));
        Ok(())
    }

    fn map_exact(&self, _: PageAlignedVirtualAddress, _: PageAlignedAddress, _: usize, _: MemFlags) -> Result<(), MemoryMappingError> {
        unreachable!()
    }

    fn unmap(&self, _: PageAlignedVirtualAddress, _: usize) -> Result<(), MemoryUnmappingError> {
        unreachable!()
    }

    fn zero_owned_frame(&self, _: PageAlignedAddress) {}
}

fn arena(pages: usize) -> HeapArena {
    HeapArena::new(PageAlignedVirtualAddress::from_usize(BASE).unwrap(), pages * PAGE)
}

#[test]
fn first_allocation_maps_a_page_and_places_payload_after_header() {
    let mapper = CountingMapper::default();
    let mut heap = HeapAllocator::new(arena(16));
    assert_eq!(heap.current_size(), 0);
    let p = heap.allocate(&mapper, Layout::from_size_align(32, 8).unwrap()).unwrap();
    assert_eq!(*mapper.maps.lock().unwrap(), vec![(BASE, 1)]);
    assert_eq!(heap.current_size(), PAGE);
    assert_eq!(p, BASE + 16 + 8);
}

#[test]
fn allocations_are_aligned_and_do_not_overlap() {
    let mapper = CountingMapper::default();
    let mut heap = HeapAllocator::new(arena(16));
    let mut ranges = Vec::new();
    for (size, align) in [(10, 8), (100, 64), (1, 1), (300, 256), (17, 16)] {
        let p = heap.allocate(&mapper, Layout::from_size_align(size, align).unwrap()).unwrap();
        assert_eq!(p % align.max(8), 0);
        ranges.push((p, p + size.max(16)));
    }
    for (i, a) in ranges.iter().enumerate() {
        for b in ranges.iter().skip(i + 1) {
            assert!(a.1 <= b.0 || b.1 <= a.0, "{a:?} overlaps {b:?}");
        }
    }
}

#[test]
fn freed_block_is_reused_first_fit() {
    let mapper = CountingMapper::default();
    let mut heap = HeapAllocator::new(arena(16));
    let layout = Layout::from_size_align(64, 8).unwrap();
    let a = heap.allocate(&mapper, layout).unwrap();
    let _b = heap.allocate(&mapper, layout).unwrap();
    heap.deallocate(a);
    let c = heap.allocate(&mapper, layout).unwrap();
    assert_eq!(c, a);
    assert_eq!(heap.current_size(), PAGE);
}

#[test]
fn freed_neighbours_merge_back_into_one_block() {
    let mapper = CountingMapper::default();
    let mut heap = HeapAllocator::new(arena(16));
    let layout = Layout::from_size_align(1000, 8).unwrap();
    let a = heap.allocate(&mapper, layout).unwrap();
    let b = heap.allocate(&mapper, layout).unwrap();
    let c = heap.allocate(&mapper, layout).unwrap();
    heap.deallocate(a);
    heap.deallocate(c);
    heap.deallocate(b);
    let big = heap.allocate(&mapper, Layout::from_size_align(PAGE - 64, 8).unwrap()).unwrap();
    assert_eq!(big, a);
    assert_eq!(heap.current_size(), PAGE);
}

#[test]
fn zero_sized_request_is_invalid() {
    let mapper = CountingMapper::default();
    let mut heap = HeapAllocator::new(arena(16));
    assert_eq!(heap.allocate(&mapper, Layout::from_size_align(0, 8).unwrap()), Err(AllocationError::InvalidLayout));
    assert!(mapper.maps.lock().unwrap().is_empty());
}

#[test]
fn exhausted_window_is_out_of_memory() {
    let mapper = CountingMapper::default();
    let mut heap = HeapAllocator::new(arena(1));
    assert_eq!(heap.allocate(&mapper, Layout::from_size_align(2 * PAGE, 8).unwrap()), Err(AllocationError::OutOfMemory));
    assert_eq!(heap.current_size(), 0);
    assert!(heap.allocate(&mapper, Layout::from_size_align(100, 8).unwrap()).is_ok());
}

#[test]
fn mapping_failure_is_out_of_memory_and_changes_nothing() {
    let mapper = CountingMapper { maps: Mutex::new(Vec::new()), fail: true };
    let mut heap = HeapAllocator::new(arena(16));
    assert_eq!(heap.allocate(&mapper, Layout::from_size_align(8, 8).unwrap()), Err(AllocationError::OutOfMemory));
    assert_eq!(heap.current_size(), 0);
}

#[test]
fn large_request_grows_by_whole_pages() {
    let mapper = CountingMapper::default();
    let mut heap = HeapAllocator::new(arena(16));
    heap.allocate(&mapper, Layout::from_size_align(PAGE + 1, 8).unwrap()).unwrap();
    assert_eq!(*mapper.maps.lock().unwrap(), vec![(BASE, 2)]);
    assert_eq!(heap.current_size(), 2 * PAGE);
}

#[test]
fn foreign_and_repeated_frees_are_ignored() {
    let mapper = CountingMapper::default();
    let mut heap = HeapAllocator::new(arena(16));
    let layout = Layout::from_size_align(64, 8).unwrap();
    let a = heap.allocate(&mapper, layout).unwrap();
    heap.deallocate(0x1000);
    heap.deallocate(a);
    heap.deallocate(a);
    heap.deallocate(a + 8);
    let b = heap.allocate(&mapper, layout).unwrap();
    assert_eq!(b, a);
}

#[test]
fn growth_request_maps_whole_pages_at_the_top() {
    let top = PageAlignedVirtualAddress::from_usize(0x8000_3000).unwrap();
    let q = growth_request(top, 0x5000);
    assert_eq!(q.va, top);
    assert_eq!(q.page_count, 5);
    assert_eq!(q.flags, MemFlags::kernel_rw());
}
