use std::sync::Mutex;

use kernel::memory::address::{PageAlignedAddress, PageAlignedVirtualAddress, VirtualAddress};
use kernel::memory::mem_flags::{AccessMode, Executable, MemFlags};
use kernel::memory::memory_mapper::{MemoryMapper, MemoryMappingError, MemoryUnmappingError};
use kernel::process::from_image::{
    round_up_to_frame, user_image_parts_from_entry, SegmentPermissions, SegmentSource, UserImageFromModelError,
    UserImageParts,
};
use kernel::process::image::{UserImage, UserImageError, UserSegment, PAGE};
use kernel::process::loader::{load_user_image, map_plan};

fn aligned(addr: usize) -> PageAlignedVirtualAddress {
    PageAlignedVirtualAddress::from_usize(addr).expect("aligned addr in test")
}

fn rx_segment(va: usize, size: usize, init: &[u8]) -> UserSegment<'_> {
    UserSegment { va_base: aligned(va), mapped_size: size, init_bytes: init, perms: MemFlags::user_rx() }
}

fn rw_segment(va: usize, size: usize, init: &[u8]) -> UserSegment<'_> {
    UserSegment { va_base: aligned(va), mapped_size: size, init_bytes: init, perms: MemFlags::user_rw() }
}

fn make_image<'a>(segs: &'a [UserSegment<'a>], entry: usize) -> UserImage<'a> {
    UserImage {
        segments: segs,
        entry: VirtualAddress::new(entry),
        user_stack_top: VirtualAddress::new(0x1_0000_0000),
        user_stack_size: 4 * PAGE,
    }
}

#[test]
fn validate_accepts_minimal_image() {
    let init = [0xAAu8; 8];
    let segs = [rx_segment(0x4000_0000, PAGE, &init)];
    let image = make_image(&segs, 0x4000_0000);
    assert_eq!(image.validate(), Ok(()));
}

#[test]
fn validate_rejects_misaligned_segment() {
    let init = [0u8; 10];
    let segs = [UserSegment {
        va_base: aligned(0x4000_0000),
        mapped_size: PAGE + 1,
        init_bytes: &init,
        perms: MemFlags::user_rx(),
    }];
    let image = make_image(&segs, 0x4000_0000);
    assert_eq!(image.validate(), Err(UserImageError::MisalignedSegment));
}

#[test]
fn validate_rejects_misaligned_stack() {
    let segs = [rx_segment(0x4000_0000, PAGE, &[])];
    let image = UserImage {
        segments: &segs,
        entry: VirtualAddress::new(0x4000_0000),
        user_stack_top: VirtualAddress::new(0x1_0000_0001),
        user_stack_size: 4 * PAGE,
    };
    assert_eq!(image.validate(), Err(UserImageError::MisalignedStack));
}

#[test]
fn validate_rejects_init_bytes_exceed_mapped() {
    let big = [0u8; PAGE + 10];
    let segs = [rx_segment(0x4000_0000, PAGE, &big)];
    let image = make_image(&segs, 0x4000_0000);
    assert_eq!(image.validate(), Err(UserImageError::InitBytesExceedMapped));
}

#[test]
fn validate_rejects_overlapping_segments() {
    let segs = [rx_segment(0x4000_0000, 2 * PAGE, &[]), rw_segment(0x4000_0000 + PAGE, PAGE, &[])];
    let image = make_image(&segs, 0x4000_0000);
    assert_eq!(image.validate(), Err(UserImageError::OverlappingSegments));
}

#[test]
fn validate_rejects_stack_overlapping_segment() {
    let segs = [rx_segment(0x1_0000_0000 - 2 * PAGE, 2 * PAGE, &[])];
    let image = UserImage {
        segments: &segs,
        entry: VirtualAddress::new(0x1_0000_0000 - 2 * PAGE),
        user_stack_top: VirtualAddress::new(0x1_0000_0000),
        user_stack_size: 4 * PAGE,
    };
    assert_eq!(image.validate(), Err(UserImageError::StackOverlapsSegment));
}

#[test]
fn validate_rejects_entry_in_non_exec_segment() {
    let segs = [rw_segment(0x4000_0000, PAGE, &[])];
    let image = make_image(&segs, 0x4000_0000);
    assert_eq!(image.validate(), Err(UserImageError::EntryNotInExecSegment));
}

#[test]
fn validate_rejects_entry_outside_segments() {
    let segs = [rx_segment(0x4000_0000, PAGE, &[])];
    let image = make_image(&segs, 0x5000_0000);
    assert_eq!(image.validate(), Err(UserImageError::EntryNotInExecSegment));
}

#[test]
fn validate_rejects_zero_stack_size() {
    let segs = [rx_segment(0x4000_0000, PAGE, &[])];
    let image = UserImage {
        segments: &segs,
        entry: VirtualAddress::new(0x4000_0000),
        user_stack_top: VirtualAddress::new(0x1_0000_0000),
        user_stack_size: 0,
    };
    assert_eq!(image.validate(), Err(UserImageError::MisalignedStack));
}

#[test]
fn validate_rejects_zero_mapped_size() {
    let segs = [UserSegment {
        va_base: aligned(0x4000_0000),
        mapped_size: 0,
        init_bytes: &[],
        perms: MemFlags::user_rx(),
    }];
    let image = make_image(&segs, 0x4000_0000);
    assert_eq!(image.validate(), Err(UserImageError::MisalignedSegment));
}

#[test]
fn validate_rejects_entry_on_exclusive_segment_end() {
    let segs = [rx_segment(0x4000_0000, PAGE, &[])];
    let image = make_image(&segs, 0x4000_0000 + PAGE);
    assert_eq!(image.validate(), Err(UserImageError::EntryNotInExecSegment));
}

#[test]
fn validate_rejects_segment_address_overflow() {
    let huge = usize::MAX - PAGE + 1;
    let segs = [rx_segment(huge, PAGE, &[])];
    let image = make_image(&segs, huge);
    assert_eq!(image.validate(), Err(UserImageError::SegmentAddressOverflow));
}

#[test]
fn validate_accepts_two_non_overlapping_segments() {
    let segs = [rx_segment(0x4000_0000, PAGE, &[]), rw_segment(0x4000_0000 + PAGE, PAGE, &[])];
    let image = make_image(&segs, 0x4000_0000);
    assert_eq!(image.validate(), Ok(()));
}

#[test]
fn validate_reports_the_first_failing_check() {
    let segs = [rw_segment(0x4000_0000, PAGE + 1, &[])];
    let image = UserImage {
        segments: &segs,
        entry: VirtualAddress::new(0),
        user_stack_top: VirtualAddress::new(0x1_0000_0000),
        user_stack_size: PAGE + 1,
    };
    assert_eq!(image.validate(), Err(UserImageError::MisalignedStack));
}

#[test]
fn user_stack_base_is_top_minus_size() {
    let segs = [rx_segment(0x4000_0000, PAGE, &[])];
    let image = make_image(&segs, 0x4000_0000);
    assert_eq!(image.user_stack_base().unwrap().as_usize(), 0x1_0000_0000 - 4 * PAGE);
    let low = UserImage {
        segments: &segs,
        entry: VirtualAddress::new(0x4000_0000),
        user_stack_top: VirtualAddress::new(PAGE),
        user_stack_size: 2 * PAGE,
    };
    assert_eq!(low.user_stack_base(), Err(UserImageError::MisalignedStack));
}

#[derive(Debug, PartialEq, Eq, Clone)]
struct MapCall {
    va: usize,
    page_count: usize,
    init: Vec<u8>,
}

struct MockMapper {
    calls: Mutex<Vec<MapCall>>,
    fail_on_call: Option<usize>,
}

impl MockMapper {
    fn new() -> Self {
        Self { calls: Mutex::new(Vec::new()), fail_on_call: None }
    }

    fn failing_on(call_index: usize) -> Self {
        Self { calls: Mutex::new(Vec::new()), fail_on_call: Some(call_index) }
    }

    fn calls(&self) -> Vec<MapCall> {
        self.calls.lock().unwrap().clone()
    }
}

impl MemoryMapper for MockMapper {
    fn map(
        &self,
        va: PageAlignedVirtualAddress,
        page_count: usize,
        init: &[u8],
        _: MemFlags,
    ) -> Result<(), MemoryMappingError> {
        let mut calls = self.calls.lock().unwrap();
        if self.fail_on_call == Some(calls.len()) {
            return Err(MemoryMappingError::OutOfMemory);
        }
        calls.push(MapCall { va: va.as_usize(), page_count, init: init.to_vec() });
        Ok(())
    }

    fn map_exact(
        &self,
        _: PageAlignedVirtualAddress,
        _: PageAlignedAddress,
        _: usize,
        _: MemFlags,
    ) -> Result<(), MemoryMappingError> {
        unreachable!()
    }

    fn unmap(&self, _: PageAlignedVirtualAddress, _: usize) -> Result<(), MemoryUnmappingError> {
        unreachable!()
    }

    fn zero_owned_frame(&self, _pa: PageAlignedAddress) {}
}

#[test]
fn load_user_image_maps_segments_and_stack_in_order() {
    let init = vec![0xCDu8; 100];
    let segs = [rx_segment(0x4000_0000, PAGE, &init)];
    let image = make_image(&segs, 0x4000_0000);
    let mapper = MockMapper::new();
    load_user_image(&mapper, &image).expect("load ok");
    let calls = mapper.calls();
    assert_eq!(calls.len(), 2);
    assert_eq!(calls[0].va, 0x4000_0000);
    assert_eq!(calls[0].page_count, 1);
    assert_eq!(calls[0].init.len(), 100);
    let stack_base = 0x1_0000_0000 - 4 * PAGE;
    assert_eq!(calls[1].va, stack_base);
    assert_eq!(calls[1].page_count, 4);
    assert_eq!(calls[1].init.len(), 0);
}

#[test]
fn load_user_image_passes_init_bytes_to_mapper() {
    let init = vec![0xABu8; 8];
    let segs = [rx_segment(0x4000_0000, PAGE, &init)];
    let image = make_image(&segs, 0x4000_0000);
    let mapper = MockMapper::new();
    load_user_image(&mapper, &image).unwrap();
    let calls = mapper.calls();
    assert_eq!(calls[0].init, init);
}

#[test]
fn load_user_image_propagates_mapper_error_on_partial_map() {
    let segs = [rx_segment(0x4000_0000, PAGE, &[]), rw_segment(0x4000_0000 + PAGE, PAGE, &[])];
    let image = make_image(&segs, 0x4000_0000);
    let mapper = MockMapper::failing_on(1);
    assert_eq!(
        load_user_image(&mapper, &image),
        Err(UserImageError::Mapping(MemoryMappingError::OutOfMemory))
    );
    let calls = mapper.calls();
    assert_eq!(calls.len(), 1);
    assert_eq!(calls[0].va, 0x4000_0000);
}

#[test]
fn load_user_image_rejects_invalid_image() {
    let segs = [rw_segment(0x4000_0000, PAGE, &[])];
    let image = make_image(&segs, 0x4000_0000);
    let mapper = MockMapper::new();
    assert_eq!(load_user_image(&mapper, &image), Err(UserImageError::EntryNotInExecSegment));
    assert!(mapper.calls().is_empty());
}

#[test]
fn map_plan_lists_segments_then_read_write_stack() {
    let init = [1u8, 2, 3];
    let segs = [rx_segment(0x4000_0000, 2 * PAGE, &init), rw_segment(0x4000_0000 + 2 * PAGE, PAGE, &[])];
    let image = make_image(&segs, 0x4000_0000);
    let plan = map_plan(&image).unwrap();
    assert_eq!(plan.len(), 3);
    assert_eq!(plan[0].page_count, 2);
    assert_eq!(plan[0].init_bytes, &init[..]);
    assert_eq!(plan[1].va.as_usize(), 0x4000_0000 + 2 * PAGE);
    assert_eq!(plan[2].va.as_usize(), 0x1_0000_0000 - 4 * PAGE);
    assert_eq!(plan[2].flags, MemFlags::user_rw());
}

#[test]
fn round_up_to_frame_detects_overflow() {
    assert_eq!(round_up_to_frame(usize::MAX), None);
    assert_eq!(round_up_to_frame(0), Some(0));
    assert_eq!(round_up_to_frame(1), Some(PAGE));
    assert_eq!(round_up_to_frame(PAGE), Some(PAGE));
    assert_eq!(round_up_to_frame(PAGE + 1), Some(2 * PAGE));
}

#[test]
fn image_parts_rebuild_the_image() {
    let segs = vec![rx_segment(0x4000_0000, PAGE, &[])];
    let parts = UserImageParts::new(segs, VirtualAddress::new(0x4000_0000), VirtualAddress::new(0x1_0000_0000), 4 * PAGE);
    let image = parts.image();
    assert_eq!(image.segments.len(), 1);
    assert_eq!(image.validate(), Ok(()));
}

fn user_perms(flags: MemFlags) -> (bool, bool, bool) {
    match flags {
        MemFlags::Private(owners) => (
            matches!(owners.user.access, AccessMode::Readonly | AccessMode::Writable),
            matches!(owners.user.access, AccessMode::Writable),
            matches!(owners.user.executable, Executable::Allowed),
        ),
        MemFlags::Device(_) => (false, false, false),
    }
}

const TEST_USER_VA_END: usize = 0x1_0000_0000;

/// What validating the description reports in these tests.
#[derive(Debug, Clone, Copy, PartialEq, Eq)]
enum EntryCheck {
    MisalignedSegment,
}

#[test]
fn converts_semantic_entry_without_wire_format() {
    let segments = [
        SegmentSource {
            va_base: 0x40_0000,
            mem_size: PAGE as u64,
            permissions: SegmentPermissions::ReadExecute,
            bytes: b"CODE",
        },
        SegmentSource {
            va_base: 0x40_1000,
            mem_size: 0x500,
            permissions: SegmentPermissions::ReadWrite,
            bytes: b"DATA",
        },
    ];
    let parts = user_image_parts_from_entry::<EntryCheck>(Ok(()), &segments, 0x40_0000, 0x8000, TEST_USER_VA_END)
        .expect("convert semantic entry");
    let image = parts.image();

    assert_eq!(image.segments[0].init_bytes, b"CODE");
    assert_eq!(image.segments[1].init_bytes, b"DATA");
    assert_eq!(image.segments[1].mapped_size, PAGE);
    assert_eq!(user_perms(image.segments[0].perms), (true, false, true));
    assert_eq!(user_perms(image.segments[1].perms), (true, true, false));
    assert_eq!(image.user_stack_top, VirtualAddress::new(TEST_USER_VA_END));
    assert_eq!(image.user_stack_size, 0x8000);
    assert_eq!(image.validate(), Ok(()));
}

#[test]
fn reports_semantic_validation_errors() {
    let segments = [SegmentSource {
        va_base: 0x40_0001,
        mem_size: PAGE as u64,
        permissions: SegmentPermissions::ReadExecute,
        bytes: b"CODE",
    }];
    // The description's validation rejects the misaligned segment.
    let verdict = Err(EntryCheck::MisalignedSegment);
    assert_eq!(
        user_image_parts_from_entry(verdict, &segments, 0x40_0001, 0x4000, TEST_USER_VA_END).map(|_| ()),
        Err(UserImageFromModelError::Semantic(EntryCheck::MisalignedSegment))
    );
}

#[test]
fn misaligned_segment_is_rejected_by_conversion_too() {
    let segments = [SegmentSource {
        va_base: 0x40_0001,
        mem_size: PAGE as u64,
        permissions: SegmentPermissions::ReadExecute,
        bytes: b"CODE",
    }];
    assert_eq!(
        user_image_parts_from_entry::<EntryCheck>(Ok(()), &segments, 0x40_0000, 0x4000, TEST_USER_VA_END)
            .map(|_| ()),
        Err(UserImageFromModelError::MisalignedSegment)
    );
}

#[test]
fn reports_segment_size_overflow() {
    let segments = [SegmentSource {
        va_base: 0,
        mem_size: u64::MAX,
        permissions: SegmentPermissions::ReadExecute,
        bytes: b"CODE",
    }];
    assert_eq!(
        user_image_parts_from_entry::<EntryCheck>(Ok(()), &segments, 0, 0x4000, TEST_USER_VA_END).map(|_| ()),
        Err(UserImageFromModelError::SegmentSizeOverflow)
    );
}

#[test]
fn first_failing_segment_decides_the_error() {
    let segments = [
        SegmentSource { va_base: 0x40_0000, mem_size: PAGE as u64, permissions: SegmentPermissions::ReadOnly, bytes: b"" },
        SegmentSource { va_base: 0x40_1000, mem_size: u64::MAX, permissions: SegmentPermissions::ReadOnly, bytes: b"" },
        SegmentSource { va_base: 0x40_2001, mem_size: PAGE as u64, permissions: SegmentPermissions::ReadOnly, bytes: b"" },
    ];
    assert_eq!(
        user_image_parts_from_entry::<EntryCheck>(Ok(()), &segments, 0x40_0000, 0x4000, TEST_USER_VA_END).map(|_| ()),
        Err(UserImageFromModelError::SegmentSizeOverflow)
    );
    let ro = user_image_parts_from_entry::<EntryCheck>(Ok(()), &segments[..1], 0x40_0000, 0x4000, TEST_USER_VA_END)
        .expect("one read-only segment");
    assert_eq!(user_perms(ro.image().segments[0].perms), (true, false, false));
}
