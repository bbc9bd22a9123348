use kernel_core::error::OsErrorCode;
use kernel_core::memory_manager::{
    BYTE_PER_FRAME, BitmapMemoryManager, FRAME_COUNT, FrameId, alloc_bytes, dealloc_bytes,
    frames_for_bytes, initialize_from_memory_map,
};
use kernel_core::memory_map::{MemoryDescriptor, MemoryMap, UEFI_PAGE_SIZE};

fn small_window(frames: usize) -> BitmapMemoryManager {
    let mut manager = BitmapMemoryManager::new();
    manager.set_memory_range(FrameId::new(0), FrameId::new(frames));
    manager
}

#[test]
fn frame_id_address() {
    let frame = FrameId::new(3);
    assert_eq!(frame.id(), 3);
    assert_eq!(frame.frame(), 3 * BYTE_PER_FRAME);
}

#[test]
fn first_fit_starts_at_range_begin() {
    let mut manager = BitmapMemoryManager::new();
    let frame = manager.allocate(4).unwrap();
    assert_eq!(frame.id(), 0);
    let frame = manager.allocate(2).unwrap();
    assert_eq!(frame.id(), 4);
}

#[test]
fn scan_resumes_past_allocated_frame() {
    let mut manager = small_window(100);
    manager.mark_allocated(FrameId::new(2), 1);
    let frame = manager.allocate(3).unwrap();
    assert_eq!(frame.id(), 3);
}

#[test]
fn allocations_do_not_overlap() {
    let mut manager = small_window(64);
    manager.mark_allocated(FrameId::new(5), 3);
    let first = manager.allocate(4).unwrap();
    let second = manager.allocate(4).unwrap();
    assert!(first.id() + 4 <= second.id() || second.id() + 4 <= first.id());
    assert!(first.id() + 4 <= 5 || first.id() >= 8);
    assert!(second.id() + 4 <= 5 || second.id() >= 8);
}

#[test]
fn exhausted_window_fails_with_no_enough_memory() {
    let mut manager = small_window(64);
    manager.mark_allocated(FrameId::new(0), 64);
    let err = manager.allocate(1).unwrap_err();
    assert_eq!(err.code, OsErrorCode::NoEnoughMemory);
}

#[test]
fn oversized_request_fails_with_no_enough_memory() {
    let mut manager = small_window(16);
    let err = manager.allocate(17).unwrap_err();
    assert_eq!(err.code, OsErrorCode::NoEnoughMemory);
}

#[test]
fn free_then_reallocate_returns_same_frame() {
    let mut manager = small_window(64);
    manager.mark_allocated(FrameId::new(0), 2);
    let first = manager.allocate(5).unwrap();
    assert_eq!(first.id(), 2);
    assert!(manager.free(first, 5).is_ok());
    let second = manager.allocate(5).unwrap();
    assert_eq!(second.id(), first.id());
}

#[test]
fn whole_bitmap_can_fill_and_fail() {
    let mut manager = BitmapMemoryManager::new();
    manager.mark_allocated(FrameId::new(0), FRAME_COUNT);
    let err = manager.allocate(1).unwrap_err();
    assert_eq!(err.code, OsErrorCode::NoEnoughMemory);
}

#[test]
fn byte_adapter_rounds_up_to_frames() {
    assert_eq!(frames_for_bytes(1), 1);
    assert_eq!(frames_for_bytes(BYTE_PER_FRAME), 1);
    assert_eq!(frames_for_bytes(BYTE_PER_FRAME + 1), 2);
    let mut manager = BitmapMemoryManager::new();
    manager.set_memory_range(FrameId::new(1), FrameId::new(8));
    let addr = alloc_bytes(&mut manager, BYTE_PER_FRAME + 100);
    assert_eq!(addr, BYTE_PER_FRAME);
    assert_eq!(manager.allocate(2).unwrap().id(), 3);
    dealloc_bytes(&mut manager, addr, BYTE_PER_FRAME + 100);
    let again = alloc_bytes(&mut manager, BYTE_PER_FRAME + 100);
    assert_eq!(again, addr);
}

#[test]
fn byte_adapter_reports_exhaustion_as_null() {
    let mut manager = small_window(2);
    manager.mark_allocated(FrameId::new(0), 2);
    let addr = alloc_bytes(&mut manager, 100);
    assert_eq!(addr, 0);
}

fn descriptor(memory_type: u32, physical_start: usize, pages: u64) -> MemoryDescriptor {
    MemoryDescriptor {
        memory_type,
        physical_start,
        virtual_start: 0,
        number_of_pages: pages,
        attribute: 0,
    }
}

#[test]
fn bootstrap_marks_reserved_regions_and_gaps() {
    let mut manager = BitmapMemoryManager::new();
    // Conventional memory (type 7), boot-services data (4), a reserved
    // region (0) and a gap before the final conventional region.
    let map = MemoryMap::new(vec![
        descriptor(7, 0, 16),
        descriptor(0, 16 * UEFI_PAGE_SIZE, 16),
        descriptor(7, 32 * UEFI_PAGE_SIZE, 16),
        descriptor(7, 64 * UEFI_PAGE_SIZE, 16),
    ]);
    initialize_from_memory_map(&mut manager, &map);

    // The window begins at frame 1 and ends at the end of available memory.
    let first = manager.allocate(15).unwrap();
    assert_eq!(first.id(), 1);
    // Frames 16..31 are reserved, 32..47 free, 48..63 are an undocumented
    // gap and stay reserved, 64..79 free.
    let second = manager.allocate(16).unwrap();
    assert_eq!(second.id(), 32);
    let third = manager.allocate(1).unwrap();
    assert_eq!(third.id(), 64);
    // Nothing past the last available region is inside the window.
    let err = manager.allocate(16).unwrap_err();
    assert_eq!(err.code, OsErrorCode::NoEnoughMemory);
}

#[test]
fn bootstrap_window_ends_at_available_memory() {
    let mut manager = BitmapMemoryManager::new();
    let map = MemoryMap::new(vec![descriptor(7, 0, 8), descriptor(0, 8 * UEFI_PAGE_SIZE, 8)]);
    initialize_from_memory_map(&mut manager, &map);
    // Frames 1..7 are the only candidates.
    assert_eq!(manager.allocate(7).unwrap().id(), 1);
    let err = manager.allocate(1).unwrap_err();
    assert_eq!(err.code, OsErrorCode::NoEnoughMemory);
}
