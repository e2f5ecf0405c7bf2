use zkvm::memory::gc::GarbageCollector;
use zkvm::memory::page_table::{PageFlags, PageTable};
use zkvm::memory::permissions::{AccessPermissions, Permission};
use zkvm::memory::segment::{MemorySegment, SegmentType};
use zkvm::memory::MemoryError;

#[test]
fn permissions_follow_their_bits() {
    let p = AccessPermissions::new(true, false, true);
    assert_eq!(p.as_bits(), 0b101);
    assert!(p.can_read());
    assert!(!p.can_write());
    assert!(p.can_execute());
    assert!(p.has_permission(Permission::NoAccess));
    assert_eq!(p.to_text(), "r-x");
    assert_eq!(AccessPermissions::default().as_bits(), 0b011);
    assert_eq!(AccessPermissions::default().to_text(), "rw-");
    assert_eq!(AccessPermissions::none().to_text(), "---");
    assert_eq!(AccessPermissions::all().to_text(), "rwx");
    assert_eq!(AccessPermissions::from_bits(0xFE).as_bits(), 0b110);
}

#[test]
fn permissions_are_added_and_removed() {
    let mut p = AccessPermissions::new(false, false, false);
    p.add_permission(Permission::Write);
    assert_eq!(p.as_bits(), 0b010);
    p.add_permission(Permission::Read);
    assert_eq!(p.as_bits(), 0b011);
    p.remove_permission(Permission::Write);
    assert_eq!(p.as_bits(), 0b001);
    p.remove_permission(Permission::NoAccess);
    assert_eq!(p.as_bits(), 0b001);
    let q = AccessPermissions::new(true, true, false);
    assert_eq!(p.intersection(q).as_bits(), 0b001);
    assert_eq!(p.union(q).as_bits(), 0b011);
}

#[test]
fn segments_have_their_limits() {
    assert!(matches!(MemorySegment::new(SegmentType::Heap, 0), Err(MemoryError::OutOfMemory)));
    let code = MemorySegment::new(SegmentType::Code, 100).unwrap();
    assert_eq!(code.max_size(), 100);
    assert!(!code.is_growable());
    let data = MemorySegment::new(SegmentType::Data, 100).unwrap();
    assert_eq!(data.max_size(), 200);
    assert!(data.is_growable());
    let stack = MemorySegment::new(SegmentType::Stack, 100).unwrap();
    assert_eq!(stack.max_size(), 1024 * 1024);
    let heap = MemorySegment::new(SegmentType::Heap, 100).unwrap();
    assert_eq!(heap.max_size(), usize::MAX);
    assert_eq!(heap.segment_type(), SegmentType::Heap);
    assert_eq!(heap.size(), 100);
    assert_eq!(heap.base(), 0);
    assert!(matches!(MemorySegment::new(SegmentType::Data, usize::MAX), Err(MemoryError::OutOfMemory)));
}

#[test]
fn segments_resize_within_their_limits() {
    let mut code = MemorySegment::new(SegmentType::Code, 100).unwrap();
    code.set_base(4096);
    assert_eq!(code.resize(50), Err(MemoryError::SegmentFault(4096)));
    assert_eq!(code.size(), 100);
    let mut data = MemorySegment::new(SegmentType::Data, 100).unwrap();
    assert_eq!(data.resize(200), Ok(()));
    assert_eq!(data.size(), 200);
    assert_eq!(data.resize(201), Err(MemoryError::OutOfMemory));
    assert_eq!(data.size(), 200);
}

#[test]
fn segments_contain_their_addresses() {
    let mut s = MemorySegment::new(SegmentType::Data, 16).unwrap();
    s.set_base(100);
    assert!(!s.contains(99));
    assert!(s.contains(100));
    assert!(s.contains(115));
    assert!(!s.contains(116));
    assert_eq!(s.offset(107), Some(7));
    assert_eq!(s.offset(116), None);
    s.set_base(usize::MAX - 3);
    assert!(s.contains(usize::MAX));
    assert_eq!(s.offset(usize::MAX), Some(3));
}

#[test]
fn segments_count_references_and_owners() {
    let mut s = MemorySegment::new(SegmentType::Heap, 16).unwrap();
    assert_eq!(s.reference_count(), 1);
    s.increment_ref_count();
    assert_eq!(s.reference_count(), 2);
    assert_eq!(s.decrement_ref_count(), 1);
    assert_eq!(s.decrement_ref_count(), 0);
    assert_eq!(s.decrement_ref_count(), 0);
    assert!(!s.is_shared());
    s.set_shared(true);
    assert!(s.is_shared());
    assert_eq!(s.owner_id(), None);
    s.set_owner(7);
    assert_eq!(s.owner_id(), Some(7));
    let created = s.creation_time();
    s.update_access_time();
    assert!(s.last_access_time() >= created);
}

#[test]
fn pages_are_allocated_freed_and_reused() {
    let mut table = PageTable::new(8);
    assert_eq!(table.page_size(), 8);
    assert_eq!(table.allocate_page(), Ok(0));
    assert_eq!(table.allocate_page(), Ok(1));
    assert_eq!(table.allocate_page(), Ok(2));
    table.free_page(1);
    table.free_page(1);
    table.free_page(9);
    assert!(table.get_flags(1).is_err());
    assert_eq!(table.allocate_page(), Ok(1));
    assert_eq!(table.allocate_page(), Ok(3));
    let flags = table.get_flags(1).unwrap();
    assert_eq!(
        flags,
        PageFlags { present: true, writable: true, executable: false, user_accessible: true, dirty: false, accessed: false }
    );
    assert_eq!(flags, PageFlags::default());
}

#[test]
fn pages_are_read_and_written() {
    let mut table = PageTable::new(8);
    let id = table.allocate_page().unwrap();
    assert_eq!(table.read(id, 0, 8), Ok(vec![0; 8]));
    assert_eq!(table.write(id, 2, &[1, 2, 3]), Ok(()));
    assert_eq!(table.read(id, 0, 8), Ok(vec![0, 0, 1, 2, 3, 0, 0, 0]));
    assert_eq!(table.read(id, 3, 2), Ok(vec![2, 3]));
    assert_eq!(table.read(id, 8, 0), Ok(vec![]));
    let flags = table.get_flags(id).unwrap();
    assert!(flags.dirty && flags.accessed);
    assert_eq!(table.read(id, 6, 3), Err(MemoryError::PageFault(0)));
    assert_eq!(table.read(id, usize::MAX, 2), Err(MemoryError::PageFault(0)));
    assert_eq!(table.write(id, 6, &[1, 2, 3]), Err(MemoryError::PageFault(0)));
    assert_eq!(table.read(5, 0, 1), Err(MemoryError::PageFault(5)));
    assert_eq!(table.write(5, 0, &[1]), Err(MemoryError::PageFault(5)));
    assert_eq!(table.read(id, 0, 8), Ok(vec![0, 0, 1, 2, 3, 0, 0, 0]));
}

#[test]
fn page_flags_guard_access() {
    let mut table = PageTable::new(4);
    let id = table.allocate_page().unwrap();
    let mut flags = table.get_flags(id).unwrap();
    flags.writable = false;
    assert_eq!(table.set_flags(id, flags), Ok(()));
    assert_eq!(table.write(id, 0, &[1]), Err(MemoryError::PageFault(0)));
    assert_eq!(table.read(id, 0, 1), Ok(vec![0]));
    flags.present = false;
    assert_eq!(table.set_flags(id, flags), Ok(()));
    assert_eq!(table.read(id, 0, 1), Err(MemoryError::PageFault(0)));
    assert_eq!(table.set_flags(9, flags), Err(MemoryError::PageFault(9)));
    assert_eq!(table.get_flags(9), Err(MemoryError::PageFault(9)));
}

fn segment(size: usize, shared: bool, owner: Option<u32>) -> MemorySegment {
    let mut s = MemorySegment::new(SegmentType::Heap, size).unwrap();
    s.set_shared(shared);
    if let Some(id) = owner {
        s.set_owner(id);
    }
    s
}

#[test]
fn collector_sweeps_by_position() {
    let mut gc = GarbageCollector::new(1024);
    assert_eq!(gc.threshold(), 1024);
    let mut table = PageTable::new(8);
    // roots at positions 1 and 3
    let mut segments = vec![
        segment(10, false, None),
        segment(11, true, None),
        segment(12, false, None),
        segment(13, false, Some(4)),
        segment(14, false, None),
    ];
    gc.collect(&mut segments, &mut table);
    // position 0 carries no mark, so the sweep removes whatever moves up
    // to it, the roots among it.
    assert!(segments.is_empty());
    assert_eq!(gc.stats().collections, 1);
    assert_eq!(gc.stats().freed_segments, 5);
    assert_eq!(gc.stats().freed_pages, 5);
    assert_eq!(gc.stats().total_freed_memory(), 10);

    // roots at positions 0 and 1: the sweep stops removing at position 2
    // only when nothing is left there.
    let mut segments = vec![
        segment(30, true, None),
        segment(31, false, Some(1)),
        segment(32, false, None),
        segment(33, true, None),
    ];
    gc.collect(&mut segments, &mut table);
    let sizes: Vec<usize> = segments.iter().map(|s| s.size()).collect();
    assert_eq!(sizes, vec![30, 31]);
    assert_eq!(gc.stats().freed_segments, 7);

    // a root at position 0 stays
    let mut segments = vec![segment(20, true, None), segment(21, false, None)];
    gc.collect(&mut segments, &mut table);
    let sizes: Vec<usize> = segments.iter().map(|s| s.size()).collect();
    assert_eq!(sizes, vec![20]);
    assert_eq!(gc.stats().collections, 3);
    assert_eq!(gc.stats().freed_segments, 8);
}

#[test]
fn collector_without_roots_frees_everything() {
    let mut gc = GarbageCollector::new(0);
    let mut table = PageTable::new(8);
    let mut segments = vec![segment(1, false, None), segment(2, false, None)];
    gc.collect(&mut segments, &mut table);
    assert!(segments.is_empty());
    assert_eq!(gc.stats().freed_segments, 2);
    let mut none: Vec<MemorySegment> = Vec::new();
    gc.collect(&mut none, &mut table);
    assert_eq!(gc.stats().collections, 2);
    assert_eq!(gc.stats().freed_segments, 2);
}
