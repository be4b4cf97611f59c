use department::error::StorageError;
use department::handles::{Metadata, OffsetMetaHandle, Target};
use department::heap::VirtHeap;
use department::layout::Layout;
use department::shared::SharedHeap;

#[test]
fn shared_heap_serves_several_owners() {
    let heap: SharedHeap<u32, 8> = SharedHeap::new(VirtHeap::new());
    let one = &heap;
    let two = &heap;
    let a = one.allocate(Target::bytes(), Metadata::Len(6)).unwrap();
    let b = two.allocate(Target::bytes(), Metadata::Len(4)).unwrap();
    assert_eq!((a.offset(), b.offset()), (0, 2));
    assert_eq!(heap.used_units(), 3);
    assert!(one.set(a, 0, &[1, 2, 3, 4, 5, 6]));
    assert!(two.set(b, 2, &[9, 9]));
    assert_eq!(two.get(a), Some(vec![1, 2, 3, 4, 5, 6]));
    assert_eq!(one.get(b).map(|bytes| bytes[2..].to_vec()), Some(vec![9, 9]));
    assert!(two.deallocate(a));
    assert!(one.deallocate(b));
    assert_eq!(heap.used_units(), 0);
}

#[test]
fn shared_heap_is_safe_for_every_handle() {
    let heap: SharedHeap<u8, 4> = SharedHeap::new(VirtHeap::new());
    let a = heap.allocate(Target::bytes(), Metadata::Len(2)).unwrap();
    assert!(heap.deallocate(a));
    // the handle is stale now
    assert!(!heap.deallocate(a));
    assert_eq!(heap.get(a), None);
    assert!(!heap.set(a, 0, &[1]));
    assert_eq!(heap.try_grow(a, 3), Err(StorageError::Unimplemented));
    assert_eq!(heap.try_shrink(a, 1), Err(StorageError::Unimplemented));
    let far = OffsetMetaHandle::from_offset_meta(9, Target::bytes(), Metadata::Len(1));
    assert!(!heap.deallocate(far));
    assert_eq!(heap.get(far), None);
    let b = heap.allocate(Target::bytes(), Metadata::Len(2)).unwrap();
    assert!(!heap.set(b, 1, &[1, 2]));
    assert!(!heap.set(b, 3, &[]));
    assert!(heap.set(b, 2, &[]));
    assert_eq!(heap.try_grow(b, 1), Err(StorageError::Unimplemented));
    assert_eq!(heap.try_shrink(b, 3), Err(StorageError::Unimplemented));
    let thin = heap.allocate(Target::Sized(Layout::new(1, 1)), Metadata::Unit).unwrap();
    assert_eq!(heap.try_grow(thin, 1), Err(StorageError::Unimplemented));
    assert_eq!(
        heap.allocate(Target::bytes(), Metadata::Len(5)),
        Err(StorageError::InsufficientSpace { expected: 5, available: Some(4) })
    );
    assert_eq!(heap.allocate(Target::bytes(), Metadata::Unit), Err(StorageError::exceeds_max()));
}

#[test]
fn shared_heap_grows_and_shrinks_as_the_heap_does() {
    let heap: SharedHeap<u16, 4> = SharedHeap::new(VirtHeap::new());
    let run = Target::Slice(Layout::new(2, 2));
    let a = heap.allocate(run, Metadata::Len(1)).unwrap();
    let b = heap.allocate(run, Metadata::Len(1)).unwrap();
    assert!(heap.set(a, 0, &[1, 2]));
    let moved = heap.try_grow(a, 2).unwrap();
    assert_eq!(moved.offset(), 2);
    assert_eq!(heap.get(moved).map(|bytes| bytes[..2].to_vec()), Some(vec![1, 2]));
    assert_eq!(
        heap.try_grow(moved, 4),
        Err(StorageError::InsufficientSpace { expected: 8, available: None })
    );
    let shrunk = heap.try_shrink(moved, 1).unwrap();
    assert_eq!(shrunk.offset(), 2);
    assert_eq!(heap.used_units(), 2);
    assert!(heap.deallocate(b));
    assert!(heap.deallocate(shrunk));
}

#[test]
fn a_heap_as_found_does_what_the_heap_does() {
    let mut heap: VirtHeap<u16, 4> = VirtHeap::new();
    let run = Target::Slice(Layout::new(2, 2));
    assert_eq!(heap.count_as_found(), 0);
    let a = heap.allocate_as_found(run, Metadata::Len(1)).unwrap();
    let b = heap.allocate_as_found(run, Metadata::Len(1)).unwrap();
    assert_eq!((a.offset(), b.offset()), (0, 1));
    assert_eq!(
        heap.allocate_as_found(run, Metadata::Len(3)),
        Err(StorageError::NoSlots)
    );
    assert_eq!(
        heap.allocate_as_found(run, Metadata::Len(5)),
        Err(StorageError::InsufficientSpace { expected: 10, available: Some(8) })
    );
    assert!(heap.write_as_found(a, 0, &[1, 2]));
    assert!(!heap.write_as_found(a, 1, &[1, 2]));
    assert_eq!(heap.read_as_found(a), Some(vec![1, 2]));
    let moved = heap.grow_as_found(a, 2).unwrap();
    assert_eq!(moved.offset(), 2);
    assert_eq!(heap.read_as_found(moved).map(|bytes| bytes[..2].to_vec()), Some(vec![1, 2]));
    // the handle that was superseded denotes nothing now
    assert_eq!(heap.read_as_found(a), None);
    assert!(!heap.write_as_found(a, 0, &[9, 9]));
    assert!(!heap.release_as_found(a));
    assert_eq!(heap.grow_as_found(a, 2), Err(StorageError::Unimplemented));
    assert_eq!(heap.shrink_as_found(a, 0), Err(StorageError::Unimplemented));
    assert_eq!(heap.grow_as_found(moved, 1), Err(StorageError::Unimplemented));
    assert_eq!(heap.shrink_as_found(moved, 3), Err(StorageError::Unimplemented));
    assert_eq!(
        heap.grow_as_found(moved, 4),
        Err(StorageError::InsufficientSpace { expected: 8, available: None })
    );
    assert_eq!(heap.count_as_found(), 3);
    let shrunk = heap.shrink_as_found(moved, 1).unwrap();
    assert_eq!(shrunk.offset(), 2);
    assert_eq!(heap.count_as_found(), 2);
    assert!(heap.release_as_found(b));
    assert!(heap.release_as_found(shrunk));
    assert_eq!(heap.count_as_found(), 0);
    assert_eq!(heap.read_as_found(shrunk), None);
}
