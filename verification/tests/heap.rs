use department::base::{ExactSizeStorage, FromLeakedStorage, MultiItemStorage, Storage};
use department::boxed::Box;
use department::collections::Vec;
use department::error::StorageError;
use department::handles::{Handle, Metadata, OffsetMetaHandle, Target};
use department::heap::{blocks, blocks_for, VirtHeap};
use department::layout::Layout;

#[test]
fn heap_test_box() {
    let heap: VirtHeap<usize, 4> = VirtHeap::new();
    let b = Box::new_in([1, 2], heap);
    let b2 = b.coerce(Target::Slice(Layout::new(4, 4)));

    assert_eq!(b2.get(), [1, 2]);
}

#[test]
fn heap_test_multi_box() {
    let mut heap: VirtHeap<usize, 16> = VirtHeap::new();
    let b1 = department::base::create(&mut heap, [1, 2]).unwrap();
    let b2 = department::base::create(&mut heap, [3, 4]).unwrap();
    let b3 = department::base::create(&mut heap, [5, 6]).unwrap();
    let b4 = department::base::create(&mut heap, [7, 8]).unwrap();

    let read = |h: OffsetMetaHandle| -> [i32; 2] {
        <[i32; 2] as department::value::Value>::from_bytes(&heap.get(h))
    };
    assert_eq!(read(b1), [1, 2]);
    assert_eq!(read(b2), [3, 4]);
    assert_eq!(read(b3), [5, 6]);
    assert_eq!(read(b4), [7, 8]);
}

#[test]
fn heap_test_vec() {
    let heap: VirtHeap<usize, 16> = VirtHeap::new();

    let mut v = Vec::new_in(heap);
    v.push(1).unwrap();
    v.push(2).unwrap();

    assert_eq!(v.as_ref(), vec![1, 2]);
}

#[test]
fn heap_test_multi_vec() {
    // four runs in one heap, each grown as a vector grows: to two items, then
    // by doubling
    let mut heap: VirtHeap<usize, 16> = VirtHeap::new();
    let run = Target::Slice(Layout::new(4, 4));
    let word = core::mem::size_of::<usize>();

    let mut handles = std::vec::Vec::new();
    for first in [1i32, 3, 5, 7] {
        let h = heap.allocate(run, Metadata::Len(0)).unwrap();
        let h = heap.try_grow(h, 2).unwrap();
        let bytes = department::value::encode_run(&[first, first + 1]);
        heap.set(h, 0, &bytes);
        handles.push(h);
    }

    let mut v1 = handles[0];
    let mut len = 2;
    for item in [9i32, 10, 11, 12, 13, 14, 15, 16] {
        let capacity = match v1.metadata() {
            Metadata::Len(n) => n,
            _ => panic!("a run has a length"),
        };
        if len == capacity {
            v1 = heap.try_grow(v1, capacity * 2).unwrap();
        }
        heap.set(v1, len * 4, &department::value::encode_run(&[item]));
        len += 1;
    }
    let _ = word;

    let read = |h: OffsetMetaHandle, len: usize| -> std::vec::Vec<i32> {
        let bytes = heap.get(h)[..len * 4].to_vec();
        department::value::decode_run(&bytes, len)
    };
    assert_eq!(read(v1, 10), vec![1, 2, 9, 10, 11, 12, 13, 14, 15, 16]);
    assert_eq!(read(handles[1], 2), vec![3, 4]);
    assert_eq!(read(handles[2], 2), vec![5, 6]);
    assert_eq!(read(handles[3], 2), vec![7, 8]);
}

#[test]
fn heap_test_size() {
    type Box<T> = department::boxed::Box<T, VirtHeap<u8, 4>>;

    assert!(Box::<[u8; 4]>::try_new_in([1, 2, 3, 4], VirtHeap::new()).is_ok());
    assert!(Box::<[u8; 8]>::try_new_in([1, 2, 3, 4, 5, 6, 7, 8], VirtHeap::new()).is_err());
}

fn aligned(align: usize) -> Target {
    Target::Sized(Layout::new(0, align))
}

#[test]
fn heap_test_align() {
    let mut foo1: VirtHeap<u8, 4> = VirtHeap::new();
    let mut foo2: VirtHeap<u16, 4> = VirtHeap::new();
    let mut foo4: VirtHeap<u32, 4> = VirtHeap::new();
    let mut foo8: VirtHeap<u64, 4> = VirtHeap::new();

    assert!(foo1.allocate(aligned(1), Metadata::Unit).is_ok());
    assert!(foo1.allocate(aligned(2), Metadata::Unit).is_err());
    assert!(foo1.allocate(aligned(4), Metadata::Unit).is_err());
    assert!(foo1.allocate(aligned(8), Metadata::Unit).is_err());

    assert!(foo2.allocate(aligned(1), Metadata::Unit).is_ok());
    assert!(foo2.allocate(aligned(2), Metadata::Unit).is_ok());
    assert!(foo2.allocate(aligned(4), Metadata::Unit).is_err());
    assert!(foo2.allocate(aligned(8), Metadata::Unit).is_err());

    assert!(foo4.allocate(aligned(1), Metadata::Unit).is_ok());
    assert!(foo4.allocate(aligned(2), Metadata::Unit).is_ok());
    assert!(foo4.allocate(aligned(4), Metadata::Unit).is_ok());
    assert!(foo4.allocate(aligned(8), Metadata::Unit).is_err());

    assert!(foo8.allocate(aligned(1), Metadata::Unit).is_ok());
    assert!(foo8.allocate(aligned(2), Metadata::Unit).is_ok());
    assert!(foo8.allocate(aligned(4), Metadata::Unit).is_ok());
    assert!(foo8.allocate(aligned(8), Metadata::Unit).is_ok());
}

#[test]
fn heap_test_leak() {
    let heap: VirtHeap<usize, 16> = VirtHeap::new();

    let v1 = Box::new_in(1, heap);

    // leak the box: what stays is the storage and where the value lies
    let (mut heap, handle) = v1.into_parts();
    let (addr, target, meta) = (handle.addr(), handle.target(), handle.metadata());

    assert_eq!(<i32 as department::value::Value>::from_bytes(&heap.get(handle)), 1);
    heap.set(handle, 0, &department::value::Value::to_bytes(&-1));
    assert_eq!(<i32 as department::value::Value>::from_bytes(&heap.get(handle)), -1);

    let handle = heap.unleak(addr, target, meta);
    let v1 = Box::<i32, _>::from_parts(heap, handle);

    assert_eq!(v1.get(), -1);
}

#[test]
fn test_non_static() {
    let heap: VirtHeap<u32, 4> = VirtHeap::new();
    let _ = Box::new_in(1, heap);
}

#[test]
fn blocks_round_up() {
    assert_eq!(blocks::<u32>(0), 0);
    assert_eq!(blocks::<u32>(1), 1);
    assert_eq!(blocks::<u32>(4), 1);
    assert_eq!(blocks::<u32>(5), 2);
    assert_eq!(blocks::<u64>(usize::MAX), usize::MAX / 8 + 1);
    assert_eq!(blocks_for::<u32>(Layout::new(2, 2), 3), 2);
    assert_eq!(blocks_for::<u32>(Layout::new(3, 1), 4), 3);
    assert_eq!(blocks_for::<u32>(Layout::new(0, 1), 9), 0);
}

#[test]
fn find_open_is_first_fit() {
    let mut heap: VirtHeap<u8, 8> = VirtHeap::new();
    assert_eq!(heap.find_open(0), Ok(0));
    assert_eq!(heap.find_open(8), Ok(0));
    assert_eq!(
        heap.find_open(9),
        Err(StorageError::InsufficientSpace { expected: 9, available: Some(8) })
    );
    // used: . X X . . X . .
    heap.lock_range(1, 2);
    heap.lock_range(5, 1);
    assert_eq!(heap.find_open(1), Ok(0));
    assert_eq!(heap.find_open(2), Ok(3));
    assert_eq!(heap.find_open(3), Err(StorageError::NoSlots));
    assert_eq!(heap.find_open(0), Ok(0));
    heap.unlock_range(5, 1);
    assert_eq!(heap.find_open(5), Ok(3));
    assert_eq!(heap.find_open(6), Err(StorageError::NoSlots));
    assert_eq!(heap.find_lock(4), Ok(3));
    assert_eq!(heap.find_open(2), Err(StorageError::NoSlots));
    assert_eq!(heap.find_lock(1), Ok(0));
    assert_eq!(heap.find_lock(1), Ok(7));
    assert_eq!(heap.find_lock(1), Err(StorageError::NoSlots));
    assert_eq!(heap.find_lock(0), Ok(0));
    assert_eq!(heap.used_units(), 8);
}

#[test]
fn units_in_use_are_those_of_live_handles() {
    let mut heap: VirtHeap<u16, 8> = VirtHeap::new();
    let bytes = Target::bytes();
    assert_eq!(heap.used_units(), 0);

    let a = heap.allocate(bytes, Metadata::Len(3)).unwrap(); // 2 units
    let b = heap.allocate(bytes, Metadata::Len(4)).unwrap(); // 2 units
    let c = heap.allocate(bytes, Metadata::Len(1)).unwrap(); // 1 unit
    let z = heap.allocate(bytes, Metadata::Len(0)).unwrap(); // no unit
    assert_eq!((a.offset(), b.offset(), c.offset(), z.offset()), (0, 2, 4, 0));
    assert_eq!(heap.used_units(), 2 + 2 + 1 + 0);
    assert_eq!(heap.find_open(6), Ok(5));
    assert_eq!(heap.find_open(7), Err(StorageError::NoSlots));

    heap.deallocate(b);
    assert_eq!(heap.used_units(), 2 + 1 + 0);
    assert!(heap.is_used(0) && heap.is_used(1) && !heap.is_used(2) && !heap.is_used(3));
    assert!(heap.is_used(4) && !heap.is_used(5));
    assert_eq!(heap.find_open(4), Ok(2));
    assert_eq!(heap.find_open(6), Ok(5));
    let a = heap.try_grow(a, 4).unwrap();
    let a = heap.try_grow(a, 7).unwrap();
    assert_eq!(a.offset(), 0);
    assert_eq!(heap.used_units(), 4 + 1 + 0);
    let a = heap.try_shrink(a, 1).unwrap();
    assert_eq!(heap.used_units(), 1 + 1 + 0);
    let c = heap.try_grow(c, 5).unwrap();
    assert_eq!(c.offset(), 4);
    assert_eq!(heap.used_units(), 1 + 3 + 0);
    heap.deallocate(a);
    assert_eq!(heap.used_units(), 3 + 0);
    heap.deallocate(c);
    heap.deallocate(z);
    // every handle is released: every unit is free
    assert_eq!(heap.used_units(), 0);
    assert_eq!(heap.find_open(16), Ok(0));
    let all = heap.allocate(bytes, Metadata::Len(16)).unwrap();
    assert_eq!(all.offset(), 0);
}

#[test]
fn live_handles_do_not_overlap() {
    let mut heap: VirtHeap<u32, 16> = VirtHeap::new();
    let bytes = Target::bytes();
    let mut live: std::vec::Vec<(usize, usize)> = std::vec::Vec::new();
    let mut handles = std::vec::Vec::new();
    for size in [4usize, 9, 1, 16, 3, 8] {
        let h = heap.allocate(bytes, Metadata::Len(size)).unwrap();
        live.push((h.offset(), blocks::<u32>(size)));
        handles.push(h);
    }
    heap.deallocate(handles[1]);
    live.remove(1);
    for size in [5usize, 4] {
        let h = heap.allocate(bytes, Metadata::Len(size)).unwrap();
        live.push((h.offset(), blocks::<u32>(size)));
    }
    for (i, a) in live.iter().enumerate() {
        assert!(a.0 + a.1 <= 16);
        for b in live.iter().skip(i + 1) {
            assert!(a.0 + a.1 <= b.0 || b.0 + b.1 <= a.0);
        }
    }
}

#[test]
fn grow_in_place_moves_nothing() {
    let mut heap: VirtHeap<u16, 8> = VirtHeap::new();
    let run = Target::Slice(Layout::new(2, 2));
    let a = heap.allocate(run, Metadata::Len(2)).unwrap();
    heap.set(a, 0, &[1, 2, 3, 4]);
    let b = heap.try_grow(a, 5).unwrap();
    assert_eq!(b.offset(), a.offset());
    assert_eq!(b.metadata(), Metadata::Len(5));
    assert_eq!(b.target(), run);
    assert_eq!(&heap.get(b)[..4], &[1, 2, 3, 4]);
    // units 0..5 are in use
    assert_eq!(heap.find_open(2), Ok(5));
    assert!(heap.grow_in_place(b, Layout::new(10, 2), Layout::new(16, 2)));
    assert!(!heap.grow_in_place(b, Layout::new(16, 2), Layout::new(18, 2)));
    assert_eq!(heap.find_open(1), Err(StorageError::NoSlots));
}

#[test]
fn grow_by_move_keeps_the_bytes() {
    let mut heap: VirtHeap<u16, 8> = VirtHeap::new();
    let run = Target::Slice(Layout::new(2, 2));
    let a = heap.allocate(run, Metadata::Len(2)).unwrap();
    let b = heap.allocate(run, Metadata::Len(1)).unwrap();
    assert_eq!((a.offset(), b.offset()), (0, 2));
    heap.set(a, 0, &[1, 2, 3, 4]);
    heap.set(b, 0, &[9, 9]);
    // the unit behind `a` is taken: the run has to move
    let moved = heap.try_grow(a, 3).unwrap();
    assert_eq!(moved.offset(), 3);
    assert_eq!(moved.metadata(), Metadata::Len(3));
    assert_eq!(&heap.get(moved)[..4], &[1, 2, 3, 4]);
    assert_eq!(heap.get(b), vec![9, 9]);
    // the units that it left are free again
    assert_eq!(heap.find_open(2), Ok(0));
}

#[test]
fn grow_by_move_may_land_on_its_own_units() {
    let mut heap: VirtHeap<u8, 8> = VirtHeap::new();
    let bytes = Target::bytes();
    let gap = heap.allocate(bytes, Metadata::Len(1)).unwrap();
    let a = heap.allocate(bytes, Metadata::Len(3)).unwrap();
    let b = heap.allocate(bytes, Metadata::Len(4)).unwrap();
    assert_eq!((gap.offset(), a.offset(), b.offset()), (0, 1, 4));
    heap.set(a, 0, &[1, 2, 3]);
    heap.deallocate(gap);
    // behind `a` lies `b`; with the units of `a` given up, units 0..4 are free
    let moved = heap.try_grow(a, 4).unwrap();
    assert_eq!(moved.offset(), 0);
    assert_eq!(&heap.get(moved)[..3], &[1, 2, 3]);
}

#[test]
fn grow_that_fails_restores_the_reservation() {
    let mut heap: VirtHeap<u8, 4> = VirtHeap::new();
    let bytes = Target::bytes();
    let a = heap.allocate(bytes, Metadata::Len(2)).unwrap();
    let b = heap.allocate(bytes, Metadata::Len(1)).unwrap();
    heap.set(a, 0, &[7, 8]);
    assert_eq!(
        heap.try_grow(a, 4),
        Err(StorageError::InsufficientSpace { expected: 4, available: None })
    );
    assert_eq!(
        heap.try_grow(a, 5),
        Err(StorageError::InsufficientSpace { expected: 5, available: None })
    );
    assert_eq!(heap.try_grow(a, usize::MAX), Ok(a).and(Err(StorageError::InsufficientSpace {
        expected: usize::MAX,
        available: None
    })));
    let wide = heap.allocate(Target::Slice(Layout::new(2, 1)), Metadata::Len(0)).unwrap();
    assert_eq!(heap.try_grow(wide, usize::MAX), Err(StorageError::exceeds_max()));
    assert_eq!(heap.grow_move(a, Layout::new(4, 1)), None);
    assert_eq!(heap.get(a), vec![7, 8]);
    // units 0..3 are still in use, unit 3 is free
    assert_eq!(heap.find_open(1), Ok(3));
    assert_eq!(heap.find_open(2), Err(StorageError::NoSlots));
    heap.deallocate(b);
    assert_eq!(heap.grow_move(a, Layout::new(4, 1)), Some(0));
}

#[test]
fn shrink_never_moves() {
    let mut heap: VirtHeap<u32, 8> = VirtHeap::new();
    let run = Target::Slice(Layout::new(2, 2));
    let first = heap.allocate(run, Metadata::Len(2)).unwrap();
    let a = heap.allocate(run, Metadata::Len(10)).unwrap();
    assert_eq!(a.offset(), 1);
    heap.set(a, 0, &[1, 2, 3, 4, 5, 6]);
    let b = heap.try_shrink(a, 3).unwrap();
    assert_eq!(b.offset(), 1);
    assert_eq!(b.metadata(), Metadata::Len(3));
    assert_eq!(heap.get(b), vec![1, 2, 3, 4, 5, 6]);
    // 10 items took 5 units, 3 items take 2: units 3..6 are free again
    assert_eq!(heap.find_open(5), Ok(3));
    let c = heap.try_shrink(b, 0).unwrap();
    assert_eq!(c.offset(), 1);
    assert_eq!(heap.find_open(7), Ok(1));
    heap.deallocate(first);
}

#[test]
fn capacity_boundary() {
    let mut heap: VirtHeap<u32, 4> = VirtHeap::new();
    let bytes = Target::bytes();
    assert_eq!(
        heap.allocate(bytes, Metadata::Len(17)),
        Err(StorageError::InsufficientSpace { expected: 17, available: Some(16) })
    );
    let one = heap.allocate(bytes, Metadata::Len(1)).unwrap();
    assert_eq!(
        heap.allocate(bytes, Metadata::Len(17)),
        Err(StorageError::InsufficientSpace { expected: 17, available: Some(16) })
    );
    assert_eq!(heap.allocate(bytes, Metadata::Len(13)), Err(StorageError::NoSlots));
    assert_eq!(heap.allocate_single(bytes, Metadata::Len(16)), Err(StorageError::NoSlots));
    heap.deallocate_single(one);
    let all = heap.allocate(bytes, Metadata::Len(13)).unwrap();
    assert_eq!(all.offset(), 0);
    assert_eq!(heap.allocate(bytes, Metadata::Len(1)), Err(StorageError::NoSlots));
    assert_eq!(
        heap.allocate(Target::Sized(Layout::new(4, 8)), Metadata::Unit),
        Err(StorageError::InvalidAlign { expected: 8, available: 4 })
    );
    assert_eq!(
        heap.allocate(Target::Slice(Layout::new(4, 4)), Metadata::Len(usize::MAX)),
        Err(StorageError::exceeds_max())
    );
}

#[test]
fn heap_knows_its_size() {
    let heap: VirtHeap<u32, 4> = VirtHeap::new();
    assert!(heap.will_fit(Target::bytes(), Metadata::Len(4)));
    assert!(!heap.will_fit(Target::bytes(), Metadata::Len(5)));
    assert!(!heap.will_fit(Target::bytes(), Metadata::Unit));
    assert_eq!(heap.max_range(Layout::new(1, 1)), 16);
    assert_eq!(heap.max_range(Layout::new(3, 1)), 5);
    assert_eq!(heap.max_range(Layout::new(32, 1)), 0);
}
