use department::base::{create, FromLeakedStorage, MultiItemStorage, Storage};
use department::boxed::Box;
use department::collections::Vec;
use department::handles::{Handle, Metadata, Target};
use department::layout::Layout;
use department::statics::{HeapHandle, StaticHeap, StorageCell};
use department::value::{decode_run, encode_run, Value};

#[test]
fn static_heap_test_box() {
    let mut cell: StorageCell<[usize; 4]> = StorageCell::new();
    let heap: StaticHeap<usize, 4> = cell.claim();
    let b = Box::new_in([1, 2], heap);
    let b2 = b.coerce(Target::Slice(Layout::new(4, 4)));

    assert_eq!(b2.get(), [1, 2]);
}

#[test]
fn static_heap_test_multi_box() {
    let mut cell: StorageCell<[usize; 16]> = StorageCell::new();
    let mut heap: StaticHeap<usize, 16> = cell.claim();
    let b1 = create(&mut heap, [1, 2]).unwrap();
    let b2 = create(&mut heap, [3, 4]).unwrap();
    let b3 = create(&mut heap, [5, 6]).unwrap();
    let b4 = create(&mut heap, [7, 8]).unwrap();

    let read = |h: HeapHandle| -> [i32; 2] { <[i32; 2]>::from_bytes(&heap.get(h)) };
    assert_eq!(read(b1), [1, 2]);
    assert_eq!(read(b2), [3, 4]);
    assert_eq!(read(b3), [5, 6]);
    assert_eq!(read(b4), [7, 8]);
}

#[test]
fn static_heap_test_vec() {
    let mut cell: StorageCell<[usize; 16]> = StorageCell::new();
    let heap: StaticHeap<usize, 16> = cell.claim();

    let mut v = Vec::new_in(heap);
    v.push(1).unwrap();
    v.push(2).unwrap();

    assert_eq!(v.as_ref(), vec![1, 2]);
}

#[test]
fn static_heap_test_multi_vec() {
    let mut cell: StorageCell<[usize; 16]> = StorageCell::new();
    let mut heap: StaticHeap<usize, 16> = cell.claim();
    let run = Target::Slice(Layout::new(4, 4));

    let mut runs = std::vec::Vec::new();
    for first in [1i32, 3, 5, 7] {
        let h = heap.allocate(run, Metadata::Len(0)).unwrap();
        let h = heap.try_grow(h, 2).unwrap();
        heap.set(h, 0, &encode_run(&[first, first + 1]));
        runs.push(h);
    }

    let mut v1 = runs[0];
    let mut len = 2;
    for item in [9i32, 10, 11, 12, 13, 14, 15, 16] {
        let capacity = match v1.metadata() {
            Metadata::Len(n) => n,
            _ => panic!("a run has a length"),
        };
        if len == capacity {
            v1 = heap.try_grow(v1, capacity * 2).unwrap();
        }
        heap.set(v1, len * 4, &encode_run(&[item]));
        len += 1;
    }

    let read = |h: HeapHandle, len: usize| -> std::vec::Vec<i32> {
        decode_run(&heap.get(h)[..len * 4].to_vec(), len)
    };
    assert_eq!(read(v1, 10), vec![1, 2, 9, 10, 11, 12, 13, 14, 15, 16]);
    assert_eq!(read(runs[1], 2), vec![3, 4]);
    assert_eq!(read(runs[2], 2), vec![5, 6]);
    assert_eq!(read(runs[3], 2), vec![7, 8]);
}

#[test]
fn static_heap_test_leak() {
    let mut cell: StorageCell<[usize; 16]> = StorageCell::new();
    let heap: StaticHeap<usize, 16> = cell.claim();

    let v1 = Box::new_in(1, heap);

    let (addr, target, meta, mut heap) = v1.into_raw();
    let handle = heap.unleak(addr, target, meta);

    assert_eq!(i32::from_bytes(&heap.get(handle)), 1);
    heap.set(handle, 0, &(-1i32).to_bytes());
    assert_eq!(i32::from_bytes(&heap.get(handle)), -1);

    let v1 = Box::<i32, _>::from_raw_in(addr, target, meta, heap);

    assert_eq!(v1.get(), -1);
    cell.release();
    assert!(!cell.claimed());
}
