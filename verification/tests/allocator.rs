use department::allocator::{max_size, Alloc, GlobalAlloc};
use department::base::{FromLeakedStorage, MultiItemStorage, Storage};
use department::boxed::Box;
use department::collections::Vec;
use department::error::StorageError;
use department::handles::{Handle, Metadata, Target};
use department::layout::Layout;

#[test]
fn alloc_test_box() {
    let b = Box::<_, Alloc>::new_in([1, 2, 3, 4], Alloc::global());
    let b = b.coerce(Target::Slice(Layout::new(4, 4)));

    assert_eq!(b.get(), [1, 2, 3, 4]);
}

#[test]
fn alloc_test_vec() {
    let mut v = Vec::<_, Alloc>::new_in(Alloc::new());
    v.push(1).unwrap();
    v.push(2).unwrap();
    v.push(3).unwrap();
    v.push(4).unwrap();

    assert_eq!(v.as_ref(), vec![1, 2, 3, 4]);
}

#[test]
fn alloc_gives_numbers_out_again() {
    let mut s: GlobalAlloc = Alloc::new();
    let bytes = Target::bytes();
    assert_eq!(s.find_slot(), 0);
    let a = s.allocate(bytes, Metadata::Len(2)).unwrap();
    let b = s.allocate(bytes, Metadata::Len(3)).unwrap();
    let c = s.allocate_single(bytes, Metadata::Len(0)).unwrap();
    assert_eq!((a.offset(), b.offset(), c.offset()), (0, 1, 2));
    assert_eq!(s.get(b), vec![0, 0, 0]);
    s.set(a, 0, &[1, 2]);
    s.set(b, 1, &[8, 9]);
    s.deallocate(a);
    assert_eq!(s.find_slot(), 0);
    let d = s.allocate(bytes, Metadata::Len(1)).unwrap();
    assert_eq!(d.offset(), 0);
    assert_eq!(s.get(d), vec![0]);
    assert_eq!(s.get(b), vec![0, 8, 9]);
    assert_eq!(s.find_slot(), 3);
    s.deallocate_single(c);
    assert_eq!(s.find_slot(), 2);
}

#[test]
fn alloc_moves_nothing_that_can_be_seen() {
    let mut s = Alloc::new();
    let run = Target::Slice(Layout::new(2, 2));
    let h = s.allocate(run, Metadata::Len(2)).unwrap();
    s.set(h, 0, &[1, 2, 3, 4]);
    let h = s.try_grow(h, 4).unwrap();
    assert_eq!(h.offset(), 0);
    assert_eq!(h.metadata(), Metadata::Len(4));
    assert_eq!(s.get(h), vec![1, 2, 3, 4, 0, 0, 0, 0]);
    let h = s.try_shrink(h, 1).unwrap();
    assert_eq!(h.metadata(), Metadata::Len(1));
    assert_eq!(s.get(h), vec![1, 2]);
    let again = s.unleak(h.addr(), h.target(), h.metadata());
    assert_eq!(again, h);
}

#[test]
fn alloc_refuses_what_no_allocation_can_have() {
    let mut s = Alloc::new();
    assert_eq!(max_size(), isize::MAX as usize);
    assert_eq!(
        s.allocate(Target::bytes(), Metadata::Len(max_size() + 1)),
        Err(StorageError::InsufficientSpace { expected: max_size() + 1, available: None })
    );
    assert_eq!(
        s.allocate(Target::Slice(Layout::new(2, 2)), Metadata::Len(usize::MAX)),
        Err(StorageError::exceeds_max())
    );
    let h = s.allocate(Target::Slice(Layout::new(2, 2)), Metadata::Len(1)).unwrap();
    assert_eq!(
        s.try_grow(h, max_size()),
        Err(StorageError::InsufficientSpace { expected: usize::MAX - 1, available: None })
    );
    assert_eq!(s.try_grow(h, usize::MAX), Err(StorageError::exceeds_max()));
    assert_eq!(s.get(h), vec![0, 0]);
}
