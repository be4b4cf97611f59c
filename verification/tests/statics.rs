use department::base::{ExactSizeStorage, MultiItemStorage, Storage};
use department::boxed::Box;
use department::error::StorageError;
use department::handles::{Metadata, Target};
use department::layout::Layout;
use department::statics::{MultiStatic, SingleStatic, StorageCell};

#[test]
fn static_single_test_box() {
    let mut foo: StorageCell<[usize; 4]> = StorageCell::new();

    let b = Box::<_, SingleStatic<[usize; 4]>>::new_in([1, 2], foo.claim());
    let b = b.coerce(Target::Slice(Layout::new(4, 4)));

    assert_eq!(b.get(), [1, 2]);
}

#[test]
fn static_single_test_size() {
    let mut foo: StorageCell<[u8; 4]> = StorageCell::new();

    type Box<T> = department::boxed::Box<T, SingleStatic<[u8; 4]>>;

    assert!(Box::<[u8; 4]>::try_new_in([1, 2, 3, 4], foo.claim()).is_ok());
    foo.release();
    assert!(Box::<[u8; 8]>::try_new_in([1, 2, 3, 4, 5, 6, 7, 8], foo.claim()).is_err());
}

#[test]
fn static_single_test_zst() {
    let mut foo: StorageCell<[usize; 0]> = StorageCell::new();

    let b = Box::<(), SingleStatic<[usize; 0]>>::new_in((), foo.claim());

    assert_eq!(b.get(), ());
}

#[test]
fn static_single_test_align() {
    let mut foo: StorageCell<[u16; 4]> = StorageCell::default();
    let mut s: SingleStatic<[u16; 4]> = foo.claim();
    let aligned = |align| Target::Sized(Layout::new(0, align));
    assert!(s.allocate_single(aligned(1), Metadata::Unit).is_ok());
    assert!(s.allocate_single(aligned(2), Metadata::Unit).is_ok());
    assert_eq!(
        s.allocate_single(aligned(4), Metadata::Unit),
        Err(StorageError::InvalidAlign { expected: 4, available: 2 })
    );
    assert!(s.allocate_single(aligned(8), Metadata::Unit).is_err());
}

#[test]
fn a_cell_is_claimed_by_one_storage_at_a_time() {
    let mut cell: StorageCell<[u8; 4]> = StorageCell::new();
    assert!(!cell.claimed());
    let first = cell.try_claim::<SingleStatic<[u8; 4]>>();
    assert!(first.is_some());
    assert!(cell.claimed());
    assert!(cell.try_claim::<SingleStatic<[u8; 4]>>().is_none());
    assert!(cell.claimed());
    assert!(!cell.inner_try_claim());
    cell.release();
    assert!(!cell.claimed());
    assert!(!cell.inner_try_release());
    assert!(cell.inner_try_claim());
    assert!(cell.inner_try_release());
    assert!(cell.try_claim::<SingleStatic<[u8; 4]>>().is_some());
}

#[test]
fn static_single_grows_within_its_slot() {
    let mut cell: StorageCell<[u32; 2]> = StorageCell::new();
    let mut s: SingleStatic<[u32; 2]> = cell.claim();
    let run = Target::Slice(Layout::new(4, 4));
    let h = s.allocate_single(run, Metadata::Len(1)).unwrap();
    s.set(h, 0, &[1, 2, 3, 4]);
    let h = s.try_grow(h, 2).unwrap();
    assert_eq!(&s.get(h)[..4], &[1, 2, 3, 4]);
    assert_eq!(
        s.try_grow(h, 3),
        Err(StorageError::InsufficientSpace { expected: 12, available: Some(2) })
    );
    let h = s.try_shrink(h, 0).unwrap();
    assert_eq!(s.get(h), Vec::<u8>::new());
    assert!(s.will_fit(run, Metadata::Len(2)));
    assert!(!s.will_fit(run, Metadata::Len(3)));
    assert_eq!(s.max_range(Layout::new(4, 4)), 2);
    s.deallocate_single(h);
}

#[test]
fn static_multi_takes_the_first_free_slot() {
    let mut cell: StorageCell<[[u8; 2]; 2]> = StorageCell::new();
    let mut s: MultiStatic<[u8; 2], 2> = cell.claim();
    let run = Target::Slice(Layout::new(1, 1));
    let a = s.allocate(run, Metadata::Len(1)).unwrap();
    let b = s.allocate(run, Metadata::Len(2)).unwrap();
    assert_eq!((a.offset(), b.offset()), (0, 1));
    assert_eq!(s.allocate(run, Metadata::Len(1)), Err(StorageError::NoSlots));
    s.set(a, 0, &[5]);
    s.set(b, 0, &[6, 7]);
    let a = s.try_grow(a, 2).unwrap();
    assert_eq!(a.offset(), 0);
    assert_eq!(s.get(a)[0], 5);
    assert_eq!(s.get(b), vec![6, 7]);
    assert_eq!(
        s.try_grow(a, 3),
        Err(StorageError::InsufficientSpace { expected: 3, available: Some(2) })
    );
    let b = s.try_shrink(b, 1).unwrap();
    assert_eq!(s.get(b), vec![6]);
    s.deallocate(a);
    assert_eq!(s.find_free(), Some(0));
    assert_eq!(s.allocate_single(run, Metadata::Len(2)).unwrap().offset(), 0);
    s.deallocate_single(b);
    assert!(s.will_fit(run, Metadata::Len(2)));
    assert_eq!(s.max_range(Layout::new(1, 1)), 2);
}
