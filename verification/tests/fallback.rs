use department::allocator::{Alloc, GlobalAlloc};
use department::base::{create_single, ExactSizeStorage, MultiItemStorage, Storage};
use department::error::StorageError;
use department::fallback::{FallbackAddr, FallbackHandle, FallbackStorage};
use department::handles::{Handle, Metadata, Target};
use department::heap::VirtHeap;
use department::inline::{MultiInline, SingleInline};
use department::layout::Layout;
use department::value::Value;

type Store = FallbackStorage<SingleInline<[u16; 4]>, GlobalAlloc>;

#[test]
fn test_fallback() {
    let mut f = Store::default();

    let h1 = match create_single::<_, [u16; 4]>(&mut f, [1, 2, 3, 4]) {
        Ok(h) => h,
        Err(_) => panic!("eight bytes fit the first storage"),
    };
    assert!(matches!(h1, FallbackHandle::First(_)));
    assert_eq!(<[u16; 4]>::from_bytes(&f.get(h1)), [1, 2, 3, 4]);

    f.deallocate_single(h1);

    let h2 = match create_single::<_, [u32; 4]>(&mut f, [1, 2, 3, 4]) {
        Ok(h) => h,
        Err(_) => panic!("the second storage holds what the first cannot"),
    };
    assert!(matches!(h2, FallbackHandle::Second(_)));
    assert_eq!(<[u32; 4]>::from_bytes(&f.get(h2)), [1, 2, 3, 4]);

    f.deallocate_single(h2);
}

#[test]
fn test_try_grow_fallback() {
    let mut f = Store::default();
    let run = Target::Slice(Layout::new(2, 2));

    let h1 = f.allocate_single(run, Metadata::Len(2)).unwrap();
    assert!(matches!(h1, FallbackHandle::First(_)));
    let h2 = f.try_grow(h1, 4).unwrap();
    assert!(matches!(h2, FallbackHandle::First(_)));
    let h3 = f.try_grow(h2, 8).unwrap();
    assert!(matches!(h3, FallbackHandle::Second(_)));

    f.deallocate_single(h3);
}

#[test]
fn fallback_routes_what_the_first_cannot_hold() {
    // four units of four bytes each in front of the allocator
    let mut f = FallbackStorage::new(MultiInline::<u32, 4>::new(), Alloc::global());
    let eight = Target::Sized(Layout::new(8, 4));
    let h = f.allocate_single(eight, Metadata::Unit).unwrap();
    assert!(h.is_second());
    assert!(!h.is_first());
    let h2 = f.allocate(eight, Metadata::Unit).unwrap();
    assert!(h2.is_second());
    f.set(h, 0, &[1, 2, 3, 4, 5, 6, 7, 8]);
    assert_eq!(f.get(h), vec![1, 2, 3, 4, 5, 6, 7, 8]);
    // the first storage has seen nothing of it: all its slots are free
    let four = Target::Sized(Layout::new(4, 4));
    let small = f.allocate(four, Metadata::Unit).unwrap();
    assert!(small.is_first());
    f.deallocate(h);
    f.deallocate_single(h2);
    let (first, second) = f.decompose();
    // the first storage still holds its one allocation, the second none
    assert_eq!(first.find_free(), Some(1));
    assert_eq!(second.find_slot(), 0);
}

#[test]
fn fallback_grow_moves_to_the_second_with_the_bytes() {
    let mut f = FallbackStorage::new(VirtHeap::<u16, 2>::new(), Alloc::new());
    let run = Target::Slice(Layout::new(2, 2));
    let h = f.allocate_single(run, Metadata::Len(2)).unwrap();
    assert!(h.is_first());
    f.set(h, 0, &[1, 2, 3, 4]);
    let grown = f.try_grow(h, 3).unwrap();
    assert!(grown.is_second());
    assert_eq!(grown.metadata(), Metadata::Len(3));
    assert_eq!(grown.target(), run);
    assert_eq!(f.get(grown), vec![1, 2, 3, 4, 0, 0]);
    let grown = f.try_grow(grown, 4).unwrap();
    assert!(grown.is_second());
    assert_eq!(&f.get(grown)[..4], &[1, 2, 3, 4]);
    let shrunk = f.try_shrink(grown, 1).unwrap();
    assert!(shrunk.is_second());
    assert_eq!(f.get(shrunk), vec![1, 2]);
    let (first, _) = f.decompose();
    // the first storage gave up the units of the run that moved
    assert_eq!(first.used_units(), 0);
}

#[test]
fn fallback_fails_as_the_second_does() {
    let mut f = FallbackStorage::new(SingleInline::<[u8; 4]>::new(), SingleInline::<[u16; 4]>::new());
    assert_eq!(
        f.allocate_single(Target::bytes(), Metadata::Len(9)),
        Err(StorageError::InsufficientSpace { expected: 9, available: Some(8) })
    );
    assert_eq!(
        f.allocate_single(Target::Sized(Layout::new(6, 4)), Metadata::Unit),
        Err(StorageError::InvalidAlign { expected: 4, available: 2 })
    );
    let h = f.allocate_single(Target::bytes(), Metadata::Len(4)).unwrap();
    assert!(h.is_first());
    assert_eq!(
        f.try_grow(h, 9),
        Err(StorageError::InsufficientSpace { expected: 9, available: Some(8) })
    );
    let h = f.try_shrink(h, 2).unwrap();
    assert!(h.is_first());
    assert!(f.will_fit(Target::bytes(), Metadata::Len(8)));
    assert!(!f.will_fit(Target::bytes(), Metadata::Len(9)));
    assert_eq!(f.max_range(Layout::new(2, 1)), 4);
    assert_eq!(f.max_range(Layout::new(8, 1)), 1);
}

#[test]
fn fallback_handles_act_as_the_handle_inside() {
    let mut f = FallbackStorage::new(MultiInline::<u64, 2>::new(), Alloc::new());
    let elem = Layout::new(2, 2);
    let a = f.allocate(Target::Array(elem, 3), Metadata::Unit).unwrap();
    let b = f.allocate(Target::Array(elem, 5), Metadata::Unit).unwrap();
    assert!(a.is_first() && b.is_second());
    assert!(matches!(a.addr(), FallbackAddr::First(0)));
    assert!(matches!(b.addr(), FallbackAddr::Second(0)));
    assert_eq!(a.target(), Target::Array(elem, 3));
    assert_eq!(b.metadata(), Metadata::Unit);
    let run = b.coerce(Target::Slice(elem));
    assert!(run.is_second());
    assert_eq!(run.metadata(), Metadata::Len(5));
    let thin = a.cast(Layout::new(6, 2));
    assert!(thin.is_first());
    assert_eq!(thin.target(), Target::Sized(Layout::new(6, 2)));
    let bytes = run.cast_unsized(Target::bytes());
    assert_eq!(bytes.metadata(), Metadata::Len(5));
    let back = FallbackHandle::from_raw_parts(thin, Target::Array(elem, 3), Metadata::Unit);
    assert!(matches!(back, FallbackHandle::First(h) if h.offset() == 0));
    let copy = run.clone();
    assert!(copy.is_second());
}

#[test]
fn addresses_of_different_storages_have_no_order() {
    let a = FallbackAddr::<usize, usize>::First(1);
    let b = FallbackAddr::<usize, usize>::First(2);
    let c = FallbackAddr::<usize, usize>::Second(1);
    assert!(a < b && b > a && a <= a && a == a.clone());
    assert_eq!(a.partial_cmp(&b), Some(core::cmp::Ordering::Less));
    assert_eq!(c.partial_cmp(&c), Some(core::cmp::Ordering::Equal));
    assert_eq!(a.partial_cmp(&c), None);
    assert!(!(a < c) && !(a > c) && a != c);
}
