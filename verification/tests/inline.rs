use department::base::{ExactSizeStorage, MultiItemStorage, Storage};
use department::boxed::Box;
use department::error::StorageError;
use department::handles::{Metadata, Target};
use department::inline::{MultiInline, SingleInline};
use department::layout::Layout;

#[test]
fn single_test_box() {
    let b = Box::<_, SingleInline<[usize; 4]>>::new([1, 2, 3, 4]);
    let b = b.coerce(Target::Slice(Layout::new(4, 4)));

    assert_eq!(b.get(), [1, 2, 3, 4]);
}

#[test]
fn single_test_size() {
    type Box<T> = department::boxed::Box<T, SingleInline<[u8; 4]>>;

    assert!(Box::<[u8; 4]>::try_new([1, 2, 3, 4]).is_ok());
    assert!(Box::<[u8; 8]>::try_new([1, 2, 3, 4, 5, 6, 7, 8]).is_err());
}

fn aligned(align: usize) -> Target {
    Target::Sized(Layout::new(0, align))
}

#[test]
fn single_test_align() {
    let mut bytes = SingleInline::<[u8; 4]>::new();
    assert!(bytes.allocate_single(aligned(1), Metadata::Unit).is_ok());
    assert!(bytes.allocate_single(aligned(2), Metadata::Unit).is_err());
    assert!(bytes.allocate_single(aligned(4), Metadata::Unit).is_err());
    assert!(bytes.allocate_single(aligned(8), Metadata::Unit).is_err());

    let mut halves = SingleInline::<[u16; 4]>::new();
    assert!(halves.allocate_single(aligned(1), Metadata::Unit).is_ok());
    assert!(halves.allocate_single(aligned(2), Metadata::Unit).is_ok());
    assert!(halves.allocate_single(aligned(4), Metadata::Unit).is_err());
    assert!(halves.allocate_single(aligned(8), Metadata::Unit).is_err());

    let mut words = SingleInline::<[u32; 4]>::new();
    assert!(words.allocate_single(aligned(1), Metadata::Unit).is_ok());
    assert!(words.allocate_single(aligned(2), Metadata::Unit).is_ok());
    assert!(words.allocate_single(aligned(4), Metadata::Unit).is_ok());
    assert!(words.allocate_single(aligned(8), Metadata::Unit).is_err());

    let mut longs = SingleInline::<[u64; 4]>::new();
    assert!(longs.allocate_single(aligned(1), Metadata::Unit).is_ok());
    assert!(longs.allocate_single(aligned(2), Metadata::Unit).is_ok());
    assert!(longs.allocate_single(aligned(4), Metadata::Unit).is_ok());
    assert!(longs.allocate_single(aligned(8), Metadata::Unit).is_ok());
}

#[test]
fn single_test_zst() {
    let b = Box::<(), SingleInline<[usize; 0]>>::new(());

    assert_eq!(b.get(), ());
}

#[test]
fn single_errors_name_what_was_asked_and_had() {
    let mut s = SingleInline::<[u16; 4]>::new();
    assert_eq!(
        s.allocate_single(Target::Sized(Layout::new(9, 1)), Metadata::Unit),
        Err(StorageError::InsufficientSpace { expected: 9, available: Some(8) })
    );
    assert_eq!(
        s.allocate_single(Target::Sized(Layout::new(8, 4)), Metadata::Unit),
        Err(StorageError::InvalidAlign { expected: 4, available: 2 })
    );
    assert_eq!(
        s.allocate_single(Target::Slice(Layout::new(2, 2)), Metadata::Len(usize::MAX)),
        Err(StorageError::exceeds_max())
    );
    assert_eq!(
        s.allocate_single(Target::Slice(Layout::new(2, 2)), Metadata::Unit),
        Err(StorageError::exceeds_max())
    );
}

#[test]
fn single_grows_and_shrinks_within_its_slot() {
    let mut s = SingleInline::<[u16; 4]>::new();
    let run = Target::Slice(Layout::new(2, 2));
    let h = s.allocate_single(run, Metadata::Len(2)).unwrap();
    s.set(h, 0, &[1, 2, 3, 4]);
    let h = s.try_grow(h, 4).unwrap();
    assert_eq!(h.metadata(), Metadata::Len(4));
    assert_eq!(&s.get(h)[..4], &[1, 2, 3, 4]);
    assert_eq!(
        s.try_grow(h, 5),
        Err(StorageError::InsufficientSpace { expected: 10, available: Some(4) })
    );
    assert_eq!(s.try_grow(h, usize::MAX), Err(StorageError::exceeds_max()));
    let h = s.try_shrink(h, 1).unwrap();
    assert_eq!(s.get(h), vec![1, 2]);
    assert!(s.will_fit(run, Metadata::Len(4)));
    assert!(!s.will_fit(run, Metadata::Len(5)));
    assert_eq!(s.max_range(Layout::new(2, 2)), 4);
    assert_eq!(s.max_range(Layout::new(3, 1)), 2);
    s.deallocate_single(h);
}

#[test]
fn multi_takes_the_first_free_slot() {
    let mut s = MultiInline::<u32, 3>::new();
    let word = Target::Sized(Layout::new(4, 4));
    let a = s.allocate(word, Metadata::Unit).unwrap();
    let b = s.allocate(word, Metadata::Unit).unwrap();
    let c = s.allocate(word, Metadata::Unit).unwrap();
    assert_eq!((a.offset(), b.offset(), c.offset()), (0, 1, 2));
    assert_eq!(s.allocate(word, Metadata::Unit), Err(StorageError::NoSlots));
    s.set(a, 0, &[1, 1, 1, 1]);
    s.set(b, 0, &[2, 2, 2, 2]);
    s.set(c, 0, &[3, 3, 3, 3]);
    s.deallocate(b);
    let d = s.allocate_single(word, Metadata::Unit).unwrap();
    assert_eq!(d.offset(), 1);
    assert_eq!(s.get(a), vec![1, 1, 1, 1]);
    assert_eq!(s.get(c), vec![3, 3, 3, 3]);
    assert_eq!(
        s.allocate(Target::Sized(Layout::new(8, 4)), Metadata::Unit),
        Err(StorageError::InsufficientSpace { expected: 8, available: Some(4) })
    );
    assert_eq!(
        s.allocate(Target::Sized(Layout::new(4, 8)), Metadata::Unit),
        Err(StorageError::InvalidAlign { expected: 8, available: 4 })
    );
}

#[test]
fn multi_grows_within_a_slot_only() {
    let mut s = MultiInline::<[u8; 8], 2>::new();
    let run = Target::Slice(Layout::new(1, 1));
    let first = s.allocate(run, Metadata::Len(3)).unwrap();
    let h = s.allocate(run, Metadata::Len(3)).unwrap();
    s.set(h, 0, &[7, 8, 9]);
    let h = s.try_grow(h, 8).unwrap();
    assert_eq!(h.offset(), 1);
    assert_eq!(&s.get(h)[..3], &[7, 8, 9]);
    assert_eq!(
        s.try_grow(h, 9),
        Err(StorageError::InsufficientSpace { expected: 9, available: Some(8) })
    );
    let h = s.try_shrink(h, 2).unwrap();
    assert_eq!(h.offset(), 1);
    assert_eq!(s.get(h), vec![7, 8]);
    assert!(s.will_fit(run, Metadata::Len(8)));
    assert!(!s.will_fit(run, Metadata::Len(9)));
    assert_eq!(s.max_range(Layout::new(2, 2)), 4);
    s.deallocate_single(h);
    s.deallocate_single(first);
    assert_eq!(s.find_free(), Some(0));
}
