use department::base::{MultiItemStorage, Storage};
use department::debug::{contains, position, DebugState, Misuse};
use department::error::StorageError;
use department::handles::{Handle, Metadata, Target};
use department::heap::VirtHeap;
use department::inline::SingleInline;
use department::layout::Layout;

fn storage() -> department::debug::Debug<SingleInline<[usize; 16]>> {
    department::debug::Debug::new(SingleInline::<[usize; 16]>::default())
}

#[test]
fn test_correct() {
    let mut s = storage();

    let h1 = s.allocate_single(Target::unit(), Metadata::Unit).unwrap();
    assert_eq!(s.validate_get(h1), Ok(()));
    s.get(h1);
    assert_eq!(s.validate_dealloc(true, h1), Ok(()));
    s.deallocate_single(h1);

    assert_eq!(s.validate_alloc(true), Ok(()));
    let h2 = s.allocate_single(Target::unit(), Metadata::Unit).unwrap();

    assert_eq!(s.validate_get(h2), Ok(()));
    s.get(h2);
    assert_eq!(s.validate_dealloc(true, h2), Ok(()));
    s.deallocate_single(h2);
}

#[test]
fn double_alloc_is_told_before_the_storage_is_asked() {
    let mut s = storage();

    assert_eq!(s.validate_alloc(true), Ok(()));
    s.allocate_single(Target::unit(), Metadata::Unit).unwrap();
    assert_eq!(s.validate_alloc(true), Err(Misuse::DoubleAllocate));
    assert_eq!(s.validate_alloc(false), Ok(()));
}

#[test]
fn dealloc_never_allocated_is_told() {
    let mut s1 = storage();
    let s2 = storage();

    let h1 = s1.allocate_single(Target::unit(), Metadata::Unit).unwrap();

    assert_eq!(s2.validate_dealloc(true, h1), Err(Misuse::ReleaseUnallocated));
    assert_eq!(s2.validate_dealloc(false, h1), Err(Misuse::ReleaseUnallocated));
    assert_eq!(s1.validate_dealloc(true, h1), Ok(()));
}

#[test]
fn double_free_is_told_on_the_second_release_only() {
    let mut s = storage();

    let h1 = s.allocate_single(Target::unit(), Metadata::Unit).unwrap();

    assert_eq!(s.validate_dealloc(true, h1), Ok(()));
    s.deallocate_single(h1);
    assert_eq!(s.validate_dealloc(true, h1), Err(Misuse::DoubleFree));
    assert_eq!(s.validate_dealloc(false, h1), Err(Misuse::DoubleFree));
}

#[test]
fn get_deallocated_is_told() {
    let mut s = storage();

    let h1 = s.allocate_single(Target::unit(), Metadata::Unit).unwrap();

    s.deallocate_single(h1);

    assert_eq!(s.validate_get(h1), Err(Misuse::AccessReleased));
}

#[test]
fn get_never_allocated_is_told() {
    let mut s1 = storage();
    let s2 = storage();

    let h1 = s1.allocate_single(Target::unit(), Metadata::Unit).unwrap();

    assert_eq!(s2.validate_get(h1), Err(Misuse::AccessUnknown));
}

#[test]
fn get_invalid_is_told() {
    let mut s = storage();

    let h1 = s.allocate_single(Target::unit(), Metadata::Unit).unwrap();

    s.deallocate_single(h1);

    s.allocate_single(Target::unit(), Metadata::Unit).unwrap();

    assert_eq!(s.validate_get(h1), Err(Misuse::WrongSingleHandle));
}

#[test]
fn ids_count_up_and_are_what_handles_compare_by() {
    let mut s = department::debug::Debug::new(VirtHeap::<u8, 4>::new());
    let a = s.allocate(Target::bytes(), Metadata::Len(1)).unwrap();
    s.deallocate(a);
    // the heap gives the same unit out again, the ledger a new number
    let b = s.allocate(Target::bytes(), Metadata::Len(1)).unwrap();
    assert_eq!((a.id(), b.id()), (0, 1));
    assert_eq!(a.handle().offset(), b.handle().offset());
    assert!(a != b);
    assert!(a == a.cast(Layout::unit()));
    assert_eq!(s.validate_get(a), Err(Misuse::AccessReleased));
    assert_eq!(s.validate_get(b), Ok(()));
    assert_eq!(s.validate_dealloc(false, a), Err(Misuse::DoubleFree));
    assert_eq!(s.validate_dealloc(false, b), Ok(()));
    assert_eq!(s.validate_dealloc(true, b), Err(Misuse::ReleaseUnallocated));
}

#[test]
fn debug_delegates_to_the_storage_inside() {
    let mut s = department::debug::Debug::new(VirtHeap::<u16, 4>::new());
    let run = Target::Slice(Layout::new(2, 2));
    let a = s.allocate(run, Metadata::Len(1)).unwrap();
    let b = s.allocate(run, Metadata::Len(1)).unwrap();
    s.set(a, 0, &[1, 2]);
    assert_eq!(s.get(a), vec![1, 2]);
    let grown = s.try_grow(a, 2).unwrap();
    assert_eq!(grown.id(), a.id());
    assert_eq!(grown.handle().offset(), 2);
    assert_eq!(grown.metadata(), Metadata::Len(2));
    assert_eq!(&s.get(grown)[..2], &[1, 2]);
    assert_eq!(
        s.try_grow(grown, 4).err(),
        Some(StorageError::InsufficientSpace { expected: 8, available: None })
    );
    let shrunk = s.try_shrink(grown, 1).unwrap();
    assert_eq!(shrunk.id(), a.id());
    assert_eq!(shrunk.target(), run);
    assert_eq!(s.allocate(run, Metadata::Len(3)).err(), Some(StorageError::NoSlots));
    assert!(s.will_fit(Target::bytes(), Metadata::Len(2)));
    assert!(!s.will_fit(Target::bytes(), Metadata::Len(3)));
    assert_eq!(s.max_range(Layout::new(2, 2)), 4);
    s.deallocate(shrunk);
    s.deallocate(b);
    let mut single = storage();
    assert_eq!(
        single.allocate_single(Target::bytes(), Metadata::Len(1000)).err(),
        Some(StorageError::InsufficientSpace {
            expected: 1000,
            available: Some(16 * core::mem::size_of::<usize>())
        })
    );
    // nothing was entered into the ledger for the request that failed
    assert_eq!(single.validate_alloc(true), Ok(()));
}

#[test]
fn handles_map_under_their_number() {
    let mut s = department::debug::Debug::new(SingleInline::<[u16; 4]>::new());
    let h = s.allocate_single(Target::Array(Layout::new(2, 2), 0), Metadata::Unit).unwrap();
    let mapped = h.map(|inner| inner.metadata());
    assert_eq!(mapped.id(), h.id());
    let ok: Result<_, ()> = h.try_map(|inner| Ok(inner.target()));
    assert_eq!(ok.map(|m| m.id()), Ok(0));
    let err: Result<department::debug::DebugHandle<()>, u8> = h.try_map(|_| Err(7));
    assert_eq!(err.err(), Some(7));
    let run = h.coerce(Target::Slice(Layout::new(2, 2)));
    assert_eq!((run.id(), run.metadata()), (0, Metadata::Len(0)));
    assert_eq!(h.cast_unsized(Target::unit()).id(), 0);
    assert_eq!(h.addr(), ());
    let again = department::debug::DebugHandle::from_raw_parts(h, Target::unit(), Metadata::Unit);
    assert_eq!((again.id(), again.target()), (0, Target::unit()));
    let copy = h.clone();
    assert!(copy == h);
}

#[test]
fn the_ledger_checks_before_it_records() {
    let mut state = DebugState::new();
    assert!(state.ids_left());
    assert_eq!(state.validate_get(0), Err(Misuse::AccessUnknown));
    assert_eq!(state.validate_alloc(true), Ok(0));
    assert_eq!(state.validate_alloc(true), Err(Misuse::DoubleAllocate));
    assert_eq!(state.check_alloc(false), Ok(()));
    assert_eq!(state.validate_alloc(false), Ok(1));
    assert_eq!(state.validate_get(0), Ok(()));
    // a single allocation is held, and this is not its handle
    assert_eq!(state.validate_get(1), Err(Misuse::WrongSingleHandle));
    assert_eq!(state.check_dealloc(false, 1), Ok(()));
    assert_eq!(state.validate_dealloc(false, 1), Ok(()));
    assert_eq!(state.validate_dealloc(false, 1), Err(Misuse::DoubleFree));
    assert_eq!(state.validate_dealloc(true, 0), Ok(()));
    assert_eq!(state.validate_dealloc(true, 0), Err(Misuse::DoubleFree));
    assert_eq!(state.validate_dealloc(true, 5), Err(Misuse::ReleaseUnallocated));
    assert_eq!(state.validate_get(1), Err(Misuse::AccessReleased));
    assert_eq!(state.record_alloc(false), 2);
    assert_eq!(state.check_dealloc(true, 2), Err(Misuse::ReleaseUnallocated));
    state.record_dealloc(false, 2);
    assert_eq!(state.validate_get(2), Err(Misuse::AccessReleased));
    assert!(contains(&vec![3, 1, 2], 1));
    assert!(!contains(&vec![3, 1, 2], 0));
    assert_eq!(position(&vec![3, 1, 2, 1], 1), Some(1));
    assert_eq!(position(&vec![], 1), None);
}
