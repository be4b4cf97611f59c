use department::base::{create, drop_single, Storage};
use department::error::StorageError;
use department::handles::{Handle, Metadata, Target};
use department::heap::VirtHeap;
use department::inline::SingleInline;
use department::layout::Layout;

type Store = SingleInline<[usize; 4]>;

#[test]
fn create_single_puts_the_value_there() {
    let mut storage = Store::default();

    let handle = match department::base::create_single(&mut storage, 0x0403_0201u32) {
        Ok(handle) => handle,
        Err(_) => panic!("four bytes fit four words"),
    };
    assert_eq!(handle.target(), Target::Sized(Layout::new(4, 4)));
    assert_eq!(handle.metadata(), Metadata::Unit);
    assert_eq!(storage.get(handle), vec![1, 2, 3, 4]);
    storage.deallocate_single(handle);
}

#[test]
fn create_gives_the_value_back_with_the_error() {
    let mut storage = SingleInline::<[u8; 2]>::new();
    assert_eq!(
        department::base::create_single(&mut storage, [1u8, 2, 3]),
        Err((StorageError::InsufficientSpace { expected: 3, available: Some(2) }, [1, 2, 3]))
    );
    let mut heap = VirtHeap::<u8, 2>::new();
    assert!(create(&mut heap, [1u8, 2]).is_ok());
    assert_eq!(create(&mut heap, [3u8]), Err((StorageError::NoSlots, [3])));
    assert_eq!(
        create(&mut heap, 7u16),
        Err((StorageError::InvalidAlign { expected: 2, available: 1 }, 7))
    );
}

#[test]
fn create_single() {
    let mut storage = Store::default();

    let handle = match department::base::create_single(&mut storage, 1u32) {
        Ok(handle) => handle,
        Err(_) => panic!("four bytes fit four words"),
    };
    drop_single(&mut storage, handle);
}

#[test]
fn create_single_range() {
    let mut storage = Store::default();

    let handle = department::base::create_single_range::<_, u8>(&mut storage, &[1, 2, 3, 4]).unwrap();
    assert_eq!(handle.target(), Target::bytes());
    assert_eq!(handle.metadata(), Metadata::Len(4));
    assert_eq!(storage.get(handle), vec![1, 2, 3, 4]);
    drop_single(&mut storage, handle);
    assert_eq!(
        department::base::create_single_range::<_, u64>(&mut storage, &[1, 2, 3, 4, 5]),
        Err(StorageError::InsufficientSpace {
            expected: 40,
            available: Some(4 * core::mem::size_of::<usize>())
        })
    );
}

#[test]
fn create_single_dyn() {
    let mut storage = Store::default();

    let handle = department::base::create_single_dyn(&mut storage, *b"Hello!").unwrap();
    assert_eq!(handle.target(), Target::Dyn);
    assert_eq!(handle.metadata(), Metadata::Table(Layout::new(6, 1)));
    assert_eq!(storage.get(handle), b"Hello!".to_vec());
    drop_single(&mut storage, handle);
}
