use department::base::Storage;
use department::collections::Vec as StorageVec;
use department::error::StorageError;
use department::inline::SingleInline;

type Vec<T> = StorageVec<T, SingleInline<[usize; 16]>>;

#[test]
fn vec_new() {
    let v = Vec::<u32>::new();
    assert_eq!(v.len(), 0);
    assert_eq!(v.as_ref(), vec![]);
}

#[test]
fn vec_push() {
    let mut v = Vec::<u32>::new();
    v.push(1).unwrap();
    v.push(2).unwrap();

    assert_eq!(v.len(), 2);
    assert_eq!(v.as_ref(), vec![1, 2]);
}

#[test]
fn vec_pop() {
    let mut v = Vec::<u32>::new();
    v.push(1).unwrap();
    v.push(2).unwrap();

    assert_eq!(v.pop(), 2);
    assert_eq!(v.pop(), 1);
    assert_eq!(v.len(), 0);
}

#[test]
fn vec_clone() {
    let mut v = Vec::<u32>::new();
    v.push(1).unwrap();
    v.push(2).unwrap();

    let v2 = v.clone();

    assert_eq!(v2.as_ref(), vec![1, 2]);
}

#[test]
fn vec_grows_to_two_and_then_doubles() {
    let mut v = Vec::<u16>::new();
    assert!(v.is_empty());
    assert_eq!(v.capacity(), 0);
    v.push(1).unwrap();
    assert_eq!(v.capacity(), 2);
    v.push(2).unwrap();
    assert_eq!(v.capacity(), 2);
    v.push(3).unwrap();
    assert_eq!(v.capacity(), 4);
    v.push(4).unwrap();
    v.push(5).unwrap();
    assert_eq!(v.capacity(), 8);
    assert_eq!(v.iter(), vec![1, 2, 3, 4, 5]);
    assert!(!v.is_empty());
}

#[test]
fn vec_push_fails_where_the_storage_cannot_grow() {
    let mut v = StorageVec::<u32, SingleInline<[u32; 4]>>::new();
    for i in 0..4 {
        v.push(i).unwrap();
    }
    assert_eq!(
        v.push(4),
        Err(StorageError::InsufficientSpace { expected: 32, available: Some(4) })
    );
    assert_eq!(v.len(), 4);
    assert_eq!(v.capacity(), 4);
    assert_eq!(v.as_ref(), vec![0, 1, 2, 3]);
}

#[test]
fn vec_extend_says_how_far_it_came() {
    let mut v = StorageVec::<u8, SingleInline<[u8; 4]>>::with_capacity(1);
    assert_eq!(v.capacity(), 1);
    assert_eq!(v.extend(&[1, 2, 3]), Ok(()));
    match v.extend(&[4, 5, 6]) {
        Ok(()) => panic!("four bytes hold no six"),
        Err((done, e)) => {
            assert_eq!(done, 1);
            assert_eq!(e, StorageError::InsufficientSpace { expected: 8, available: Some(4) });
        }
    }
    assert_eq!(v.as_ref(), vec![1, 2, 3, 4]);
}

#[test]
fn vec_index_reads_and_writes_in_place() {
    let mut v = Vec::<u64>::with_capacity_in(3, SingleInline::new());
    v.extend(&[10, 20, 30]).unwrap();
    assert_eq!(v.index(1), 20);
    v.index_mut(1, 21);
    v.index_mut(0, u64::MAX);
    assert_eq!(v.as_ref(), vec![u64::MAX, 21, 30]);
    assert_eq!(v.capacity(), 3);
}

#[test]
fn vec_of_arrays_keeps_each_item_whole() {
    let mut v = Vec::<[u16; 3]>::new_in(SingleInline::new());
    v.push([1, 2, 3]).unwrap();
    v.push([4, 5, 6]).unwrap();
    v.push([7, 8, 9]).unwrap();
    assert_eq!(v.pop(), [7, 8, 9]);
    assert_eq!(v.as_ref(), vec![[1, 2, 3], [4, 5, 6]]);
}

#[test]
fn vec_try_new_reports_the_storage() {
    assert!(Vec::<u32>::try_new().is_ok());
    assert!(Vec::<u32>::try_new_in(SingleInline::new()).is_ok());
    let r = StorageVec::<u64, SingleInline<[u8; 4]>>::try_new();
    assert_eq!(r.err(), Some(StorageError::InvalidAlign { expected: 8, available: 1 }));
}

#[test]
fn vec_free_gives_the_storage_back() {
    let mut v = Vec::<u8>::new();
    v.push(9).unwrap();
    let mut storage = v.free();
    assert!(storage
        .allocate_single(department::handles::Target::bytes(), department::handles::Metadata::Len(128))
        .is_ok());
}
