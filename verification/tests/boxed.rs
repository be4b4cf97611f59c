use department::base::Storage;
use department::boxed::Box as StorageBox;
use department::handles::{Handle, Metadata, Target};
use department::inline::SingleInline;
use department::layout::Layout;

type Box<T> = StorageBox<T, SingleInline<[usize; 4]>>;

#[test]
fn new() {
    let b = Box::new(1);
    assert_eq!(b.get(), 1);
}

#[test]
fn new_in() {
    let b = Box::new_in(1, SingleInline::new());
    assert_eq!(b.get(), 1);
}

#[test]
fn try_in() {
    let b = Box::new([1, 2]);
    let b2 = match b.try_in::<SingleInline<[usize; 2]>>(SingleInline::new()) {
        Ok(b2) => b2,
        Err(_) => panic!("a storage of two words holds two integers"),
    };

    assert_eq!(b2.get(), [1, 2]);

    let b3 = match b2.try_in::<SingleInline<[u32; 1]>>(SingleInline::new()) {
        Ok(_) => panic!("a storage of four bytes holds no eight"),
        Err(b3) => b3,
    };

    assert_eq!(b3.0.get(), [1, 2]);
}

#[test]
fn try_new_gives_the_value_back() {
    let r = StorageBox::<[u8; 8], SingleInline<[u8; 4]>>::try_new([1, 2, 3, 4, 5, 6, 7, 8]);
    match r {
        Ok(_) => panic!("eight bytes do not fit four"),
        Err(back) => assert_eq!(back, [1, 2, 3, 4, 5, 6, 7, 8]),
    }
    let r = StorageBox::<u64, SingleInline<[u8; 4]>>::try_new_in(7, SingleInline::new());
    match r {
        Ok(_) => panic!("eight bytes do not fit four"),
        Err((back, _)) => assert_eq!(back, 7),
    }
}

#[test]
fn set_replaces_the_value() {
    let mut b = Box::new(5u64);
    assert_eq!(b.get(), 5);
    b.set(u64::MAX - 1);
    assert_eq!(b.get(), u64::MAX - 1);
}

#[test]
fn negative_integers_keep_their_sign() {
    let b = Box::new(-1);
    assert_eq!(b.get(), -1);
    let b = Box::new([i32::MIN, -2, 0, i32::MAX]);
    assert_eq!(b.get(), [i32::MIN, -2, 0, i32::MAX]);
}

#[test]
fn parts_make_the_box_again() {
    let b = Box::new(0x0102_0304u32);
    let (storage, handle) = b.into_parts();
    assert_eq!(handle.target(), Target::Sized(Layout::new(4, 4)));
    assert_eq!(handle.metadata(), Metadata::Unit);
    assert_eq!(storage.get(handle), vec![4, 3, 2, 1]);
    let b = Box::<u32>::from_parts(storage, handle);
    assert_eq!(b.get(), 0x0102_0304);
    let _storage = b.free();
}

#[test]
fn coerce_widens_the_handle_only() {
    let b = Box::new([1u16, 2, 3]);
    let b = b.coerce(Target::Slice(Layout::new(2, 2)));
    assert_eq!(b.get(), [1, 2, 3]);
    let (_, handle) = b.into_parts();
    assert_eq!(handle.target(), Target::Slice(Layout::new(2, 2)));
    assert_eq!(handle.metadata(), Metadata::Len(3));
}
