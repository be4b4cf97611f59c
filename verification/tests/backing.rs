use department::backing::{Align, Align1, Align16, Align2, Align4, Align8, Backing};
use department::base::StorageSafe;
use department::layout::Layout;

#[test]
fn test_backing() {
    type Backing1 = Backing<1, Align1>;
    type Backing2 = Backing<2, Align2>;
    type Backing4 = Backing<4, Align4>;
    type Backing8 = Backing<8, Align8>;
    type Backing16 = Backing<16, Align16>;

    assert_eq!(Backing1::layout().size(), 1);
    assert_eq!(Backing1::layout().align(), 1);

    assert_eq!(Backing2::layout().size(), 2);
    assert_eq!(Backing2::layout().align(), 2);

    assert_eq!(Backing4::layout().size(), 4);
    assert_eq!(Backing4::layout().align(), 4);

    assert_eq!(Backing8::layout().size(), 8);
    assert_eq!(Backing8::layout().align(), 8);

    assert_eq!(Backing16::layout().size(), 16);
    assert_eq!(Backing16::layout().align(), 16);
}

#[test]
fn backing_defaults_to_byte_alignment() {
    assert_eq!(<Backing<24> as StorageSafe>::layout(), Layout::new(24, 1));
    let _made: Backing<24> = Backing::new();
    let _default: Backing<24, Align8> = Backing::default();
}

#[test]
fn alignments_are_their_names() {
    assert_eq!(Align1::align(), 1);
    assert_eq!(Align2::align(), 2);
    assert_eq!(Align4::align(), 4);
    assert_eq!(Align8::align(), 8);
    assert_eq!(Align16::align(), 16);
}

#[test]
fn integers_and_arrays_back_storages() {
    assert_eq!(<u8 as StorageSafe>::layout(), Layout::new(1, 1));
    assert_eq!(<u16 as StorageSafe>::layout(), Layout::new(2, 2));
    assert_eq!(<u32 as StorageSafe>::layout(), Layout::new(4, 4));
    assert_eq!(<u64 as StorageSafe>::layout(), Layout::new(8, 8));
    assert_eq!(<u128 as StorageSafe>::layout(), Layout::new(16, 16));
    let word = (usize::BITS / 8) as usize;
    assert_eq!(<usize as StorageSafe>::layout(), Layout::new(word, word));
    assert_eq!(<[u32; 4] as StorageSafe>::layout(), Layout::new(16, 4));
    assert_eq!(<[u16; 0] as StorageSafe>::layout(), Layout::new(0, 2));
    assert_eq!(<[u64; usize::MAX] as StorageSafe>::layout(), Layout::new(usize::MAX, 8));
}
