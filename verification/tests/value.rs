use department::handles::Target;
use department::layout::Layout;
use department::value::{bits_of, decode_run, encode_run, from_bits, Value};

#[test]
fn integers_are_little_endian() {
    assert_eq!(0x12u8.to_bytes(), vec![0x12]);
    assert_eq!(0x1234u16.to_bytes(), vec![0x34, 0x12]);
    assert_eq!(0x1234_5678u32.to_bytes(), vec![0x78, 0x56, 0x34, 0x12]);
    assert_eq!(1u64.to_bytes(), vec![1, 0, 0, 0, 0, 0, 0, 0]);
    assert_eq!((-2i32).to_bytes(), vec![0xfe, 0xff, 0xff, 0xff]);
    assert_eq!(().to_bytes(), Vec::<u8>::new());
    assert_eq!(u8::from_bytes(&[0x12]), 0x12);
    assert_eq!(u16::from_bytes(&[0x34, 0x12]), 0x1234);
    assert_eq!(u32::from_bytes(&[0x78, 0x56, 0x34, 0x12]), 0x1234_5678);
    assert_eq!(u64::from_bytes(&[0, 0, 0, 0, 0, 0, 0, 0x80]), 1 << 63);
    assert_eq!(i32::from_bytes(&[0, 0, 0, 0x80]), i32::MIN);
    assert_eq!(<() as Value>::from_bytes(&[]), ());
}

#[test]
fn bits_keep_every_value_apart() {
    for x in [0, 1, -1, i32::MAX, i32::MIN, 12345, -12345] {
        assert_eq!(bits_of(x), x as u32);
        assert_eq!(from_bits(bits_of(x)), x);
    }
    for b in [0u32, 1, 0x7fff_ffff, 0x8000_0000, u32::MAX] {
        assert_eq!(from_bits(b), b as i32);
    }
}

#[test]
fn layouts_and_targets_describe_the_type() {
    assert_eq!(<() as Value>::layout(), Some(Layout::new(0, 1)));
    assert_eq!(u8::layout(), Some(Layout::new(1, 1)));
    assert_eq!(u16::layout(), Some(Layout::new(2, 2)));
    assert_eq!(u32::layout(), Some(Layout::new(4, 4)));
    assert_eq!(i32::layout(), Some(Layout::new(4, 4)));
    assert_eq!(u64::layout(), Some(Layout::new(8, 8)));
    assert_eq!(<[u16; 3]>::layout(), Some(Layout::new(6, 2)));
    assert_eq!(<[[u8; 2]; 3]>::layout(), Some(Layout::new(6, 1)));
    assert_eq!(<[u32; 0]>::layout(), Some(Layout::new(0, 4)));
    assert_eq!(<[u64; usize::MAX]>::layout(), None);
    assert_eq!(<[[u64; usize::MAX]; 0]>::layout(), Some(Layout::new(0, 1)));
    assert_eq!(<[[u64; usize::MAX]; 2]>::layout(), None);
    assert_eq!(u32::target(), Target::Sized(Layout::new(4, 4)));
    assert_eq!(<() as Value>::target(), Target::unit());
    assert_eq!(<[u16; 3]>::target(), Target::Array(Layout::new(2, 2), 3));
    assert_eq!(<[[u64; usize::MAX]; 0]>::target(), Target::Sized(Layout::new(0, 1)));
    assert_eq!(<[[u64; usize::MAX]; 2]>::target(), Target::Dyn);
}

#[test]
fn arrays_and_runs_are_their_items_side_by_side() {
    assert_eq!([1u16, 2, 3].to_bytes(), vec![1, 0, 2, 0, 3, 0]);
    assert_eq!(<[u16; 3]>::from_bytes(&[1, 0, 2, 0, 3, 0]), [1, 2, 3]);
    assert_eq!([[1u8, 2], [3, 4]].to_bytes(), vec![1, 2, 3, 4]);
    assert_eq!(<[[u8; 2]; 2]>::from_bytes(&[1, 2, 3, 4]), [[1, 2], [3, 4]]);
    assert_eq!(<[u32; 0]>::from_bytes(&[]), []);
    assert_eq!([(), ()].to_bytes(), Vec::<u8>::new());
    assert_eq!(<[(); 2]>::from_bytes(&[]), [(), ()]);
    assert_eq!(encode_run(&[0x0102u16, 0x0304]), vec![2, 1, 4, 3]);
    assert_eq!(encode_run::<u32>(&[]), Vec::<u8>::new());
    assert_eq!(decode_run::<u16>(&vec![2, 1, 4, 3], 2), vec![0x0102, 0x0304]);
    assert_eq!(decode_run::<u64>(&vec![], 0), Vec::<u64>::new());
    assert_eq!(decode_run::<()>(&vec![], 3), vec![(), (), ()]);
}
