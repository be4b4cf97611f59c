use department::error::StorageError;
use department::handles::{Metadata, Target};
use department::layout::Layout;
use department::utils::{
    layout_of, read_bytes, resized, validate_layout, validate_layout_for, write_bytes, zeroed,
};

#[test]
fn layout_of_follows_the_description() {
    let elem = Layout::new(4, 2);
    assert_eq!(layout_of(Target::Sized(elem), Metadata::Unit), Some(elem));
    assert_eq!(layout_of(Target::Array(elem, 3), Metadata::Unit), Some(Layout::new(12, 2)));
    assert_eq!(layout_of(Target::Slice(elem), Metadata::Len(5)), Some(Layout::new(20, 2)));
    assert_eq!(layout_of(Target::Slice(elem), Metadata::Len(0)), Some(Layout::new(0, 2)));
    assert_eq!(layout_of(Target::Dyn, Metadata::Table(elem)), Some(elem));
    assert_eq!(layout_of(Target::Slice(elem), Metadata::Len(usize::MAX / 4 + 1)), None);
    assert_eq!(layout_of(Target::Slice(elem), Metadata::Len(usize::MAX / 4)).map(|l| l.size()), Some(usize::MAX - 3));
    assert_eq!(layout_of(Target::Slice(elem), Metadata::Unit), None);
    assert_eq!(layout_of(Target::Sized(elem), Metadata::Len(1)), None);
    assert_eq!(layout_of(Target::Dyn, Metadata::Unit), None);
    assert_eq!(layout_of(Target::Array(elem, 1), Metadata::Table(elem)), None);
    assert_eq!(elem.array(2), Some(Layout::new(8, 2)));
    assert_eq!(elem.array(usize::MAX), None);
    assert_eq!(Layout::unit(), Layout::new(0, 1));
}

#[test]
fn size_is_judged_before_alignment() {
    let region = Layout::new(8, 4);
    assert_eq!(validate_layout_for(Layout::new(8, 4), region), Ok(()));
    assert_eq!(validate_layout_for(Layout::new(0, 1), region), Ok(()));
    assert_eq!(
        validate_layout_for(Layout::new(9, 4), region),
        Err(StorageError::InsufficientSpace { expected: 9, available: Some(8) })
    );
    assert_eq!(
        validate_layout_for(Layout::new(8, 8), region),
        Err(StorageError::InvalidAlign { expected: 8, available: 4 })
    );
    assert_eq!(
        validate_layout_for(Layout::new(9, 8), region),
        Err(StorageError::InsufficientSpace { expected: 9, available: Some(8) })
    );
    assert_eq!(validate_layout(Target::bytes(), Metadata::Len(8), region), Ok(()));
    assert_eq!(
        validate_layout(Target::bytes(), Metadata::Len(9), region),
        Err(StorageError::InsufficientSpace { expected: 9, available: Some(8) })
    );
    assert_eq!(
        validate_layout(Target::bytes(), Metadata::Unit, region),
        Err(StorageError::exceeds_max())
    );
}

#[test]
fn buffers_are_read_and_written_in_place() {
    let mut buf = zeroed(6);
    assert_eq!(buf, vec![0; 6]);
    write_bytes(&mut buf, 2, &[7, 8, 9]);
    assert_eq!(buf, vec![0, 0, 7, 8, 9, 0]);
    write_bytes(&mut buf, 6, &[]);
    assert_eq!(read_bytes(&buf, 1, 3), vec![0, 7, 8]);
    assert_eq!(read_bytes(&buf, 6, 0), Vec::<u8>::new());
    assert_eq!(resized(&buf, 4), vec![0, 0, 7, 8]);
    assert_eq!(resized(&buf, 8), vec![0, 0, 7, 8, 9, 0, 0, 0]);
    assert_eq!(zeroed(0), Vec::<u8>::new());
}
