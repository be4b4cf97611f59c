use department::handles::{magnitude, Handle, Metadata, OffsetMetaHandle, Target};
use department::layout::Layout;

#[test]
fn offset_handle_keeps_what_it_is_given() {
    let h = OffsetMetaHandle::from_offset_meta(5, Target::bytes(), Metadata::Len(3));
    assert_eq!(h.offset(), 5);
    assert_eq!(h.target(), Target::bytes());
    assert_eq!(h.metadata(), Metadata::Len(3));
    assert_eq!(h.addr(), 5);
    h.offset_bound();
    let far = OffsetMetaHandle::from_offset_meta(usize::MAX - 1, Target::unit(), Metadata::Unit);
    assert_eq!(far.offset(), usize::MAX - 1);
}

#[test]
fn offset_handle_moves_by_units() {
    let h = OffsetMetaHandle::from_offset_meta(5, Target::bytes(), Metadata::Len(3));
    assert_eq!(h.add(3).offset(), 8);
    assert_eq!(h.add(0), h);
    assert_eq!(h.sub(5).offset(), 0);
    assert_eq!(h.add(usize::MAX - 6).offset(), usize::MAX - 1);
    assert_eq!(h.add(3).metadata(), Metadata::Len(3));
    assert_eq!(h.sub(2).target(), Target::bytes());
    // the offset goes down by the magnitude, whatever the sign
    assert_eq!(h.offset_by(2).offset(), 3);
    assert_eq!(h.offset_by(-2).offset(), 3);
    assert_eq!(h.offset_by(0), h);
    assert_eq!(h.offset_by(-5).offset(), 0);
    assert_eq!(magnitude(isize::MIN), (isize::MAX as usize) + 1);
    assert_eq!(magnitude(isize::MAX), isize::MAX as usize);
    assert_eq!(magnitude(-1), 1);
    assert_eq!(magnitude(0), 0);
}

#[test]
fn offset_handle_casts_keep_the_offset() {
    let elem = Layout::new(2, 2);
    let h = OffsetMetaHandle::from_offset_meta(7, Target::Slice(elem), Metadata::Len(4));
    let thin = h.cast(Layout::new(8, 2));
    assert_eq!((thin.offset(), thin.target(), thin.metadata()), (
        7,
        Target::Sized(Layout::new(8, 2)),
        Metadata::Unit
    ));
    let bytes = h.cast_unsized(Target::bytes());
    assert_eq!((bytes.offset(), bytes.target(), bytes.metadata()), (
        7,
        Target::bytes(),
        Metadata::Len(4)
    ));
    let array = OffsetMetaHandle::from_offset_meta(7, Target::Array(elem, 4), Metadata::Unit);
    let run = array.coerce(Target::Slice(elem));
    assert_eq!(run, h);
    assert_eq!(Handle::coerce(array, Target::Dyn).metadata(), Metadata::Table(Layout::new(8, 2)));
    assert_eq!(Handle::cast(h, Layout::new(8, 2)), thin);
    assert_eq!(Handle::cast_unsized(h, Target::bytes()), bytes);
    assert_eq!(
        OffsetMetaHandle::from_raw_parts(thin, Target::Slice(elem), Metadata::Len(4)),
        h
    );
    assert_ne!(h, h.add(1));
    assert_ne!(h, bytes);
}
