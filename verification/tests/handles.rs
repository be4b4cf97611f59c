use department::handles::{Handle, MetaHandle, Metadata, Target};
use department::layout::Layout;

#[test]
fn test_meta_handle() {
    let h1 = MetaHandle::from_metadata(Target::bytes(), Metadata::Len(1));
    assert_eq!(h1.metadata(), Metadata::Len(1));
    let h2 = h1.cast(Layout::unit());
    assert_eq!(h2.metadata(), Metadata::Unit);
    let h3 = h1.cast_unsized(Target::bytes());
    assert_eq!(h3.metadata(), Metadata::Len(1));

    assert_eq!(h1, MetaHandle::from_raw_parts(h2, Target::bytes(), Metadata::Len(1)));
    assert_eq!(h3, MetaHandle::from_raw_parts(h2, Target::bytes(), Metadata::Len(1)));
}

#[test]
fn meta_handle_keeps_what_it_is_given() {
    let h = MetaHandle::from_metadata(Target::Dyn, Metadata::Table(Layout::new(24, 8)));
    assert_eq!(h.target(), Target::Dyn);
    assert_eq!(h.metadata(), Metadata::Table(Layout::new(24, 8)));
    assert_eq!(Handle::addr(h), ());
    assert_eq!(Handle::target(h), Target::Dyn);
    assert_eq!(Handle::metadata(h), Metadata::Table(Layout::new(24, 8)));
    assert_eq!(Handle::cast(h, Layout::new(2, 1)), h.cast(Layout::new(2, 1)));
    assert_eq!(Handle::cast_unsized(h, Target::Dyn), h);
}

#[test]
fn coerce_derives_the_metadata() {
    let elem = Layout::new(4, 4);
    let array = MetaHandle::from_metadata(Target::Array(elem, 3), Metadata::Unit);
    let run = array.coerce(Target::Slice(elem));
    assert_eq!(run.target(), Target::Slice(elem));
    assert_eq!(run.metadata(), Metadata::Len(3));
    let object = array.coerce(Target::Dyn);
    assert_eq!(object.metadata(), Metadata::Table(Layout::new(12, 4)));
    let value = MetaHandle::from_metadata(Target::Sized(Layout::new(7, 1)), Metadata::Unit);
    assert_eq!(Handle::coerce(value, Target::Dyn).metadata(), Metadata::Table(Layout::new(7, 1)));

    assert_eq!(Target::Array(elem, 3).unsize(Target::Slice(elem)), Some(Metadata::Len(3)));
    assert_eq!(Target::Array(elem, 3).unsize(Target::Slice(Layout::new(4, 2))), None);
    assert_eq!(Target::Array(elem, usize::MAX).unsize(Target::Dyn), None);
    assert_eq!(Target::Slice(elem).unsize(Target::Dyn), None);
    assert_eq!(Target::Sized(elem).unsize(Target::Slice(elem)), None);
    assert_eq!(Target::Dyn.unsize(Target::Dyn), None);
    assert_eq!(Target::unit(), Target::Sized(Layout::new(0, 1)));
    assert_eq!(Target::bytes(), Target::Slice(Layout::new(1, 1)));
}
