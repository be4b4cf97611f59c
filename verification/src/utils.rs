//! From a description of a value to its layout, and whether a region can hold it.

use vstd::prelude::*;
use crate::error::StorageError;
use crate::handles::{Metadata, Target};
use crate::layout::Layout;

verus! {

/// The layout of what `target` with `meta` describes. There is none where the
/// metadata is not of the form that the target takes, and none for a run or an
/// array of more than `usize::MAX` bytes.
pub open spec fn spec_layout_of(target: Target, meta: Metadata) -> Option<Layout> {
    match (target, meta) {
        (Target::Sized(l), Metadata::Unit) => Some(l),
        (Target::Array(elem, count), Metadata::Unit) => elem.spec_array(count),
        (Target::Slice(elem), Metadata::Len(count)) => elem.spec_array(count),
        (Target::Dyn, Metadata::Table(l)) => Some(l),
        _ => None,
    }
}

/// The layout of what `target` with `meta` describes.
pub fn layout_of(target: Target, meta: Metadata) -> (r: Option<Layout>)
    ensures
        r == spec_layout_of(target, meta),
{
    match (target, meta) {
        (Target::Sized(l), Metadata::Unit) => Some(l),
        (Target::Array(elem, count), Metadata::Unit) => elem.array(count),
        (Target::Slice(elem), Metadata::Len(count)) => elem.array(count),
        (Target::Dyn, Metadata::Table(l)) => Some(l),
        _ => None,
    }
}

/// What `validate_layout_for` answers: the value fits, or the first reason why
/// it does not. Size is judged before alignment.
pub open spec fn spec_validate_layout_for(layout: Layout, region: Layout) -> Result<
    (),
    StorageError,
> {
    if layout.size > region.size {
        Err(StorageError::InsufficientSpace { expected: layout.size, available: Some(region.size) })
    } else if layout.align > region.align {
        Err(StorageError::InvalidAlign { expected: layout.align, available: region.align })
    } else {
        Ok(())
    }
}

/// What `validate_layout` answers. A description without a layout is refused as
/// one that asks for more than `usize::MAX` bytes.
pub open spec fn spec_validate_layout(target: Target, meta: Metadata, region: Layout) -> Result<
    (),
    StorageError,
> {
    match spec_layout_of(target, meta) {
        Some(layout) => spec_validate_layout_for(layout, region),
        None => Err(StorageError::spec_exceeds_max()),
    }
}

/// Checks that a region of layout `region` can hold what `target` with `meta`
/// describes.
pub fn validate_layout(target: Target, meta: Metadata, region: Layout) -> (r: Result<
    (),
    StorageError,
>)
    ensures
        r == spec_validate_layout(target, meta, region),
{
    match layout_of(target, meta) {
        Some(layout) => validate_layout_for(layout, region),
        None => Err(StorageError::exceeds_max()),
    }
}

/// Checks that a region of layout `region` can hold a value of layout `layout`:
/// the value must be no larger and need no stricter alignment.
pub fn validate_layout_for(layout: Layout, region: Layout) -> (r: Result<(), StorageError>)
    ensures
        r == spec_validate_layout_for(layout, region),
{
    let validated_size = layout.size <= region.size;
    let validated_layout = layout.align <= region.align;

    if validated_size && validated_layout {
        Ok(())
    } else if !validated_size {
        Err(StorageError::InsufficientSpace { expected: layout.size, available: Some(region.size) })
    } else {
        Err(StorageError::InvalidAlign { expected: layout.align, available: region.align })
    }
}

/// Two different slots of `unit` bytes each have no byte in common.
pub proof fn lemma_slots_apart(a: int, b: int, unit: int)
    requires
        0 <= a,
        0 <= b,
        a != b,
        0 <= unit,
    ensures
        0 <= a * unit,
        0 <= b * unit,
        a * unit + unit <= b * unit || b * unit + unit <= a * unit,
{
    assert(0 <= a * unit && 0 <= b * unit) by (nonlinear_arith)
        requires
            0 <= a,
            0 <= b,
            0 <= unit,
    ;
    if a < b {
        assert(a * unit + unit <= b * unit) by (nonlinear_arith)
            requires
                a + 1 <= b,
                0 <= unit,
        ;
    } else {
        assert(b * unit + unit <= a * unit) by (nonlinear_arith)
            requires
                b + 1 <= a,
                0 <= unit,
        ;
    }
}

/// `bytes` with `data` written over it from index `at` on.
pub open spec fn overwrite(bytes: Seq<u8>, at: int, data: Seq<u8>) -> Seq<u8> {
    Seq::new(
        bytes.len(),
        |i: int|
            if at <= i < at + data.len() {
                data[i - at]
            } else {
                bytes[i]
            },
    )
}

/// A copy of bytes `from .. from + len` of `buf`.
pub fn read_bytes(buf: &Vec<u8>, from: usize, len: usize) -> (out: Vec<u8>)
    requires
        from + len <= buf@.len(),
    ensures
        out@ == buf@.subrange(from as int, from + len),
{
    let mut out: Vec<u8> = Vec::new();
    let mut i: usize = 0;
    let total = buf.len();
    while i < len
        invariant
            i <= len,
            from + len <= buf@.len(),
            total == buf@.len(),
            out@ == buf@.subrange(from as int, from + i),
        decreases len - i,
    {
        out.push(buf[from + i]);
        i += 1;
        assert(out@ =~= buf@.subrange(from as int, from + i));
    }
    out
}

/// Writes `data` over `buf`, from index `at` on.
pub fn write_bytes(buf: &mut Vec<u8>, at: usize, data: &[u8])
    requires
        at + data@.len() <= old(buf)@.len(),
    ensures
        final(buf)@ == overwrite(old(buf)@, at as int, data@),
{
    let mut i: usize = 0;
    let total = buf.len();
    while i < data.len()
        invariant
            i <= data@.len(),
            at + data@.len() <= buf@.len(),
            total == buf@.len(),
            buf@.len() == old(buf)@.len(),
            buf@ == overwrite(old(buf)@, at as int, data@.subrange(0, i as int)),
        decreases data@.len() - i,
    {
        buf[at + i] = data[i];
        i += 1;
        assert(buf@ =~= overwrite(old(buf)@, at as int, data@.subrange(0, i as int)));
    }
    assert(data@.subrange(0, i as int) =~= data@);
}

/// A buffer of `len` bytes that begins as `buf` does: `buf` cut short or
/// followed by zeros.
pub fn resized(buf: &Vec<u8>, len: usize) -> (out: Vec<u8>)
    ensures
        out@.len() == len,
        forall|i: int| 0 <= i < len && i < buf@.len() ==> out@[i] == buf@[i],
        forall|i: int| buf@.len() <= i < len ==> out@[i] == 0,
{
    let mut out: Vec<u8> = Vec::new();
    let mut i: usize = 0;
    while i < len
        invariant
            i <= len,
            out@.len() == i,
            forall|j: int| 0 <= j < i && j < buf@.len() ==> out@[j] == buf@[j],
            forall|j: int| buf@.len() <= j < i ==> out@[j] == 0,
        decreases len - i,
    {
        if i < buf.len() {
            out.push(buf[i]);
        } else {
            out.push(0u8);
        }
        i += 1;
    }
    out
}

/// A buffer of `len` bytes, all zero.
pub fn zeroed(len: usize) -> (out: Vec<u8>)
    ensures
        out@.len() == len,
        forall|i: int| 0 <= i < len ==> out@[i] == 0,
{
    let mut out: Vec<u8> = Vec::new();
    let mut i: usize = 0;
    while i < len
        invariant
            i <= len,
            out@.len() == i,
            forall|j: int| 0 <= j < i ==> out@[j] == 0,
        decreases len - i,
    {
        out.push(0u8);
        i += 1;
    }
    out
}

} // verus!
