//! Handles: small copyable tokens that stand for one allocation of a storage.
//!
//! A handle carries what its storage needs to find the allocation again (nothing
//! at all, or an offset) together with a description of what it denotes: the
//! target, which plays the part of a type, and the metadata, which is the part of
//! the description that is only known at run time.

use vstd::prelude::*;
use crate::layout::Layout;

verus! {

/// What a handle denotes, as far as it is known without looking at a value.
#[derive(Debug, Clone, Copy, PartialEq, Eq, Structural)]
pub enum Target {
    /// One value whose layout is fixed. It needs no metadata.
    Sized(Layout),
    /// A fixed number of elements side by side. It needs no metadata, and can be
    /// coerced to a run of the same elements.
    Array(Layout, usize),
    /// A run of elements of one layout. Its metadata is the number of elements.
    Slice(Layout),
    /// A value that is used through a dispatch table. Its metadata is the entry
    /// of that table that records the layout of the concrete value.
    Dyn,
}

/// The part of a handle's description that is carried as a value.
#[derive(Debug, Clone, Copy, PartialEq, Eq, Structural)]
pub enum Metadata {
    /// Nothing: the target says it all.
    Unit,
    /// The number of elements of a run.
    Len(usize),
    /// The layout that a dispatch table records for the concrete value.
    Table(Layout),
}

impl Target {
    /// Whether `meta` is metadata of the form that this target takes.
    pub open spec fn admits(self, meta: Metadata) -> bool {
        match self {
            Target::Sized(_) => meta is Unit,
            Target::Array(_, _) => meta is Unit,
            Target::Slice(_) => meta is Len,
            Target::Dyn => meta is Table,
        }
    }

    /// The layout of a statically sized target; `None` for the others, and for an
    /// array of more than `usize::MAX` bytes.
    pub open spec fn static_layout(self) -> Option<Layout> {
        match self {
            Target::Sized(l) => Some(l),
            Target::Array(elem, count) => elem.spec_array(count),
            _ => None,
        }
    }

    /// Whether a handle to this target can be coerced to one to `to`: an array to
    /// a run of the same elements, and a statically sized value to a value behind
    /// a dispatch table.
    pub open spec fn unsizes_to(self, to: Target) -> bool {
        match (self, to) {
            (Target::Array(elem, _), Target::Slice(other)) => elem == other,
            (Target::Sized(_), Target::Dyn) => true,
            (Target::Array(_, _), Target::Dyn) => self.static_layout() is Some,
            _ => false,
        }
    }

    /// The metadata that a coercion of this target to `to` yields. It is read off
    /// the target once, when the coercion is made.
    pub open spec fn unsized_metadata(self, to: Target) -> Metadata
        recommends
            self.unsizes_to(to),
    {
        match (self, to) {
            (Target::Array(_, count), Target::Slice(_)) => Metadata::Len(count),
            _ => Metadata::Table(self.static_layout().unwrap()),
        }
    }

    /// The target of a run of bytes.
    pub fn bytes() -> (t: Target)
        ensures
            t == Target::Slice(Layout { size: 1, align: 1 }),
    {
        Target::Slice(Layout { size: 1, align: 1 })
    }

    /// The target of a value that takes no space.
    pub fn unit() -> (t: Target)
        ensures
            t == Target::Sized(Layout { size: 0, align: 1 }),
    {
        Target::Sized(Layout { size: 0, align: 1 })
    }

    /// Decides `unsizes_to`, and computes the metadata that the coercion yields.
    pub fn unsize(self, to: Target) -> (r: Option<Metadata>)
        ensures
            r is Some <==> self.unsizes_to(to),
            r is Some ==> r.unwrap() == self.unsized_metadata(to),
    {
        match (self, to) {
            (Target::Array(elem, count), Target::Slice(other)) => {
                if elem == other {
                    Some(Metadata::Len(count))
                } else {
                    None
                }
            },
            (Target::Sized(l), Target::Dyn) => Some(Metadata::Table(l)),
            (Target::Array(elem, count), Target::Dyn) => {
                match elem.array(count) {
                    Some(l) => Some(Metadata::Table(l)),
                    None => None,
                }
            },
            _ => None,
        }
    }
}

/// What every handle can do, whatever storage gave it out.
pub trait Handle: Copy {
    /// What tells two allocations of one storage apart. A storage with a single
    /// slot has nothing to tell apart.
    type Addr;

    /// The target that the handle denotes.
    spec fn spec_target(&self) -> Target;

    /// The metadata that the handle carries.
    spec fn spec_metadata(&self) -> Metadata;

    /// The address of the allocation within its storage.
    spec fn spec_addr(&self) -> Self::Addr;

    /// A handle to the allocation of `handle`, seen as `target` with `meta`.
    fn from_raw_parts(handle: Self, target: Target, meta: Metadata) -> (h: Self)
        ensures
            h.spec_addr() == handle.spec_addr(),
            h.spec_target() == target,
            h.spec_metadata() == meta,
    ;

    /// The address of the allocation within its storage. Handles to different
    /// allocations may share an address.
    fn addr(self) -> (a: Self::Addr)
        ensures
            a == self.spec_addr(),
    ;

    /// The target that the handle denotes.
    fn target(self) -> (t: Target)
        ensures
            t == self.spec_target(),
    ;

    /// The metadata that the handle carries.
    fn metadata(self) -> (m: Metadata)
        ensures
            m == self.spec_metadata(),
    ;

    /// The same allocation seen as one value of layout `to`. The metadata is
    /// dropped.
    fn cast(self, to: Layout) -> (h: Self)
        ensures
            h.spec_addr() == self.spec_addr(),
            h.spec_target() == Target::Sized(to),
            h.spec_metadata() == Metadata::Unit,
    ;

    /// The same allocation seen as another target that takes metadata of the same
    /// form. The metadata is kept.
    fn cast_unsized(self, to: Target) -> (h: Self)
        requires
            to.admits(self.spec_metadata()),
        ensures
            h.spec_addr() == self.spec_addr(),
            h.spec_target() == to,
            h.spec_metadata() == self.spec_metadata(),
    ;

    /// The same allocation seen as the wider target `to`. The new metadata is
    /// derived from the old target.
    fn coerce(self, to: Target) -> (h: Self)
        requires
            self.spec_target().unsizes_to(to),
        ensures
            h.spec_addr() == self.spec_addr(),
            h.spec_target() == to,
            h.spec_metadata() == self.spec_target().unsized_metadata(to),
    ;
}

/// A handle that holds a description only. Where the allocation lies is known to
/// the storage alone: it has a single slot.
#[derive(Debug, Clone, Copy, PartialEq, Eq, Structural)]
pub struct MetaHandle {
    target: Target,
    meta: Metadata,
}

impl MetaHandle {
    /// Two handles are the same when they denote the same target with the same
    /// metadata.
    pub proof fn lemma_eq(self, other: MetaHandle)
        requires
            self.spec_target() == other.spec_target(),
            self.spec_metadata() == other.spec_metadata(),
        ensures
            self == other,
    {
    }

    /// A handle to `target` with metadata `meta`.
    pub fn from_metadata(target: Target, meta: Metadata) -> (h: MetaHandle)
        ensures
            h.spec_target() == target,
            h.spec_metadata() == meta,
    {
        MetaHandle { target, meta }
    }

    /// The target that the handle denotes.
    pub fn target(self) -> (t: Target)
        ensures
            t == self.spec_target(),
    {
        self.target
    }

    /// The metadata that the handle carries.
    pub fn metadata(self) -> (m: Metadata)
        ensures
            m == self.spec_metadata(),
    {
        self.meta
    }

    /// The handle seen as one value of layout `to`, without metadata.
    pub fn cast(self, to: Layout) -> (h: MetaHandle)
        ensures
            h.spec_target() == Target::Sized(to),
            h.spec_metadata() == Metadata::Unit,
    {
        MetaHandle::from_metadata(Target::Sized(to), Metadata::Unit)
    }

    /// The handle seen as another target that takes the metadata it holds.
    pub fn cast_unsized(self, to: Target) -> (h: MetaHandle)
        requires
            to.admits(self.spec_metadata()),
        ensures
            h.spec_target() == to,
            h.spec_metadata() == self.spec_metadata(),
    {
        MetaHandle::from_metadata(to, self.metadata())
    }

    /// The handle seen as the wider target `to`, with the metadata that the
    /// coercion of its target yields.
    pub fn coerce(self, to: Target) -> (h: MetaHandle)
        requires
            self.spec_target().unsizes_to(to),
        ensures
            h.spec_target() == to,
            h.spec_metadata() == self.spec_target().unsized_metadata(to),
    {
        let meta = match self.target.unsize(to) {
            Some(meta) => meta,
            None => self.meta,
        };
        MetaHandle::from_metadata(to, meta)
    }
}

impl Handle for MetaHandle {
    type Addr = ();

    closed spec fn spec_target(&self) -> Target {
        self.target
    }

    closed spec fn spec_metadata(&self) -> Metadata {
        self.meta
    }

    open spec fn spec_addr(&self) -> () {
        ()
    }

    fn from_raw_parts(_handle: Self, target: Target, meta: Metadata) -> (h: Self) {
        MetaHandle::from_metadata(target, meta)
    }

    fn addr(self) {
    }

    fn target(self) -> (t: Target) {
        self.target
    }

    fn metadata(self) -> (m: Metadata) {
        self.meta
    }

    fn cast(self, to: Layout) -> (h: Self) {
        MetaHandle::from_metadata(Target::Sized(to), Metadata::Unit)
    }

    fn cast_unsized(self, to: Target) -> (h: Self) {
        MetaHandle::from_metadata(to, self.meta)
    }

    fn coerce(self, to: Target) -> (h: Self) {
        MetaHandle::coerce(self, to)
    }
}

/// A handle that holds an offset into its storage beside the description, much as
/// a pointer holds an address. The offset `usize::MAX` is reserved.
#[derive(Debug, Clone, Copy, PartialEq, Eq, Structural)]
pub struct OffsetMetaHandle {
    offset: usize,
    target: Target,
    meta: Metadata,
}

impl OffsetMetaHandle {
    /// The offset that the handle records.
    pub closed spec fn spec_offset(self) -> usize {
        self.offset
    }

    /// No handle records the reserved offset.
    #[verifier::type_invariant]
    spec fn offset_is_free(self) -> bool {
        self.offset < usize::MAX
    }

    /// No handle records the reserved offset.
    pub fn offset_bound(&self)
        ensures
            self.spec_offset() < usize::MAX,
    {
        proof {
            use_type_invariant(self);
        }
    }

    /// Two handles are the same when they record the same offset and denote the
    /// same target with the same metadata.
    pub proof fn lemma_eq(self, other: OffsetMetaHandle)
        requires
            self.spec_offset() == other.spec_offset(),
            self.spec_target() == other.spec_target(),
            self.spec_metadata() == other.spec_metadata(),
        ensures
            self == other,
    {
    }

    /// A handle to `target` with metadata `meta` at `offset`.
    pub fn from_offset_meta(offset: usize, target: Target, meta: Metadata) -> (h: OffsetMetaHandle)
        requires
            offset != usize::MAX,
        ensures
            h.spec_offset() == offset,
            h.spec_target() == target,
            h.spec_metadata() == meta,
    {
        OffsetMetaHandle { offset, target, meta }
    }

    /// The offset that the handle records.
    pub fn offset(self) -> (n: usize)
        ensures
            n == self.spec_offset(),
    {
        self.offset
    }

    /// The target that the handle denotes.
    pub fn target(self) -> (t: Target)
        ensures
            t == self.spec_target(),
    {
        self.target
    }

    /// The metadata that the handle carries.
    pub fn metadata(self) -> (m: Metadata)
        ensures
            m == self.spec_metadata(),
    {
        self.meta
    }

    /// The handle moved up by `offset`. Whether the result denotes an allocation
    /// is for the caller to know.
    pub fn add(self, offset: usize) -> (h: OffsetMetaHandle)
        requires
            self.spec_offset() + offset < usize::MAX,
        ensures
            h.spec_offset() == self.spec_offset() + offset,
            h.spec_target() == self.spec_target(),
            h.spec_metadata() == self.spec_metadata(),
    {
        OffsetMetaHandle::from_offset_meta(self.offset + offset, self.target, self.meta)
    }

    /// The handle moved down by `offset`. Whether the result denotes an allocation
    /// is for the caller to know.
    pub fn sub(self, offset: usize) -> (h: OffsetMetaHandle)
        requires
            offset <= self.spec_offset(),
        ensures
            h.spec_offset() == self.spec_offset() - offset,
            h.spec_target() == self.spec_target(),
            h.spec_metadata() == self.spec_metadata(),
    {
        proof {
            use_type_invariant(&self);
        }
        OffsetMetaHandle::from_offset_meta(self.offset - offset, self.target, self.meta)
    }

    /// The handle moved down by the magnitude of `offset`, whatever its sign.
    pub fn offset_by(self, offset: isize) -> (h: OffsetMetaHandle)
        requires
            vstd::math::abs(offset as int) <= self.spec_offset(),
        ensures
            h.spec_offset() == self.spec_offset() - vstd::math::abs(offset as int),
            h.spec_target() == self.spec_target(),
            h.spec_metadata() == self.spec_metadata(),
    {
        self.sub(magnitude(offset))
    }

    /// The handle seen as one value of layout `to`, without metadata.
    pub fn cast(self, to: Layout) -> (h: OffsetMetaHandle)
        requires
        ensures
            h.spec_offset() == self.spec_offset(),
            h.spec_target() == Target::Sized(to),
            h.spec_metadata() == Metadata::Unit,
    {
        proof {
            use_type_invariant(&self);
        }
        OffsetMetaHandle::from_offset_meta(self.offset, Target::Sized(to), Metadata::Unit)
    }

    /// The handle seen as another target that takes the metadata it holds.
    pub fn cast_unsized(self, to: Target) -> (h: OffsetMetaHandle)
        requires
            to.admits(self.spec_metadata()),
        ensures
            h.spec_offset() == self.spec_offset(),
            h.spec_target() == to,
            h.spec_metadata() == self.spec_metadata(),
    {
        proof {
            use_type_invariant(&self);
        }
        OffsetMetaHandle::from_offset_meta(self.offset, to, self.meta)
    }

    /// The handle seen as the wider target `to`, with the metadata that the
    /// coercion of its target yields.
    pub fn coerce(self, to: Target) -> (h: OffsetMetaHandle)
        requires
            self.spec_target().unsizes_to(to),
        ensures
            h.spec_offset() == self.spec_offset(),
            h.spec_target() == to,
            h.spec_metadata() == self.spec_target().unsized_metadata(to),
    {
        proof {
            use_type_invariant(&self);
        }
        let meta = match self.target.unsize(to) {
            Some(meta) => meta,
            None => self.meta,
        };
        OffsetMetaHandle { offset: self.offset, target: to, meta }
    }
}

/// The magnitude of `n`.
pub fn magnitude(n: isize) -> (m: usize)
    ensures
        m == vstd::math::abs(n as int),
{
    if n >= 0 {
        n as usize
    } else {
        let below: isize = -(n + 1);
        below as usize + 1
    }
}

impl Handle for OffsetMetaHandle {
    type Addr = usize;

    closed spec fn spec_target(&self) -> Target {
        self.target
    }

    closed spec fn spec_metadata(&self) -> Metadata {
        self.meta
    }

    open spec fn spec_addr(&self) -> usize {
        self.spec_offset()
    }

    fn from_raw_parts(handle: Self, target: Target, meta: Metadata) -> (h: Self)
        ensures
            h.spec_offset() == handle.spec_offset(),
    {
        proof {
            use_type_invariant(&handle);
        }
        OffsetMetaHandle { offset: handle.offset, target, meta }
    }

    fn addr(self) -> (a: usize)
        ensures
            a == self.spec_offset(),
    {
        self.offset
    }

    fn target(self) -> (t: Target) {
        self.target
    }

    fn metadata(self) -> (m: Metadata) {
        self.meta
    }

    fn cast(self, to: Layout) -> (h: Self)
        ensures
            h.spec_offset() == self.spec_offset(),
    {
        proof {
            use_type_invariant(&self);
        }
        OffsetMetaHandle { offset: self.offset, target: Target::Sized(to), meta: Metadata::Unit }
    }

    fn cast_unsized(self, to: Target) -> (h: Self)
        ensures
            h.spec_offset() == self.spec_offset(),
    {
        proof {
            use_type_invariant(&self);
        }
        OffsetMetaHandle { offset: self.offset, target: to, meta: self.meta }
    }

    fn coerce(self, to: Target) -> (h: Self)
        ensures
            h.spec_offset() == self.spec_offset(),
    {
        proof {
            use_type_invariant(&self);
        }
        let meta = match self.target.unsize(to) {
            Some(meta) => meta,
            None => self.meta,
        };
        OffsetMetaHandle { offset: self.offset, target: to, meta }
    }
}

} // verus!
