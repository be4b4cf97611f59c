//! The storage contract: what every backend offers, and the further promises
//! that a backend may make.

use vstd::prelude::*;
use crate::error::StorageError;
use crate::handles::{Handle, Metadata, Target};
use crate::layout::Layout;
use crate::utils::{overwrite, spec_layout_of};
use crate::value::{encode_run, join, Value};

verus! {

/// A type that can back an inline or a static storage. Only its layout matters:
/// the storage keeps as many bytes as the type has, aligned as the type is.
pub trait StorageSafe: Sized {
    /// The layout of the type.
    spec fn spec_layout() -> Layout;

    /// The layout of the type.
    fn layout() -> (l: Layout)
        ensures
            l == Self::spec_layout(),
    ;
}

impl StorageSafe for u8 {
    open spec fn spec_layout() -> Layout {
        Layout { size: 1, align: 1 }
    }

    fn layout() -> (l: Layout) {
        Layout { size: 1, align: 1 }
    }
}

impl StorageSafe for u16 {
    open spec fn spec_layout() -> Layout {
        Layout { size: 2, align: 2 }
    }

    fn layout() -> (l: Layout) {
        Layout { size: 2, align: 2 }
    }
}

impl StorageSafe for u32 {
    open spec fn spec_layout() -> Layout {
        Layout { size: 4, align: 4 }
    }

    fn layout() -> (l: Layout) {
        Layout { size: 4, align: 4 }
    }
}

impl StorageSafe for u64 {
    open spec fn spec_layout() -> Layout {
        Layout { size: 8, align: 8 }
    }

    fn layout() -> (l: Layout) {
        Layout { size: 8, align: 8 }
    }
}

impl StorageSafe for u128 {
    open spec fn spec_layout() -> Layout {
        Layout { size: 16, align: 16 }
    }

    fn layout() -> (l: Layout) {
        Layout { size: 16, align: 16 }
    }
}

impl StorageSafe for usize {
    open spec fn spec_layout() -> Layout {
        Layout { size: (usize::BITS / 8) as usize, align: (usize::BITS / 8) as usize }
    }

    fn layout() -> (l: Layout) {
        let bytes: usize = (usize::BITS / 8) as usize;
        Layout { size: bytes, align: bytes }
    }
}

/// An array is laid out as its elements side by side. A size that would not fit
/// in a `usize` is given as `usize::MAX`.
impl<T: StorageSafe, const N: usize> StorageSafe for [T; N] {
    open spec fn spec_layout() -> Layout {
        let elem = T::spec_layout();
        Layout {
            size: if elem.size * N <= usize::MAX {
                (elem.size * N) as usize
            } else {
                usize::MAX
            },
            align: elem.align,
        }
    }

    fn layout() -> (l: Layout) {
        let elem = T::layout();
        match elem.size.checked_mul(N) {
            Some(size) => Layout { size, align: elem.align },
            None => Layout { size: usize::MAX, align: elem.align },
        }
    }
}

/// A place where data can be put: on the stack, on the heap, or elsewhere.
///
/// A storage gives out handles. A handle is valid from the call that returned it
/// until it is released, or until a call that supersedes it succeeds, and only
/// for the storage that gave it out. Resolving a valid handle yields the bytes
/// of its allocation. A bare storage may hold no more than one allocation at a
/// time.
pub trait Storage: Sized {
    /// The handles that this storage gives out.
    type Handle: Handle;

    /// The storage is in order. Every function keeps it so.
    spec fn wf(&self) -> bool;

    /// Whether `handle` denotes an allocation of this storage.
    spec fn valid(&self, handle: Self::Handle) -> bool;

    /// The bytes of the allocation that `handle` denotes.
    spec fn contents(&self, handle: Self::Handle) -> Seq<u8>;

    /// Whether the allocations of two handles have no byte in common. Handles
    /// of a storage with a single slot never are apart.
    spec fn apart(a: Self::Handle, b: Self::Handle) -> bool;

    /// What a release makes of the storage: `after` is this storage with the
    /// allocation of `handle` released.
    spec fn releases(&self, handle: Self::Handle, after: Self) -> bool;

    /// What `allocate_single` would answer to a request for `target` with `meta`:
    /// that it can be served, or the error.
    spec fn single_verdict(&self, target: Target, meta: Metadata) -> Result<(), StorageError>;

    /// What `try_grow` would answer to a request to grow `handle` to `capacity`
    /// elements: that it can be served, or the error.
    spec fn grow_verdict(&self, handle: Self::Handle, capacity: usize) -> Result<(), StorageError>;

    /// What `try_shrink` would answer to a request to shrink `handle` to
    /// `capacity` elements: that it can be served, or the error.
    spec fn shrink_verdict(&self, handle: Self::Handle, capacity: usize) -> Result<
        (),
        StorageError,
    >;

    /// A valid handle has a layout, and its allocation is as long as that says.
    proof fn lemma_valid(&self, handle: Self::Handle)
        requires
            self.wf(),
            self.valid(handle),
        ensures
            spec_layout_of(handle.spec_target(), handle.spec_metadata()) is Some,
            self.contents(handle).len() == spec_layout_of(
                handle.spec_target(),
                handle.spec_metadata(),
            ).unwrap().size,
    ;

    /// Being apart does not depend on the order of the two handles.
    proof fn lemma_apart_symmetric(a: Self::Handle, b: Self::Handle)
        ensures
            Self::apart(a, b) == Self::apart(b, a),
    ;

    /// An allocation is found by the address of its handle, and is as long as
    /// the layout of the handle says: a handle to the address of a valid
    /// handle, with a description of the same layout, is valid too and denotes
    /// the same bytes.
    proof fn lemma_retarget(&self, handle: Self::Handle, other: Self::Handle)
        requires
            self.wf(),
            self.valid(handle),
            other.spec_addr() == handle.spec_addr(),
            spec_layout_of(other.spec_target(), other.spec_metadata()) == spec_layout_of(
                handle.spec_target(),
                handle.spec_metadata(),
            ),
        ensures
            self.valid(other),
            self.contents(other) == self.contents(handle),
    ;

    /// Whether `handle` denotes an allocation of this storage.
    fn is_valid(&self, handle: Self::Handle) -> (ok: bool)
        requires
            self.wf(),
        ensures
            ok == self.valid(handle),
    ;

    /// Resolves a handle: the bytes of its allocation.
    fn get(&self, handle: Self::Handle) -> (bytes: Vec<u8>)
        requires
            self.wf(),
            self.valid(handle),
        ensures
            bytes@ == self.contents(handle),
    ;

    /// Writes `data` into the allocation of `handle`, from byte `at` on.
    fn set(&mut self, handle: Self::Handle, at: usize, data: &[u8])
        requires
            old(self).wf(),
            old(self).valid(handle),
            at + data@.len() <= old(self).contents(handle).len(),
        ensures
            final(self).wf(),
            final(self).valid(handle),
            final(self).contents(handle) == overwrite(
                old(self).contents(handle),
                at as int,
                data@,
            ),
            forall|other: Self::Handle|
                old(self).valid(other) && Self::apart(handle, other) ==> {
                    &&& #[trigger] final(self).valid(other)
                    &&& final(self).contents(other) == old(self).contents(other)
                },
            forall|t: Target, m: Metadata|
                #[trigger] final(self).single_verdict(t, m) == old(self).single_verdict(t, m),
            forall|c: usize|
                #[trigger] final(self).grow_verdict(handle, c) == old(self).grow_verdict(handle, c),
            forall|c: usize|
                #[trigger] final(self).shrink_verdict(handle, c) == old(self).shrink_verdict(
                    handle,
                    c,
                ),
    ;

    /// Reserves space for what `target` with `meta` describes. The space is not
    /// initialised. Where an allocation is already held, the storage may
    /// overwrite it, make a second one, or fail.
    fn allocate_single(&mut self, target: Target, meta: Metadata) -> (r: Result<
        Self::Handle,
        StorageError,
    >)
        requires
            old(self).wf(),
        ensures
            final(self).wf(),
            r is Ok <==> old(self).single_verdict(target, meta) is Ok,
            r matches Err(e) ==> old(self).single_verdict(target, meta) == Err::<(), _>(e),
            r matches Ok(h) ==> {
                &&& final(self).valid(h)
                &&& h.spec_target() == target
                &&& h.spec_metadata() == meta
            },
    ;

    /// Releases the allocation of `handle`. What lies apart from it stays as
    /// it is.
    fn deallocate_single(&mut self, handle: Self::Handle)
        requires
            old(self).wf(),
            old(self).valid(handle),
        ensures
            final(self).wf(),
            old(self).releases(handle, *final(self)),
            forall|other: Self::Handle|
                old(self).valid(other) && Self::apart(handle, other) ==> {
                    &&& #[trigger] final(self).valid(other)
                    &&& final(self).contents(other) == old(self).contents(other)
                },
    ;

    /// Grows the run of `handle` to `capacity` elements. On success the handle
    /// returned takes the place of `handle`, and the run begins with the bytes
    /// that it held before. On failure nothing has changed.
    fn try_grow(&mut self, handle: Self::Handle, capacity: usize) -> (r: Result<
        Self::Handle,
        StorageError,
    >)
        requires
            old(self).wf(),
            old(self).valid(handle),
            handle.spec_target() is Slice,
            handle.spec_metadata() matches Metadata::Len(n) && n <= capacity,
        ensures
            final(self).wf(),
            r is Ok <==> old(self).grow_verdict(handle, capacity) is Ok,
            r matches Err(e) ==> {
                &&& old(self).grow_verdict(handle, capacity) == Err::<(), _>(e)
                &&& final(self).valid(handle)
                &&& final(self).contents(handle) == old(self).contents(handle)
            },
            r matches Ok(h) ==> {
                &&& final(self).valid(h)
                &&& h.spec_target() == handle.spec_target()
                &&& h.spec_metadata() == Metadata::Len(capacity)
                &&& final(self).contents(h).len() >= old(self).contents(handle).len()
                &&& final(self).contents(h).subrange(0, old(self).contents(handle).len() as int)
                    == old(self).contents(handle)
            },
    ;

    /// Shrinks the run of `handle` to `capacity` elements. On success the
    /// handle returned takes the place of `handle`, and the run holds the
    /// bytes with which it began before. On failure nothing has changed.
    fn try_shrink(&mut self, handle: Self::Handle, capacity: usize) -> (r: Result<
        Self::Handle,
        StorageError,
    >)
        requires
            old(self).wf(),
            old(self).valid(handle),
            handle.spec_target() is Slice,
            handle.spec_metadata() matches Metadata::Len(n) && capacity <= n,
        ensures
            final(self).wf(),
            r is Ok <==> old(self).shrink_verdict(handle, capacity) is Ok,
            r matches Err(e) ==> {
                &&& old(self).shrink_verdict(handle, capacity) == Err::<(), _>(e)
                &&& final(self).valid(handle)
                &&& final(self).contents(handle) == old(self).contents(handle)
            },
            r matches Ok(h) ==> {
                &&& final(self).valid(h)
                &&& h.spec_target() == handle.spec_target()
                &&& h.spec_metadata() == Metadata::Len(capacity)
                &&& final(self).contents(h).len() <= old(self).contents(handle).len()
                &&& final(self).contents(h) == old(self).contents(handle).subrange(
                    0,
                    final(self).contents(h).len() as int,
                )
            },
    ;
}

/// Reserves space in `storage` for `value`, and puts the value there. Where the
/// storage refuses, the value comes back with the error.
pub fn create_single<S: Storage, T: Value>(storage: &mut S, value: T) -> (r: Result<
    S::Handle,
    (StorageError, T),
>)
    requires
        old(storage).wf(),
    ensures
        final(storage).wf(),
        r is Ok <==> old(storage).single_verdict(T::spec_target(), Metadata::Unit) is Ok,
        r matches Err((e, back)) ==> back == value && old(storage).single_verdict(
            T::spec_target(),
            Metadata::Unit,
        ) == Err::<(), _>(e),
        r matches Ok(h) ==> {
            &&& final(storage).valid(h)
            &&& h.spec_target() == T::spec_target()
            &&& h.spec_metadata() == Metadata::Unit
            &&& final(storage).contents(h) == value.image()
        },
{
    // Statically sized values carry no metadata
    let handle = match storage.allocate_single(T::target(), Metadata::Unit) {
        Ok(handle) => handle,
        Err(e) => {
            return Err((e, value));
        },
    };
    let bytes = value.to_bytes();
    proof {
        storage.lemma_valid(handle);
        T::lemma_target();
        value.lemma_image_len();
        assert(overwrite(storage.contents(handle), 0, bytes@) =~= bytes@);
    }
    storage.set(handle, 0, bytes.as_slice());
    Ok(handle)
}

/// Reserves space in `storage` for a run of the items of `items`, and puts the
/// items there.
pub fn create_single_range<S: Storage, T: Value>(storage: &mut S, items: &[T]) -> (r: Result<
    S::Handle,
    StorageError,
>)
    requires
        old(storage).wf(),
    ensures
        final(storage).wf(),
        match r {
            Ok(h) => {
                &&& T::size() <= usize::MAX
                &&& old(storage).single_verdict(
                    Target::Slice(Layout { size: T::size() as usize, align: T::align() }),
                    Metadata::Len(items@.len() as usize),
                ) is Ok
                &&& final(storage).valid(h)
                &&& h.spec_target() == Target::Slice(
                    Layout { size: T::size() as usize, align: T::align() },
                )
                &&& h.spec_metadata() == Metadata::Len(items@.len() as usize)
                &&& final(storage).contents(h) == join(items@, T::size())
            },
            Err(e) => if T::size() <= usize::MAX {
                old(storage).single_verdict(
                    Target::Slice(Layout { size: T::size() as usize, align: T::align() }),
                    Metadata::Len(items@.len() as usize),
                ) == Err::<(), _>(e)
            } else {
                e == StorageError::spec_exceeds_max()
            },
        },
{
    let elem = match T::layout() {
        Some(elem) => elem,
        None => {
            return Err(StorageError::exceeds_max());
        },
    };
    let handle = storage.allocate_single(Target::Slice(elem), Metadata::Len(items.len()))?;
    let bytes = encode_run(items);
    proof {
        storage.lemma_valid(handle);
        assert(elem.size * items@.len() == items@.len() * T::size()) by (nonlinear_arith)
            requires
                elem.size == T::size(),
        ;
        assert(overwrite(storage.contents(handle), 0, bytes@) =~= bytes@);
    }
    storage.set(handle, 0, bytes.as_slice());
    Ok(handle)
}

/// Reserves space in `storage` for `value` as a value behind a dispatch table,
/// whose entry records the layout of `T`, and puts the value there.
pub fn create_single_dyn<S: Storage, T: Value>(storage: &mut S, value: T) -> (r: Result<
    S::Handle,
    StorageError,
>)
    requires
        old(storage).wf(),
    ensures
        final(storage).wf(),
        match r {
            Ok(h) => {
                &&& T::size() <= usize::MAX
                &&& old(storage).single_verdict(
                    Target::Dyn,
                    Metadata::Table(Layout { size: T::size() as usize, align: T::align() }),
                ) is Ok
                &&& final(storage).valid(h)
                &&& h.spec_target() == Target::Dyn
                &&& h.spec_metadata() == Metadata::Table(
                    Layout { size: T::size() as usize, align: T::align() },
                )
                &&& final(storage).contents(h) == value.image()
            },
            Err(e) => if T::size() <= usize::MAX {
                old(storage).single_verdict(
                    Target::Dyn,
                    Metadata::Table(Layout { size: T::size() as usize, align: T::align() }),
                ) == Err::<(), _>(e)
            } else {
                e == StorageError::spec_exceeds_max()
            },
        },
{
    let layout = match T::layout() {
        Some(layout) => layout,
        None => {
            return Err(StorageError::exceeds_max());
        },
    };
    let handle = storage.allocate_single(Target::Dyn, Metadata::Table(layout))?;
    let bytes = value.to_bytes();
    proof {
        storage.lemma_valid(handle);
        value.lemma_image_len();
        assert(overwrite(storage.contents(handle), 0, bytes@) =~= bytes@);
    }
    storage.set(handle, 0, bytes.as_slice());
    Ok(handle)
}

/// Releases the allocation of `handle` in `storage`, as the storage releases.
/// Plain data needs no more than that to be dropped.
pub fn drop_single<S: Storage>(storage: &mut S, handle: S::Handle)
    requires
        old(storage).wf(),
        old(storage).valid(handle),
    ensures
        final(storage).wf(),
        old(storage).releases(handle, *final(storage)),
        forall|other: S::Handle|
            old(storage).valid(other) && S::apart(handle, other) ==> {
                &&& #[trigger] final(storage).valid(other)
                &&& final(storage).contents(other) == old(storage).contents(other)
            },
{
    storage.deallocate_single(handle);
}

/// Reserves space in `storage` for `value`, beside the allocations that are
/// held, and puts the value there. Where the storage refuses, the value comes
/// back with the error.
pub fn create<S: MultiItemStorage, T: Value>(storage: &mut S, value: T) -> (r: Result<
    S::Handle,
    (StorageError, T),
>)
    requires
        old(storage).wf(),
    ensures
        final(storage).wf(),
        r is Ok <==> old(storage).verdict(T::spec_target(), Metadata::Unit) is Ok,
        r matches Err((e, back)) ==> back == value && old(storage).verdict(
            T::spec_target(),
            Metadata::Unit,
        ) == Err::<(), _>(e),
        r matches Ok(h) ==> {
            &&& final(storage).valid(h)
            &&& h.spec_target() == T::spec_target()
            &&& h.spec_metadata() == Metadata::Unit
            &&& final(storage).contents(h) == value.image()
        },
{
    let handle = match storage.allocate(T::target(), Metadata::Unit) {
        Ok(handle) => handle,
        Err(e) => {
            return Err((e, value));
        },
    };
    let bytes = value.to_bytes();
    proof {
        storage.lemma_valid(handle);
        T::lemma_target();
        value.lemma_image_len();
        assert(overwrite(storage.contents(handle), 0, bytes@) =~= bytes@);
    }
    storage.set(handle, 0, bytes.as_slice());
    Ok(handle)
}

/// A storage that can hold several allocations at once.
pub trait MultiItemStorage: Storage {
    /// What `allocate` would answer to a request for `target` with `meta`: that
    /// it can be served, or the error.
    spec fn verdict(&self, target: Target, meta: Metadata) -> Result<(), StorageError>;

    /// Reserves space for what `target` with `meta` describes, beside the
    /// allocations that are held already: every handle that was valid stays
    /// valid and keeps its bytes, and lies apart from the new one.
    fn allocate(&mut self, target: Target, meta: Metadata) -> (r: Result<
        Self::Handle,
        StorageError,
    >)
        requires
            old(self).wf(),
        ensures
            final(self).wf(),
            r is Ok <==> old(self).verdict(target, meta) is Ok,
            r matches Err(e) ==> old(self).verdict(target, meta) == Err::<(), _>(e),
            r matches Ok(h) ==> {
                &&& final(self).valid(h)
                &&& h.spec_target() == target
                &&& h.spec_metadata() == meta
                &&& forall|other: Self::Handle|
                    old(self).valid(other) ==> #[trigger] Self::apart(h, other)
            },
            forall|other: Self::Handle|
                old(self).valid(other) ==> {
                    &&& #[trigger] final(self).valid(other)
                    &&& final(self).contents(other) == old(self).contents(other)
                },
    ;

    /// Releases the allocation of `handle`. What lies apart from it stays as
    /// it is.
    fn deallocate(&mut self, handle: Self::Handle)
        requires
            old(self).wf(),
            old(self).valid(handle),
        ensures
            final(self).wf(),
            old(self).releases(handle, *final(self)),
            forall|other: Self::Handle|
                old(self).valid(other) && Self::apart(handle, other) ==> {
                    &&& #[trigger] final(self).valid(other)
                    &&& final(self).contents(other) == old(self).contents(other)
                },
    ;
}

/// A storage that knows how much it can hold.
pub trait ExactSizeStorage: Storage {
    /// What `will_fit` answers.
    spec fn spec_will_fit(&self, target: Target, meta: Metadata) -> bool;

    /// What `max_range` answers.
    spec fn spec_max_range(&self, elem: Layout) -> usize;

    /// Whether what `target` with `meta` describes is small enough for this
    /// storage. An allocation may still fail for another reason: alignment, or
    /// all the space being in use.
    fn will_fit(&self, target: Target, meta: Metadata) -> (b: bool)
        requires
            self.wf(),
        ensures
            b == self.spec_will_fit(target, meta),
    ;

    /// The largest number of elements of layout `elem` that the storage has room
    /// for.
    fn max_range(&self, elem: Layout) -> (n: usize)
        requires
            self.wf(),
            elem.size > 0,
        ensures
            n == self.spec_max_range(elem),
    ;
}

/// A storage whose handles may be resolved and released through any clone of
/// the storage that gave them out.
pub trait ClonesafeStorage: Storage + Clone {

}

/// A storage whose allocations outlive it: a handle is not invalidated when the
/// storage goes away.
pub trait LeaksafeStorage: Storage {

}

/// A storage that can make a handle again from no more than the address of an
/// allocation that was leaked.
pub trait FromLeakedStorage: LeaksafeStorage {
    /// Whether `addr` is an address that an allocation of this storage, or of
    /// one that shares its memory, can have.
    spec fn leaked_from(&self, addr: <Self::Handle as Handle>::Addr) -> bool;

    /// The handle to the allocation at `addr`, seen as `target` with `meta`.
    fn unleak(&self, addr: <Self::Handle as Handle>::Addr, target: Target, meta: Metadata) -> (h:
        Self::Handle)
        requires
            self.wf(),
            self.leaked_from(addr),
        ensures
            h.spec_addr() == addr,
            h.spec_target() == target,
            h.spec_metadata() == meta,
    ;
}

} // verus!
