//! A virtual heap behind a lock, for use by several owners at once.
//!
//! The lock is held for the length of one operation, never across two. So what
//! one call has learnt of the heap need not hold at the next: every operation
//! looks at the heap as it finds it, and is safe for every handle.

use vstd::prelude::*;
use crate::base::{MultiItemStorage, Storage, StorageSafe};
use crate::error::StorageError;
use crate::handles::{Handle, Metadata, OffsetMetaHandle, Target};
use crate::heap::VirtHeap;
use crate::bitmap::{count_used, is_first_fit, mark};
use crate::utils::{layout_of, overwrite, spec_layout_of};

verus! {

/// The relax strategy `spin::relax::Spin`, which tells a lock how to wait.
#[verifier::external_type_specification]
#[verifier::external_body]
pub struct ExSpin(spin::relax::Spin);

/// The lock `spin::mutex::Mutex`. Nothing is known of what it holds but its
/// type.
#[verifier::external_type_specification]
#[verifier::external_body]
#[verifier::reject_recursive_types(T)]
#[verifier::reject_recursive_types(R)]
pub struct ExMutex<T: ?Sized, R>(spin::mutex::Mutex<T, R>);

/// The guard `spin::mutex::MutexGuard` of a lock that is held.
#[verifier::external_type_specification]
#[verifier::external_body]
#[verifier::reject_recursive_types(T)]
pub struct ExMutexGuard<'a, T: 'a + ?Sized>(spin::mutex::MutexGuard<'a, T>);

/// Makes a lock around `heap`, with `spin::mutex::Mutex::new`. Nothing is
/// claimed of the lock.
#[verifier::external_body]
fn lock_around<S: StorageSafe, const N: usize>(heap: VirtHeap<S, N>) -> spin::mutex::Mutex<
    VirtHeap<S, N>,
    spin::relax::Spin,
> {
    spin::mutex::Mutex::new(heap)
}

/// Takes the lock, with `spin::mutex::Mutex::lock`; it waits until the lock is
/// free. Nothing is claimed of the heap that the guard leads to: other owners
/// may have changed it at will.
#[verifier::external_body]
fn acquire<'a, S: StorageSafe, const N: usize>(
    lock: &'a spin::mutex::Mutex<VirtHeap<S, N>, spin::relax::Spin>,
) -> spin::mutex::MutexGuard<'a, VirtHeap<S, N>> {
    lock.lock()
}

/// The heap that a guard leads to, with `DerefMut::deref_mut` of
/// `spin::mutex::MutexGuard`. Nothing is claimed of the heap.
#[verifier::external_body]
fn guarded<'a, 'b, S: StorageSafe, const N: usize>(
    guard: &'b mut spin::mutex::MutexGuard<'a, VirtHeap<S, N>>,
) -> &'b mut VirtHeap<S, N> {
    &mut **guard
}

/// What each operation of a shared heap does with the heap that it finds
/// behind the lock. Nothing is taken for granted of that heap or of the handle:
/// what is not in order is refused, and the heap is left as it was.
impl<S: StorageSafe, const N: usize> VirtHeap<S, N> {
    /// Whether the heap is in order and `handle` denotes an allocation of it.
    pub open spec fn holds(&self, handle: OffsetMetaHandle) -> bool {
        self.wf() && self.valid(handle)
    }

    /// Whether `handle` is one of a run that the heap holds.
    pub open spec fn holds_run(&self, handle: OffsetMetaHandle) -> bool {
        &&& self.holds(handle)
        &&& handle.spec_target() is Slice
        &&& handle.spec_metadata() is Len
    }

    /// The heap is the same as `other`, as far as can be seen.
    pub open spec fn same_as(&self, other: Self) -> bool {
        self.bitmap() == other.bitmap() && self.memory() == other.memory()
    }

    /// `allocate_as_found` answers `r` to a request for `target` with `meta`
    /// and leaves the heap as `after`: a heap that is not in order refuses
    /// and stays as it is, and one in order does as `allocate` does.
    pub open spec fn allocate_outcome(
        &self,
        target: Target,
        meta: Metadata,
        r: Result<OffsetMetaHandle, StorageError>,
        after: Self,
    ) -> bool {
        &&& after.memory() == self.memory()
        &&& after.wf() == self.wf()
        &&& if !self.wf() {
            r == Err::<OffsetMetaHandle, _>(StorageError::Unimplemented) && after.bitmap()
                == self.bitmap()
        } else {
            match r {
                Ok(h) => {
                    &&& self.allocation_verdict(target, meta) is Ok
                    &&& h.spec_target() == target
                    &&& h.spec_metadata() == meta
                    &&& after.valid(h)
                    &&& is_first_fit(self.bitmap(), Self::units_of(h), h.spec_offset() as int)
                    &&& after.bitmap() == mark(
                        self.bitmap(),
                        h.spec_offset() as int,
                        Self::units_of(h),
                        true,
                    )
                },
                Err(e) => self.allocation_verdict(target, meta) == Err::<(), _>(e)
                    && after.bitmap() == self.bitmap(),
            }
        }
    }

    /// `release_as_found` answers `released` for `handle` and leaves the heap
    /// as `after`: the units of the handle are given up if the heap holds it,
    /// and else nothing changes.
    pub open spec fn release_outcome(
        &self,
        handle: OffsetMetaHandle,
        released: bool,
        after: Self,
    ) -> bool {
        &&& released == self.holds(handle)
        &&& after.wf() == self.wf()
        &&& after.memory() == self.memory()
        &&& after.bitmap() == if released {
            self.vacated(handle)
        } else {
            self.bitmap()
        }
    }

    /// `read_as_found` answers `r` for `handle`: the bytes of the allocation
    /// if the heap holds the handle, and else nothing.
    pub open spec fn read_outcome(&self, handle: OffsetMetaHandle, r: Option<Vec<u8>>) -> bool {
        &&& r is Some <==> self.holds(handle)
        &&& r matches Some(bytes) ==> bytes@ == self.contents(handle)
    }

    /// `write_as_found` answers `written` to a request to write `data` into
    /// the allocation of `handle` from byte `at` on, and leaves the heap as
    /// `after`: the bytes are written if the heap holds the handle with room
    /// for them, and else nothing changes.
    pub open spec fn write_outcome(
        &self,
        handle: OffsetMetaHandle,
        at: usize,
        data: Seq<u8>,
        written: bool,
        after: Self,
    ) -> bool {
        &&& written == (self.holds(handle) && at + data.len() <= self.contents(handle).len())
        &&& after.wf() == self.wf()
        &&& after.bitmap() == self.bitmap()
        &&& after.memory() == if written {
            overwrite(self.memory(), handle.spec_offset() * Self::unit() + at, data)
        } else {
            self.memory()
        }
        &&& written ==> after.valid(handle) && after.contents(handle) == overwrite(
            self.contents(handle),
            at as int,
            data,
        )
    }

    /// `grow_as_found` answers `r` to a request to grow `handle` to
    /// `capacity` elements and leaves the heap as `after`: a run that the
    /// heap holds and that is no longer than `capacity` grows as `try_grow`
    /// has it, and every other request is refused with the heap left as it
    /// is.
    pub open spec fn grow_outcome(
        &self,
        handle: OffsetMetaHandle,
        capacity: usize,
        r: Result<OffsetMetaHandle, StorageError>,
        after: Self,
    ) -> bool {
        &&& after.wf() == self.wf()
        &&& if !(self.holds_run(handle) && handle.spec_metadata()->Len_0 <= capacity) {
            r == Err::<OffsetMetaHandle, _>(StorageError::Unimplemented) && after.same_as(*self)
        } else {
            match r {
                Err(e) => self.grow_verdict(handle, capacity) == Err::<(), _>(e) && after.same_as(
                    *self,
                ),
                Ok(h) => {
                    &&& self.grow_verdict(handle, capacity) is Ok
                    &&& after.valid(h)
                    &&& h.spec_target() == handle.spec_target()
                    &&& h.spec_metadata() == Metadata::Len(capacity)
                    &&& after.contents(h).subrange(0, self.contents(handle).len() as int)
                        == self.contents(handle)
                    &&& if self.grows_in_place(handle, Self::units_at(handle, capacity)) {
                        &&& h.spec_offset() == handle.spec_offset()
                        &&& after.memory() == self.memory()
                        &&& after.bitmap() == mark(
                            self.bitmap(),
                            handle.spec_offset() + Self::units_of(handle),
                            Self::units_at(handle, capacity) - Self::units_of(handle),
                            true,
                        )
                    } else {
                        &&& is_first_fit(
                            self.vacated(handle),
                            Self::units_at(handle, capacity),
                            h.spec_offset() as int,
                        )
                        &&& after.bitmap() == mark(
                            self.vacated(handle),
                            h.spec_offset() as int,
                            Self::units_at(handle, capacity),
                            true,
                        )
                    }
                },
            }
        }
    }

    /// `shrink_as_found` answers `r` to a request to shrink `handle` to
    /// `capacity` elements and leaves the heap as `after`: a run that the
    /// heap holds and that is no shorter than `capacity` gives up the units
    /// at its end, and every other request is refused with the heap left as
    /// it is.
    pub open spec fn shrink_outcome(
        &self,
        handle: OffsetMetaHandle,
        capacity: usize,
        r: Result<OffsetMetaHandle, StorageError>,
        after: Self,
    ) -> bool {
        &&& after.wf() == self.wf()
        &&& after.memory() == self.memory()
        &&& r is Ok <==> self.holds_run(handle) && capacity <= handle.spec_metadata()->Len_0
        &&& match r {
            Ok(h) => {
                &&& h.spec_offset() == handle.spec_offset()
                &&& h.spec_target() == handle.spec_target()
                &&& h.spec_metadata() == Metadata::Len(capacity)
                &&& after.valid(h)
                &&& after.bitmap() == mark(
                    self.bitmap(),
                    handle.spec_offset() + Self::units_at(handle, capacity),
                    Self::units_of(handle) - Self::units_at(handle, capacity),
                    false,
                )
            },
            Err(e) => e == StorageError::Unimplemented && after.bitmap() == self.bitmap(),
        }
    }

    /// `count_as_found` answers `n`: the number of units in use if the heap
    /// is in order, and else none.
    pub open spec fn count_outcome(&self, n: usize) -> bool {
        n == if self.wf() {
            count_used(self.bitmap())
        } else {
            0
        }
    }

    /// Reserves space as `allocate` does, if the heap is in order; else the
    /// request is refused as one that the heap does not support.
    pub fn allocate_as_found(&mut self, target: Target, meta: Metadata) -> (r: Result<
        OffsetMetaHandle,
        StorageError,
    >)
        ensures
            old(self).allocate_outcome(target, meta, r, *final(self)),
    {
        if !self.check() {
            return Err(StorageError::Unimplemented);
        }
        self.allocate(target, meta)
    }

    /// Releases the allocation of `handle`, if the heap is in order and holds
    /// it; else the heap is left as it is. Tells whether it released.
    pub fn release_as_found(&mut self, handle: OffsetMetaHandle) -> (released: bool)
        ensures
            old(self).release_outcome(handle, released, *final(self)),
    {
        if self.check() && self.is_valid(handle) {
            self.deallocate(handle);
            true
        } else {
            false
        }
    }

    /// A copy of the bytes of the allocation of `handle`, if the heap is in
    /// order and holds it.
    pub fn read_as_found(&self, handle: OffsetMetaHandle) -> (r: Option<Vec<u8>>)
        ensures
            self.read_outcome(handle, r),
    {
        if self.check() && self.is_valid(handle) {
            Some(self.get(handle))
        } else {
            None
        }
    }

    /// Writes `data` into the allocation of `handle`, from byte `at` on, if
    /// the heap is in order and holds it with room for the data; else the heap
    /// is left as it is. Tells whether it wrote.
    pub fn write_as_found(&mut self, handle: OffsetMetaHandle, at: usize, data: &[u8]) -> (written:
        bool)
        ensures
            old(self).write_outcome(handle, at, data@, written, *final(self)),
    {
        if !(self.check() && self.is_valid(handle)) {
            return false;
        }
        proof {
            self.lemma_valid(handle);
        }
        let size = match layout_of(handle.target(), handle.metadata()) {
            Some(layout) => layout.size,
            None => 0,
        };
        if at > size || data.len() > size - at {
            return false;
        }
        self.set(handle, at, data);
        true
    }

    /// Grows the run of `handle` to `capacity` elements as `try_grow` does, if
    /// the heap is in order and holds the run, and the run is no longer than
    /// that; else the request is refused as one that the heap does not
    /// support, and the heap is left as it is.
    pub fn grow_as_found(&mut self, handle: OffsetMetaHandle, capacity: usize) -> (r: Result<
        OffsetMetaHandle,
        StorageError,
    >)
        ensures
            old(self).grow_outcome(handle, capacity, r, *final(self)),
    {
        let fits = match (handle.target(), handle.metadata()) {
            (Target::Slice(_), Metadata::Len(n)) => n <= capacity,
            _ => false,
        };
        if !(fits && self.check() && self.is_valid(handle)) {
            return Err(StorageError::Unimplemented);
        }
        self.try_grow(handle, capacity)
    }

    /// Shrinks the run of `handle` to `capacity` elements as `try_shrink`
    /// does, if the heap is in order and holds the run, and the run is no
    /// shorter than that; else the request is refused as one that the heap
    /// does not support, and the heap is left as it is.
    pub fn shrink_as_found(&mut self, handle: OffsetMetaHandle, capacity: usize) -> (r: Result<
        OffsetMetaHandle,
        StorageError,
    >)
        ensures
            old(self).shrink_outcome(handle, capacity, r, *final(self)),
    {
        let fits = match (handle.target(), handle.metadata()) {
            (Target::Slice(_), Metadata::Len(n)) => capacity <= n,
            _ => false,
        };
        if !(fits && self.check() && self.is_valid(handle)) {
            return Err(StorageError::Unimplemented);
        }
        self.try_shrink(handle, capacity)
    }

    /// The number of units in use, if the heap is in order; else none.
    pub fn count_as_found(&self) -> (n: usize)
        ensures
            self.count_outcome(n),
            n <= N,
    {
        if self.check() {
            proof {
                crate::bitmap::lemma_count_bound(self.bitmap());
            }
            self.used_units()
        } else {
            0
        }
    }
}

/// A virtual heap of `N` units with the layout of `S`, behind a lock. Its
/// operations take a shared reference, so that several owners can allocate
/// from one heap.
///
/// Each operation takes the lock, does with the heap behind it what one of the
/// functions of `VirtHeap` whose names end in `_as_found` does, and gives the
/// lock up. What it returns is what that function returns for the heap that
/// the other owners left: the contracts say so of some heap, since the heap
/// behind the lock cannot be named.
#[verifier::reject_recursive_types(S)]
#[verifier::reject_recursive_types(N)]
pub struct SharedHeap<S: StorageSafe, const N: usize> {
    heap: spin::mutex::Mutex<VirtHeap<S, N>, spin::relax::Spin>,
}

impl<S: StorageSafe, const N: usize> SharedHeap<S, N> {
    /// A heap behind a lock.
    pub fn new(heap: VirtHeap<S, N>) -> SharedHeap<S, N> {
        SharedHeap { heap: lock_around(heap) }
    }

    /// Reserves space for what `target` with `meta` describes. Whatever else
    /// the heap holds, a request that takes more units than the heap has is
    /// refused for want of space, and a handle that is returned lies within
    /// the heap and carries the description.
    pub fn allocate(&self, target: Target, meta: Metadata) -> (r: Result<
        OffsetMetaHandle,
        StorageError,
    >)
        ensures
            r matches Ok(h) ==> {
                &&& h.spec_target() == target
                &&& h.spec_metadata() == meta
                &&& spec_layout_of(target, meta) is Some
                &&& h.spec_offset() + VirtHeap::<S, N>::units_of(h) <= N
            },
            spec_layout_of(target, meta) is None ==> r is Err,
            (spec_layout_of(target, meta) matches Some(layout) && layout.size > N
                * VirtHeap::<S, N>::unit()) ==> r is Err,
            exists|found: VirtHeap<S, N>, left: VirtHeap<S, N>| #[trigger]
                found.allocate_outcome(target, meta, r, left),
    {
        let mut guard = acquire(&self.heap);
        let heap = guarded(&mut guard);
        let ghost found = *heap;
        let r = heap.allocate_as_found(target, meta);
        proof {
            assert(found.allocate_outcome(target, meta, r, *heap));
            if r is Ok {
                heap.lemma_valid(r->Ok_0);
            }
        }
        r
    }

    /// Releases the allocation of `handle`, if the handle denotes one at this
    /// time. Tells whether it did.
    pub fn deallocate(&self, handle: OffsetMetaHandle) -> (released: bool)
        ensures
            released ==> spec_layout_of(handle.spec_target(), handle.spec_metadata()) is Some
                && handle.spec_offset() + VirtHeap::<S, N>::units_of(handle) <= N,
            exists|found: VirtHeap<S, N>, left: VirtHeap<S, N>| #[trigger]
                found.release_outcome(handle, released, left),
    {
        let mut guard = acquire(&self.heap);
        let heap = guarded(&mut guard);
        let ghost found = *heap;
        let released = heap.release_as_found(handle);
        proof {
            assert(found.release_outcome(handle, released, *heap));
        }
        released
    }

    /// Resolves a handle: a copy of the bytes of its allocation, if the
    /// handle denotes one at this time. The copy has as many bytes as the
    /// description of the handle says.
    pub fn get(&self, handle: OffsetMetaHandle) -> (r: Option<Vec<u8>>)
        ensures
            r matches Some(bytes) ==> (spec_layout_of(
                handle.spec_target(),
                handle.spec_metadata(),
            ) matches Some(layout) && bytes@.len() == layout.size),
            exists|found: VirtHeap<S, N>| #[trigger] found.read_outcome(handle, r),
    {
        let mut guard = acquire(&self.heap);
        let heap = guarded(&mut guard);
        let r = heap.read_as_found(handle);
        proof {
            assert(heap.read_outcome(handle, r));
            if r is Some {
                heap.lemma_valid(handle);
            }
        }
        r
    }

    /// Writes `data` into the allocation of `handle`, from byte `at` on, if
    /// the handle denotes an allocation at this time that has room for it.
    /// Tells whether it did.
    pub fn set(&self, handle: OffsetMetaHandle, at: usize, data: &[u8]) -> (written: bool)
        ensures
            written ==> (spec_layout_of(handle.spec_target(), handle.spec_metadata()) matches Some(
                layout,
            ) && at + data@.len() <= layout.size),
            exists|found: VirtHeap<S, N>, left: VirtHeap<S, N>| #[trigger]
                found.write_outcome(handle, at, data@, written, left),
    {
        let mut guard = acquire(&self.heap);
        let heap = guarded(&mut guard);
        let ghost found = *heap;
        proof {
            if heap.holds(handle) {
                heap.lemma_valid(handle);
            }
        }
        let written = heap.write_as_found(handle, at, data);
        proof {
            assert(found.write_outcome(handle, at, data@, written, *heap));
        }
        written
    }

    /// Grows the run of `handle` to `capacity` elements, if the handle is
    /// one of a run that is no longer than that and denotes an allocation at
    /// this time; else the operation is refused as one that the heap does
    /// not support. A handle that is returned lies within the heap and
    /// denotes a run of `capacity` elements.
    pub fn try_grow(&self, handle: OffsetMetaHandle, capacity: usize) -> (r: Result<
        OffsetMetaHandle,
        StorageError,
    >)
        ensures
            r matches Ok(h) ==> {
                &&& h.spec_target() == handle.spec_target()
                &&& h.spec_metadata() == Metadata::Len(capacity)
                &&& spec_layout_of(h.spec_target(), h.spec_metadata()) is Some
                &&& h.spec_offset() + VirtHeap::<S, N>::units_of(h) <= N
            },
            !(handle.spec_target() is Slice) ==> r == Err::<OffsetMetaHandle, _>(
                StorageError::Unimplemented,
            ),
            (handle.spec_metadata() matches Metadata::Len(n) && n > capacity) ==> r == Err::<
                OffsetMetaHandle,
                _,
            >(StorageError::Unimplemented),
            exists|found: VirtHeap<S, N>, left: VirtHeap<S, N>| #[trigger]
                found.grow_outcome(handle, capacity, r, left),
    {
        let mut guard = acquire(&self.heap);
        let heap = guarded(&mut guard);
        let ghost found = *heap;
        let r = heap.grow_as_found(handle, capacity);
        proof {
            assert(found.grow_outcome(handle, capacity, r, *heap));
            if r is Ok {
                heap.lemma_valid(r->Ok_0);
            }
        }
        r
    }

    /// Shrinks the run of `handle` to `capacity` elements, if the handle is
    /// one of a run that is no shorter than that and denotes an allocation
    /// at this time; else the operation is refused as one that the heap does
    /// not support. The handle that is returned has the offset of `handle`.
    pub fn try_shrink(&self, handle: OffsetMetaHandle, capacity: usize) -> (r: Result<
        OffsetMetaHandle,
        StorageError,
    >)
        ensures
            match r {
                Ok(h) => {
                    &&& h.spec_offset() == handle.spec_offset()
                    &&& h.spec_target() == handle.spec_target()
                    &&& h.spec_metadata() == Metadata::Len(capacity)
                },
                Err(e) => e == StorageError::Unimplemented,
            },
            exists|found: VirtHeap<S, N>, left: VirtHeap<S, N>| #[trigger]
                found.shrink_outcome(handle, capacity, r, left),
    {
        let mut guard = acquire(&self.heap);
        let heap = guarded(&mut guard);
        let ghost found = *heap;
        let r = heap.shrink_as_found(handle, capacity);
        proof {
            assert(found.shrink_outcome(handle, capacity, r, *heap));
        }
        r
    }

    /// The number of units in use at this time.
    pub fn used_units(&self) -> (n: usize)
        ensures
            n <= N,
            exists|found: VirtHeap<S, N>| #[trigger] found.count_outcome(n),
    {
        let mut guard = acquire(&self.heap);
        let heap = guarded(&mut guard);
        let n = heap.count_as_found();
        proof {
            assert(heap.count_outcome(n));
        }
        n
    }
}

} // verus!
