//! A storage with several slots over the region of a cell.

use core::marker::PhantomData;
use vstd::prelude::*;
use crate::base::{ExactSizeStorage, MultiItemStorage, Storage, StorageSafe};
use crate::statics::traits::StaticStorage;
use crate::error::StorageError;
use crate::handles::{Handle, Metadata, OffsetMetaHandle, Target};
use crate::layout::Layout;
use crate::utils::{
    layout_of,
    overwrite,
    read_bytes,
    spec_layout_of,
    spec_validate_layout,
    validate_layout,
    write_bytes,
    zeroed,
};

verus! {

/// Storage for up to `N` allocations at a time in the region of a cell that
/// backs `[S; N]`, each in a slot of its own with the layout of `S`. It is made
/// by claiming the cell.
pub struct MultiStatic<S: StorageSafe, const N: usize> {
    used: Vec<bool>,
    storage: Vec<u8>,
    backing: PhantomData<S>,
}

impl<S: StorageSafe, const N: usize> MultiStatic<S, N> {
    /// Which slots are taken.
    pub closed spec fn slots(&self) -> Seq<bool> {
        self.used@
    }

    /// The bytes of all slots, in order.
    pub closed spec fn memory(&self) -> Seq<u8> {
        self.storage@
    }

    /// The size of a slot in bytes.
    pub open spec fn unit() -> int {
        S::spec_layout().size as int
    }

    /// `slot` is the first slot that is free.
    pub open spec fn first_free(&self, slot: int) -> bool {
        &&& 0 <= slot < N
        &&& !self.slots()[slot]
        &&& forall|i: int| 0 <= i < slot ==> self.slots()[i]
    }

    /// Whether what `target` with `meta` describes fits a slot, and if not, why.
    pub open spec fn allocation_verdict(&self, target: Target, meta: Metadata) -> Result<
        (),
        StorageError,
    > {
        match spec_validate_layout(target, meta, S::spec_layout()) {
            Err(e) => Err(e),
            Ok(()) => if exists|i: int| 0 <= i < N && !self.slots()[i] {
                Ok(())
            } else {
                Err(StorageError::NoSlots)
            },
        }
    }

    /// The number of elements of layout `elem` that a slot has room for.
    pub open spec fn room_for(elem: Layout) -> usize {
        (S::spec_layout().size / elem.size) as usize
    }

    /// The slot of a valid handle lies within the memory of the storage.
    pub proof fn lemma_within(&self, handle: OffsetMetaHandle)
        requires
            self.wf(),
            self.valid(handle),
        ensures
            0 <= handle.spec_offset() * Self::unit(),
            handle.spec_offset() * Self::unit() + spec_layout_of(
                handle.spec_target(),
                handle.spec_metadata(),
            ).unwrap().size <= N * Self::unit(),
    {
        let start = handle.spec_offset() as int;
        let u = Self::unit();
        assert(0 <= start * u) by (nonlinear_arith)
            requires
                0 <= start,
                0 <= u,
        ;
        assert(start * u + u <= N * u) by (nonlinear_arith)
            requires
                start + 1 <= N,
                0 <= u,
        ;
    }

    /// The first slot that is free, if there is one.
    pub fn find_free(&self) -> (r: Option<usize>)
        requires
            self.wf(),
        ensures
            match r {
                Some(slot) => self.first_free(slot as int),
                None => forall|i: int| 0 <= i < N ==> self.slots()[i],
            },
    {
        let mut i: usize = 0;
        while i < N
            invariant
                self.wf(),
                i <= N,
                forall|j: int| 0 <= j < i ==> self.used@[j],
            decreases N - i,
        {
            if !self.used[i] {
                return Some(i);
            }
            i += 1;
        }
        None
    }
}

impl<S: StorageSafe, const N: usize> Storage for MultiStatic<S, N> {
    type Handle = OffsetMetaHandle;

    open spec fn wf(&self) -> bool {
        &&& N * Self::unit() <= usize::MAX
        &&& self.slots().len() == N
        &&& self.memory().len() == N * Self::unit()
    }

    /// A handle denotes an allocation when its slot is taken and what it
    /// describes fits a slot.
    open spec fn valid(&self, handle: OffsetMetaHandle) -> bool {
        &&& spec_layout_of(handle.spec_target(), handle.spec_metadata()) matches Some(layout)
            && layout.size <= Self::unit()
        &&& handle.spec_offset() < N
        &&& self.slots()[handle.spec_offset() as int]
    }

    open spec fn contents(&self, handle: OffsetMetaHandle) -> Seq<u8> {
        self.memory().subrange(
            handle.spec_offset() * Self::unit(),
            handle.spec_offset() * Self::unit() + spec_layout_of(
                handle.spec_target(),
                handle.spec_metadata(),
            ).unwrap().size,
        )
    }

    open spec fn single_verdict(&self, target: Target, meta: Metadata) -> Result<
        (),
        StorageError,
    > {
        self.allocation_verdict(target, meta)
    }

    /// A run grows as long as it still fits its slot.
    open spec fn grow_verdict(&self, handle: OffsetMetaHandle, capacity: usize) -> Result<
        (),
        StorageError,
    > {
        match handle.spec_target()->Slice_0.spec_array(capacity) {
            None => Err(StorageError::spec_exceeds_max()),
            Some(layout) => if layout.size <= Self::unit() {
                Ok(())
            } else {
                Err(
                    StorageError::InsufficientSpace {
                        expected: layout.size,
                        available: Some(Self::room_for(handle.spec_target()->Slice_0)),
                    },
                )
            },
        }
    }

    /// Shrinking never fails.
    open spec fn shrink_verdict(&self, handle: OffsetMetaHandle, capacity: usize) -> Result<
        (),
        StorageError,
    > {
        Ok(())
    }

    open spec fn apart(a: OffsetMetaHandle, b: OffsetMetaHandle) -> bool {
        a.spec_offset() != b.spec_offset()
    }

    proof fn lemma_apart_symmetric(a: OffsetMetaHandle, b: OffsetMetaHandle) {
    }

    /// A release frees the slot of the handle, and leaves the memory as it
    /// is.
    open spec fn releases(&self, handle: OffsetMetaHandle, after: Self) -> bool {
        &&& after.slots() == self.slots().update(handle.spec_offset() as int, false)
        &&& after.memory() == self.memory()
    }

    proof fn lemma_valid(&self, handle: OffsetMetaHandle) {
        self.lemma_within(handle);
    }

    proof fn lemma_retarget(&self, handle: OffsetMetaHandle, other: OffsetMetaHandle) {
    }

    fn is_valid(&self, handle: OffsetMetaHandle) -> (ok: bool) {
        match layout_of(handle.target(), handle.metadata()) {
            Some(layout) => layout.size <= S::layout().size && handle.offset() < N
                && self.used[handle.offset()],
            None => false,
        }
    }

    fn get(&self, handle: OffsetMetaHandle) -> (bytes: Vec<u8>) {
        let unit = S::layout().size;
        let size = match layout_of(handle.target(), handle.metadata()) {
            Some(layout) => layout.size,
            None => 0,
        };
        proof {
            self.lemma_within(handle);
        }
        read_bytes(&self.storage, handle.offset() * unit, size)
    }

    fn set(&mut self, handle: OffsetMetaHandle, at: usize, data: &[u8])
        ensures
            final(self).slots() == old(self).slots(),
    {
        let unit = S::layout().size;
        proof {
            self.lemma_within(handle);
        }
        let start = handle.offset() * unit;
        write_bytes(&mut self.storage, start + at, data);
        assert(self.contents(handle) =~= overwrite(old(self).contents(handle), at as int, data@));
        assert forall|other: OffsetMetaHandle|
            old(self).valid(other) && Self::apart(handle, other) implies {
            &&& #[trigger] self.valid(other)
            &&& self.contents(other) == old(self).contents(other)
        } by {
            old(self).lemma_within(other);
            crate::utils::lemma_slots_apart(
                handle.spec_offset() as int,
                other.spec_offset() as int,
                Self::unit(),
            );
            assert(self.contents(other) =~= old(self).contents(other));
        }
        assert forall|t: Target, m: Metadata| #[trigger]
            self.single_verdict(t, m) == old(self).single_verdict(t, m) by {
            assert(self.slots() == old(self).slots());
        }
    }

    fn allocate_single(&mut self, target: Target, meta: Metadata) -> (r: Result<
        OffsetMetaHandle,
        StorageError,
    >)
        ensures
            final(self).memory() == old(self).memory(),
            match r {
                Ok(h) => old(self).first_free(h.spec_offset() as int) && final(self).slots() == old(
                    self,
                ).slots().update(h.spec_offset() as int, true),
                Err(_) => final(self).slots() == old(self).slots(),
            },
    {
        self.allocate(target, meta)
    }

    fn deallocate_single(&mut self, handle: OffsetMetaHandle)
        ensures
            final(self).memory() == old(self).memory(),
            final(self).slots() == old(self).slots().update(handle.spec_offset() as int, false),
    {
        self.deallocate(handle)
    }

    fn try_grow(&mut self, handle: OffsetMetaHandle, capacity: usize) -> (r: Result<
        OffsetMetaHandle,
        StorageError,
    >)
        ensures
            final(self).memory() == old(self).memory(),
            final(self).slots() == old(self).slots(),
            r matches Ok(h) ==> h.spec_offset() == handle.spec_offset(),
    {
        let elem = match handle.target() {
            Target::Slice(elem) => elem,
            _ => Layout { size: 0, align: 1 },
        };
        let new_layout = match elem.array(capacity) {
            Some(layout) => layout,
            None => {
                return Err(StorageError::exceeds_max());
            },
        };

        if self.will_fit(handle.target(), Metadata::Len(capacity)) {
            handle.offset_bound();
            let grown = OffsetMetaHandle::from_offset_meta(
                handle.offset(),
                handle.target(),
                Metadata::Len(capacity),
            );
            proof {
                let n = handle.spec_metadata()->Len_0;
                assert(elem.size * n <= elem.size * capacity) by (nonlinear_arith)
                    requires
                        n <= capacity,
                ;
                self.lemma_within(handle);
                self.lemma_within(grown);
                assert(self.contents(grown).subrange(0, old(self).contents(handle).len() as int)
                    =~= old(self).contents(handle));
            }
            Ok(grown)
        } else {
            proof {
                assert(elem.size > 0) by (nonlinear_arith)
                    requires
                        elem.size * capacity > 0,
                ;
            }
            Err(
                StorageError::InsufficientSpace {
                    expected: new_layout.size,
                    available: Some(self.max_range(elem)),
                },
            )
        }
    }

    fn try_shrink(&mut self, handle: OffsetMetaHandle, capacity: usize) -> (r: Result<
        OffsetMetaHandle,
        StorageError,
    >)
        ensures
            final(self).memory() == old(self).memory(),
            final(self).slots() == old(self).slots(),
            r matches Ok(h) && h.spec_offset() == handle.spec_offset(),
    {
        handle.offset_bound();
        let shrunk = OffsetMetaHandle::from_offset_meta(
            handle.offset(),
            handle.target(),
            Metadata::Len(capacity),
        );
        proof {
            let elem = handle.spec_target()->Slice_0;
            let n = handle.spec_metadata()->Len_0;
            assert(elem.size * capacity <= elem.size * n) by (nonlinear_arith)
                requires
                    capacity <= n,
            ;
            self.lemma_within(handle);
            self.lemma_within(shrunk);
            assert(self.contents(shrunk) =~= old(self).contents(handle).subrange(
                0,
                self.contents(shrunk).len() as int,
            ));
        }
        Ok(shrunk)
    }
}

impl<S: StorageSafe, const N: usize> MultiItemStorage for MultiStatic<S, N> {
    open spec fn verdict(&self, target: Target, meta: Metadata) -> Result<(), StorageError> {
        self.allocation_verdict(target, meta)
    }

    fn allocate(&mut self, target: Target, meta: Metadata) -> (r: Result<
        OffsetMetaHandle,
        StorageError,
    >)
        ensures
            final(self).memory() == old(self).memory(),
            match r {
                Ok(h) => old(self).first_free(h.spec_offset() as int) && final(self).slots() == old(
                    self,
                ).slots().update(h.spec_offset() as int, true),
                Err(_) => final(self).slots() == old(self).slots(),
            },
    {
        validate_layout(target, meta, S::layout())?;

        // Find the first slot that is free
        let pos = match self.find_free() {
            Some(pos) => pos,
            None => {
                return Err(StorageError::NoSlots);
            },
        };

        self.used[pos] = true;

        Ok(OffsetMetaHandle::from_offset_meta(pos, target, meta))
    }

    fn deallocate(&mut self, handle: OffsetMetaHandle)
        ensures
            final(self).memory() == old(self).memory(),
            final(self).slots() == old(self).slots().update(handle.spec_offset() as int, false),
    {
        self.used[handle.offset()] = false;
    }
}

impl<S: StorageSafe, const N: usize> ExactSizeStorage for MultiStatic<S, N> {
    /// What has a layout of no more bytes than a slot fits.
    open spec fn spec_will_fit(&self, target: Target, meta: Metadata) -> bool {
        spec_layout_of(target, meta) matches Some(layout) && layout.size <= Self::unit()
    }

    open spec fn spec_max_range(&self, elem: Layout) -> usize {
        Self::room_for(elem)
    }

    fn will_fit(&self, target: Target, meta: Metadata) -> (b: bool) {
        match layout_of(target, meta) {
            Some(layout) => S::layout().size >= layout.size,
            None => false,
        }
    }

    fn max_range(&self, elem: Layout) -> (n: usize) {
        S::layout().size / elem.size
    }
}

impl<S: StorageSafe, const N: usize> StaticStorage<[S; N]> for MultiStatic<S, N> {
    open spec fn cell_fits() -> bool {
        N * S::spec_layout().size <= usize::MAX
    }

    fn take_cell() -> (storage: MultiStatic<S, N>)
        ensures
            forall|i: int| 0 <= i < N ==> !storage.slots()[i],
    {
        let unit = S::layout().size;
        let mut used: Vec<bool> = Vec::new();
        let mut i: usize = 0;
        while i < N
            invariant
                i <= N,
                used@.len() == i,
                forall|j: int| 0 <= j < i ==> !used@[j],
            decreases N - i,
        {
            used.push(false);
            i += 1;
        }
        assert(N * unit == unit * N) by (nonlinear_arith);
        MultiStatic { used, storage: zeroed(unit * N), backing: PhantomData }
    }
}

} // verus!
