//! An inline storage with a single slot.

use core::marker::PhantomData;
use vstd::prelude::*;
use crate::base::{ExactSizeStorage, Storage, StorageSafe};
use crate::error::StorageError;
use crate::handles::{Handle, MetaHandle, Metadata, Target};
use crate::layout::Layout;
use crate::utils::{
    layout_of,
    overwrite,
    read_bytes,
    spec_layout_of,
    spec_validate_layout,
    validate_layout,
    write_bytes,
    zeroed,
};

verus! {

/// Inline storage for one allocation at a time, with the layout of `S`.
///
/// Every handle that it gives out denotes its one slot: a second allocation
/// lies over the first.
pub struct SingleInline<S: StorageSafe> {
    storage: Vec<u8>,
    backing: PhantomData<S>,
}

impl<S: StorageSafe> SingleInline<S> {
    /// The bytes of the slot.
    pub closed spec fn memory(&self) -> Seq<u8> {
        self.storage@
    }

    /// The number of elements of layout `elem` that a slot has room for.
    pub open spec fn room_for(elem: Layout) -> usize {
        (S::spec_layout().size / elem.size) as usize
    }

    /// A new storage. Its slot holds nothing in particular.
    pub fn new() -> (storage: SingleInline<S>)
        ensures
            storage.wf(),
    {
        SingleInline { storage: zeroed(S::layout().size), backing: PhantomData }
    }
}

impl<S: StorageSafe> Storage for SingleInline<S> {
    type Handle = MetaHandle;

    open spec fn wf(&self) -> bool {
        self.memory().len() == S::spec_layout().size
    }

    /// Every handle whose description fits the slot denotes the slot.
    open spec fn valid(&self, handle: MetaHandle) -> bool {
        spec_layout_of(handle.spec_target(), handle.spec_metadata()) matches Some(layout)
            && layout.size <= S::spec_layout().size
    }

    open spec fn contents(&self, handle: MetaHandle) -> Seq<u8> {
        self.memory().subrange(
            0,
            spec_layout_of(handle.spec_target(), handle.spec_metadata()).unwrap().size as int,
        )
    }

    /// A request is served when what it describes fits the slot, whether or
    /// not the slot is taken.
    open spec fn single_verdict(&self, target: Target, meta: Metadata) -> Result<
        (),
        StorageError,
    > {
        spec_validate_layout(target, meta, S::spec_layout())
    }

    /// A run grows as long as it still fits the slot.
    open spec fn grow_verdict(&self, handle: MetaHandle, capacity: usize) -> Result<
        (),
        StorageError,
    > {
        match handle.spec_target()->Slice_0.spec_array(capacity) {
            None => Err(StorageError::spec_exceeds_max()),
            Some(layout) => if layout.size <= S::spec_layout().size {
                Ok(())
            } else {
                Err(
                    StorageError::InsufficientSpace {
                        expected: layout.size,
                        available: Some(Self::room_for(handle.spec_target()->Slice_0)),
                    },
                )
            },
        }
    }

    /// Shrinking never fails.
    open spec fn shrink_verdict(&self, handle: MetaHandle, capacity: usize) -> Result<
        (),
        StorageError,
    > {
        Ok(())
    }

    open spec fn apart(a: MetaHandle, b: MetaHandle) -> bool {
        false
    }

    proof fn lemma_apart_symmetric(a: MetaHandle, b: MetaHandle) {
    }

    /// A release leaves the slot as it is: the storage keeps no record of
    /// whether the slot is taken.
    open spec fn releases(&self, handle: MetaHandle, after: Self) -> bool {
        after.memory() == self.memory()
    }

    proof fn lemma_valid(&self, handle: MetaHandle) {
    }

    proof fn lemma_retarget(&self, handle: MetaHandle, other: MetaHandle) {
    }

    fn is_valid(&self, handle: MetaHandle) -> (ok: bool) {
        match layout_of(handle.target(), handle.metadata()) {
            Some(layout) => layout.size <= S::layout().size,
            None => false,
        }
    }

    fn get(&self, handle: MetaHandle) -> (bytes: Vec<u8>) {
        let size = match layout_of(handle.target(), handle.metadata()) {
            Some(layout) => layout.size,
            None => 0,
        };
        read_bytes(&self.storage, 0, size)
    }

    fn set(&mut self, handle: MetaHandle, at: usize, data: &[u8]) {
        write_bytes(&mut self.storage, at, data);
        assert(self.contents(handle) =~= overwrite(old(self).contents(handle), at as int, data@));
    }

    fn allocate_single(&mut self, target: Target, meta: Metadata) -> (r: Result<
        MetaHandle,
        StorageError,
    >)
        ensures
            final(self).memory() == old(self).memory(),
    {
        validate_layout(target, meta, S::layout())?;
        Ok(MetaHandle::from_metadata(target, meta))
    }

    fn deallocate_single(&mut self, handle: MetaHandle)
        ensures
            final(self).memory() == old(self).memory(),
    {
    }

    fn try_grow(&mut self, handle: MetaHandle, capacity: usize) -> (r: Result<
        MetaHandle,
        StorageError,
    >)
        ensures
            final(self).memory() == old(self).memory(),
    {
        let elem = match handle.target() {
            Target::Slice(elem) => elem,
            _ => Layout { size: 0, align: 1 },
        };
        let new_layout = match elem.array(capacity) {
            Some(layout) => layout,
            None => {
                return Err(StorageError::exceeds_max());
            },
        };

        if self.will_fit(handle.target(), Metadata::Len(capacity)) {
            let grown = MetaHandle::from_metadata(handle.target(), Metadata::Len(capacity));
            proof {
                let n = handle.spec_metadata()->Len_0;
                assert(elem.size * n <= elem.size * capacity) by (nonlinear_arith)
                    requires
                        n <= capacity,
                ;
                assert(self.contents(grown).subrange(0, old(self).contents(handle).len() as int)
                    =~= old(self).contents(handle));
            }
            Ok(grown)
        } else {
            proof {
                assert(elem.size > 0) by (nonlinear_arith)
                    requires
                        elem.size * capacity > 0,
                ;
            }
            Err(
                StorageError::InsufficientSpace {
                    expected: new_layout.size,
                    available: Some(self.max_range(elem)),
                },
            )
        }
    }

    fn try_shrink(&mut self, handle: MetaHandle, capacity: usize) -> (r: Result<
        MetaHandle,
        StorageError,
    >)
        ensures
            final(self).memory() == old(self).memory(),
    {
        let shrunk = MetaHandle::from_metadata(handle.target(), Metadata::Len(capacity));
        proof {
            let elem = handle.spec_target()->Slice_0;
            let n = handle.spec_metadata()->Len_0;
            assert(elem.size * capacity <= elem.size * n) by (nonlinear_arith)
                requires
                    capacity <= n,
            ;
            assert(self.contents(shrunk) =~= old(self).contents(handle).subrange(
                0,
                self.contents(shrunk).len() as int,
            ));
        }
        Ok(shrunk)
    }
}

impl<S: StorageSafe> ExactSizeStorage for SingleInline<S> {
    /// What has a layout of no more bytes than the slot fits.
    open spec fn spec_will_fit(&self, target: Target, meta: Metadata) -> bool {
        spec_layout_of(target, meta) matches Some(layout) && layout.size <= S::spec_layout().size
    }

    open spec fn spec_max_range(&self, elem: Layout) -> usize {
        Self::room_for(elem)
    }

    fn will_fit(&self, target: Target, meta: Metadata) -> (b: bool) {
        match layout_of(target, meta) {
            Some(layout) => S::layout().size >= layout.size,
            None => false,
        }
    }

    fn max_range(&self, elem: Layout) -> (n: usize) {
        S::layout().size / elem.size
    }
}

impl<S: StorageSafe> Clone for SingleInline<S> {
    /// A clone is a new storage: it does not share the slot, and the handles of
    /// the storage that was cloned mean nothing to it.
    fn clone(&self) -> (storage: Self)
        ensures
            storage.wf(),
    {
        SingleInline::new()
    }
}

impl<S: StorageSafe> Default for SingleInline<S> {
    fn default() -> (storage: Self)
        ensures
            storage.wf(),
    {
        SingleInline::new()
    }
}

} // verus!
