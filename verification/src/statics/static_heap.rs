//! A virtual heap over the region of a cell.

use vstd::prelude::*;
use crate::base::{Storage, StorageSafe};
use crate::handles::OffsetMetaHandle;
use crate::heap::VirtHeap;
use crate::statics::traits::{Sealed, StaticStorage};

verus! {

/// A virtual heap of `N` units with the layout of `S` in the region of a cell
/// that backs `[S; N]`. It is made by claiming the cell, and works as every
/// virtual heap does.
pub type StaticHeap<S, const N: usize> = VirtHeap<S, N>;

/// The handles that a static heap gives out.
pub type HeapHandle = OffsetMetaHandle;

impl<S: StorageSafe, const N: usize> Sealed for VirtHeap<S, N> {

}

impl<S: StorageSafe, const N: usize> StaticStorage<[S; N]> for VirtHeap<S, N> {
    /// The units must have a size, and all of them together one that can be
    /// written down.
    open spec fn cell_fits() -> bool {
        S::spec_layout().size > 0 && N * S::spec_layout().size <= usize::MAX
    }

    fn take_cell() -> (storage: VirtHeap<S, N>)
        ensures
            forall|i: int| 0 <= i < N ==> !storage.bitmap()[i],
    {
        VirtHeap::new()
    }
}

} // verus!
