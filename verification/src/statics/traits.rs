//! What a storage has to offer to be made from a claimed cell.

use vstd::prelude::*;
use crate::base::{Storage, StorageSafe};
use crate::statics::multi::MultiStatic;
use crate::statics::single::SingleStatic;

verus! {

/// Marks the storages that can be made from a cell.
pub trait Sealed {

}

impl<S: StorageSafe> Sealed for SingleStatic<S> {

}

impl<S: StorageSafe, const N: usize> Sealed for MultiStatic<S, N> {

}

/// A storage that can be made from a cell that backs `S`.
pub trait StaticStorage<S>: Sealed + Storage {
    /// Whether the region of a cell can be described to this storage: its size
    /// must fit in a `usize`.
    spec fn cell_fits() -> bool;

    /// The storage over the region of a cell that has just been claimed for it.
    fn take_cell() -> (storage: Self)
        requires
            Self::cell_fits(),
        ensures
            storage.wf(),
    ;
}

} // verus!
