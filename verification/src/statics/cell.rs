//! The cell that guards a region: it can be claimed by one storage at a time.

use core::marker::PhantomData;
use vstd::prelude::*;
use crate::statics::traits::StaticStorage;

verus! {

/// A cell for a region that backs `S`. A storage is made by claiming the cell,
/// and no second storage can be made until the claim is released: so no two
/// storages ever work on the same region.
pub struct StorageCell<S> {
    claimed: bool,
    backing: PhantomData<S>,
}

impl<S> StorageCell<S> {
    /// Whether a storage holds the claim.
    pub closed spec fn is_claimed(&self) -> bool {
        self.claimed
    }

    /// A new cell, which nothing has claimed.
    pub fn new() -> (cell: StorageCell<S>)
        ensures
            !cell.is_claimed(),
    {
        StorageCell { claimed: false, backing: PhantomData }
    }

    /// Whether a storage holds the claim.
    pub fn claimed(&self) -> (b: bool)
        ensures
            b == self.is_claimed(),
    {
        self.claimed
    }

    /// Claims the cell if it is free, and gives the storage made over it; gives
    /// nothing if the cell is claimed already.
    pub fn try_claim<T: StaticStorage<S>>(&mut self) -> (r: Option<T>)
        requires
            T::cell_fits(),
        ensures
            final(self).is_claimed(),
            r is Some <==> !old(self).is_claimed(),
            r matches Some(storage) ==> storage.wf(),
    {
        if self.inner_try_claim() {
            Some(T::take_cell())
        } else {
            None
        }
    }

    /// Claims the cell, which must be free, and gives the storage made over it.
    pub fn claim<T: StaticStorage<S>>(&mut self) -> (storage: T)
        requires
            T::cell_fits(),
            !old(self).is_claimed(),
        ensures
            final(self).is_claimed(),
            storage.wf(),
    {
        self.claimed = true;
        T::take_cell()
    }

    /// Gives up the claim on the cell, which must be claimed. The storage that
    /// was made over it is not to be used again.
    pub fn release(&mut self)
        requires
            old(self).is_claimed(),
        ensures
            !final(self).is_claimed(),
    {
        self.inner_try_release();
    }

    /// Sets the claim if the cell is free. Tells whether it did.
    pub fn inner_try_claim(&mut self) -> (won: bool)
        ensures
            won == !old(self).is_claimed(),
            final(self).is_claimed(),
    {
        if self.claimed {
            false
        } else {
            self.claimed = true;
            true
        }
    }

    /// Clears the claim if the cell is claimed. Tells whether it did.
    pub fn inner_try_release(&mut self) -> (done: bool)
        ensures
            done == old(self).is_claimed(),
            !final(self).is_claimed(),
    {
        if self.claimed {
            self.claimed = false;
            true
        } else {
            false
        }
    }
}

impl<S> Default for StorageCell<S> {
    fn default() -> (cell: StorageCell<S>)
        ensures
            !cell.is_claimed(),
    {
        StorageCell::new()
    }
}

} // verus!
