//! A storage made of two: it tries to allocate into the first, and falls back
//! to the second where that fails.
//!
//! It serves well to keep small values inline and to put larger ones on the
//! heap.

pub mod addr;

pub use addr::FallbackAddr;

use vstd::prelude::*;
use crate::base::{
    ClonesafeStorage,
    ExactSizeStorage,
    LeaksafeStorage,
    MultiItemStorage,
    Storage,
};
use crate::error::StorageError;
use crate::handles::{Handle, Metadata, Target};
use crate::layout::Layout;
use crate::utils::overwrite;

verus! {

/// A storage that tries one storage first and then falls back to a second.
pub struct FallbackStorage<S1, S2> {
    first: S1,
    second: S2,
}

/// A handle of a fallback storage: a handle of the first storage or one of the
/// second, marked with which of the two gave it out.
#[derive(Debug, PartialEq, Eq)]
#[non_exhaustive]
pub enum FallbackHandle<H1, H2> {
    /// The allocation lies in the first storage.
    First(H1),
    /// The allocation lies in the second storage.
    Second(H2),
}

impl<H1: Copy, H2: Copy> Clone for FallbackHandle<H1, H2> {
    fn clone(&self) -> (out: Self)
        ensures
            out == *self,
    {
        *self
    }
}

impl<H1: Copy, H2: Copy> Copy for FallbackHandle<H1, H2> {

}

impl<H1, H2> FallbackHandle<H1, H2> {
    /// Whether the first storage gave the handle out.
    pub fn is_first(&self) -> (b: bool)
        ensures
            b == (*self is First),
    {
        match self {
            FallbackHandle::First(_) => true,
            FallbackHandle::Second(_) => false,
        }
    }

    /// The handle with what `left` or `right` makes of the handle inside,
    /// whichever is for the storage that gave it out.
    pub fn map<U1, U2, F1: FnOnce(H1) -> U1, F2: FnOnce(H2) -> U2>(
        self,
        left: F1,
        right: F2,
    ) -> (out: FallbackHandle<U1, U2>)
        requires
            self matches FallbackHandle::First(h) ==> left.requires((h,)),
            self matches FallbackHandle::Second(h) ==> right.requires((h,)),
        ensures
            match (self, out) {
                (FallbackHandle::First(h), FallbackHandle::First(mapped)) => left.ensures(
                    (h,),
                    mapped,
                ),
                (FallbackHandle::Second(h), FallbackHandle::Second(mapped)) => right.ensures(
                    (h,),
                    mapped,
                ),
                _ => false,
            },
    {
        match self {
            FallbackHandle::First(h) => FallbackHandle::First(left(h)),
            FallbackHandle::Second(h) => FallbackHandle::Second(right(h)),
        }
    }

    /// Whether the second storage gave the handle out.
    pub fn is_second(&self) -> (b: bool)
        ensures
            b == (*self is Second),
    {
        match self {
            FallbackHandle::First(_) => false,
            FallbackHandle::Second(_) => true,
        }
    }
}

impl<H1: Handle, H2: Handle> Handle for FallbackHandle<H1, H2> {
    type Addr = FallbackAddr<H1::Addr, H2::Addr>;

    open spec fn spec_target(&self) -> Target {
        match *self {
            FallbackHandle::First(h) => h.spec_target(),
            FallbackHandle::Second(h) => h.spec_target(),
        }
    }

    open spec fn spec_metadata(&self) -> Metadata {
        match *self {
            FallbackHandle::First(h) => h.spec_metadata(),
            FallbackHandle::Second(h) => h.spec_metadata(),
        }
    }

    open spec fn spec_addr(&self) -> FallbackAddr<H1::Addr, H2::Addr> {
        match *self {
            FallbackHandle::First(h) => FallbackAddr::First(h.spec_addr()),
            FallbackHandle::Second(h) => FallbackAddr::Second(h.spec_addr()),
        }
    }

    fn from_raw_parts(handle: Self, target: Target, meta: Metadata) -> (h: Self)
        ensures
            h is First <==> handle is First,
    {
        match handle {
            FallbackHandle::First(h) => FallbackHandle::First(H1::from_raw_parts(h, target, meta)),
            FallbackHandle::Second(h) => FallbackHandle::Second(
                H2::from_raw_parts(h, target, meta),
            ),
        }
    }

    fn addr(self) -> (a: FallbackAddr<H1::Addr, H2::Addr>) {
        match self {
            FallbackHandle::First(h) => FallbackAddr::First(h.addr()),
            FallbackHandle::Second(h) => FallbackAddr::Second(h.addr()),
        }
    }

    fn target(self) -> (t: Target) {
        match self {
            FallbackHandle::First(h) => h.target(),
            FallbackHandle::Second(h) => h.target(),
        }
    }

    fn metadata(self) -> (m: Metadata) {
        match self {
            FallbackHandle::First(h) => h.metadata(),
            FallbackHandle::Second(h) => h.metadata(),
        }
    }

    fn cast(self, to: Layout) -> (h: Self)
        ensures
            h is First <==> self is First,
    {
        match self {
            FallbackHandle::First(h) => FallbackHandle::First(h.cast(to)),
            FallbackHandle::Second(h) => FallbackHandle::Second(h.cast(to)),
        }
    }

    fn cast_unsized(self, to: Target) -> (h: Self)
        ensures
            h is First <==> self is First,
    {
        match self {
            FallbackHandle::First(h) => FallbackHandle::First(h.cast_unsized(to)),
            FallbackHandle::Second(h) => FallbackHandle::Second(h.cast_unsized(to)),
        }
    }

    fn coerce(self, to: Target) -> (h: Self)
        ensures
            h is First <==> self is First,
    {
        match self {
            FallbackHandle::First(h) => FallbackHandle::First(h.coerce(to)),
            FallbackHandle::Second(h) => FallbackHandle::Second(h.coerce(to)),
        }
    }
}

impl<S1, S2> FallbackStorage<S1, S2> {
    /// The storage that is tried first.
    pub closed spec fn first(&self) -> S1 {
        self.first
    }

    /// The storage that is fallen back to.
    pub closed spec fn second(&self) -> S2 {
        self.second
    }

    /// A fallback storage made of the two storages to use.
    pub fn new(first: S1, second: S2) -> (storage: FallbackStorage<S1, S2>)
        ensures
            storage.first() == first,
            storage.second() == second,
    {
        FallbackStorage { first, second }
    }

    /// The two storages that this one was made of.
    pub fn decompose(self) -> (parts: (S1, S2))
        ensures
            parts.0 == self.first(),
            parts.1 == self.second(),
    {
        (self.first, self.second)
    }
}

impl<S1: Storage, S2: Storage> FallbackStorage<S1, S2> {
    /// What a request for `target` with `meta` comes to: it is served if the
    /// first storage serves it, and else it fares as the second storage
    /// decides.
    pub open spec fn allocation_verdict(&self, target: Target, meta: Metadata) -> Result<
        (),
        StorageError,
    > {
        match self.first().single_verdict(target, meta) {
            Ok(()) => Ok(()),
            Err(_) => self.second().single_verdict(target, meta),
        }
    }
}

impl<S1: Clone, S2: Clone> Clone for FallbackStorage<S1, S2> {
    fn clone(&self) -> Self {
        FallbackStorage { first: self.first.clone(), second: self.second.clone() }
    }
}

impl<S1: Default, S2: Default> Default for FallbackStorage<S1, S2> {
    fn default() -> Self {
        FallbackStorage { first: S1::default(), second: S2::default() }
    }
}

impl<S1: Storage, S2: Storage> Storage for FallbackStorage<S1, S2> {
    type Handle = FallbackHandle<S1::Handle, S2::Handle>;

    open spec fn wf(&self) -> bool {
        self.first().wf() && self.second().wf()
    }

    open spec fn valid(&self, handle: Self::Handle) -> bool {
        match handle {
            FallbackHandle::First(h) => self.first().valid(h),
            FallbackHandle::Second(h) => self.second().valid(h),
        }
    }

    open spec fn contents(&self, handle: Self::Handle) -> Seq<u8> {
        match handle {
            FallbackHandle::First(h) => self.first().contents(h),
            FallbackHandle::Second(h) => self.second().contents(h),
        }
    }

    open spec fn single_verdict(&self, target: Target, meta: Metadata) -> Result<
        (),
        StorageError,
    > {
        self.allocation_verdict(target, meta)
    }

    /// A run of the first storage grows there if it can, and else moves to
    /// the second if that can allocate the longer run. A run of the second
    /// storage grows there or not at all.
    open spec fn grow_verdict(&self, handle: Self::Handle, capacity: usize) -> Result<
        (),
        StorageError,
    > {
        match handle {
            FallbackHandle::First(h) => match self.first().grow_verdict(h, capacity) {
                Ok(()) => Ok(()),
                Err(_) => self.second().single_verdict(h.spec_target(), Metadata::Len(capacity)),
            },
            FallbackHandle::Second(h) => self.second().grow_verdict(h, capacity),
        }
    }

    open spec fn shrink_verdict(&self, handle: Self::Handle, capacity: usize) -> Result<
        (),
        StorageError,
    > {
        match handle {
            FallbackHandle::First(h) => self.first().shrink_verdict(h, capacity),
            FallbackHandle::Second(h) => self.second().shrink_verdict(h, capacity),
        }
    }

    /// Allocations of different storages lie apart; those of one storage as
    /// that storage says.
    open spec fn apart(a: Self::Handle, b: Self::Handle) -> bool {
        match (a, b) {
            (FallbackHandle::First(a), FallbackHandle::First(b)) => S1::apart(a, b),
            (FallbackHandle::Second(a), FallbackHandle::Second(b)) => S2::apart(a, b),
            _ => true,
        }
    }

    proof fn lemma_apart_symmetric(a: Self::Handle, b: Self::Handle) {
        match (a, b) {
            (FallbackHandle::First(a), FallbackHandle::First(b)) => S1::lemma_apart_symmetric(
                a,
                b,
            ),
            (FallbackHandle::Second(a), FallbackHandle::Second(b)) => S2::lemma_apart_symmetric(
                a,
                b,
            ),
            _ => {},
        }
    }

    /// A release is a release in the storage that gave the handle out, and
    /// leaves the other storage as it is.
    open spec fn releases(&self, handle: Self::Handle, after: Self) -> bool {
        match handle {
            FallbackHandle::First(h) => self.first().releases(h, after.first()) && after.second()
                == self.second(),
            FallbackHandle::Second(h) => self.second().releases(h, after.second())
                && after.first() == self.first(),
        }
    }

    proof fn lemma_valid(&self, handle: Self::Handle) {
        match handle {
            FallbackHandle::First(h) => self.first().lemma_valid(h),
            FallbackHandle::Second(h) => self.second().lemma_valid(h),
        }
    }

    proof fn lemma_retarget(&self, handle: Self::Handle, other: Self::Handle) {
        match (handle, other) {
            (FallbackHandle::First(a), FallbackHandle::First(b)) => self.first().lemma_retarget(
                a,
                b,
            ),
            (FallbackHandle::Second(a), FallbackHandle::Second(b)) => self.second().lemma_retarget(
                a,
                b,
            ),
            _ => {},
        }
    }

    fn is_valid(&self, handle: Self::Handle) -> (ok: bool) {
        match handle {
            FallbackHandle::First(handle) => self.first.is_valid(handle),
            FallbackHandle::Second(handle) => self.second.is_valid(handle),
        }
    }

    fn get(&self, handle: Self::Handle) -> (bytes: Vec<u8>) {
        match handle {
            FallbackHandle::First(handle) => self.first.get(handle),
            FallbackHandle::Second(handle) => self.second.get(handle),
        }
    }

    fn set(&mut self, handle: Self::Handle, at: usize, data: &[u8])
        ensures
            handle is First ==> final(self).second() == old(self).second(),
            handle is Second ==> final(self).first() == old(self).first(),
    {
        match handle {
            FallbackHandle::First(handle) => self.first.set(handle, at, data),
            FallbackHandle::Second(handle) => self.second.set(handle, at, data),
        }
    }

    fn allocate_single(&mut self, target: Target, meta: Metadata) -> (r: Result<
        Self::Handle,
        StorageError,
    >)
        ensures
            r matches Ok(h) ==> (h is First <==> old(self).first().single_verdict(target, meta)
                is Ok),
            r matches Ok(h) && h is First ==> final(self).second() == old(self).second(),
    {
        match self.first.allocate_single(target, meta) {
            Ok(handle) => Ok(FallbackHandle::First(handle)),
            Err(_) => match self.second.allocate_single(target, meta) {
                Ok(handle) => Ok(FallbackHandle::Second(handle)),
                Err(e) => Err(e),
            },
        }
    }

    fn deallocate_single(&mut self, handle: Self::Handle)
        ensures
            handle is First ==> final(self).second() == old(self).second(),
            handle is Second ==> final(self).first() == old(self).first(),
    {
        match handle {
            FallbackHandle::First(handle) => self.first.deallocate_single(handle),
            FallbackHandle::Second(handle) => self.second.deallocate_single(handle),
        }
    }

    fn try_grow(&mut self, handle: Self::Handle, capacity: usize) -> (r: Result<
        Self::Handle,
        StorageError,
    >)
        ensures
            handle is Second ==> final(self).first() == old(self).first() && (r matches Ok(h)
                ==> h is Second),
            handle matches FallbackHandle::First(inner) ==> (r matches Ok(h) ==> (h is First
                <==> old(self).first().grow_verdict(inner, capacity) is Ok)),
    {
        match handle {
            FallbackHandle::First(handle) => {
                match self.first.try_grow(handle, capacity) {
                    Ok(grown) => {
                        return Ok(FallbackHandle::First(grown));
                    },
                    Err(_) => {},
                }

                let kept = self.first.get(handle);

                let new_handle = match self.second.allocate_single(
                    handle.target(),
                    Metadata::Len(capacity),
                ) {
                    Ok(new_handle) => new_handle,
                    Err(e) => {
                        return Err(e);
                    },
                };
                proof {
                    self.first.lemma_valid(handle);
                    self.second.lemma_valid(new_handle);
                    let elem = handle.spec_target()->Slice_0;
                    let n = handle.spec_metadata()->Len_0;
                    assert(elem.size * n <= elem.size * capacity) by (nonlinear_arith)
                        requires
                            n <= capacity,
                    ;
                }
                let ghost before = self.second.contents(new_handle);
                self.second.set(new_handle, 0, kept.as_slice());
                proof {
                    assert(overwrite(before, 0, kept@).subrange(0, kept@.len() as int) =~= kept@);
                }

                self.first.deallocate_single(handle);

                Ok(FallbackHandle::Second(new_handle))
            },
            FallbackHandle::Second(handle) => match self.second.try_grow(handle, capacity) {
                Ok(grown) => Ok(FallbackHandle::Second(grown)),
                Err(e) => Err(e),
            },
        }
    }

    fn try_shrink(&mut self, handle: Self::Handle, capacity: usize) -> (r: Result<
        Self::Handle,
        StorageError,
    >)
        ensures
            handle is First ==> final(self).second() == old(self).second(),
            handle is Second ==> final(self).first() == old(self).first(),
            r matches Ok(h) ==> (h is First <==> handle is First),
    {
        match handle {
            FallbackHandle::First(handle) => match self.first.try_shrink(handle, capacity) {
                Ok(shrunk) => Ok(FallbackHandle::First(shrunk)),
                Err(e) => Err(e),
            },
            FallbackHandle::Second(handle) => match self.second.try_shrink(handle, capacity) {
                Ok(shrunk) => Ok(FallbackHandle::Second(shrunk)),
                Err(e) => Err(e),
            },
        }
    }
}

impl<S1: MultiItemStorage, S2: MultiItemStorage> MultiItemStorage for FallbackStorage<S1, S2> {
    /// A request is served if the first storage serves it, and else it fares
    /// as the second storage decides.
    open spec fn verdict(&self, target: Target, meta: Metadata) -> Result<(), StorageError> {
        match self.first().verdict(target, meta) {
            Ok(()) => Ok(()),
            Err(_) => self.second().verdict(target, meta),
        }
    }

    fn allocate(&mut self, target: Target, meta: Metadata) -> (r: Result<
        Self::Handle,
        StorageError,
    >)
        ensures
            r matches Ok(h) ==> (h is First <==> old(self).first().verdict(target, meta) is Ok),
            r matches Ok(h) && h is First ==> final(self).second() == old(self).second(),
    {
        match self.first.allocate(target, meta) {
            Ok(handle) => Ok(FallbackHandle::First(handle)),
            Err(_) => match self.second.allocate(target, meta) {
                Ok(handle) => Ok(FallbackHandle::Second(handle)),
                Err(e) => Err(e),
            },
        }
    }

    fn deallocate(&mut self, handle: Self::Handle)
        ensures
            handle is First ==> final(self).second() == old(self).second(),
            handle is Second ==> final(self).first() == old(self).first(),
    {
        match handle {
            FallbackHandle::First(handle) => self.first.deallocate(handle),
            FallbackHandle::Second(handle) => self.second.deallocate(handle),
        }
    }
}

impl<S1: ExactSizeStorage, S2: ExactSizeStorage> ExactSizeStorage for FallbackStorage<S1, S2> {
    /// What fits one of the two storages fits.
    open spec fn spec_will_fit(&self, target: Target, meta: Metadata) -> bool {
        self.first().spec_will_fit(target, meta) || self.second().spec_will_fit(target, meta)
    }

    /// The longer of the runs that the two storages have room for.
    open spec fn spec_max_range(&self, elem: Layout) -> usize {
        if self.first().spec_max_range(elem) >= self.second().spec_max_range(elem) {
            self.first().spec_max_range(elem)
        } else {
            self.second().spec_max_range(elem)
        }
    }

    fn will_fit(&self, target: Target, meta: Metadata) -> (b: bool) {
        self.first.will_fit(target, meta) || self.second.will_fit(target, meta)
    }

    fn max_range(&self, elem: Layout) -> (n: usize) {
        let first = self.first.max_range(elem);
        let second = self.second.max_range(elem);
        if first >= second {
            first
        } else {
            second
        }
    }
}

impl<S1: ClonesafeStorage, S2: ClonesafeStorage> ClonesafeStorage for FallbackStorage<S1, S2> {

}

impl<S1: LeaksafeStorage, S2: LeaksafeStorage> LeaksafeStorage for FallbackStorage<S1, S2> {

}

} // verus!
