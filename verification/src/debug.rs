//! A storage that wraps another and keeps a ledger of the handles it gave out,
//! to tell the usual ways of misusing a storage.
//!
//! The ledger knows handles by a number that it gives each allocation, never by
//! where the allocation lies: a storage may give the same place out again.

use vstd::prelude::*;
use crate::base::{ExactSizeStorage, MultiItemStorage, Storage};
use crate::error::StorageError;
use crate::handles::{Handle, Metadata, Target};
use crate::layout::Layout;

verus! {

/// A way of misusing a storage that the ledger can tell.
#[derive(Debug, Clone, Copy, PartialEq, Eq, Structural)]
pub enum Misuse {
    /// A single allocation is held, and was accessed with a handle that is not
    /// the one it was given.
    WrongSingleHandle,
    /// An allocation was accessed with a handle that was released.
    AccessReleased,
    /// An allocation was accessed with a handle that this storage never gave
    /// out.
    AccessUnknown,
    /// A single allocation was asked for while one is held: it might overwrite
    /// the one that is held.
    DoubleAllocate,
    /// A handle was released twice.
    DoubleFree,
    /// A handle was released that holds no allocation of this storage.
    ReleaseUnallocated,
}

/// What the ledger holds.
pub struct Ledger {
    /// The number of the single allocation that is held, if one is.
    pub single: Option<usize>,
    /// The number that the next allocation gets.
    pub next_id: usize,
    /// The numbers of the allocations that are held, oldest first.
    pub allocated: Seq<usize>,
    /// The numbers of the allocations that were released, oldest first.
    pub deallocated: Seq<usize>,
}

impl Ledger {
    /// Every number on the ledger was given out: it is below the next one.
    pub open spec fn wf(self) -> bool {
        &&& forall|i: int| 0 <= i < self.allocated.len() ==> self.allocated[i] < self.next_id
        &&& forall|i: int| 0 <= i < self.deallocated.len() ==> self.deallocated[i] < self.next_id
    }

    /// What is wrong with resolving the handle numbered `id`, if anything. A
    /// mismatch with the single allocation is told first, then a handle that
    /// was released, then one that was never given out.
    pub open spec fn get_diagnostic(self, id: usize) -> Option<Misuse> {
        if self.single is Some && self.single != Some(id) {
            Some(Misuse::WrongSingleHandle)
        } else if self.deallocated.contains(id) {
            Some(Misuse::AccessReleased)
        } else if !self.allocated.contains(id) {
            Some(Misuse::AccessUnknown)
        } else {
            None
        }
    }

    /// What is wrong with allocating now, if anything: a single allocation
    /// must not be asked for while one is held.
    pub open spec fn alloc_diagnostic(self, single: bool) -> Option<Misuse> {
        if single && self.single is Some {
            Some(Misuse::DoubleAllocate)
        } else {
            None
        }
    }

    /// What is wrong with releasing the handle numbered `id`, if anything: it
    /// must not have been released before, and it must be held.
    pub open spec fn dealloc_diagnostic(self, single: bool, id: usize) -> Option<Misuse> {
        if self.deallocated.contains(id) {
            Some(Misuse::DoubleFree)
        } else if !self.allocated.contains(id) || (single && self.single is None) {
            Some(Misuse::ReleaseUnallocated)
        } else {
            None
        }
    }

    /// The ledger after an allocation: it got the next number.
    pub open spec fn after_alloc(self, single: bool) -> Ledger {
        Ledger {
            single: if single {
                Some(self.next_id)
            } else {
                self.single
            },
            next_id: (self.next_id + 1) as usize,
            allocated: self.allocated.push(self.next_id),
            deallocated: self.deallocated,
        }
    }

    /// The ledger after the release of the handle numbered `id`.
    pub open spec fn after_dealloc(self, single: bool, id: usize) -> Ledger {
        Ledger {
            single: if single {
                None
            } else {
                self.single
            },
            next_id: self.next_id,
            allocated: self.allocated.remove_value(id),
            deallocated: self.deallocated.push(id),
        }
    }

    /// An allocation keeps the ledger in order as long as numbers are left.
    pub proof fn lemma_alloc_keeps_wf(self, single: bool)
        requires
            self.wf(),
            self.next_id < usize::MAX,
        ensures
            self.after_alloc(single).wf(),
    {
    }

    /// A release that nothing is wrong with keeps the ledger in order.
    pub proof fn lemma_dealloc_keeps_wf(self, single: bool, id: usize)
        requires
            self.wf(),
            self.dealloc_diagnostic(single, id) is None,
        ensures
            self.after_dealloc(single, id).wf(),
    {
        self.allocated.index_of_first_ensures(id);
        let at = self.allocated.index_of_first(id).unwrap();
        let after = self.after_dealloc(single, id);
        assert forall|i: int| 0 <= i < after.allocated.len() implies after.allocated[i]
            < after.next_id by {
            if i < at {
                assert(after.allocated[i] == self.allocated[i]);
            } else {
                assert(after.allocated[i] == self.allocated[i + 1]);
            }
        }
    }

    /// The handle that an allocation has just returned can be released: nothing
    /// is wrong with that. It can be resolved too, unless it is not the single
    /// allocation while one is held. Once it has been released, releasing it
    /// again is a double free, and resolving it is wrong too.
    pub proof fn lemma_double_free(self, single: bool)
        requires
            self.wf(),
            self.next_id < usize::MAX,
            self.alloc_diagnostic(single) is None,
        ensures
            ({
                let id = self.next_id;
                let held = self.after_alloc(single);
                let released = held.after_dealloc(single, id);
                &&& single || self.single is None ==> held.get_diagnostic(id) is None
                &&& held.dealloc_diagnostic(single, id) is None
                &&& released.dealloc_diagnostic(single, id) == Some(Misuse::DoubleFree)
                &&& released.get_diagnostic(id) is Some
            }),
    {
        let id = self.next_id;
        let held = self.after_alloc(single);
        assert(held.allocated[self.allocated.len() as int] == id);
        assert(!held.deallocated.contains(id));
        let released = held.after_dealloc(single, id);
        assert(released.deallocated[held.deallocated.len() as int] == id);
    }

    /// Once a handle has been released, releasing it again is told as a
    /// double free, and resolving it is told as wrong, whatever else happens
    /// to the ledger in between.
    pub proof fn lemma_released_is_told(self, single: bool, id: usize, again: bool)
        ensures
            self.after_dealloc(single, id).dealloc_diagnostic(again, id) == Some(
                Misuse::DoubleFree,
            ),
            self.after_dealloc(single, id).get_diagnostic(id) is Some,
            self.after_dealloc(single, id).after_alloc(again).dealloc_diagnostic(again, id)
                == Some(Misuse::DoubleFree),
    {
        let released = self.after_dealloc(single, id);
        assert(released.deallocated[self.deallocated.len() as int] == id);
    }

    /// While a single allocation is held, asking for another is told as wrong,
    /// and it stays so until the one that is held is released.
    pub proof fn lemma_single_overwrite(self)
        requires
            self.alloc_diagnostic(true) is None,
        ensures
            self.after_alloc(true).alloc_diagnostic(true) == Some(Misuse::DoubleAllocate),
            self.after_alloc(true).after_dealloc(true, self.next_id).alloc_diagnostic(true)
                is None,
    {
    }
}

/// The ledger of a debug storage.
pub struct DebugState {
    single_allocated: Option<usize>,
    id: usize,
    allocated_handles: Vec<usize>,
    deallocated_handles: Vec<usize>,
}

/// Whether `id` is among `ids`.
pub fn contains(ids: &Vec<usize>, id: usize) -> (found: bool)
    ensures
        found == ids@.contains(id),
{
    position(ids, id).is_some()
}

/// Where `id` stands first among `ids`, if it is among them.
pub fn position(ids: &Vec<usize>, id: usize) -> (at: Option<usize>)
    ensures
        match at {
            Some(i) => i < ids@.len() && ids@[i as int] == id && ids@.index_of_first(id) == Some(
                i as int,
            ),
            None => !ids@.contains(id),
        },
{
    let mut i: usize = 0;
    while i < ids.len()
        invariant
            i <= ids@.len(),
            forall|j: int| 0 <= j < i ==> ids@[j] != id,
        decreases ids@.len() - i,
    {
        if ids[i] == id {
            proof {
                assert(ids@.contains(id));
                ids@.index_of_first_ensures(id);
            }
            return Some(i);
        }
        i += 1;
    }
    None
}

impl View for DebugState {
    type V = Ledger;

    closed spec fn view(&self) -> Ledger {
        Ledger {
            single: self.single_allocated,
            next_id: self.id,
            allocated: self.allocated_handles@,
            deallocated: self.deallocated_handles@,
        }
    }
}

impl DebugState {
    /// An empty ledger.
    pub fn new() -> (state: DebugState)
        ensures
            state@.wf(),
            state@.single is None,
            state@.next_id == 0,
            state@.allocated.len() == 0,
            state@.deallocated.len() == 0,
    {
        DebugState {
            single_allocated: None,
            id: 0,
            allocated_handles: Vec::new(),
            deallocated_handles: Vec::new(),
        }
    }

    /// Whether a number is left for another allocation.
    pub fn ids_left(&self) -> (left: bool)
        ensures
            left == (self@.next_id < usize::MAX),
    {
        self.id < usize::MAX
    }

    /// What is wrong with resolving the handle numbered `id`, if anything.
    pub fn validate_get(&self, id: usize) -> (r: Result<(), Misuse>)
        ensures
            match r {
                Ok(()) => self@.get_diagnostic(id) is None,
                Err(misuse) => self@.get_diagnostic(id) == Some(misuse),
            },
    {
        if let Some(alloc_id) = self.single_allocated {
            if alloc_id != id {
                return Err(Misuse::WrongSingleHandle);
            }
        }
        if contains(&self.deallocated_handles, id) {
            return Err(Misuse::AccessReleased);
        }
        if !contains(&self.allocated_handles, id) {
            return Err(Misuse::AccessUnknown);
        }
        Ok(())
    }

    /// What is wrong with allocating now, if anything.
    pub fn check_alloc(&self, single: bool) -> (r: Result<(), Misuse>)
        ensures
            match r {
                Ok(()) => self@.alloc_diagnostic(single) is None,
                Err(misuse) => self@.alloc_diagnostic(single) == Some(misuse),
            },
    {
        if single && self.single_allocated.is_some() {
            Err(Misuse::DoubleAllocate)
        } else {
            Ok(())
        }
    }

    /// What is wrong with releasing the handle numbered `id`, if anything.
    pub fn check_dealloc(&self, single: bool, id: usize) -> (r: Result<(), Misuse>)
        ensures
            match r {
                Ok(()) => self@.dealloc_diagnostic(single, id) is None,
                Err(misuse) => self@.dealloc_diagnostic(single, id) == Some(misuse),
            },
    {
        if contains(&self.deallocated_handles, id) {
            return Err(Misuse::DoubleFree);
        }
        if !contains(&self.allocated_handles, id) {
            return Err(Misuse::ReleaseUnallocated);
        }
        if single && self.single_allocated.is_none() {
            return Err(Misuse::ReleaseUnallocated);
        }
        Ok(())
    }

    /// Enters an allocation into the ledger and gives its number, unless
    /// something is wrong with allocating now: then the ledger is left as it
    /// is.
    pub fn validate_alloc(&mut self, single: bool) -> (r: Result<usize, Misuse>)
        requires
            old(self)@.next_id < usize::MAX,
        ensures
            match r {
                Ok(id) => {
                    &&& old(self)@.alloc_diagnostic(single) is None
                    &&& id == old(self)@.next_id
                    &&& final(self)@ == old(self)@.after_alloc(single)
                },
                Err(misuse) => {
                    &&& old(self)@.alloc_diagnostic(single) == Some(misuse)
                    &&& final(self)@ == old(self)@
                },
            },
            old(self)@.wf() ==> final(self)@.wf(),
    {
        self.check_alloc(single)?;
        Ok(self.record_alloc(single))
    }

    /// Enters an allocation into the ledger and gives its number.
    pub fn record_alloc(&mut self, single: bool) -> (id: usize)
        requires
            old(self)@.next_id < usize::MAX,
        ensures
            id == old(self)@.next_id,
            final(self)@ == old(self)@.after_alloc(single),
            old(self)@.wf() ==> final(self)@.wf(),
    {
        let id = self.id;
        self.id += 1;

        if single {
            self.single_allocated = Some(id);
        }
        self.allocated_handles.push(id);
        proof {
            if old(self)@.wf() {
                old(self)@.lemma_alloc_keeps_wf(single);
            }
        }
        id
    }

    /// Moves the handle numbered `id` from the allocations that are held to
    /// those that were released, unless something is wrong with releasing it:
    /// then the ledger is left as it is.
    pub fn validate_dealloc(&mut self, single: bool, id: usize) -> (r: Result<(), Misuse>)
        ensures
            match r {
                Ok(()) => {
                    &&& old(self)@.dealloc_diagnostic(single, id) is None
                    &&& final(self)@ == old(self)@.after_dealloc(single, id)
                },
                Err(misuse) => {
                    &&& old(self)@.dealloc_diagnostic(single, id) == Some(misuse)
                    &&& final(self)@ == old(self)@
                },
            },
            old(self)@.wf() ==> final(self)@.wf(),
    {
        self.check_dealloc(single, id)?;
        self.record_dealloc(single, id);
        Ok(())
    }

    /// Moves the handle numbered `id` from the allocations that are held to
    /// those that were released.
    pub fn record_dealloc(&mut self, single: bool, id: usize)
        requires
            old(self)@.dealloc_diagnostic(single, id) is None,
        ensures
            final(self)@ == old(self)@.after_dealloc(single, id),
            old(self)@.wf() ==> final(self)@.wf(),
    {
        if single {
            self.single_allocated = None;
        }
        match position(&self.allocated_handles, id) {
            Some(pos) => {
                self.allocated_handles.remove(pos);
            },
            None => {},
        }
        self.deallocated_handles.push(id);
        proof {
            if old(self)@.wf() {
                old(self)@.lemma_dealloc_keeps_wf(single, id);
            }
        }
    }
}

/// A handle of a debug storage: a handle of the storage inside, with the number
/// that the ledger gave the allocation.
#[derive(Debug)]
pub struct DebugHandle<H> {
    id: usize,
    handle: H,
}

impl<H: Copy> Clone for DebugHandle<H> {
    fn clone(&self) -> (out: Self)
        ensures
            out == *self,
    {
        *self
    }
}

impl<H: Copy> Copy for DebugHandle<H> {

}

impl<H> PartialEq for DebugHandle<H> {
    fn eq(&self, other: &Self) -> (same: bool) {
        self.id == other.id
    }
}

impl<H> vstd::std_specs::cmp::PartialEqSpecImpl for DebugHandle<H> {
    open spec fn obeys_eq_spec() -> bool {
        true
    }

    /// Two handles are the same to the ledger when they carry the same number.
    open spec fn eq_spec(&self, other: &Self) -> bool {
        self.spec_id() == other.spec_id()
    }
}

impl<H> DebugHandle<H> {
    /// The number that the ledger gave the allocation.
    pub closed spec fn spec_id(&self) -> usize {
        self.id
    }

    /// The handle of the storage inside.
    pub closed spec fn inner(&self) -> H {
        self.handle
    }

    /// The number that the ledger gave the allocation.
    pub fn id(&self) -> (id: usize)
        ensures
            id == self.spec_id(),
    {
        self.id
    }

    /// The handle with what `f` makes of the handle inside, under the same
    /// number.
    pub fn map<U, F: FnOnce(H) -> U>(self, f: F) -> (out: DebugHandle<U>)
        requires
            f.requires((self.inner(),)),
        ensures
            out.spec_id() == self.spec_id(),
            f.ensures((self.inner(),), out.inner()),
    {
        DebugHandle { id: self.id, handle: f(self.handle) }
    }

    /// The handle with what `f` makes of the handle inside, under the same
    /// number; or the error with which `f` fails.
    pub fn try_map<U, E, F: FnOnce(H) -> Result<U, E>>(self, f: F) -> (out: Result<
        DebugHandle<U>,
        E,
    >)
        requires
            f.requires((self.inner(),)),
        ensures
            match out {
                Ok(mapped) => mapped.spec_id() == self.spec_id() && f.ensures(
                    (self.inner(),),
                    Ok(mapped.inner()),
                ),
                Err(e) => f.ensures((self.inner(),), Err(e)),
            },
    {
        match f(self.handle) {
            Ok(handle) => Ok(DebugHandle { id: self.id, handle }),
            Err(e) => Err(e),
        }
    }
}

impl<H: Handle> DebugHandle<H> {
    /// The handle of the storage inside.
    pub fn handle(&self) -> (handle: H)
        ensures
            handle == self.inner(),
    {
        self.handle
    }
}

impl<H: Handle> Handle for DebugHandle<H> {
    type Addr = H::Addr;

    open spec fn spec_target(&self) -> Target {
        self.inner().spec_target()
    }

    open spec fn spec_metadata(&self) -> Metadata {
        self.inner().spec_metadata()
    }

    open spec fn spec_addr(&self) -> H::Addr {
        self.inner().spec_addr()
    }

    fn from_raw_parts(handle: Self, target: Target, meta: Metadata) -> (h: Self)
        ensures
            h.spec_id() == handle.spec_id(),
    {
        DebugHandle { id: handle.id, handle: H::from_raw_parts(handle.handle, target, meta) }
    }

    fn addr(self) -> (a: H::Addr) {
        self.handle.addr()
    }

    fn target(self) -> (t: Target) {
        self.handle.target()
    }

    fn metadata(self) -> (m: Metadata) {
        self.handle.metadata()
    }

    fn cast(self, to: Layout) -> (h: Self)
        ensures
            h.spec_id() == self.spec_id(),
    {
        DebugHandle { id: self.id, handle: self.handle.cast(to) }
    }

    fn cast_unsized(self, to: Target) -> (h: Self)
        ensures
            h.spec_id() == self.spec_id(),
    {
        DebugHandle { id: self.id, handle: self.handle.cast_unsized(to) }
    }

    fn coerce(self, to: Target) -> (h: Self)
        ensures
            h.spec_id() == self.spec_id(),
    {
        DebugHandle { id: self.id, handle: self.handle.coerce(to) }
    }
}

/// A storage that keeps a ledger of the handles that the storage inside gave
/// out. Each of its functions asks of the caller that the ledger finds nothing
/// wrong with the call; what the ledger would find can be asked first.
pub struct Debug<S: Storage> {
    state: DebugState,
    storage: S,
}

impl<S: Storage> Debug<S> {
    /// What the ledger holds.
    pub closed spec fn ledger(&self) -> Ledger {
        self.state@
    }

    /// The storage inside.
    pub closed spec fn inner(&self) -> S {
        self.storage
    }

    /// The ledger and the storage inside are in order.
    pub open spec fn wf(&self) -> bool {
        self.ledger().wf() && self.inner().wf()
    }

    /// Whether `handle` can be used: the ledger finds nothing wrong with
    /// resolving it, and it is valid for the storage inside.
    pub open spec fn valid(&self, handle: DebugHandle<S::Handle>) -> bool {
        self.ledger().get_diagnostic(handle.spec_id()) is None && self.inner().valid(
            handle.inner(),
        )
    }

    /// Whether `handle` can be released: the ledger finds nothing wrong with
    /// that, and it is valid for the storage inside.
    pub open spec fn releasable(&self, single: bool, handle: DebugHandle<S::Handle>) -> bool {
        self.ledger().dealloc_diagnostic(single, handle.spec_id()) is None
            && self.inner().valid(handle.inner())
    }

    /// A debug storage around `storage`, with an empty ledger.
    pub fn new(storage: S) -> (debug: Debug<S>)
        ensures
            debug.inner() == storage,
            debug.ledger().wf(),
            debug.ledger().single is None,
            debug.ledger().next_id == 0,
            debug.ledger().allocated.len() == 0,
            debug.ledger().deallocated.len() == 0,
    {
        Debug { state: DebugState::new(), storage }
    }

    /// What the ledger finds wrong with resolving `handle`, if anything.
    pub fn validate_get(&self, handle: DebugHandle<S::Handle>) -> (r: Result<(), Misuse>)
        ensures
            match r {
                Ok(()) => self.ledger().get_diagnostic(handle.spec_id()) is None,
                Err(misuse) => self.ledger().get_diagnostic(handle.spec_id()) == Some(misuse),
            },
    {
        self.state.validate_get(handle.id)
    }

    /// What the ledger finds wrong with allocating now, if anything.
    pub fn validate_alloc(&self, single: bool) -> (r: Result<(), Misuse>)
        ensures
            match r {
                Ok(()) => self.ledger().alloc_diagnostic(single) is None,
                Err(misuse) => self.ledger().alloc_diagnostic(single) == Some(misuse),
            },
    {
        self.state.check_alloc(single)
    }

    /// What the ledger finds wrong with releasing `handle`, if anything.
    pub fn validate_dealloc(&self, single: bool, handle: DebugHandle<S::Handle>) -> (r: Result<
        (),
        Misuse,
    >)
        ensures
            match r {
                Ok(()) => self.ledger().dealloc_diagnostic(single, handle.spec_id()) is None,
                Err(misuse) => self.ledger().dealloc_diagnostic(single, handle.spec_id())
                    == Some(misuse),
            },
    {
        self.state.check_dealloc(single, handle.id)
    }

    /// Whether `handle` can be used: the ledger finds nothing wrong with
    /// resolving it, and it is valid for the storage inside.
    pub fn is_valid(&self, handle: DebugHandle<S::Handle>) -> (ok: bool)
        requires
            self.wf(),
        ensures
            ok == self.valid(handle),
    {
        self.state.validate_get(handle.id).is_ok() && self.storage.is_valid(handle.handle)
    }

    /// Whether `handle` can be released: the ledger finds nothing wrong with
    /// that, and it is valid for the storage inside.
    pub fn is_releasable(&self, single: bool, handle: DebugHandle<S::Handle>) -> (ok: bool)
        requires
            self.wf(),
        ensures
            ok == self.releasable(single, handle),
    {
        self.state.check_dealloc(single, handle.id).is_ok() && self.storage.is_valid(
            handle.handle,
        )
    }

    /// Resolves a handle: the bytes of its allocation.
    pub fn get(&self, handle: DebugHandle<S::Handle>) -> (bytes: Vec<u8>)
        requires
            self.wf(),
            self.valid(handle),
        ensures
            bytes@ == self.inner().contents(handle.inner()),
    {
        self.storage.get(handle.handle)
    }

    /// Writes `data` into the allocation of `handle`, from byte `at` on.
    pub fn set(&mut self, handle: DebugHandle<S::Handle>, at: usize, data: &[u8])
        requires
            old(self).wf(),
            old(self).valid(handle),
            at + data@.len() <= old(self).inner().contents(handle.inner()).len(),
        ensures
            final(self).wf(),
            final(self).valid(handle),
            final(self).ledger() == old(self).ledger(),
            final(self).inner().contents(handle.inner()) == crate::utils::overwrite(
                old(self).inner().contents(handle.inner()),
                at as int,
                data@,
            ),
    {
        self.storage.set(handle.handle, at, data)
    }

    /// Reserves the single slot of the storage inside, and enters the
    /// allocation into the ledger. Nothing reaches the storage inside unless
    /// the ledger agrees, and has a number left for the allocation.
    pub fn allocate_single(&mut self, target: Target, meta: Metadata) -> (r: Result<
        DebugHandle<S::Handle>,
        StorageError,
    >)
        requires
            old(self).wf(),
            old(self).ledger().alloc_diagnostic(true) is None,
        ensures
            final(self).wf(),
            match r {
                Ok(h) => {
                    &&& old(self).ledger().next_id < usize::MAX
                    &&& old(self).inner().single_verdict(target, meta) is Ok
                    &&& h.spec_id() == old(self).ledger().next_id
                    &&& final(self).ledger() == old(self).ledger().after_alloc(true)
                    &&& final(self).ledger().alloc_diagnostic(true) == Some(Misuse::DoubleAllocate)
                    &&& final(self).valid(h)
                    &&& final(self).releasable(true, h)
                    &&& h.spec_target() == target
                    &&& h.spec_metadata() == meta
                },
                Err(e) => {
                    &&& final(self).ledger() == old(self).ledger()
                    &&& if old(self).ledger().next_id < usize::MAX {
                        old(self).inner().single_verdict(target, meta) == Err::<(), _>(e)
                    } else {
                        e == StorageError::NoSlots && final(self).inner() == old(self).inner()
                    }
                },
            },
    {
        if !self.state.ids_left() {
            return Err(StorageError::NoSlots);
        }
        let handle = self.storage.allocate_single(target, meta)?;
        proof {
            self.state@.lemma_double_free(true);
        }
        let id = self.state.record_alloc(true);
        Ok(DebugHandle { id, handle })
    }

    /// Releases the single allocation, and moves it to the released ones on
    /// the ledger.
    pub fn deallocate_single(&mut self, handle: DebugHandle<S::Handle>)
        requires
            old(self).wf(),
            old(self).releasable(true, handle),
        ensures
            final(self).wf(),
            final(self).ledger() == old(self).ledger().after_dealloc(true, handle.spec_id()),
            old(self).inner().releases(handle.inner(), final(self).inner()),
            forall|single: bool|
                #[trigger] final(self).ledger().dealloc_diagnostic(single, handle.spec_id())
                    == Some(Misuse::DoubleFree),
            final(self).ledger().get_diagnostic(handle.spec_id()) is Some,
            final(self).ledger().alloc_diagnostic(true) is None,
    {
        proof {
            self.state@.lemma_released_is_told(true, handle.id, true);
            self.state@.lemma_released_is_told(true, handle.id, false);
        }
        self.state.record_dealloc(true, handle.id);
        self.storage.deallocate_single(handle.handle)
    }

    /// Grows the run of `handle` as the storage inside does. The handle
    /// returned keeps the number of `handle`.
    pub fn try_grow(&mut self, handle: DebugHandle<S::Handle>, capacity: usize) -> (r: Result<
        DebugHandle<S::Handle>,
        StorageError,
    >)
        requires
            old(self).wf(),
            old(self).valid(handle),
            handle.spec_target() is Slice,
            handle.spec_metadata() matches Metadata::Len(n) && n <= capacity,
        ensures
            final(self).wf(),
            final(self).ledger() == old(self).ledger(),
            r is Ok <==> old(self).inner().grow_verdict(handle.inner(), capacity) is Ok,
            r matches Err(e) ==> {
                &&& old(self).inner().grow_verdict(handle.inner(), capacity) == Err::<(), _>(e)
                &&& final(self).valid(handle)
                &&& final(self).inner().contents(handle.inner()) == old(self).inner().contents(
                    handle.inner(),
                )
            },
            r matches Ok(h) ==> {
                &&& h.spec_id() == handle.spec_id()
                &&& final(self).valid(h)
                &&& h.spec_target() == handle.spec_target()
                &&& h.spec_metadata() == Metadata::Len(capacity)
                &&& final(self).inner().contents(h.inner()).subrange(
                    0,
                    old(self).inner().contents(handle.inner()).len() as int,
                ) == old(self).inner().contents(handle.inner())
            },
    {
        match self.storage.try_grow(handle.handle, capacity) {
            Ok(grown) => Ok(DebugHandle { id: handle.id, handle: grown }),
            Err(e) => Err(e),
        }
    }

    /// Shrinks the run of `handle` as the storage inside does. The handle
    /// returned keeps the number of `handle`.
    pub fn try_shrink(&mut self, handle: DebugHandle<S::Handle>, capacity: usize) -> (r: Result<
        DebugHandle<S::Handle>,
        StorageError,
    >)
        requires
            old(self).wf(),
            old(self).valid(handle),
            handle.spec_target() is Slice,
            handle.spec_metadata() matches Metadata::Len(n) && capacity <= n,
        ensures
            final(self).wf(),
            final(self).ledger() == old(self).ledger(),
            r is Ok <==> old(self).inner().shrink_verdict(handle.inner(), capacity) is Ok,
            r matches Err(e) ==> {
                &&& old(self).inner().shrink_verdict(handle.inner(), capacity) == Err::<(), _>(e)
                &&& final(self).valid(handle)
                &&& final(self).inner().contents(handle.inner()) == old(self).inner().contents(
                    handle.inner(),
                )
            },
            r matches Ok(h) ==> {
                &&& h.spec_id() == handle.spec_id()
                &&& final(self).valid(h)
                &&& h.spec_target() == handle.spec_target()
                &&& h.spec_metadata() == Metadata::Len(capacity)
                &&& final(self).inner().contents(h.inner()) == old(self).inner().contents(
                    handle.inner(),
                ).subrange(0, final(self).inner().contents(h.inner()).len() as int)
            },
    {
        match self.storage.try_shrink(handle.handle, capacity) {
            Ok(shrunk) => Ok(DebugHandle { id: handle.id, handle: shrunk }),
            Err(e) => Err(e),
        }
    }
}

impl<S: MultiItemStorage> Debug<S> {
    /// Reserves space in the storage inside, beside the allocations that are
    /// held, and enters the allocation into the ledger.
    pub fn allocate(&mut self, target: Target, meta: Metadata) -> (r: Result<
        DebugHandle<S::Handle>,
        StorageError,
    >)
        requires
            old(self).wf(),
        ensures
            final(self).wf(),
            match r {
                Ok(h) => {
                    &&& old(self).ledger().next_id < usize::MAX
                    &&& old(self).inner().verdict(target, meta) is Ok
                    &&& h.spec_id() == old(self).ledger().next_id
                    &&& final(self).ledger() == old(self).ledger().after_alloc(false)
                    &&& final(self).releasable(false, h)
                    &&& h.spec_target() == target
                    &&& h.spec_metadata() == meta
                },
                Err(e) => {
                    &&& final(self).ledger() == old(self).ledger()
                    &&& if old(self).ledger().next_id < usize::MAX {
                        old(self).inner().verdict(target, meta) == Err::<(), _>(e)
                    } else {
                        e == StorageError::NoSlots && final(self).inner() == old(self).inner()
                    }
                },
            },
    {
        if !self.state.ids_left() {
            return Err(StorageError::NoSlots);
        }
        let handle = self.storage.allocate(target, meta)?;
        proof {
            self.state@.lemma_double_free(false);
        }
        let id = self.state.record_alloc(false);
        Ok(DebugHandle { id, handle })
    }

    /// Releases an allocation, and moves it to the released ones on the
    /// ledger.
    pub fn deallocate(&mut self, handle: DebugHandle<S::Handle>)
        requires
            old(self).wf(),
            old(self).releasable(false, handle),
        ensures
            final(self).wf(),
            final(self).ledger() == old(self).ledger().after_dealloc(false, handle.spec_id()),
            old(self).inner().releases(handle.inner(), final(self).inner()),
            forall|single: bool|
                #[trigger] final(self).ledger().dealloc_diagnostic(single, handle.spec_id())
                    == Some(Misuse::DoubleFree),
            final(self).ledger().get_diagnostic(handle.spec_id()) is Some,
    {
        proof {
            self.state@.lemma_released_is_told(false, handle.id, true);
            self.state@.lemma_released_is_told(false, handle.id, false);
        }
        self.state.record_dealloc(false, handle.id);
        self.storage.deallocate(handle.handle)
    }
}

impl<S: ExactSizeStorage> Debug<S> {
    /// Whether what `target` with `meta` describes is small enough for the
    /// storage inside.
    pub fn will_fit(&self, target: Target, meta: Metadata) -> (b: bool)
        requires
            self.wf(),
        ensures
            b == self.inner().spec_will_fit(target, meta),
    {
        self.storage.will_fit(target, meta)
    }

    /// The largest number of elements of layout `elem` that the storage inside
    /// has room for.
    pub fn max_range(&self, elem: Layout) -> (n: usize)
        requires
            self.wf(),
            elem.size > 0,
        ensures
            n == self.inner().spec_max_range(elem),
    {
        self.storage.max_range(elem)
    }
}

} // verus!
