//! A storage that keeps each allocation in memory of its own, taken from the
//! allocator of the program.
//!
//! It takes what the machine can give, and its handles stay good whatever is
//! done to other allocations.

use vstd::prelude::*;
use crate::base::{FromLeakedStorage, LeaksafeStorage, MultiItemStorage, Storage};
use crate::error::StorageError;
use crate::handles::{Handle, Metadata, OffsetMetaHandle, Target};
use crate::layout::Layout;
use crate::utils::{layout_of, read_bytes, resized, spec_layout_of, write_bytes, zeroed};

verus! {

/// A storage over the allocator of the program. Each allocation has a number,
/// which its handle records as its offset; the number of an allocation that was
/// released is given out again.
pub struct Alloc {
    blocks: Vec<Option<Vec<u8>>>,
}

/// The storage over the allocator of the program, by its usual name.
pub type GlobalAlloc = Alloc;

/// The most bytes that one allocation can have.
pub open spec fn spec_max_size() -> usize {
    isize::MAX as usize
}

/// The most bytes that one allocation can have.
pub fn max_size() -> (n: usize)
    ensures
        n == spec_max_size(),
{
    isize::MAX as usize
}

impl Alloc {
    /// The allocations by number: the bytes of each, or nothing where the
    /// number is free.
    pub closed spec fn allocations(&self) -> Seq<Option<Seq<u8>>> {
        Seq::new(
            self.blocks@.len(),
            |i: int|
                match self.blocks@[i] {
                    Some(block) => Some(block@),
                    None => None,
                },
        )
    }

    /// `slot` is the number that the next allocation gets: the first that is
    /// free, or else the first that was never given out.
    pub open spec fn next_slot(&self, slot: int) -> bool {
        &&& 0 <= slot <= self.allocations().len()
        &&& slot < self.allocations().len() ==> self.allocations()[slot] is None
        &&& forall|i: int| 0 <= i < slot ==> self.allocations()[i] is Some
    }

    /// Whether a request for `target` with `meta` can be served, and if not,
    /// why: it needs a layout of no more than `isize::MAX` bytes, and a number
    /// for the allocation.
    pub open spec fn allocation_verdict(&self, target: Target, meta: Metadata) -> Result<
        (),
        StorageError,
    > {
        match spec_layout_of(target, meta) {
            None => Err(StorageError::spec_exceeds_max()),
            Some(layout) => if layout.size > spec_max_size() {
                Err(StorageError::InsufficientSpace { expected: layout.size, available: None })
            } else if self.next_slot(usize::MAX as int) {
                Err(StorageError::NoSlots)
            } else {
                Ok(())
            },
        }
    }

    /// A new storage, which holds no allocation.
    pub fn new() -> (storage: Alloc)
        ensures
            storage.wf(),
            storage.allocations().len() == 0,
    {
        Alloc { blocks: Vec::new() }
    }

    /// A new storage over the allocator of the program.
    pub fn global() -> (storage: Alloc)
        ensures
            storage.wf(),
            storage.allocations().len() == 0,
    {
        Alloc::new()
    }

    /// The number that the next allocation gets.
    pub fn find_slot(&self) -> (slot: usize)
        ensures
            self.next_slot(slot as int),
    {
        let mut i: usize = 0;
        while i < self.blocks.len()
            invariant
                i <= self.blocks@.len(),
                forall|j: int| 0 <= j < i ==> self.allocations()[j] is Some,
            decreases self.blocks@.len() - i,
        {
            if self.blocks[i].is_none() {
                return i;
            }
            i += 1;
        }
        i
    }

    /// The number that the next allocation gets is unique.
    pub proof fn lemma_next_slot_unique(&self, a: int, b: int)
        requires
            self.next_slot(a),
            self.next_slot(b),
        ensures
            a == b,
    {
        if a < b {
            assert(self.allocations()[a] is Some);
        } else if b < a {
            assert(self.allocations()[b] is Some);
        }
    }

    fn put(&mut self, slot: usize, block: Option<Vec<u8>>)
        requires
            slot < old(self).allocations().len(),
        ensures
            final(self).allocations() == old(self).allocations().update(
                slot as int,
                match block {
                    Some(b) => Some(b@),
                    None => None,
                },
            ),
    {
        self.blocks[slot] = block;
        assert(self.allocations() =~= old(self).allocations().update(
            slot as int,
            match block {
                Some(b) => Some(b@),
                None => None,
            },
        ));
    }
}

impl Default for Alloc {
    fn default() -> (storage: Alloc)
        ensures
            storage.wf(),
            storage.allocations().len() == 0,
    {
        Alloc::new()
    }
}

impl Storage for Alloc {
    type Handle = OffsetMetaHandle;

    open spec fn wf(&self) -> bool {
        true
    }

    /// A handle denotes an allocation when its number is taken by as many
    /// bytes as its description has.
    open spec fn valid(&self, handle: OffsetMetaHandle) -> bool {
        &&& handle.spec_offset() < self.allocations().len()
        &&& self.allocations()[handle.spec_offset() as int] matches Some(block)
            && spec_layout_of(handle.spec_target(), handle.spec_metadata()) matches Some(layout)
            && block.len() == layout.size
    }

    open spec fn contents(&self, handle: OffsetMetaHandle) -> Seq<u8> {
        self.allocations()[handle.spec_offset() as int].unwrap()
    }

    open spec fn single_verdict(&self, target: Target, meta: Metadata) -> Result<
        (),
        StorageError,
    > {
        self.allocation_verdict(target, meta)
    }

    /// A run grows to any length that one allocation can have.
    open spec fn grow_verdict(&self, handle: OffsetMetaHandle, capacity: usize) -> Result<
        (),
        StorageError,
    > {
        match handle.spec_target()->Slice_0.spec_array(capacity) {
            None => Err(StorageError::spec_exceeds_max()),
            Some(layout) => if layout.size > spec_max_size() {
                Err(StorageError::InsufficientSpace { expected: layout.size, available: None })
            } else {
                Ok(())
            },
        }
    }

    /// Shrinking never fails.
    open spec fn shrink_verdict(&self, handle: OffsetMetaHandle, capacity: usize) -> Result<
        (),
        StorageError,
    > {
        Ok(())
    }

    open spec fn apart(a: OffsetMetaHandle, b: OffsetMetaHandle) -> bool {
        a.spec_offset() != b.spec_offset()
    }

    proof fn lemma_apart_symmetric(a: OffsetMetaHandle, b: OffsetMetaHandle) {
    }

    /// A release frees the number of the handle, and leaves every other
    /// allocation as it is.
    open spec fn releases(&self, handle: OffsetMetaHandle, after: Self) -> bool {
        after.allocations() == self.allocations().update(handle.spec_offset() as int, None)
    }

    proof fn lemma_valid(&self, handle: OffsetMetaHandle) {
    }

    proof fn lemma_retarget(&self, handle: OffsetMetaHandle, other: OffsetMetaHandle) {
    }

    fn is_valid(&self, handle: OffsetMetaHandle) -> (ok: bool) {
        if handle.offset() >= self.blocks.len() {
            return false;
        }
        assert(self.allocations()[handle.spec_offset() as int] is Some
            <==> self.blocks@[handle.spec_offset() as int] is Some);
        match (&self.blocks[handle.offset()], layout_of(handle.target(), handle.metadata())) {
            (Some(block), Some(layout)) => block.len() == layout.size,
            _ => false,
        }
    }

    fn get(&self, handle: OffsetMetaHandle) -> (bytes: Vec<u8>) {
        assert(self.allocations()[handle.spec_offset() as int] is Some);
        match &self.blocks[handle.offset()] {
            Some(block) => read_bytes(block, 0, block.len()),
            None => Vec::new(),
        }
    }

    fn set(&mut self, handle: OffsetMetaHandle, at: usize, data: &[u8])
        ensures
            final(self).allocations() == old(self).allocations().update(
                handle.spec_offset() as int,
                Some(final(self).contents(handle)),
            ),
    {
        let mut block = self.get(handle);
        write_bytes(&mut block, at, data);
        self.put(handle.offset(), Some(block));
        proof {
            let slot = handle.spec_offset() as int;
            assert(old(self).allocations()[slot] is Some);
            assert(self.next_slot(usize::MAX as int) == old(self).next_slot(usize::MAX as int)) by {
                if old(self).next_slot(usize::MAX as int) {
                    assert forall|i: int| 0 <= i < usize::MAX implies self.allocations()[i] is Some by {
                        assert(old(self).allocations()[i] is Some);
                    }
                }
                if self.next_slot(usize::MAX as int) {
                    assert forall|i: int| 0 <= i < usize::MAX implies old(self).allocations()[i] is Some by {
                        assert(self.allocations()[i] is Some);
                    }
                }
            }
        }
    }

    fn allocate_single(&mut self, target: Target, meta: Metadata) -> (r: Result<
        OffsetMetaHandle,
        StorageError,
    >)
        ensures
            match r {
                Ok(h) => old(self).next_slot(h.spec_offset() as int),
                Err(_) => final(self).allocations() == old(self).allocations(),
            },
    {
        self.allocate(target, meta)
    }

    fn deallocate_single(&mut self, handle: OffsetMetaHandle)
        ensures
            final(self).allocations() == old(self).allocations().update(
                handle.spec_offset() as int,
                None,
            ),
    {
        self.deallocate(handle)
    }

    fn try_grow(&mut self, handle: OffsetMetaHandle, capacity: usize) -> (r: Result<
        OffsetMetaHandle,
        StorageError,
    >)
        ensures
            r matches Ok(h) ==> h.spec_offset() == handle.spec_offset(),
            r is Err ==> final(self).allocations() == old(self).allocations(),
    {
        let elem = match handle.target() {
            Target::Slice(elem) => elem,
            _ => Layout { size: 0, align: 1 },
        };
        let new_layout = match elem.array(capacity) {
            Some(layout) => layout,
            None => {
                return Err(StorageError::exceeds_max());
            },
        };
        if new_layout.size > max_size() {
            return Err(
                StorageError::InsufficientSpace { expected: new_layout.size, available: None },
            );
        }
        let block = resized(&self.get(handle), new_layout.size);
        handle.offset_bound();
        let grown = OffsetMetaHandle::from_offset_meta(
            handle.offset(),
            handle.target(),
            Metadata::Len(capacity),
        );
        proof {
            let n = handle.spec_metadata()->Len_0;
            assert(elem.size * n <= elem.size * capacity) by (nonlinear_arith)
                requires
                    n <= capacity,
            ;
        }
        self.put(handle.offset(), Some(block));
        assert(self.contents(grown).subrange(0, old(self).contents(handle).len() as int) =~= old(
            self,
        ).contents(handle));
        Ok(grown)
    }

    fn try_shrink(&mut self, handle: OffsetMetaHandle, capacity: usize) -> (r: Result<
        OffsetMetaHandle,
        StorageError,
    >)
        ensures
            r matches Ok(h) && h.spec_offset() == handle.spec_offset(),
    {
        let elem = match handle.target() {
            Target::Slice(elem) => elem,
            _ => Layout { size: 0, align: 1 },
        };
        proof {
            let n = handle.spec_metadata()->Len_0;
            assert(elem.size * capacity <= elem.size * n) by (nonlinear_arith)
                requires
                    capacity <= n,
            ;
        }
        let block = resized(&self.get(handle), elem.size * capacity);
        handle.offset_bound();
        let shrunk = OffsetMetaHandle::from_offset_meta(
            handle.offset(),
            handle.target(),
            Metadata::Len(capacity),
        );
        self.put(handle.offset(), Some(block));
        assert(self.contents(shrunk) =~= old(self).contents(handle).subrange(
            0,
            self.contents(shrunk).len() as int,
        ));
        Ok(shrunk)
    }
}

impl MultiItemStorage for Alloc {
    open spec fn verdict(&self, target: Target, meta: Metadata) -> Result<(), StorageError> {
        self.allocation_verdict(target, meta)
    }

    fn allocate(&mut self, target: Target, meta: Metadata) -> (r: Result<
        OffsetMetaHandle,
        StorageError,
    >)
        ensures
            match r {
                Ok(h) => old(self).next_slot(h.spec_offset() as int),
                Err(_) => final(self).allocations() == old(self).allocations(),
            },
    {
        let layout = match layout_of(target, meta) {
            Some(layout) => layout,
            None => {
                return Err(StorageError::exceeds_max());
            },
        };
        if layout.size > max_size() {
            return Err(StorageError::InsufficientSpace { expected: layout.size, available: None });
        }
        let slot = self.find_slot();
        if slot == usize::MAX {
            return Err(StorageError::NoSlots);
        }
        proof {
            if self.next_slot(usize::MAX as int) {
                self.lemma_next_slot_unique(slot as int, usize::MAX as int);
            }
        }
        let block = zeroed(layout.size);
        if slot < self.blocks.len() {
            self.put(slot, Some(block));
        } else {
            self.blocks.push(Some(block));
        }
        let handle = OffsetMetaHandle::from_offset_meta(slot, target, meta);
        assert forall|other: OffsetMetaHandle| old(self).valid(other) implies {
            &&& #[trigger] self.valid(other)
            &&& self.contents(other) == old(self).contents(other)
        } by {
            assert(self.allocations()[other.spec_offset() as int] == old(self).allocations()[other.spec_offset() as int]);
        }
        assert(self.allocations()[slot as int] == Some(block@));
        Ok(handle)
    }

    fn deallocate(&mut self, handle: OffsetMetaHandle)
        ensures
            final(self).allocations() == old(self).allocations().update(
                handle.spec_offset() as int,
                None,
            ),
    {
        self.put(handle.offset(), None);
    }
}

impl LeaksafeStorage for Alloc {

}

impl FromLeakedStorage for Alloc {
    /// An address is the number of an allocation.
    open spec fn leaked_from(&self, addr: usize) -> bool {
        addr < usize::MAX
    }

    fn unleak(&self, addr: usize, target: Target, meta: Metadata) -> (h: OffsetMetaHandle) {
        OffsetMetaHandle::from_offset_meta(addr, target, meta)
    }
}

} // verus!
