//! A value with several owners, kept with its counts in a shared heap.
//!
//! The counts are those of a reference count: strong owners keep the value
//! alive, weak ones only the room it lies in. All strong owners together count
//! as one weak owner, so the room is released when the weak count falls to
//! nothing.

use core::marker::PhantomData;
use vstd::prelude::*;
use vstd::bytes::{
    lemma_auto_spec_u64_to_from_le_bytes,
    spec_u64_to_le_bytes,
    u64_from_le_bytes,
    u64_to_le_bytes,
};
use vstd::slice::slice_subrange;
use crate::base::StorageSafe;
use crate::handles::{Handle, Metadata, OffsetMetaHandle, Target};
use crate::layout::Layout;
use crate::utils::spec_layout_of;
use crate::shared::SharedHeap;
use crate::value::Value;

verus! {

/// What is left of a shared value when an owner lets go of it.
#[derive(Debug, Clone, Copy, PartialEq, Eq, Structural)]
pub enum Release {
    /// Other strong owners are left: the value lives on.
    Kept,
    /// The last strong owner is gone, and weak owners are left: the value is
    /// gone, and its room stays until they are gone too.
    Dropped,
    /// The last owner is gone: the room is to be released.
    Free,
}

/// A shared value with its counts, as it lies in the heap.
#[derive(Debug, PartialEq, Eq)]
pub struct RcBox<T> {
    strong: usize,
    weak: usize,
    value: T,
}

impl<T> RcBox<T> {
    /// The number of strong owners.
    pub closed spec fn spec_strong(&self) -> usize {
        self.strong
    }

    /// The number of weak owners, the strong owners together counting as one.
    pub closed spec fn spec_weak(&self) -> usize {
        self.weak
    }

    /// The value.
    pub closed spec fn spec_value(&self) -> T {
        self.value
    }

    /// A value with its first strong owner.
    pub fn new(value: T) -> (b: RcBox<T>)
        ensures
            b.spec_strong() == 1,
            b.spec_weak() == 1,
            b.spec_value() == value,
    {
        RcBox { strong: 1, weak: 1, value }
    }

    /// The number of strong owners.
    pub fn strong(&self) -> (n: usize)
        ensures
            n == self.spec_strong(),
    {
        self.strong
    }

    /// Counts one more strong owner.
    pub fn inc_strong(&mut self)
        requires
            old(self).spec_strong() < usize::MAX,
        ensures
            final(self).spec_strong() == old(self).spec_strong() + 1,
            final(self).spec_weak() == old(self).spec_weak(),
            final(self).spec_value() == old(self).spec_value(),
    {
        self.strong = self.strong + 1;
    }

    /// Counts one strong owner less.
    pub fn dec_strong(&mut self)
        requires
            old(self).spec_strong() > 0,
        ensures
            final(self).spec_strong() == old(self).spec_strong() - 1,
            final(self).spec_weak() == old(self).spec_weak(),
            final(self).spec_value() == old(self).spec_value(),
    {
        self.strong = self.strong - 1;
    }

    /// The number of weak owners, the strong owners together counting as one.
    pub fn weak(&self) -> (n: usize)
        ensures
            n == self.spec_weak(),
    {
        self.weak
    }

    /// Counts one more weak owner.
    pub fn inc_weak(&mut self)
        requires
            old(self).spec_weak() < usize::MAX,
        ensures
            final(self).spec_weak() == old(self).spec_weak() + 1,
            final(self).spec_strong() == old(self).spec_strong(),
            final(self).spec_value() == old(self).spec_value(),
    {
        self.weak = self.weak + 1;
    }

    /// Counts one weak owner less.
    pub fn dec_weak(&mut self)
        requires
            old(self).spec_weak() > 0,
        ensures
            final(self).spec_weak() == old(self).spec_weak() - 1,
            final(self).spec_strong() == old(self).spec_strong(),
            final(self).spec_value() == old(self).spec_value(),
    {
        self.weak = self.weak - 1;
    }

    /// A strong owner lets go. The last one takes with it the weak owner that
    /// the strong owners were together.
    pub fn drop_strong(&mut self) -> (left: Release)
        requires
            old(self).spec_strong() > 0,
            old(self).spec_weak() > 0,
        ensures
            final(self).spec_strong() == old(self).spec_strong() - 1,
            final(self).spec_value() == old(self).spec_value(),
            final(self).spec_weak() == if old(self).spec_strong() == 1 {
                old(self).spec_weak() - 1
            } else {
                old(self).spec_weak() as int
            },
            left == if old(self).spec_strong() > 1 {
                Release::Kept
            } else if old(self).spec_weak() > 1 {
                Release::Dropped
            } else {
                Release::Free
            },
    {
        self.dec_strong();
        if self.strong() == 0 {
            self.dec_weak();

            if self.weak() == 0 {
                Release::Free
            } else {
                Release::Dropped
            }
        } else {
            Release::Kept
        }
    }

    /// A weak owner lets go. Tells whether it was the last owner, so that the
    /// room is to be released.
    pub fn drop_weak(&mut self) -> (free: bool)
        requires
            old(self).spec_weak() > 0,
        ensures
            final(self).spec_weak() == old(self).spec_weak() - 1,
            final(self).spec_strong() == old(self).spec_strong(),
            final(self).spec_value() == old(self).spec_value(),
            free == (old(self).spec_weak() == 1),
    {
        self.dec_weak();
        self.weak() == 0
    }

    /// A weak owner asks to become a strong one. It does if the value is
    /// still alive.
    pub fn upgrade(&mut self) -> (alive: bool)
        requires
            old(self).spec_strong() < usize::MAX,
        ensures
            alive == (old(self).spec_strong() > 0),
            final(self).spec_strong() == if alive {
                old(self).spec_strong() + 1
            } else {
                0
            },
            final(self).spec_weak() == old(self).spec_weak(),
            final(self).spec_value() == old(self).spec_value(),
    {
        if self.strong() == 0 {
            false
        } else {
            self.inc_strong();
            true
        }
    }
}

/// What the operations of the owners make of a shared value with its counts,
/// as they found it in the heap. Each takes what was found, if anything, and
/// gives what is to be put back, if the operation can be done.
impl<T> RcBox<T> {
    /// One more strong owner: the counts with the strong count raised, if a
    /// value was found and its strong owners can still be counted.
    pub fn add_strong(found: Option<RcBox<T>>) -> (r: Option<RcBox<T>>)
        ensures
            r is Some <==> (found matches Some(b) && b.spec_strong() < usize::MAX),
            r matches Some(b) ==> {
                &&& b.spec_strong() == found.unwrap().spec_strong() + 1
                &&& b.spec_weak() == found.unwrap().spec_weak()
                &&& b.spec_value() == found.unwrap().spec_value()
            },
    {
        let mut b = found?;
        if b.strong() == usize::MAX {
            return None;
        }
        b.inc_strong();
        Some(b)
    }

    /// One more weak owner: the counts with the weak count raised, if a
    /// value was found and its weak owners can still be counted.
    pub fn add_weak(found: Option<RcBox<T>>) -> (r: Option<RcBox<T>>)
        ensures
            r is Some <==> (found matches Some(b) && b.spec_weak() < usize::MAX),
            r matches Some(b) ==> {
                &&& b.spec_weak() == found.unwrap().spec_weak() + 1
                &&& b.spec_strong() == found.unwrap().spec_strong()
                &&& b.spec_value() == found.unwrap().spec_value()
            },
    {
        let mut b = found?;
        if b.weak() == usize::MAX {
            return None;
        }
        b.inc_weak();
        Some(b)
    }

    /// A weak owner becomes a strong one: the counts with the strong count
    /// raised, if a value was found that is still alive and whose strong
    /// owners can still be counted.
    pub fn revive(found: Option<RcBox<T>>) -> (r: Option<RcBox<T>>)
        ensures
            r is Some <==> (found matches Some(b) && 0 < b.spec_strong() < usize::MAX),
            r matches Some(b) ==> {
                &&& b.spec_strong() == found.unwrap().spec_strong() + 1
                &&& b.spec_weak() == found.unwrap().spec_weak()
                &&& b.spec_value() == found.unwrap().spec_value()
            },
    {
        let mut b = found?;
        if b.strong() == usize::MAX {
            return None;
        }
        if b.upgrade() {
            Some(b)
        } else {
            None
        }
    }

    /// A strong owner lets go: what is left, and the counts to put back, if a
    /// value was found whose counts are not spent.
    pub fn take_strong(found: Option<RcBox<T>>) -> (r: Option<(Release, RcBox<T>)>)
        ensures
            r is Some <==> (found matches Some(b) && b.spec_strong() > 0 && b.spec_weak() > 0),
            r matches Some((left, b)) ==> {
                &&& b.spec_strong() == found.unwrap().spec_strong() - 1
                &&& b.spec_value() == found.unwrap().spec_value()
                &&& b.spec_weak() == if found.unwrap().spec_strong() == 1 {
                    found.unwrap().spec_weak() - 1
                } else {
                    found.unwrap().spec_weak() as int
                }
                &&& left == if found.unwrap().spec_strong() > 1 {
                    Release::Kept
                } else if found.unwrap().spec_weak() > 1 {
                    Release::Dropped
                } else {
                    Release::Free
                }
            },
    {
        let mut b = found?;
        if b.strong() == 0 || b.weak() == 0 {
            return None;
        }
        let left = b.drop_strong();
        Some((left, b))
    }

    /// A weak owner lets go: whether it was the last owner, and the counts
    /// to put back, if counts were found that are not spent.
    pub fn take_weak(found: Option<RcBox<T>>) -> (r: Option<(bool, RcBox<T>)>)
        ensures
            r is Some <==> (found matches Some(b) && b.spec_weak() > 0),
            r matches Some((free, b)) ==> {
                &&& b.spec_weak() == found.unwrap().spec_weak() - 1
                &&& b.spec_strong() == found.unwrap().spec_strong()
                &&& b.spec_value() == found.unwrap().spec_value()
                &&& free == (found.unwrap().spec_weak() == 1)
            },
    {
        let mut b = found?;
        if b.weak() == 0 {
            return None;
        }
        let free = b.drop_weak();
        Some((free, b))
    }
}

/// The bytes of a shared value with its counts: the strong count, the weak
/// count, and the value.
pub open spec fn box_image<T: Value>(strong: usize, weak: usize, value: T) -> Seq<u8> {
    spec_u64_to_le_bytes(strong as u64) + spec_u64_to_le_bytes(weak as u64) + value.image()
}

/// The layout of a shared value of type `T` with its counts.
pub open spec fn spec_box_layout<T: Value>() -> Layout {
    Layout {
        size: (16 + T::size()) as usize,
        align: if T::align() > 8 {
            T::align()
        } else {
            8
        },
    }
}

/// The layout of a shared value of type `T` with its counts, if its size can
/// be written down.
pub fn box_layout<T: Value>() -> (r: Option<Layout>)
    ensures
        r == if 16 + T::size() <= usize::MAX {
            Some(spec_box_layout::<T>())
        } else {
            None
        },
{
    match T::layout() {
        Some(layout) => match layout.size.checked_add(16) {
            Some(size) => Some(
                Layout {
                    size,
                    align: if layout.align > 8 {
                        layout.align
                    } else {
                        8
                    },
                },
            ),
            None => None,
        },
        None => None,
    }
}

impl<T: Value> RcBox<T> {
    /// The bytes of the value with its counts.
    pub fn to_bytes(&self) -> (bytes: Vec<u8>)
        ensures
            bytes@ == box_image(self.spec_strong(), self.spec_weak(), self.spec_value()),
    {
        let mut bytes = u64_to_le_bytes(self.strong as u64);
        let mut second = u64_to_le_bytes(self.weak as u64);
        let mut third = self.value.to_bytes();
        bytes.append(&mut second);
        bytes.append(&mut third);
        bytes
    }

    /// The value with its counts that `bytes` hold, if the counts can be
    /// written down on this machine.
    pub fn from_bytes(bytes: &[u8]) -> (r: Option<RcBox<T>>)
        requires
            bytes@.len() == 16 + T::size(),
        ensures
            r matches Some(b) ==> bytes@ == box_image(
                b.spec_strong(),
                b.spec_weak(),
                b.spec_value(),
            ),
            forall|strong: usize, weak: usize, value: T|
                bytes@ == #[trigger] box_image(strong, weak, value) ==> r is Some,
    {
        let total = bytes.len();
        let size = match T::layout() {
            Some(layout) => layout.size,
            None => 0,
        };
        assert(total == 16 + size);
        let strong = u64_from_le_bytes(slice_subrange(bytes, 0, 8));
        let weak = u64_from_le_bytes(slice_subrange(bytes, 8, 16));
        let value = T::from_bytes(slice_subrange(bytes, 16, 16 + size));
        proof {
            lemma_auto_spec_u64_to_from_le_bytes();
            assert(bytes@ =~= bytes@.subrange(0, 8) + bytes@.subrange(8, 16) + bytes@.subrange(
                16,
                16 + size,
            ));
            assert forall|s: usize, w: usize, v: T| bytes@ == #[trigger] box_image(
                s,
                w,
                v,
            ) implies strong == s && weak == w by {
                assert(spec_u64_to_le_bytes(s as u64).len() == 8);
                assert(spec_u64_to_le_bytes(w as u64).len() == 8);
                assert(bytes@.subrange(0, 8) =~= spec_u64_to_le_bytes(s as u64));
                assert(bytes@.subrange(8, 16) =~= spec_u64_to_le_bytes(w as u64));
            }
        }
        if strong > usize::MAX as u64 || weak > usize::MAX as u64 {
            return None;
        }
        Some(RcBox { strong: strong as usize, weak: weak as usize, value })
    }

    /// The bytes of a value with its counts are sixteen more than the value
    /// has.
    pub proof fn lemma_image_len(strong: usize, weak: usize, value: T)
        ensures
            box_image(strong, weak, value).len() == 16 + T::size(),
    {
        lemma_auto_spec_u64_to_from_le_bytes();
        value.lemma_image_len();
        assert(spec_u64_to_le_bytes(strong as u64).len() == 8);
        assert(spec_u64_to_le_bytes(weak as u64).len() == 8);
    }

    /// The value with its counts that was found as `found`: the one whose
    /// bytes these are, and nothing if nothing was found or the bytes are
    /// those of no value of type `T` with counts.
    pub fn decode(found: Option<Vec<u8>>) -> (r: Option<RcBox<T>>)
        ensures
            match r {
                Some(b) => found matches Some(bytes) && bytes@ == box_image(
                    b.spec_strong(),
                    b.spec_weak(),
                    b.spec_value(),
                ),
                None => found matches Some(bytes) ==> forall|strong: usize, weak: usize, value: T|
                    bytes@ != #[trigger] box_image(strong, weak, value),
            },
    {
        let bytes = found?;
        let total = bytes.len();
        proof {
            assert forall|strong: usize, weak: usize, value: T|
                bytes@ == #[trigger] box_image(strong, weak, value) implies total == 16
                + T::size() by {
                Self::lemma_image_len(strong, weak, value);
            }
        }
        match box_layout::<T>() {
            Some(layout) => {
                if total == layout.size {
                    RcBox::from_bytes(bytes.as_slice())
                } else {
                    None
                }
            },
            None => None,
        }
    }

    /// The value.
    pub fn value(self) -> (value: T)
        ensures
            value == self.spec_value(),
    {
        self.value
    }
}

/// The counts of a shared value, as a weak owner sees them.
#[derive(Debug, Clone, Copy, PartialEq, Eq, Structural)]
pub struct WeakInner {
    strong: usize,
    weak: usize,
}

impl WeakInner {
    /// The number of strong owners.
    pub closed spec fn spec_strong(&self) -> usize {
        self.strong
    }

    /// The number of weak owners.
    pub closed spec fn spec_weak(&self) -> usize {
        self.weak
    }

    /// The counts of `b`.
    pub fn of<T>(b: &RcBox<T>) -> (inner: WeakInner)
        ensures
            inner.spec_strong() == b.spec_strong(),
            inner.spec_weak() == b.spec_weak(),
    {
        WeakInner { strong: b.strong, weak: b.weak }
    }

    /// The number of strong owners.
    pub fn strong(&self) -> (n: usize)
        ensures
            n == self.spec_strong(),
    {
        self.strong
    }

    /// Counts one more strong owner.
    pub fn inc_strong(&mut self)
        requires
            old(self).spec_strong() < usize::MAX,
        ensures
            final(self).spec_strong() == old(self).spec_strong() + 1,
            final(self).spec_weak() == old(self).spec_weak(),
    {
        self.strong = self.strong + 1;
    }

    /// The number of weak owners.
    pub fn weak(&self) -> (n: usize)
        ensures
            n == self.spec_weak(),
    {
        self.weak
    }

    /// Counts one weak owner less.
    pub fn dec_weak(&mut self)
        requires
            old(self).spec_weak() > 0,
        ensures
            final(self).spec_weak() == old(self).spec_weak() - 1,
            final(self).spec_strong() == old(self).spec_strong(),
    {
        self.weak = self.weak - 1;
    }
}

/// A strong owner of a value of type `T` that lies, with its counts, in a
/// shared heap.
///
/// The heap is shared by reference, so what an owner finds there is what the
/// other users of the heap left: an owner whose allocation was released or
/// overwritten behind its back finds nothing, and says so.
#[verifier::reject_recursive_types(S)]
#[verifier::reject_recursive_types(N)]
pub struct Rc<'a, T: Value, S: StorageSafe, const N: usize> {
    handle: OffsetMetaHandle,
    storage: &'a SharedHeap<S, N>,
    phantom: PhantomData<T>,
}

/// A weak owner of a value of type `T` that lies, with its counts, in a
/// shared heap.
#[verifier::reject_recursive_types(S)]
#[verifier::reject_recursive_types(N)]
pub struct Weak<'a, T: Value, S: StorageSafe, const N: usize> {
    handle: OffsetMetaHandle,
    storage: &'a SharedHeap<S, N>,
    phantom: PhantomData<T>,
}

/// The allocation that `handle` describes is as large as a value of type `T`
/// with its counts.
pub open spec fn box_sized<T: Value>(handle: OffsetMetaHandle) -> bool {
    spec_layout_of(handle.spec_target(), handle.spec_metadata()) matches Some(layout)
        && layout.size == 16 + T::size()
}

/// The allocation that `handle` describes has room for a value of type `T`
/// with its counts.
pub open spec fn box_roomy<T: Value>(handle: OffsetMetaHandle) -> bool {
    spec_layout_of(handle.spec_target(), handle.spec_metadata()) matches Some(layout) && 16
        + T::size() <= layout.size
}

/// What the heap holds under `handle` at this time, read as a value of type
/// `T` with its counts: what `RcBox::decode` makes of what the heap gives.
/// Something is found only under a handle to an allocation of the size of
/// such a value.
fn load<T: Value, S: StorageSafe, const N: usize>(
    storage: &SharedHeap<S, N>,
    handle: OffsetMetaHandle,
) -> (r: Option<RcBox<T>>)
    ensures
        r is Some ==> box_sized::<T>(handle),
{
    let r = RcBox::decode(storage.get(handle));
    proof {
        if r is Some {
            RcBox::lemma_image_len(
                r.unwrap().spec_strong(),
                r.unwrap().spec_weak(),
                r.unwrap().spec_value(),
            );
        }
    }
    r
}

/// Puts `b` into the heap under `handle`. Tells whether the heap took it: it
/// does only under a handle to an allocation with room for it.
fn store<T: Value, S: StorageSafe, const N: usize>(
    storage: &SharedHeap<S, N>,
    handle: OffsetMetaHandle,
    b: &RcBox<T>,
) -> (stored: bool)
    ensures
        stored ==> box_roomy::<T>(handle),
{
    let bytes = b.to_bytes();
    proof {
        RcBox::lemma_image_len(b.spec_strong(), b.spec_weak(), b.spec_value());
    }
    storage.set(handle, 0, bytes.as_slice())
}

impl<'a, T: Value, S: StorageSafe, const N: usize> Rc<'a, T, S, N> {
    /// The handle under which the heap holds the value with its counts.
    pub closed spec fn handle(&self) -> OffsetMetaHandle {
        self.handle
    }

    /// A value in `storage` with its first owner; nothing where the heap has
    /// no room for it.
    pub fn new_in(value: T, storage: &'a SharedHeap<S, N>) -> (r: Option<Rc<'a, T, S, N>>)
        ensures
            r matches Some(rc) ==> {
                &&& 16 + T::size() <= usize::MAX
                &&& rc.handle().spec_target() == Target::Sized(spec_box_layout::<T>())
                &&& rc.handle().spec_metadata() == Metadata::Unit
                &&& rc.handle().spec_offset() + spec_blocks_of::<S>(16 + T::size() as int) <= N
            },
            16 + T::size() > N * S::spec_layout().size ==> r is None,
    {
        let layout = match box_layout::<T>() {
            Some(layout) => layout,
            None => {
                return None;
            },
        };
        let handle = match storage.allocate(Target::Sized(layout), Metadata::Unit) {
            Ok(handle) => handle,
            Err(_) => {
                return None;
            },
        };
        if store(storage, handle, &RcBox::new(value)) {
            Some(Rc { handle, storage, phantom: PhantomData })
        } else {
            storage.deallocate(handle);
            None
        }
    }

    /// The value with its counts, as the heap holds them at this time:
    /// what `RcBox::decode` makes of what the heap gives under the handle.
    pub fn inner(&self) -> (r: Option<RcBox<T>>)
        ensures
            r is Some ==> box_sized::<T>(self.handle()),
    {
        load(self.storage, self.handle)
    }

    /// The value, as the heap holds it at this time.
    pub fn get(&self) -> (r: Option<T>)
        ensures
            r is Some ==> box_sized::<T>(self.handle()),
    {
        match self.inner() {
            Some(b) => Some(b.value()),
            None => None,
        }
    }

    /// Another strong owner of the value; nothing where the heap does not
    /// hold the value any more, or there are as many owners as can be counted.
    pub fn clone(&self) -> (r: Option<Rc<'a, T, S, N>>)
        ensures
            r matches Some(rc) ==> rc.handle() == self.handle() && box_sized::<T>(self.handle()),
    {
        let b = RcBox::add_strong(self.inner())?;
        if store(self.storage, self.handle, &b) {
            Some(Rc { handle: self.handle, storage: self.storage, phantom: PhantomData })
        } else {
            None
        }
    }

    /// A weak owner of the value; nothing where the heap does not hold the
    /// value any more, or there are as many owners as can be counted.
    pub fn downgrade(this: &Self) -> (r: Option<Weak<'a, T, S, N>>)
        ensures
            r matches Some(weak) ==> weak.handle() == this.handle() && box_sized::<T>(
                this.handle(),
            ),
    {
        let b = RcBox::add_weak(this.inner())?;
        if store(this.storage, this.handle, &b) {
            Some(Weak { handle: this.handle, storage: this.storage, phantom: PhantomData })
        } else {
            None
        }
    }

    /// The owner with its handle seen as the wider target `to`. The value and
    /// its counts stay where they are.
    pub fn coerce(self, to: Target) -> (rc: Rc<'a, T, S, N>)
        requires
            self.handle().spec_target().unsizes_to(to),
        ensures
            rc.handle().spec_offset() == self.handle().spec_offset(),
            rc.handle().spec_target() == to,
            rc.handle().spec_metadata() == self.handle().spec_target().unsized_metadata(to),
    {
        Rc { handle: self.handle.coerce(to), storage: self.storage, phantom: PhantomData }
    }

    /// The owner lets go of the value. Says what is left: nothing is known
    /// where the heap does not hold the value any more, or its counts are
    /// spent.
    pub fn release(self) -> (left: Option<Release>)
        ensures
            left is Some ==> box_sized::<T>(self.handle()),
    {
        let (left, b) = RcBox::take_strong(self.inner())?;
        match left {
            Release::Free => {
                self.storage.deallocate(self.handle);
            },
            _ => {
                store(self.storage, self.handle, &b);
            },
        }
        Some(left)
    }
}

/// The number of units with the layout of `S` that `size` bytes take.
pub open spec fn spec_blocks_of<S: StorageSafe>(size: int) -> int {
    crate::heap::spec_blocks(size, S::spec_layout().size as int)
}

impl<'a, T: Value, S: StorageSafe, const N: usize> Weak<'a, T, S, N> {
    /// The handle under which the heap holds the value with its counts.
    pub closed spec fn handle(&self) -> OffsetMetaHandle {
        self.handle
    }

    /// The counts, as the heap holds them at this time.
    pub fn inner(&self) -> (r: Option<WeakInner>)
        ensures
            r is Some ==> box_sized::<T>(self.handle()),
    {
        match load::<T, S, N>(self.storage, self.handle) {
            Some(b) => Some(WeakInner::of(&b)),
            None => None,
        }
    }

    /// A strong owner of the value, if it is still alive.
    pub fn upgrade(&self) -> (r: Option<Rc<'a, T, S, N>>)
        ensures
            r matches Some(rc) ==> rc.handle() == self.handle() && box_sized::<T>(self.handle()),
    {
        let b = RcBox::revive(load::<T, S, N>(self.storage, self.handle))?;
        if store(self.storage, self.handle, &b) {
            Some(Rc { handle: self.handle, storage: self.storage, phantom: PhantomData })
        } else {
            None
        }
    }

    /// The owner lets go. Tells whether it was the last owner, so that the
    /// room was released; nothing is known where the heap does not hold the
    /// counts any more, or they are spent.
    pub fn release(self) -> (free: Option<bool>)
        ensures
            free is Some ==> box_sized::<T>(self.handle()),
    {
        let (free, b) = RcBox::take_weak(load::<T, S, N>(self.storage, self.handle))?;
        if free {
            self.storage.deallocate(self.handle);
        } else {
            store(self.storage, self.handle, &b);
        }
        Some(free)
    }
}

} // verus!
