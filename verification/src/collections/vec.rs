//! A growable run of items that are kept in a storage.

use vstd::prelude::*;
use crate::base::Storage;
use crate::boxed::{default_accepts, default_is_wf, default_refuses};
use crate::error::StorageError;
use crate::handles::{Handle, Metadata, Target};
use crate::layout::Layout;
use crate::utils::{overwrite, read_bytes};
use crate::value::{decode_run, join, lemma_join_chunk, lemma_join_injective, lemma_join_push, Value};

verus! {

/// The target of a run of items of type `T`.
pub open spec fn spec_run_target<T: Value>() -> Target {
    Target::Slice(Layout { size: T::size() as usize, align: T::align() })
}

/// The capacity that a run of capacity `capacity` grows to when it is full:
/// two items for an empty run, and else twice as many as before. There is none
/// if that cannot be written down.
pub open spec fn spec_grown(capacity: usize) -> Option<usize> {
    if capacity == 0 {
        Some(2usize)
    } else if capacity * 2 <= usize::MAX {
        Some((capacity * 2) as usize)
    } else {
        None
    }
}

/// The capacity that a full run of capacity `capacity` grows to.
pub fn grown(capacity: usize) -> (r: Option<usize>)
    ensures
        r == spec_grown(capacity),
{
    if capacity == 0 {
        Some(2)
    } else {
        capacity.checked_mul(2)
    }
}

/// Every storage that a clone of `storage` can be is in order and has room for
/// a single allocation of `target` with `meta`.
pub open spec fn clone_accepts<S: Storage + Clone>(
    storage: &S,
    target: Target,
    meta: Metadata,
) -> bool {
    forall|copy: S| #[trigger]
        call_ensures(S::clone, (storage,), copy) ==> copy.wf() && copy.single_verdict(
            target,
            meta,
        ) is Ok
}

/// A growable run of items of type `T` in a storage of type `S`, which the run
/// owns.
pub struct Vec<T: Value, S: Storage> {
    handle: S::Handle,
    len: usize,
    storage: S,
    items: Ghost<Seq<T>>,
}

impl<T: Value, S: Storage> View for Vec<T, S> {
    type V = Seq<T>;

    /// The items of the run, in order.
    closed spec fn view(&self) -> Seq<T> {
        self.items@
    }
}

impl<T: Value, S: Storage> Vec<T, S> {
    /// The storage that the run owns.
    pub closed spec fn storage(&self) -> S {
        self.storage
    }

    /// The handle under which the storage holds the items.
    pub closed spec fn handle(&self) -> S::Handle {
        self.handle
    }

    /// The number of items that the run has room for.
    pub open spec fn spec_capacity(&self) -> usize {
        self.handle().spec_metadata()->Len_0
    }

    /// The run is in order: its storage is, the handle is valid and denotes
    /// room for as many items as the capacity says, and the bytes at the
    /// start of that room are the images of the items. Every function keeps
    /// it so.
    pub closed spec fn wf(&self) -> bool {
        &&& self.storage.wf()
        &&& self.storage.valid(self.handle)
        &&& T::size() <= usize::MAX
        &&& self.handle.spec_target() == spec_run_target::<T>()
        &&& self.handle.spec_metadata() is Len
        &&& self.len <= self.handle.spec_metadata()->Len_0
        &&& self.items@.len() == self.len
        &&& self.storage.contents(self.handle).subrange(0, self.len * T::size()) == join(
            self.items@,
            T::size(),
        )
    }

    /// A run in order records its length and its handle as they are.
    pub proof fn lemma_wf(&self)
        requires
            self.wf(),
        ensures
            self@.len() <= self.spec_capacity(),
            self.storage().wf(),
            self.storage().valid(self.handle()),
            self.handle().spec_target() == spec_run_target::<T>(),
            self.handle().spec_metadata() is Len,
            T::size() <= usize::MAX,
    {
    }

    /// The room of a run in order: `capacity` items of `size` bytes each, all
    /// within the bytes of the handle.
    proof fn lemma_room(&self)
        requires
            self.wf(),
        ensures
            self.storage.contents(self.handle).len() == self.spec_capacity() * T::size(),
            0 <= self.len * T::size() <= self.spec_capacity() * T::size() <= usize::MAX,
    {
        self.storage.lemma_valid(self.handle);
        let size = T::size() as int;
        let cap = self.spec_capacity() as int;
        let len = self.len as int;
        assert(size * cap == cap * size) by (nonlinear_arith);
        assert(0 <= len * size <= cap * size) by (nonlinear_arith)
            requires
                0 <= len <= cap,
                0 <= size,
        ;
    }

    /// The target of a run of items of type `T`, if the size of an item can be
    /// written down.
    pub fn run_target() -> (r: Option<Target>)
        ensures
            r == if T::size() <= usize::MAX {
                Some(spec_run_target::<T>())
            } else {
                None
            },
    {
        match T::layout() {
            Some(elem) => Some(Target::Slice(elem)),
            None => None,
        }
    }

    /// An empty run in `storage`, which must agree to hold it.
    pub fn new_in(storage: S) -> (v: Vec<T, S>)
        requires
            storage.wf(),
            T::size() <= usize::MAX,
            storage.single_verdict(spec_run_target::<T>(), Metadata::Len(0)) is Ok,
        ensures
            v.wf(),
            v@.len() == 0,
            v.spec_capacity() == 0,
    {
        Vec::with_capacity_in(0, storage)
    }

    /// An empty run in `storage`, if that agrees to hold it.
    pub fn try_new_in(storage: S) -> (r: Result<Vec<T, S>, StorageError>)
        requires
            storage.wf(),
        ensures
            match r {
                Ok(v) => {
                    &&& T::size() <= usize::MAX
                    &&& storage.single_verdict(spec_run_target::<T>(), Metadata::Len(0)) is Ok
                    &&& v.wf()
                    &&& v@.len() == 0
                    &&& v.spec_capacity() == 0
                },
                Err(e) => if T::size() <= usize::MAX {
                    storage.single_verdict(spec_run_target::<T>(), Metadata::Len(0)) == Err::<
                        (),
                        _,
                    >(e)
                } else {
                    e == StorageError::spec_exceeds_max()
                },
            },
    {
        let target = match Self::run_target() {
            Some(target) => target,
            None => {
                return Err(StorageError::exceeds_max());
            },
        };
        let mut storage = storage;
        let handle = storage.allocate_single(target, Metadata::Len(0))?;
        let v = Vec { handle, len: 0, storage, items: Ghost(Seq::empty()) };
        assert(v.storage.contents(v.handle).subrange(0, 0) =~= join(
            Seq::<T>::empty(),
            T::size(),
        ));
        Ok(v)
    }

    /// An empty run with room for `size` items in `storage`, which must agree
    /// to hold it.
    pub fn with_capacity_in(size: usize, storage: S) -> (v: Vec<T, S>)
        requires
            storage.wf(),
            T::size() <= usize::MAX,
            storage.single_verdict(spec_run_target::<T>(), Metadata::Len(size)) is Ok,
        ensures
            v.wf(),
            v@.len() == 0,
            v.spec_capacity() == size,
    {
        let target = match Self::run_target() {
            Some(target) => target,
            None => vstd::pervasive::unreached(),
        };
        let mut storage = storage;
        let handle = match storage.allocate_single(target, Metadata::Len(size)) {
            Ok(handle) => handle,
            Err(_) => vstd::pervasive::unreached(),
        };
        let v = Vec { handle, len: 0, storage, items: Ghost(Seq::empty()) };
        assert(v.storage.contents(v.handle).subrange(0, 0) =~= join(
            Seq::<T>::empty(),
            T::size(),
        ));
        v
    }

    /// Whether the run has no item.
    pub fn is_empty(&self) -> (b: bool)
        requires
            self.wf(),
        ensures
            b == (self@.len() == 0),
    {
        self.len == 0
    }

    /// The number of items.
    pub fn len(&self) -> (n: usize)
        requires
            self.wf(),
        ensures
            n == self@.len(),
    {
        self.len
    }

    /// The number of items that the run has room for.
    pub fn capacity(&self) -> (n: usize)
        requires
            self.wf(),
        ensures
            n == self.spec_capacity(),
    {
        match self.handle.metadata() {
            Metadata::Len(n) => n,
            _ => 0,
        }
    }

    fn item_size() -> (size: usize)
        requires
            T::size() <= usize::MAX,
        ensures
            size == T::size(),
    {
        match T::layout() {
            Some(layout) => layout.size,
            None => 0,
        }
    }

    /// Puts `val` behind the items of the run. A run that is full grows
    /// first, to two items if it had room for none and else to twice its
    /// capacity; where it cannot grow, nothing has changed.
    pub fn push(&mut self, val: T) -> (r: Result<(), StorageError>)
        requires
            old(self).wf(),
        ensures
            final(self).wf(),
            match r {
                Ok(()) => {
                    &&& final(self)@ == old(self)@.push(val)
                    &&& old(self)@.len() < old(self).spec_capacity() || (spec_grown(
                        old(self).spec_capacity(),
                    ) matches Some(c) && old(self).storage().grow_verdict(old(self).handle(), c)
                        is Ok)
                    &&& final(self).spec_capacity() == if old(self)@.len() < old(
                        self,
                    ).spec_capacity() {
                        old(self).spec_capacity()
                    } else {
                        spec_grown(old(self).spec_capacity()).unwrap()
                    }
                },
                Err(e) => {
                    &&& final(self)@ == old(self)@
                    &&& final(self).spec_capacity() == old(self).spec_capacity()
                    &&& old(self)@.len() == old(self).spec_capacity()
                    &&& match spec_grown(old(self).spec_capacity()) {
                        Some(c) => old(self).storage().grow_verdict(old(self).handle(), c) == Err::<
                            (),
                            _,
                        >(e),
                        None => e == StorageError::spec_exceeds_max(),
                    }
                },
            },
    {
        let old_capacity = self.capacity();
        let size = Self::item_size();
        proof {
            self.lemma_room();
        }

        if self.len >= old_capacity {
            let new_capacity = match grown(old_capacity) {
                Some(c) => c,
                None => {
                    return Err(StorageError::exceeds_max());
                },
            };
            let handle = self.handle;
            let ghost before = self.storage.contents(handle);
            let grown = self.storage.try_grow(handle, new_capacity)?;
            self.handle = grown;
            proof {
                let after = self.storage.contents(grown);
                assert(after.subrange(0, self.len * T::size()) =~= before.subrange(
                    0,
                    self.len * T::size(),
                ));
            }
        }
        proof {
            self.lemma_room();
            val.lemma_image_len();
            let len = self.len as int;
            let cap = self.spec_capacity() as int;
            let width = T::size() as int;
            assert(len * width + width <= cap * width) by (nonlinear_arith)
                requires
                    len + 1 <= cap,
                    0 <= width,
            ;
            assert((len + 1) * width == len * width + width) by (nonlinear_arith);
        }
        let bytes = val.to_bytes();
        let handle = self.handle;
        let ghost before = self.storage.contents(handle);
        self.storage.set(handle, self.len * size, bytes.as_slice());
        proof {
            let after = self.storage.contents(handle);
            lemma_join_push(self.items@, val);
            assert(after.subrange(0, (self.len + 1) * T::size()) =~= before.subrange(
                0,
                self.len * T::size(),
            ) + val.image());
        }
        self.items = Ghost(self.items@.push(val));
        self.len = self.len + 1;
        Ok(())
    }

    /// Takes the last item off the run, which must not be empty.
    pub fn pop(&mut self) -> (val: T)
        requires
            old(self).wf(),
            old(self)@.len() > 0,
        ensures
            final(self).wf(),
            val == old(self)@.last(),
            final(self)@ == old(self)@.drop_last(),
            final(self).spec_capacity() == old(self).spec_capacity(),
            final(self).storage() == old(self).storage(),
    {
        let val = self.index(self.len - 1);
        proof {
            self.lemma_room();
            let len = self.len as int;
            let width = T::size() as int;
            assert((len - 1) * width <= len * width) by (nonlinear_arith)
                requires
                    0 <= width,
            ;
            lemma_join_push(self.items@.drop_last(), self.items@.last());
            assert(self.items@.drop_last().push(self.items@.last()) =~= self.items@);
            val.lemma_image_len();
            assert((len - 1) * width + width == len * width) by (nonlinear_arith);
            assert(self.storage.contents(self.handle).subrange(0, (len - 1) * width) =~= join(
                self.items@,
                T::size(),
            ).subrange(0, (len - 1) * width));
            assert(join(self.items@, T::size()).subrange(0, (len - 1) * width) =~= join(
                self.items@.drop_last(),
                T::size(),
            ));
        }
        self.len = self.len - 1;
        self.items = Ghost(self.items@.drop_last());
        val
    }

    /// The item at place `index`.
    pub fn index(&self, index: usize) -> (val: T)
        requires
            self.wf(),
            index < self@.len(),
        ensures
            val == self@[index as int],
    {
        let size = Self::item_size();
        proof {
            self.lemma_room();
            lemma_join_chunk(self.items@, index as int);
            let len = self.len as int;
            let width = T::size() as int;
            assert((index + 1) * width == index * width + width) by (nonlinear_arith);
            assert((index + 1) * width <= len * width) by (nonlinear_arith)
                requires
                    index + 1 <= len,
                    0 <= width,
            ;
        }
        let all = self.storage.get(self.handle);
        let chunk = read_bytes(&all, index * size, size);
        proof {
            let width = T::size() as int;
            assert(chunk@ =~= self.storage.contents(self.handle).subrange(
                0,
                self.len * T::size(),
            ).subrange(index * width, (index + 1) * width));
        }
        let val = T::from_bytes(chunk.as_slice());
        proof {
            val.lemma_injective(&self.items@[index as int]);
        }
        val
    }

    /// Puts `val` in the place of the item at place `index`.
    pub fn index_mut(&mut self, index: usize, val: T)
        requires
            old(self).wf(),
            index < old(self)@.len(),
        ensures
            final(self).wf(),
            final(self)@ == old(self)@.update(index as int, val),
            final(self).spec_capacity() == old(self).spec_capacity(),
    {
        let size = Self::item_size();
        proof {
            self.lemma_room();
            val.lemma_image_len();
            let len = self.len as int;
            let width = T::size() as int;
            assert((index + 1) * width == index * width + width) by (nonlinear_arith);
            assert(0 <= index * width) by (nonlinear_arith)
                requires
                    0 <= index,
                    0 <= width,
            ;
            assert((index + 1) * width <= len * width) by (nonlinear_arith)
                requires
                    index + 1 <= len,
                    0 <= width,
            ;
        }
        let bytes = val.to_bytes();
        let handle = self.handle;
        let ghost before = self.storage.contents(handle);
        self.storage.set(handle, index * size, bytes.as_slice());
        proof {
            let after = self.storage.contents(handle);
            let width = T::size() as int;
            let len = self.len as int;
            let at = index as int;
            let items = self.items@;
            let changed = items.update(at, val);
            let prefix = after.subrange(0, len * width);
            let joined = join(changed, T::size());
            assert(before.subrange(0, len * width) == join(items, T::size()));
            assert(changed.len() == len);
            assert(joined.len() == len * width);
            assert forall|j: int| 0 <= j < len * width implies prefix[j] == joined[j] by {
                assert(width > 0) by (nonlinear_arith)
                    requires
                        j < len * width,
                        0 <= j,
                        0 <= width,
                ;
                let q = j / width;
                let r = j % width;
                vstd::arithmetic::div_mod::lemma_fundamental_div_mod(j, width);
                vstd::arithmetic::div_mod::lemma_mod_bound(j, width);
                assert(q * width == width * q) by (nonlinear_arith);
                assert(0 <= q < len) by (nonlinear_arith)
                    requires
                        j == q * width + r,
                        0 <= r < width,
                        0 <= j < len * width,
                ;
                assert(joined[j] == changed[q].image()[r]);
                if q == at {
                    assert(after[j] == bytes@[j - at * width]);
                } else {
                    if q < at {
                        assert(j < at * width) by (nonlinear_arith)
                            requires
                                j == q * width + r,
                                r < width,
                                0 < width,
                                q + 1 <= at,
                        ;
                    } else {
                        assert(j >= at * width + width) by (nonlinear_arith)
                            requires
                                j == q * width + r,
                                0 <= r,
                                0 < width,
                                q >= at + 1,
                        ;
                    }
                    assert(after[j] == before[j]);
                    assert(before.subrange(0, len * width)[j] == before[j]);
                    assert(join(items, T::size())[j] == items[q].image()[r]);
                }
            }
            assert(prefix =~= joined);
        }
        self.items = Ghost(self.items@.update(index as int, val));
    }

    /// The items of the run, in order.
    pub fn iter(&self) -> (items: std::vec::Vec<T>)
        requires
            self.wf(),
        ensures
            items@ == self@,
    {
        let size = Self::item_size();
        proof {
            self.lemma_room();
        }
        let all = self.storage.get(self.handle);
        let bytes = read_bytes(&all, 0, self.len * size);
        let items = decode_run::<T>(&bytes, self.len);
        proof {
            lemma_join_injective(items@, self.items@);
        }
        items
    }

    /// The items of the run, in order.
    pub fn as_ref(&self) -> (items: std::vec::Vec<T>)
        requires
            self.wf(),
        ensures
            items@ == self@,
    {
        self.iter()
    }

    /// Puts the items of `items` behind those of the run, one after the
    /// other. It stops at the first that cannot be put there, and says how
    /// many were.
    pub fn extend(&mut self, items: &[T]) -> (r: Result<(), (usize, StorageError)>)
        where T: Copy
        requires
            old(self).wf(),
        ensures
            final(self).wf(),
            match r {
                Ok(()) => final(self)@ == old(self)@ + items@,
                Err((done, _)) => done < items@.len() && final(self)@ == old(self)@
                    + items@.subrange(0, done as int),
            },
    {
        let mut i: usize = 0;
        while i < items.len()
            invariant
                i <= items@.len(),
                self.wf(),
                self@ == old(self)@ + items@.subrange(0, i as int),
            decreases items@.len() - i,
        {
            match self.push(items[i]) {
                Ok(()) => {},
                Err(e) => {
                    return Err((i, e));
                },
            }
            i += 1;
            assert(self@ =~= old(self)@ + items@.subrange(0, i as int));
        }
        assert(items@.subrange(0, i as int) =~= items@);
        Ok(())
    }

    /// A run of the items of `items` in `storage`, which must agree to hold
    /// as many.
    pub fn from_slice_in(items: &[T], storage: S) -> (v: Vec<T, S>)
        where T: Copy
        requires
            storage.wf(),
            T::size() <= usize::MAX,
            storage.single_verdict(spec_run_target::<T>(), Metadata::Len(items@.len() as usize))
                is Ok,
        ensures
            v.wf(),
            v@ == items@,
            v.spec_capacity() == items@.len(),
    {
        let mut v: Vec<T, S> = Vec::with_capacity_in(items.len(), storage);
        let mut i: usize = 0;
        while i < items.len()
            invariant
                i <= items@.len(),
                v.wf(),
                v.spec_capacity() == items@.len(),
                v@ == items@.subrange(0, i as int),
            decreases items@.len() - i,
        {
            match v.push(items[i]) {
                Ok(()) => {},
                Err(_) => vstd::pervasive::unreached(),
            }
            i += 1;
            assert(v@ =~= items@.subrange(0, i as int));
        }
        assert(items@.subrange(0, i as int) =~= items@);
        v
    }

    /// Releases the room of the run, and gives the storage back.
    pub fn free(self) -> (storage: S)
        requires
            self.wf(),
        ensures
            storage.wf(),
    {
        let Vec { handle, len: _, storage, items: _ } = self;
        let mut storage = storage;
        storage.deallocate_single(handle);
        storage
    }
}

impl<T: Value, S: Storage + Default> Vec<T, S> {
    /// An empty run in a storage of its own, which must agree to hold it.
    pub fn new() -> (v: Vec<T, S>)
        requires
            T::size() <= usize::MAX,
            default_accepts::<S>(spec_run_target::<T>(), Metadata::Len(0)),
        ensures
            v.wf(),
            v@.len() == 0,
            v.spec_capacity() == 0,
    {
        Vec::new_in(S::default())
    }

    /// An empty run in a storage of its own, if that agrees to hold it.
    pub fn try_new() -> (r: Result<Vec<T, S>, StorageError>)
        requires
            default_is_wf::<S>(),
        ensures
            T::size() <= usize::MAX && default_accepts::<S>(
                spec_run_target::<T>(),
                Metadata::Len(0),
            ) ==> r is Ok,
            T::size() > usize::MAX || default_refuses::<S>(
                spec_run_target::<T>(),
                Metadata::Len(0),
            ) ==> r is Err,
            r matches Ok(v) ==> v.wf() && v@.len() == 0 && v.spec_capacity() == 0,
    {
        Vec::try_new_in(S::default())
    }

    /// A run of the items of `items` in a storage of its own, which must
    /// agree to hold as many.
    pub fn from_slice(items: &[T]) -> (v: Vec<T, S>)
        where T: Copy
        requires
            T::size() <= usize::MAX,
            default_accepts::<S>(spec_run_target::<T>(), Metadata::Len(items@.len() as usize)),
        ensures
            v.wf(),
            v@ == items@,
            v.spec_capacity() == items@.len(),
    {
        Vec::from_slice_in(items, S::default())
    }

    /// An empty run with room for `size` items in a storage of its own, which
    /// must agree to hold it.
    pub fn with_capacity(size: usize) -> (v: Vec<T, S>)
        requires
            T::size() <= usize::MAX,
            default_accepts::<S>(spec_run_target::<T>(), Metadata::Len(size)),
        ensures
            v.wf(),
            v@.len() == 0,
            v.spec_capacity() == size,
    {
        Vec::with_capacity_in(size, S::default())
    }
}

impl<T: Value, S: Storage + Clone> Vec<T, S> {
    /// A run of the same items in a clone of the storage, which must be in
    /// order and agree to hold as many items as the run has.
    pub fn clone(&self) -> (v: Vec<T, S>)
        requires
            self.wf(),
            clone_accepts(&self.storage(), spec_run_target::<T>(), Metadata::Len(self@.len() as usize)),
        ensures
            v.wf(),
            v@ == self@,
            v.spec_capacity() == self@.len(),
    {
        let size = Self::item_size();
        let mut new_storage = self.storage.clone();
        let new_handle = match new_storage.allocate_single(
            self.handle.target(),
            Metadata::Len(self.len),
        ) {
            Ok(handle) => handle,
            Err(_) => vstd::pervasive::unreached(),
        };
        proof {
            self.lemma_room();
            new_storage.lemma_valid(new_handle);
            assert(size * self.len == self.len * size) by (nonlinear_arith);
        }
        let all = self.storage.get(self.handle);
        let bytes = read_bytes(&all, 0, self.len * size);
        let ghost before = new_storage.contents(new_handle);
        new_storage.set(new_handle, 0, bytes.as_slice());
        proof {
            assert(overwrite(before, 0, bytes@).subrange(0, self.len * T::size()) =~= bytes@);
        }
        Vec { handle: new_handle, len: self.len, storage: new_storage, items: self.items }
    }
}

} // verus!
