//! An owning pointer that keeps its value in a storage.

use vstd::prelude::*;
use crate::base::{create_single, FromLeakedStorage, LeaksafeStorage, Storage};
use crate::handles::{Handle, Metadata, Target};
use crate::utils::overwrite;
use crate::value::Value;

verus! {

/// A value of type `T` that lives in a storage of type `S`, which the box owns.
pub struct Box<T: Value, S: Storage> {
    handle: S::Handle,
    storage: S,
    value: Ghost<T>,
}

impl<T: Value, S: Storage> View for Box<T, S> {
    type V = T;

    /// The value that the box holds.
    closed spec fn view(&self) -> T {
        self.value@
    }
}

/// Every storage that `S::default` can return is in order.
pub open spec fn default_is_wf<S: Storage + Default>() -> bool {
    forall|storage: S| call_ensures(S::default, (), storage) ==> storage.wf()
}

/// Every storage that `S::default` can return is in order and has room for a
/// single allocation of `target` with `meta`.
pub open spec fn default_accepts<S: Storage + Default>(target: Target, meta: Metadata) -> bool {
    forall|storage: S| #[trigger]
        call_ensures(S::default, (), storage) ==> storage.wf() && storage.single_verdict(
            target,
            meta,
        ) is Ok
}

/// No storage that `S::default` can return has room for a single allocation of
/// `target` with `meta`.
pub open spec fn default_refuses<S: Storage + Default>(target: Target, meta: Metadata) -> bool {
    forall|storage: S| #[trigger]
        call_ensures(S::default, (), storage) ==> storage.single_verdict(target, meta) is Err
}

impl<T: Value, S: Storage> Box<T, S> {
    /// The box is in order: its storage is, the handle is valid, and its
    /// bytes are the image of the value. Every function keeps it so.
    pub closed spec fn wf(&self) -> bool {
        &&& self.storage.wf()
        &&& self.storage.valid(self.handle)
        &&& self.storage.contents(self.handle) == self.value@.image()
    }

    /// The storage that the box owns.
    pub closed spec fn storage(&self) -> S {
        self.storage
    }

    /// The handle under which the storage holds the value.
    pub closed spec fn handle(&self) -> S::Handle {
        self.handle
    }

    /// A box around `val` in `storage`, which must have room for it.
    pub fn new_in(val: T, storage: S) -> (b: Box<T, S>)
        requires
            storage.wf(),
            storage.single_verdict(T::spec_target(), Metadata::Unit) is Ok,
        ensures
            b.wf(),
            b@ == val,
            b.handle().spec_target() == T::spec_target(),
            b.handle().spec_metadata() == Metadata::Unit,
    {
        let mut storage = storage;
        match create_single(&mut storage, val) {
            Ok(handle) => Box { handle, storage, value: Ghost(val) },
            Err(_) => vstd::pervasive::unreached(),
        }
    }

    /// A box around `val` in `storage`, if that has room for it; else both come
    /// back.
    pub fn try_new_in(val: T, storage: S) -> (r: Result<Box<T, S>, (T, S)>)
        requires
            storage.wf(),
        ensures
            r is Ok <==> storage.single_verdict(T::spec_target(), Metadata::Unit) is Ok,
            r matches Ok(b) ==> {
                &&& b.wf()
                &&& b@ == val
                &&& b.handle().spec_target() == T::spec_target()
                &&& b.handle().spec_metadata() == Metadata::Unit
            },
            r matches Err((back, kept)) ==> back == val && kept.wf(),
    {
        let mut storage = storage;
        let handle = match create_single(&mut storage, val) {
            Ok(handle) => handle,
            Err((_, val)) => {
                return Err((val, storage));
            },
        };

        Ok(Box { handle, storage, value: Ghost(val) })
    }

    /// The value that the box holds.
    pub fn get(&self) -> (val: T)
        requires
            self.wf(),
        ensures
            val == self@,
    {
        proof {
            self.storage.lemma_valid(self.handle);
            self.value@.lemma_image_len();
        }
        let bytes = self.storage.get(self.handle);
        let val = T::from_bytes(bytes.as_slice());
        proof {
            val.lemma_injective(&self.value@);
        }
        val
    }

    /// Puts `val` in the place of the value that the box holds.
    pub fn set(&mut self, val: T)
        requires
            old(self).wf(),
        ensures
            final(self).wf(),
            final(self)@ == val,
            final(self).handle() == old(self).handle(),
    {
        proof {
            self.storage.lemma_valid(self.handle);
            self.value@.lemma_image_len();
            val.lemma_image_len();
        }
        let bytes = val.to_bytes();
        let handle = self.handle;
        let ghost before = self.storage.contents(handle);
        assert(overwrite(before, 0, bytes@) =~= bytes@);
        self.storage.set(handle, 0, bytes.as_slice());
        self.value = Ghost(val);
    }

    /// Moves the value to another storage, if that has room for it; else the
    /// box and the other storage come back as they were.
    pub fn try_in<Ns: Storage>(self, new_storage: Ns) -> (r: Result<Box<T, Ns>, (Box<T, S>, Ns)>)
        requires
            self.wf(),
            new_storage.wf(),
        ensures
            r is Ok <==> new_storage.single_verdict(
                self.handle().spec_target(),
                self.handle().spec_metadata(),
            ) is Ok,
            r matches Ok(b) ==> {
                &&& b.wf()
                &&& b@ == self@
                &&& b.handle().spec_target() == self.handle().spec_target()
                &&& b.handle().spec_metadata() == self.handle().spec_metadata()
            },
            r matches Err((b, kept)) ==> b == self && kept.wf(),
    {
        proof {
            self.storage.lemma_valid(self.handle);
        }
        let mut new_storage = new_storage;
        let mut this = self;
        let bytes = this.storage.get(this.handle);
        let new_handle = match new_storage.allocate_single(
            this.handle.target(),
            this.handle.metadata(),
        ) {
            Ok(handle) => handle,
            Err(_) => {
                return Err((this, new_storage));
            },
        };
        proof {
            new_storage.lemma_valid(new_handle);
            assert(overwrite(new_storage.contents(new_handle), 0, bytes@) =~= bytes@);
        }
        new_storage.set(new_handle, 0, bytes.as_slice());

        let Box { handle, storage, value } = this;
        let mut storage = storage;
        storage.deallocate_single(handle);

        Ok(Box { handle: new_handle, storage: new_storage, value })
    }

    /// Takes the box apart into its storage and the handle of the value. The
    /// allocation stays; it is for the caller to release it.
    pub fn into_parts(self) -> (parts: (S, S::Handle))
        requires
            self.wf(),
        ensures
            parts.0 == self.storage(),
            parts.1 == self.handle(),
            parts.0.wf(),
            parts.0.valid(parts.1),
            parts.0.contents(parts.1) == self@.image(),
    {
        let Box { handle, storage, value: _ } = self;
        (storage, handle)
    }

    /// Makes a box of a storage and a handle that is valid for it and denotes
    /// as many bytes as a `T` has.
    pub fn from_parts(storage: S, handle: S::Handle) -> (b: Box<T, S>)
        requires
            storage.wf(),
            storage.valid(handle),
            storage.contents(handle).len() == T::size(),
        ensures
            b.wf(),
            b.storage() == storage,
            b.handle() == handle,
            b@.image() == storage.contents(handle),
    {
        let bytes = storage.get(handle);
        let val = T::from_bytes(bytes.as_slice());
        Box { handle, storage, value: Ghost(val) }
    }

    /// The box with its handle seen as the wider target `to`. The value stays
    /// where it is, and is read as before.
    pub fn coerce(self, to: Target) -> (b: Box<T, S>)
        requires
            self.wf(),
            self.handle().spec_target() == T::spec_target(),
            self.handle().spec_metadata() == Metadata::Unit,
            T::spec_target().unsizes_to(to),
        ensures
            b.wf(),
            b@ == self@,
            b.storage() == self.storage(),
            b.handle().spec_addr() == self.handle().spec_addr(),
            b.handle().spec_target() == to,
            b.handle().spec_metadata() == T::spec_target().unsized_metadata(to),
    {
        let Box { handle, storage, value } = self;
        let wider = handle.coerce(to);
        proof {
            storage.lemma_valid(handle);
            storage.lemma_retarget(handle, wider);
        }
        Box { handle: wider, storage, value }
    }

    /// Releases the allocation of the box, and gives the storage back.
    pub fn free(self) -> (storage: S)
        requires
            self.wf(),
        ensures
            storage.wf(),
    {
        let Box { handle, storage, value: _ } = self;
        let mut storage = storage;
        storage.deallocate_single(handle);
        storage
    }
}

impl<T: Value, S: LeaksafeStorage> Box<T, S> {
    /// Leaks the box: the value stays where it is, and what is left of the
    /// box is the address, the target and the metadata of its handle, from
    /// which `from_raw_in` makes a box again.
    pub fn into_raw(self) -> (raw: (<S::Handle as Handle>::Addr, Target, Metadata, S))
        requires
            self.wf(),
        ensures
            raw.0 == self.handle().spec_addr(),
            raw.1 == self.handle().spec_target(),
            raw.2 == self.handle().spec_metadata(),
            raw.3 == self.storage(),
    {
        let Box { handle, storage, value: _ } = self;
        (handle.addr(), handle.target(), handle.metadata(), storage)
    }
}

impl<T: Value, S: FromLeakedStorage> Box<T, S> {
    /// Makes a box again of what `into_raw` left of one: the address, the
    /// target and the metadata of a handle that is valid for `storage` and
    /// denotes as many bytes as a `T` has.
    pub fn from_raw_in(
        addr: <S::Handle as Handle>::Addr,
        target: Target,
        meta: Metadata,
        storage: S,
    ) -> (b: Box<T, S>)
        requires
            storage.wf(),
            storage.leaked_from(addr),
            exists|handle: S::Handle|
                {
                    &&& #[trigger] storage.valid(handle)
                    &&& handle.spec_addr() == addr
                    &&& handle.spec_target() == target
                    &&& handle.spec_metadata() == meta
                    &&& storage.contents(handle).len() == T::size()
                },
        ensures
            b.wf(),
            b.storage() == storage,
            b.handle().spec_addr() == addr,
            b.handle().spec_target() == target,
            b.handle().spec_metadata() == meta,
            b@.image() == storage.contents(b.handle()),
    {
        let handle = storage.unleak(addr, target, meta);
        proof {
            let leaked = choose|leaked: S::Handle|
                {
                    &&& #[trigger] storage.valid(leaked)
                    &&& leaked.spec_addr() == addr
                    &&& leaked.spec_target() == target
                    &&& leaked.spec_metadata() == meta
                    &&& storage.contents(leaked).len() == T::size()
                };
            storage.lemma_retarget(leaked, handle);
        }
        Box::from_parts(storage, handle)
    }
}

impl<T: Value, S: Storage + Default> Box<T, S> {
    /// A box around `val` in a storage of its own, which must have room for
    /// it.
    pub fn new(val: T) -> (b: Box<T, S>)
        requires
            default_accepts::<S>(T::spec_target(), Metadata::Unit),
        ensures
            b.wf(),
            b@ == val,
            b.handle().spec_target() == T::spec_target(),
            b.handle().spec_metadata() == Metadata::Unit,
    {
        Box::new_in(val, S::default())
    }

    /// A box around `val` in a storage of its own, if that has room for it;
    /// else the value comes back.
    pub fn try_new(val: T) -> (r: Result<Box<T, S>, T>)
        requires
            default_is_wf::<S>(),
        ensures
            default_accepts::<S>(T::spec_target(), Metadata::Unit) ==> r is Ok,
            default_refuses::<S>(T::spec_target(), Metadata::Unit) ==> r is Err,
            r matches Ok(b) ==> {
                &&& b.wf()
                &&& b@ == val
                &&& b.handle().spec_target() == T::spec_target()
                &&& b.handle().spec_metadata() == Metadata::Unit
            },
            r matches Err(back) ==> back == val,
    {
        match Box::try_new_in(val, S::default()) {
            Ok(b) => Ok(b),
            Err((val, _)) => Err(val),
        }
    }
}

} // verus!
