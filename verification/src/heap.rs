//! A storage that keeps its allocations in a virtual heap: a fixed number of
//! units of one size, and a map that tells which of them are in use.
//!
//! It needs no allocator, holds any number of allocations of any target as long
//! as units are left, and can grow a run where it lies or move it elsewhere.

use core::marker::PhantomData;
use vstd::prelude::*;
use crate::base::{
    ExactSizeStorage,
    FromLeakedStorage,
    LeaksafeStorage,
    MultiItemStorage,
    Storage,
    StorageSafe,
};
use crate::bitmap::{
    count_used,
    disjoint,
    fits,
    is_first_fit,
    ledger_matches,
    lemma_acquire,
    lemma_all_released,
    lemma_conservation,
    lemma_fresh,
    lemma_live_is_used,
    lemma_release,
    lemma_resize,
    lemma_whole_map_fits,
    mark,
    run_free,
    run_used,
    total_units,
};
use crate::error::StorageError;
use crate::handles::{Handle, Metadata, OffsetMetaHandle, Target};
use crate::layout::Layout;
use crate::utils::{
    layout_of,
    overwrite,
    read_bytes,
    spec_layout_of,
    spec_validate_layout_for,
    validate_layout_for,
    write_bytes,
    zeroed,
};

verus! {

/// The number of units of `unit` bytes that `size` bytes take: the quotient,
/// rounded up.
pub open spec fn spec_blocks(size: int, unit: int) -> int {
    size / unit + if size % unit == 0 {
        0int
    } else {
        1int
    }
}

/// The units of `size` bytes cover them, with less than one unit to spare.
pub proof fn lemma_blocks_cover(size: int, unit: int)
    requires
        0 <= size,
        0 < unit,
    ensures
        0 <= spec_blocks(size, unit) <= size,
        size <= spec_blocks(size, unit) * unit < size + unit,
        size == 0 <==> spec_blocks(size, unit) == 0,
{
    vstd::arithmetic::div_mod::lemma_fundamental_div_mod(size, unit);
    vstd::arithmetic::div_mod::lemma_mod_bound(size, unit);
    vstd::arithmetic::div_mod::lemma_div_pos_is_pos(size, unit);
    let q = size / unit;
    let r = size % unit;
    assert((q + 1) * unit == q * unit + unit) by (nonlinear_arith);
    assert(q * unit == unit * q) by (nonlinear_arith);
    assert(q <= q * unit) by (nonlinear_arith)
        requires
            0 <= q,
            0 < unit,
    ;
    assert(size == q * unit + r);
    if size == 0 {
        assert(q == 0) by (nonlinear_arith)
            requires
                0 <= q,
                0 < unit,
                q * unit <= 0,
        ;
    }
    if q == 0 && r == 0 {
        assert(q * unit == 0) by (nonlinear_arith)
            requires
                q == 0,
        ;
    }
}

/// More bytes never take fewer units.
pub proof fn lemma_blocks_monotonic(small: int, large: int, unit: int)
    requires
        0 <= small <= large,
        0 < unit,
    ensures
        spec_blocks(small, unit) <= spec_blocks(large, unit),
{
    lemma_blocks_cover(small, unit);
    lemma_blocks_cover(large, unit);
    let a = spec_blocks(small, unit);
    let b = spec_blocks(large, unit);
    if a > b {
        assert(a * unit >= (b + 1) * unit) by (nonlinear_arith)
            requires
                a >= b + 1,
                0 < unit,
        ;
        assert((b + 1) * unit == b * unit + unit) by (nonlinear_arith);
    }
}

/// A request takes no more than `count` units exactly when it asks for no more
/// bytes than `count` units hold.
pub proof fn lemma_blocks_within(size: int, unit: int, count: int)
    requires
        0 <= size,
        0 < unit,
        0 <= count,
    ensures
        spec_blocks(size, unit) <= count <==> size <= count * unit,
{
    lemma_blocks_cover(size, unit);
    let b = spec_blocks(size, unit);
    if b <= count {
        assert(b * unit <= count * unit) by (nonlinear_arith)
            requires
                b <= count,
                0 < unit,
        ;
    } else {
        assert(b * unit >= (count + 1) * unit) by (nonlinear_arith)
            requires
                b >= count + 1,
                0 < unit,
        ;
        assert((count + 1) * unit == count * unit + unit) by (nonlinear_arith);
    }
}

/// Given a size, how many units of the size of `S` it takes to hold it.
pub fn blocks<S: StorageSafe>(size: usize) -> (n: usize)
    requires
        S::spec_layout().size > 0,
    ensures
        n == spec_blocks(size as int, S::spec_layout().size as int),
{
    let unit = S::layout().size;
    proof {
        lemma_blocks_cover(size as int, unit as int);
    }
    if size % unit == 0 {
        size / unit
    } else {
        size / unit + 1
    }
}

/// Given the layout of an element and a count, how many units of the size of `S`
/// it takes to hold that many elements.
pub fn blocks_for<S: StorageSafe>(elem: Layout, capacity: usize) -> (n: usize)
    requires
        S::spec_layout().size > 0,
        elem.size * capacity <= usize::MAX,
    ensures
        n == spec_blocks(elem.size * capacity, S::spec_layout().size as int),
{
    blocks::<S>(elem.size * capacity)
}

/// A virtual heap of `N` units, each with the layout of `S`.
///
/// An allocation takes a run of whole units, so it begins at a unit boundary
/// and is aligned as `S` is.
pub struct VirtHeap<S: StorageSafe, const N: usize> {
    used: Vec<bool>,
    storage: Vec<u8>,
    backing: PhantomData<S>,
}

impl<S: StorageSafe, const N: usize> VirtHeap<S, N> {
    /// The map of units: `true` where a unit is in use.
    pub closed spec fn bitmap(&self) -> Seq<bool> {
        self.used@
    }

    /// The bytes of all units, in order.
    pub closed spec fn memory(&self) -> Seq<u8> {
        self.storage@
    }

    /// The size of a unit in bytes.
    pub open spec fn unit() -> int {
        S::spec_layout().size as int
    }

    /// The layout of the whole heap.
    pub open spec fn region() -> Layout {
        Layout { size: (N * Self::unit()) as usize, align: S::spec_layout().align }
    }

    /// The number of units that `handle` takes, going by its description.
    pub open spec fn units_of(handle: OffsetMetaHandle) -> int {
        spec_blocks(
            spec_layout_of(handle.spec_target(), handle.spec_metadata()).unwrap().size as int,
            Self::unit(),
        )
    }

    /// The number of units that a run of `capacity` elements like those of
    /// `handle` takes.
    pub open spec fn units_at(handle: OffsetMetaHandle, capacity: usize) -> int {
        spec_blocks(handle.spec_target()->Slice_0.size * capacity, Self::unit())
    }

    /// Whether the run of `handle` can grow to `units` units where it lies: the
    /// units behind it, up to the new length, exist and are free.
    pub open spec fn grows_in_place(&self, handle: OffsetMetaHandle, units: int) -> bool {
        run_free(
            self.bitmap(),
            handle.spec_offset() + Self::units_of(handle),
            units - Self::units_of(handle),
        )
    }

    /// The map with the units of `handle` cleared.
    pub open spec fn vacated(&self, handle: OffsetMetaHandle) -> Seq<bool> {
        mark(self.bitmap(), handle.spec_offset() as int, Self::units_of(handle), false)
    }

    /// A request is served when it has a layout that the whole heap could
    /// hold, and a run of free units is long enough for it.
    pub open spec fn allocation_verdict(&self, target: Target, meta: Metadata) -> Result<(), StorageError> {
        match spec_layout_of(target, meta) {
            None => Err(StorageError::spec_exceeds_max()),
            Some(layout) => match spec_validate_layout_for(layout, Self::region()) {
                Err(e) => Err(e),
                Ok(()) => if fits(self.bitmap(), spec_blocks(layout.size as int, Self::unit())) {
                    Ok(())
                } else {
                    Err(StorageError::NoSlots)
                },
            },
        }
    }

    /// A new heap: no unit is in use.
    pub fn new() -> (heap: VirtHeap<S, N>)
        requires
            S::spec_layout().size > 0,
            N * S::spec_layout().size <= usize::MAX,
        ensures
            heap.wf(),
            forall|i: int| 0 <= i < N ==> !heap.bitmap()[i],
    {
        let unit = S::layout().size;
        let mut used: Vec<bool> = Vec::new();
        let mut i: usize = 0;
        while i < N
            invariant
                i <= N,
                used@.len() == i,
                forall|j: int| 0 <= j < i ==> !used@[j],
            decreases N - i,
        {
            used.push(false);
            i += 1;
        }
        assert(N * unit == unit * N) by (nonlinear_arith);
        VirtHeap { used, storage: zeroed(unit * N), backing: PhantomData }
    }

    /// Whether the heap is in order: it has a unit size, and its map and its
    /// memory are as long as the number of units says.
    pub fn check(&self) -> (ok: bool)
        ensures
            ok == self.wf(),
    {
        let unit = S::layout().size;
        if unit == 0 || self.used.len() != N {
            return false;
        }
        match unit.checked_mul(N) {
            Some(size) => {
                assert(N * unit == unit * N) by (nonlinear_arith);
                self.storage.len() == size
            },
            None => {
                assert(N * unit == unit * N) by (nonlinear_arith);
                false
            },
        }
    }

    /// Whether unit `unit` is in use.
    pub fn is_used(&self, unit: usize) -> (b: bool)
        requires
            self.wf(),
            unit < N,
        ensures
            b == self.bitmap()[unit as int],
    {
        self.used[unit]
    }

    /// The number of units in use.
    pub fn used_units(&self) -> (n: usize)
        requires
            self.wf(),
        ensures
            n == count_used(self.bitmap()),
    {
        let mut n: usize = 0;
        let mut i: usize = 0;
        while i < N
            invariant
                self.wf(),
                i <= N,
                n <= i,
                n == count_used(self.used@.subrange(0, i as int)),
            decreases N - i,
        {
            assert(self.used@.subrange(0, i + 1).drop_last() =~= self.used@.subrange(0, i as int));
            if self.used[i] {
                n += 1;
            }
            i += 1;
        }
        assert(self.used@.subrange(0, N as int) =~= self.used@);
        n
    }

    /// Looks for room for `size` bytes: the start of the first run of free
    /// units that is long enough. A request for no bytes is served at the
    /// start of the heap. The map is left as it is.
    pub fn find_open(&self, size: usize) -> (r: Result<usize, StorageError>)
        requires
            self.wf(),
        ensures
            match r {
                Ok(start) => is_first_fit(
                    self.bitmap(),
                    spec_blocks(size as int, Self::unit()),
                    start as int,
                ),
                Err(e) => if spec_blocks(size as int, Self::unit()) > N {
                    e == (StorageError::InsufficientSpace {
                        expected: size,
                        available: Some(Self::region().size),
                    })
                } else {
                    e == StorageError::NoSlots && !fits(
                        self.bitmap(),
                        spec_blocks(size as int, Self::unit()),
                    )
                },
            },
    {
        let units = blocks::<S>(size);

        if units == 0 {
            return Ok(0);
        }
        if units > N {
            let unit = S::layout().size;
            assert(N * unit == unit * N) by (nonlinear_arith);
            return Err(
                StorageError::InsufficientSpace { expected: size, available: Some(unit * N) },
            );
        }
        // Count chains of free units, and stop at the end of the first chain that
        // is long enough

        let mut run: usize = 0;
        let mut i: usize = 0;
        while i < N
            invariant
                self.wf(),
                0 < units <= N,
                units == spec_blocks(size as int, Self::unit()),
                i <= N,
                run <= i,
                run < units,
                forall|j: int| i - run <= j < i ==> !self.used@[j],
                run < i ==> self.used@[i - run - 1],
                forall|s: int| 0 <= s && s + units <= i ==> !run_free(self.used@, s, units as int),
            decreases N - i,
        {
            if self.used[i] {
                run = 0;
            } else {
                run += 1;
            }
            i += 1;
            if run >= units {
                let start = i - units;
                assert(run_free(self.used@, start as int, units as int));
                assert forall|s: int| 0 <= s < start implies !run_free(
                    self.used@,
                    s,
                    units as int,
                ) by {
                    assert(s + units <= i - 1);
                }
                return Ok(start);
            }
            assert forall|s: int| 0 <= s && s + units <= i implies !run_free(
                self.used@,
                s,
                units as int,
            ) by {
                if s + units == i {
                    assert(self.used@[i - run - 1]);
                }
            }
        }
        assert(!fits(self.bitmap(), units as int)) by {
            if fits(self.bitmap(), units as int) {
                let s = choose|s: int| run_free(self.bitmap(), s, units as int);
                assert(s + units <= i);
            }
        }
        Err(StorageError::NoSlots)
    }

    fn set_range(&mut self, start: usize, units: usize, value: bool)
        requires
            old(self).wf(),
            start + units <= N,
        ensures
            final(self).wf(),
            final(self).bitmap() == mark(old(self).bitmap(), start as int, units as int, value),
            final(self).memory() == old(self).memory(),
    {
        let mut i: usize = 0;
        while i < units
            invariant
                i <= units,
                start + units <= N,
                self.wf(),
                self.used@ == mark(old(self).used@, start as int, i as int, value),
                self.storage@ == old(self).storage@,
            decreases units - i,
        {
            self.used[start + i] = value;
            i += 1;
            assert(self.used@ =~= mark(old(self).used@, start as int, i as int, value));
        }
        assert(self.used@ =~= mark(old(self).used@, start as int, units as int, value));
    }

    /// Marks units `start .. start + units` as in use.
    pub fn lock_range(&mut self, start: usize, units: usize)
        requires
            old(self).wf(),
            start + units <= N,
        ensures
            final(self).wf(),
            final(self).bitmap() == mark(old(self).bitmap(), start as int, units as int, true),
            final(self).memory() == old(self).memory(),
    {
        self.set_range(start, units, true);
    }

    /// Marks units `start .. start + units` as free.
    pub fn unlock_range(&mut self, start: usize, units: usize)
        requires
            old(self).wf(),
            start + units <= N,
        ensures
            final(self).wf(),
            final(self).bitmap() == mark(old(self).bitmap(), start as int, units as int, false),
            final(self).memory() == old(self).memory(),
    {
        self.set_range(start, units, false);
    }

    /// Finds room for `size` bytes and marks it as in use. Gives the unit at
    /// which the room starts.
    pub fn find_lock(&mut self, size: usize) -> (r: Result<usize, StorageError>)
        requires
            old(self).wf(),
        ensures
            final(self).wf(),
            final(self).memory() == old(self).memory(),
            match r {
                Ok(start) => {
                    &&& is_first_fit(
                        old(self).bitmap(),
                        spec_blocks(size as int, Self::unit()),
                        start as int,
                    )
                    &&& final(self).bitmap() == mark(
                        old(self).bitmap(),
                        start as int,
                        spec_blocks(size as int, Self::unit()),
                        true,
                    )
                },
                Err(e) => {
                    &&& final(self).bitmap() == old(self).bitmap()
                    &&& if spec_blocks(size as int, Self::unit()) > N {
                        e == (StorageError::InsufficientSpace {
                            expected: size,
                            available: Some(Self::region().size),
                        })
                    } else {
                        e == StorageError::NoSlots && !fits(
                            old(self).bitmap(),
                            spec_blocks(size as int, Self::unit()),
                        )
                    }
                },
            },
    {
        let start = self.find_open(size)?;
        self.lock_range(start, blocks::<S>(size));
        Ok(start)
    }

    /// Tries to grow the run of `handle` from `old_layout` to `new_layout`
    /// where it lies: if the units behind it are free as far as the new length
    /// reaches, they are marked as in use. No byte is moved.
    pub fn grow_in_place(
        &mut self,
        handle: OffsetMetaHandle,
        old_layout: Layout,
        new_layout: Layout,
    ) -> (grown: bool)
        requires
            old(self).wf(),
            old_layout.size <= new_layout.size,
            handle.spec_offset() + spec_blocks(old_layout.size as int, Self::unit()) <= N,
        ensures
            final(self).wf(),
            final(self).memory() == old(self).memory(),
            grown == run_free(
                old(self).bitmap(),
                handle.spec_offset() + spec_blocks(old_layout.size as int, Self::unit()),
                spec_blocks(new_layout.size as int, Self::unit()) - spec_blocks(
                    old_layout.size as int,
                    Self::unit(),
                ),
            ),
            final(self).bitmap() == if grown {
                mark(
                    old(self).bitmap(),
                    handle.spec_offset() + spec_blocks(old_layout.size as int, Self::unit()),
                    spec_blocks(new_layout.size as int, Self::unit()) - spec_blocks(
                        old_layout.size as int,
                        Self::unit(),
                    ),
                    true,
                )
            } else {
                old(self).bitmap()
            },
    {
        let old_blocks = blocks::<S>(old_layout.size);
        let new_blocks = blocks::<S>(new_layout.size);
        proof {
            lemma_blocks_monotonic(
                old_layout.size as int,
                new_layout.size as int,
                Self::unit(),
            );
        }
        let first = handle.offset() + old_blocks;
        let more = new_blocks - old_blocks;
        if more > N - first {
            return false;
        }
        let mut i: usize = 0;
        while i < more
            invariant
                self.wf(),
                i <= more,
                first + more <= N,
                first == handle.spec_offset() + spec_blocks(old_layout.size as int, Self::unit()),
                more == spec_blocks(new_layout.size as int, Self::unit()) - spec_blocks(
                    old_layout.size as int,
                    Self::unit(),
                ),
                self.used@ == old(self).used@,
                self.storage@ == old(self).storage@,
                forall|j: int| first <= j < first + i ==> !self.used@[j],
            decreases more - i,
        {
            if self.used[first + i] {
                assert(!run_free(old(self).bitmap(), first as int, more as int)) by {
                    assert(old(self).bitmap()[first + i]);
                }
                return false;
            }
            i += 1;
        }
        assert(run_free(old(self).bitmap(), first as int, more as int));
        self.lock_range(first, more);
        true
    }

    /// Moves the run of `handle` to room for `new_layout`: its units are
    /// given up, room is looked for (the units just given up count as free),
    /// and the bytes of the run are copied to where the room starts. Where
    /// there is no room, the units are taken back and nothing has changed.
    pub fn grow_move(&mut self, handle: OffsetMetaHandle, new_layout: Layout) -> (r: Option<
        usize,
    >)
        requires
            old(self).wf(),
            handle.spec_target() is Slice,
            handle.spec_metadata() is Len,
            spec_layout_of(handle.spec_target(), handle.spec_metadata()) matches Some(l)
                && l.size <= new_layout.size,
            run_used(
                old(self).bitmap(),
                handle.spec_offset() as int,
                Self::units_of(handle),
            ),
        ensures
            final(self).wf(),
            match r {
                Some(start) => {
                    &&& is_first_fit(
                        old(self).vacated(handle),
                        spec_blocks(new_layout.size as int, Self::unit()),
                        start as int,
                    )
                    &&& final(self).bitmap() == mark(
                        old(self).vacated(handle),
                        start as int,
                        spec_blocks(new_layout.size as int, Self::unit()),
                        true,
                    )
                    &&& final(self).memory() == overwrite(
                        old(self).memory(),
                        start * Self::unit(),
                        old(self).memory().subrange(
                            handle.spec_offset() * Self::unit(),
                            (handle.spec_offset() + Self::units_of(handle)) * Self::unit(),
                        ),
                    )
                },
                None => {
                    &&& !fits(
                        old(self).vacated(handle),
                        spec_blocks(new_layout.size as int, Self::unit()),
                    )
                    &&& final(self).bitmap() == old(self).bitmap()
                    &&& final(self).memory() == old(self).memory()
                },
            },
    {
        let unit = S::layout().size;
        let len = match handle.metadata() {
            Metadata::Len(len) => len,
            _ => 0,
        };
        let elem = match handle.target() {
            Target::Slice(elem) => elem,
            _ => Layout { size: 0, align: 1 },
        };
        let old_start = handle.offset();
        let old_blocks = blocks_for::<S>(elem, len);
        proof {
            lemma_blocks_cover(0, Self::unit());
            assert(len == 0 ==> elem.size * len == 0) by (nonlinear_arith);
            assert(old_blocks == Self::units_of(handle));
        }

        if len != 0 {
            self.unlock_range(old_start, old_blocks);
        }
        assert(self.bitmap() =~= old(self).vacated(handle));

        let new_start = match self.find_open(new_layout.size) {
            Ok(open) => open,
            Err(_) => {
                if len != 0 {
                    self.lock_range(old_start, old_blocks);
                }
                assert(self.bitmap() =~= old(self).bitmap());
                proof {
                    lemma_blocks_within(new_layout.size as int, Self::unit(), N as int);
                    if spec_blocks(new_layout.size as int, Self::unit()) > N {
                        crate::bitmap::lemma_longer_than_map(
                            old(self).vacated(handle),
                            spec_blocks(new_layout.size as int, Self::unit()),
                        );
                    }
                }
                return None;
            },
        };

        let new_blocks = blocks::<S>(new_layout.size);
        self.lock_range(new_start, new_blocks);

        proof {
            lemma_blocks_monotonic(
                (elem.size * len) as int,
                new_layout.size as int,
                Self::unit(),
            );
            Self::lemma_span(old_start as int, old_blocks as int);
            Self::lemma_span(new_start as int, new_blocks as int);
            Self::lemma_span(new_start as int, old_blocks as int);
        }
        let moved = read_bytes(&self.storage, old_start * unit, old_blocks * unit);
        write_bytes(&mut self.storage, new_start * unit, moved.as_slice());

        Some(new_start)
    }

    /// The bytes of a valid handle lie within the memory of the heap.
    pub proof fn lemma_within(&self, handle: OffsetMetaHandle)
        requires
            self.wf(),
            self.valid(handle),
        ensures
            0 <= handle.spec_offset() * Self::unit(),
            handle.spec_offset() * Self::unit() + spec_layout_of(
                handle.spec_target(),
                handle.spec_metadata(),
            ).unwrap().size <= N * Self::unit(),
            self.contents(handle).len() == spec_layout_of(
                handle.spec_target(),
                handle.spec_metadata(),
            ).unwrap().size,
    {
        let size = spec_layout_of(handle.spec_target(), handle.spec_metadata()).unwrap().size;
        lemma_blocks_cover(size as int, Self::unit());
        Self::lemma_span(handle.spec_offset() as int, Self::units_of(handle));
    }

    /// The units that `handle` holds: the first, and how many.
    pub open spec fn range_of(handle: OffsetMetaHandle) -> (int, int) {
        (handle.spec_offset() as int, Self::units_of(handle))
    }

    /// The units that each of the handles of `live` holds.
    pub open spec fn ranges(live: Seq<OffsetMetaHandle>) -> Seq<(int, int)> {
        Seq::new(live.len(), |k: int| Self::range_of(live[k]))
    }

    /// The handles of `live` are the live allocations of this heap: a unit is
    /// marked as in use exactly when one of them holds it, and no two of them
    /// hold a unit in common.
    pub open spec fn tracks(&self, live: Seq<OffsetMetaHandle>) -> bool {
        &&& ledger_matches(self.bitmap(), Self::ranges(live))
        &&& forall|k: int|
            0 <= k < live.len() ==> spec_layout_of(
                (#[trigger] live[k]).spec_target(),
                live[k].spec_metadata(),
            ) is Some
    }

    /// A heap in which no unit is in use has no live allocation.
    pub proof fn lemma_new_tracks(&self)
        requires
            self.wf(),
            forall|i: int| 0 <= i < N ==> !self.bitmap()[i],
        ensures
            self.tracks(Seq::<OffsetMetaHandle>::empty()),
    {
        lemma_fresh(self.bitmap());
        assert(Self::ranges(Seq::<OffsetMetaHandle>::empty()) =~= Seq::<(int, int)>::empty());
    }

    /// The number of units marked as in use is the number of units that the
    /// live handles take together; with no handle live, every unit is free.
    pub proof fn lemma_units_conserved(&self, live: Seq<OffsetMetaHandle>)
        requires
            self.wf(),
            self.tracks(live),
        ensures
            count_used(self.bitmap()) == total_units(Self::ranges(live)),
            live.len() == 0 ==> forall|i: int| 0 <= i < N ==> !self.bitmap()[i],
    {
        lemma_conservation(self.bitmap(), Self::ranges(live));
        if live.len() == 0 {
            assert(Self::ranges(live) =~= Seq::<(int, int)>::empty());
            lemma_all_released(self.bitmap());
        }
    }

    /// Two live handles never hold a unit in common, and each is valid.
    pub proof fn lemma_no_overlap(&self, live: Seq<OffsetMetaHandle>, j: int, k: int)
        requires
            self.wf(),
            self.tracks(live),
            0 <= j < live.len(),
            0 <= k < live.len(),
            j != k,
        ensures
            disjoint(Self::range_of(live[j]), Self::range_of(live[k])),
            self.valid(live[j]),
            self.valid(live[k]),
    {
        let ranges = Self::ranges(live);
        if j < k {
            assert(disjoint(ranges[j], ranges[k]));
        } else {
            assert(disjoint(ranges[k], ranges[j]));
        }
        lemma_live_is_used(self.bitmap(), ranges, j);
        lemma_live_is_used(self.bitmap(), ranges, k);
    }

    /// An allocation joins the live handles: the heap after it tracks them
    /// together with the new handle, which holds no unit that one of them held.
    pub proof fn lemma_allocate_tracks(
        &self,
        after: &Self,
        live: Seq<OffsetMetaHandle>,
        handle: OffsetMetaHandle,
    )
        requires
            self.wf(),
            self.tracks(live),
            spec_layout_of(handle.spec_target(), handle.spec_metadata()) is Some,
            run_free(self.bitmap(), handle.spec_offset() as int, Self::units_of(handle)),
            after.bitmap() == mark(
                self.bitmap(),
                handle.spec_offset() as int,
                Self::units_of(handle),
                true,
            ),
        ensures
            after.tracks(live.push(handle)),
            forall|k: int|
                0 <= k < live.len() ==> disjoint(
                    Self::range_of(#[trigger] live[k]),
                    Self::range_of(handle),
                ),
    {
        let ranges = Self::ranges(live);
        lemma_acquire(
            self.bitmap(),
            ranges,
            handle.spec_offset() as int,
            Self::units_of(handle),
        );
        assert(Self::ranges(live.push(handle)) =~= ranges.push(Self::range_of(handle)));
        assert forall|k: int| 0 <= k < live.len() implies disjoint(
            Self::range_of(#[trigger] live[k]),
            Self::range_of(handle),
        ) by {
            assert(disjoint(ranges[k], Self::range_of(handle)));
        }
    }

    /// A release takes the handle out of the live handles: the heap after it
    /// tracks the others.
    pub proof fn lemma_deallocate_tracks(&self, after: &Self, live: Seq<OffsetMetaHandle>, k: int)
        requires
            self.wf(),
            self.tracks(live),
            0 <= k < live.len(),
            after.bitmap() == self.vacated(live[k]),
        ensures
            after.tracks(live.remove(k)),
    {
        let ranges = Self::ranges(live);
        lemma_release(self.bitmap(), ranges, k);
        assert(Self::ranges(live.remove(k)) =~= ranges.remove(k));
    }

    /// A resize that keeps the run where it lies puts the new handle in the
    /// place of the old one among the live handles.
    pub proof fn lemma_resize_tracks(
        &self,
        after: &Self,
        live: Seq<OffsetMetaHandle>,
        k: int,
        handle: OffsetMetaHandle,
    )
        requires
            self.wf(),
            self.tracks(live),
            0 <= k < live.len(),
            spec_layout_of(handle.spec_target(), handle.spec_metadata()) is Some,
            handle.spec_offset() == live[k].spec_offset(),
            Self::units_of(handle) >= Self::units_of(live[k]) ==> self.grows_in_place(
                live[k],
                Self::units_of(handle),
            ) && after.bitmap() == mark(
                self.bitmap(),
                live[k].spec_offset() + Self::units_of(live[k]),
                Self::units_of(handle) - Self::units_of(live[k]),
                true,
            ),
            Self::units_of(handle) < Self::units_of(live[k]) ==> 0 <= Self::units_of(handle)
                && after.bitmap() == mark(
                self.bitmap(),
                live[k].spec_offset() + Self::units_of(handle),
                Self::units_of(live[k]) - Self::units_of(handle),
                false,
            ),
        ensures
            after.tracks(live.update(k, handle)),
    {
        let ranges = Self::ranges(live);
        assert(ranges[k] == Self::range_of(live[k]));
        lemma_resize(self.bitmap(), ranges, k, Self::units_of(handle));
        assert(Self::ranges(live.update(k, handle)) =~= ranges.update(
            k,
            (ranges[k].0, Self::units_of(handle)),
        ));
    }

    /// A resize that moves the run takes the old handle out of the live
    /// handles and lets the new one join them; the new handle holds no unit
    /// that another live handle holds.
    pub proof fn lemma_move_tracks(
        &self,
        after: &Self,
        live: Seq<OffsetMetaHandle>,
        k: int,
        handle: OffsetMetaHandle,
    )
        requires
            self.wf(),
            self.tracks(live),
            0 <= k < live.len(),
            spec_layout_of(handle.spec_target(), handle.spec_metadata()) is Some,
            run_free(
                self.vacated(live[k]),
                handle.spec_offset() as int,
                Self::units_of(handle),
            ),
            after.bitmap() == mark(
                self.vacated(live[k]),
                handle.spec_offset() as int,
                Self::units_of(handle),
                true,
            ),
        ensures
            after.tracks(live.remove(k).push(handle)),
            forall|j: int|
                0 <= j < live.len() && j != k ==> disjoint(
                    Self::range_of(#[trigger] live[j]),
                    Self::range_of(handle),
                ),
    {
        let ranges = Self::ranges(live);
        lemma_release(self.bitmap(), ranges, k);
        let rest = ranges.remove(k);
        assert(Self::ranges(live.remove(k)) =~= rest);
        lemma_acquire(
            self.vacated(live[k]),
            rest,
            handle.spec_offset() as int,
            Self::units_of(handle),
        );
        assert(Self::ranges(live.remove(k).push(handle)) =~= rest.push(Self::range_of(handle)));
        assert forall|j: int| 0 <= j < live.len() && j != k implies disjoint(
            Self::range_of(#[trigger] live[j]),
            Self::range_of(handle),
        ) by {
            let at = if j < k {
                j
            } else {
                j - 1
            };
            assert(rest[at] == Self::range_of(live[j]));
        }
    }

    /// A request that takes more units than the heap has is refused for want
    /// of space, whatever is in use; one that takes every unit, and is
    /// aligned no more strictly than a unit, is served exactly when no unit is
    /// in use.
    pub proof fn lemma_capacity_boundary(&self, target: Target, meta: Metadata)
        requires
            self.wf(),
            spec_layout_of(target, meta) is Some,
        ensures
            ({
                let layout = spec_layout_of(target, meta).unwrap();
                let units = spec_blocks(layout.size as int, Self::unit());
                &&& units > N ==> self.allocation_verdict(target, meta) == Err::<(), _>(
                    StorageError::InsufficientSpace {
                        expected: layout.size,
                        available: Some(Self::region().size),
                    },
                )
                &&& units == N && layout.align <= S::spec_layout().align ==> (
                self.allocation_verdict(target, meta) is Ok <==> forall|i: int|
                    0 <= i < N ==> !self.bitmap()[i])
            }),
    {
        let layout = spec_layout_of(target, meta).unwrap();
        lemma_blocks_within(layout.size as int, Self::unit(), N as int);
        lemma_whole_map_fits(self.bitmap());
    }

    /// A run of `units` units from unit `start` lies within the memory of the
    /// heap, and begins and ends where the arithmetic of a machine word can
    /// follow it.
    pub proof fn lemma_span(start: int, units: int)
        requires
            0 <= start,
            0 <= units,
            start + units <= N,
            0 < Self::unit(),
        ensures
            0 <= start * Self::unit() <= (start + units) * Self::unit() <= N * Self::unit(),
            (start + units) * Self::unit() == start * Self::unit() + units * Self::unit(),
            0 <= units * Self::unit(),
    {
        let u = Self::unit();
        assert((start + units) * u == start * u + units * u) by (nonlinear_arith);
        assert(0 <= start * u) by (nonlinear_arith)
            requires
                0 <= start,
                0 < u,
        ;
        assert(0 <= units * u) by (nonlinear_arith)
            requires
                0 <= units,
                0 < u,
        ;
        assert((start + units) * u <= N * u) by (nonlinear_arith)
            requires
                start + units <= N,
                0 < u,
        ;
    }
}

impl<S: StorageSafe, const N: usize> Storage for VirtHeap<S, N> {
    type Handle = OffsetMetaHandle;

    open spec fn wf(&self) -> bool {
        &&& Self::unit() > 0
        &&& N * Self::unit() <= usize::MAX
        &&& self.bitmap().len() == N
        &&& self.memory().len() == N * Self::unit()
    }

    /// A handle denotes an allocation when its description has a layout and
    /// the units that it takes from its offset on are all marked as in use.
    open spec fn valid(&self, handle: OffsetMetaHandle) -> bool {
        &&& spec_layout_of(handle.spec_target(), handle.spec_metadata()) is Some
        &&& run_used(self.bitmap(), handle.spec_offset() as int, Self::units_of(handle))
    }

    open spec fn contents(&self, handle: OffsetMetaHandle) -> Seq<u8> {
        self.memory().subrange(
            handle.spec_offset() * Self::unit(),
            handle.spec_offset() * Self::unit() + spec_layout_of(
                handle.spec_target(),
                handle.spec_metadata(),
            ).unwrap().size,
        )
    }

    open spec fn single_verdict(&self, target: Target, meta: Metadata) -> Result<
        (),
        StorageError,
    > {
        self.allocation_verdict(target, meta)
    }

    /// A run grows where it lies if the units behind it are free, and else
    /// moves if there is room for it once its own units are given up.
    open spec fn grow_verdict(&self, handle: OffsetMetaHandle, capacity: usize) -> Result<
        (),
        StorageError,
    > {
        match handle.spec_target()->Slice_0.spec_array(capacity) {
            None => Err(StorageError::spec_exceeds_max()),
            Some(layout) => if self.grows_in_place(handle, Self::units_at(handle, capacity))
                || fits(self.vacated(handle), Self::units_at(handle, capacity)) {
                Ok(())
            } else {
                Err(StorageError::InsufficientSpace { expected: layout.size, available: None })
            },
        }
    }

    /// Shrinking never fails.
    open spec fn shrink_verdict(&self, handle: OffsetMetaHandle, capacity: usize) -> Result<
        (),
        StorageError,
    > {
        Ok(())
    }

    open spec fn apart(a: OffsetMetaHandle, b: OffsetMetaHandle) -> bool {
        &&& spec_layout_of(a.spec_target(), a.spec_metadata()) is Some
        &&& spec_layout_of(b.spec_target(), b.spec_metadata()) is Some
        &&& disjoint(Self::range_of(a), Self::range_of(b))
    }

    proof fn lemma_apart_symmetric(a: OffsetMetaHandle, b: OffsetMetaHandle) {
    }

    /// A release clears the units of the handle in the map, and leaves the
    /// memory as it is.
    open spec fn releases(&self, handle: OffsetMetaHandle, after: Self) -> bool {
        &&& after.bitmap() == self.vacated(handle)
        &&& after.memory() == self.memory()
    }

    proof fn lemma_valid(&self, handle: OffsetMetaHandle) {
        self.lemma_within(handle);
    }

    proof fn lemma_retarget(&self, handle: OffsetMetaHandle, other: OffsetMetaHandle) {
    }

    fn is_valid(&self, handle: OffsetMetaHandle) -> (ok: bool)
    {
        let size = match layout_of(handle.target(), handle.metadata()) {
            Some(layout) => layout.size,
            None => {
                return false;
            },
        };
        let units = blocks::<S>(size);
        let start = handle.offset();
        if start > N || units > N - start {
            return false;
        }
        let mut i: usize = 0;
        while i < units
            invariant
                self.wf(),
                i <= units,
                start + units <= N,
                units == Self::units_of(handle),
                start == handle.spec_offset(),
                forall|j: int| start <= j < start + i ==> self.used@[j],
            decreases units - i,
        {
            if !self.used[start + i] {
                return false;
            }
            i += 1;
        }
        true
    }

    fn get(&self, handle: OffsetMetaHandle) -> (bytes: Vec<u8>) {
        let unit = S::layout().size;
        let size = match layout_of(handle.target(), handle.metadata()) {
            Some(layout) => layout.size,
            None => 0,
        };
        proof {
            self.lemma_within(handle);
        }
        read_bytes(&self.storage, handle.offset() * unit, size)
    }

    fn set(&mut self, handle: OffsetMetaHandle, at: usize, data: &[u8])
        ensures
            final(self).bitmap() == old(self).bitmap(),
            final(self).memory() == overwrite(
                old(self).memory(),
                handle.spec_offset() * Self::unit() + at,
                data@,
            ),
    {
        let unit = S::layout().size;
        proof {
            self.lemma_within(handle);
        }
        let start = handle.offset() * unit;
        write_bytes(&mut self.storage, start + at, data);
        assert(self.contents(handle) =~= overwrite(old(self).contents(handle), at as int, data@));
        assert forall|other: OffsetMetaHandle|
            old(self).valid(other) && Self::apart(handle, other) implies {
            &&& #[trigger] self.valid(other)
            &&& self.contents(other) == old(self).contents(other)
        } by {
            old(self).lemma_within(other);
            old(self).lemma_within(handle);
            let mine = Self::range_of(handle);
            let theirs = Self::range_of(other);
            let u = Self::unit();
            let size = spec_layout_of(handle.spec_target(), handle.spec_metadata()).unwrap().size;
            let other_size = spec_layout_of(
                other.spec_target(),
                other.spec_metadata(),
            ).unwrap().size;
            lemma_blocks_cover(size as int, u);
            lemma_blocks_cover(other_size as int, u);
            Self::lemma_span(mine.0, mine.1);
            Self::lemma_span(theirs.0, theirs.1);
            if mine.1 > 0 && theirs.1 > 0 {
                if mine.0 + mine.1 <= theirs.0 {
                    assert((mine.0 + mine.1) * u <= theirs.0 * u) by (nonlinear_arith)
                        requires
                            mine.0 + mine.1 <= theirs.0,
                            0 < u,
                    ;
                } else {
                    assert((theirs.0 + theirs.1) * u <= mine.0 * u) by (nonlinear_arith)
                        requires
                            theirs.0 + theirs.1 <= mine.0,
                            0 < u,
                    ;
                }
            }
            assert(self.contents(other) =~= old(self).contents(other));
        }
    }

    fn allocate_single(&mut self, target: Target, meta: Metadata) -> (r: Result<
        OffsetMetaHandle,
        StorageError,
    >)
        ensures
            final(self).memory() == old(self).memory(),
            match r {
                Ok(h) => {
                    &&& is_first_fit(
                        old(self).bitmap(),
                        Self::units_of(h),
                        h.spec_offset() as int,
                    )
                    &&& final(self).bitmap() == mark(
                        old(self).bitmap(),
                        h.spec_offset() as int,
                        Self::units_of(h),
                        true,
                    )
                },
                Err(_) => final(self).bitmap() == old(self).bitmap(),
            },
    {
        self.allocate(target, meta)
    }

    fn deallocate_single(&mut self, handle: OffsetMetaHandle)
        ensures
            final(self).memory() == old(self).memory(),
            final(self).bitmap() == old(self).vacated(handle),
    {
        self.deallocate(handle)
    }

    fn try_grow(&mut self, handle: OffsetMetaHandle, capacity: usize) -> (r: Result<
        OffsetMetaHandle,
        StorageError,
    >)
        ensures
            r matches Ok(h) ==> if old(self).grows_in_place(
                handle,
                Self::units_at(handle, capacity),
            ) {
                &&& h.spec_offset() == handle.spec_offset()
                &&& final(self).memory() == old(self).memory()
                &&& final(self).bitmap() == mark(
                    old(self).bitmap(),
                    handle.spec_offset() + Self::units_of(handle),
                    Self::units_at(handle, capacity) - Self::units_of(handle),
                    true,
                )
            } else {
                &&& is_first_fit(
                    old(self).vacated(handle),
                    Self::units_at(handle, capacity),
                    h.spec_offset() as int,
                )
                &&& final(self).bitmap() == mark(
                    old(self).vacated(handle),
                    h.spec_offset() as int,
                    Self::units_at(handle, capacity),
                    true,
                )
            },
            r is Err ==> final(self).bitmap() == old(self).bitmap() && final(self).memory()
                == old(self).memory(),
    {
        let len = match handle.metadata() {
            Metadata::Len(len) => len,
            _ => 0,
        };
        let elem = match handle.target() {
            Target::Slice(elem) => elem,
            _ => Layout { size: 0, align: 1 },
        };
        // The space has to grow where it lies, or else has to move to open space,
        // and the units of the handle itself count as open for that.
        let old_layout = match elem.array(len) {
            Some(layout) => layout,
            None => Layout { size: 0, align: 1 },
        };
        let new_layout = match elem.array(capacity) {
            Some(layout) => layout,
            None => {
                return Err(StorageError::exceeds_max());
            },
        };
        proof {
            assert(elem.size * len <= elem.size * capacity) by (nonlinear_arith)
                requires
                    len <= capacity,
            ;
            self.lemma_within(handle);
            lemma_blocks_monotonic(
                old_layout.size as int,
                new_layout.size as int,
                Self::unit(),
            );
            Self::lemma_span(handle.spec_offset() as int, Self::units_of(handle));
        }
        let ghost old_units = Self::units_of(handle);
        let ghost new_units = Self::units_at(handle, capacity);

        if self.grow_in_place(handle, old_layout, new_layout) {
            handle.offset_bound();
            let grown = OffsetMetaHandle::from_offset_meta(
                handle.offset(),
                handle.target(),
                Metadata::Len(capacity),
            );
            proof {
                lemma_blocks_cover(new_layout.size as int, Self::unit());
                Self::lemma_span(handle.spec_offset() as int, new_units);
                assert(self.contents(grown).subrange(0, old(self).contents(handle).len() as int)
                    =~= old(self).contents(handle));
            }
            Ok(grown)
        } else if let Some(new_start) = self.grow_move(handle, new_layout) {
            proof {
                lemma_blocks_cover(new_layout.size as int, Self::unit());
                lemma_blocks_cover(old_layout.size as int, Self::unit());
                Self::lemma_span(new_start as int, new_units);
                Self::lemma_span(new_start as int, old_units);
            }
            let moved = OffsetMetaHandle::from_offset_meta(
                new_start,
                handle.target(),
                Metadata::Len(capacity),
            );
            proof {
                assert(self.contents(moved).subrange(0, old(self).contents(handle).len() as int)
                    =~= old(self).contents(handle));
            }
            Ok(moved)
        } else {
            Err(StorageError::InsufficientSpace { expected: new_layout.size, available: None })
        }
    }

    fn try_shrink(&mut self, handle: OffsetMetaHandle, capacity: usize) -> (r: Result<
        OffsetMetaHandle,
        StorageError,
    >)
        ensures
            r matches Ok(h) && h.spec_offset() == handle.spec_offset(),
            final(self).memory() == old(self).memory(),
            final(self).bitmap() == mark(
                old(self).bitmap(),
                handle.spec_offset() + Self::units_at(handle, capacity),
                Self::units_of(handle) - Self::units_at(handle, capacity),
                false,
            ),
    {
        let len = match handle.metadata() {
            Metadata::Len(len) => len,
            _ => 0,
        };
        let elem = match handle.target() {
            Target::Slice(elem) => elem,
            _ => Layout { size: 0, align: 1 },
        };
        proof {
            assert(elem.size * capacity <= elem.size * len) by (nonlinear_arith)
                requires
                    capacity <= len,
            ;
            self.lemma_within(handle);
            lemma_blocks_cover(elem.size * len, Self::unit());
            lemma_blocks_monotonic(elem.size * capacity, elem.size * len, Self::unit());
            lemma_blocks_cover(elem.size * capacity, Self::unit());
            Self::lemma_span(handle.spec_offset() as int, Self::units_of(handle));
            Self::lemma_span(handle.spec_offset() as int, Self::units_at(handle, capacity));
        }
        handle.offset_bound();
        let old_blocks = blocks_for::<S>(elem, len);
        let new_blocks = blocks_for::<S>(elem, capacity);
        self.unlock_range(handle.offset() + new_blocks, old_blocks - new_blocks);
        let shrunk = OffsetMetaHandle::from_offset_meta(
            handle.offset(),
            handle.target(),
            Metadata::Len(capacity),
        );
        assert(self.contents(shrunk) =~= old(self).contents(handle).subrange(
            0,
            self.contents(shrunk).len() as int,
        ));
        Ok(shrunk)
    }
}

impl<S: StorageSafe, const N: usize> MultiItemStorage for VirtHeap<S, N> {
    open spec fn verdict(&self, target: Target, meta: Metadata) -> Result<(), StorageError> {
        self.allocation_verdict(target, meta)
    }

    fn allocate(&mut self, target: Target, meta: Metadata) -> (r: Result<
        OffsetMetaHandle,
        StorageError,
    >)
        ensures
            final(self).memory() == old(self).memory(),
            match r {
                Ok(h) => {
                    &&& is_first_fit(
                        old(self).bitmap(),
                        Self::units_of(h),
                        h.spec_offset() as int,
                    )
                    &&& final(self).bitmap() == mark(
                        old(self).bitmap(),
                        h.spec_offset() as int,
                        Self::units_of(h),
                        true,
                    )
                },
                Err(_) => final(self).bitmap() == old(self).bitmap(),
            },
    {
        let layout = match layout_of(target, meta) {
            Some(layout) => layout,
            None => {
                return Err(StorageError::exceeds_max());
            },
        };
        let unit = S::layout();
        proof {
            Self::lemma_span(0, N as int);
            assert(N * unit.size == unit.size * N) by (nonlinear_arith);
            lemma_blocks_within(layout.size as int, Self::unit(), N as int);
        }
        validate_layout_for(layout, Layout { size: unit.size * N, align: unit.align })?;
        let start = self.find_lock(layout.size)?;
        proof {
            lemma_blocks_cover(layout.size as int, Self::unit());
            if start > 0 && layout.size == 0 {
                assert(run_free(old(self).bitmap(), 0, 0));
            }
        }
        let handle = OffsetMetaHandle::from_offset_meta(start, target, meta);
        assert forall|other: OffsetMetaHandle| old(self).valid(other) implies {
            &&& #[trigger] self.valid(other)
            &&& self.contents(other) == old(self).contents(other)
        } by {
        }
        assert forall|other: OffsetMetaHandle| old(self).valid(other) implies #[trigger] Self::apart(
            handle,
            other,
        ) by {
            let mine = Self::range_of(handle);
            let theirs = Self::range_of(other);
            if !disjoint(mine, theirs) {
                let i = if mine.0 >= theirs.0 {
                    mine.0
                } else {
                    theirs.0
                };
                assert(old(self).bitmap()[i]);
                assert(!old(self).bitmap()[i]);
            }
        }
        Ok(handle)
    }

    fn deallocate(&mut self, handle: OffsetMetaHandle)
        ensures
            final(self).memory() == old(self).memory(),
            final(self).bitmap() == old(self).vacated(handle),
    {
        let size = match layout_of(handle.target(), handle.metadata()) {
            Some(layout) => layout.size,
            None => 0,
        };
        self.unlock_range(handle.offset(), blocks::<S>(size));
    }
}

impl<S: StorageSafe, const N: usize> ExactSizeStorage for VirtHeap<S, N> {
    /// What has a layout of no more bytes than one unit fits.
    open spec fn spec_will_fit(&self, target: Target, meta: Metadata) -> bool {
        spec_layout_of(target, meta) matches Some(layout) && layout.size <= Self::unit()
    }

    open spec fn spec_max_range(&self, elem: Layout) -> usize {
        (Self::region().size / elem.size) as usize
    }

    fn will_fit(&self, target: Target, meta: Metadata) -> (b: bool) {
        match layout_of(target, meta) {
            Some(layout) => S::layout().size >= layout.size,
            None => false,
        }
    }

    fn max_range(&self, elem: Layout) -> (n: usize) {
        let unit = S::layout().size;
        proof {
            Self::lemma_span(0, N as int);
            assert(N * unit == unit * N) by (nonlinear_arith);
        }
        (unit * N) / elem.size
    }
}

impl<S: StorageSafe, const N: usize> LeaksafeStorage for VirtHeap<S, N> {

}

impl<S: StorageSafe, const N: usize> FromLeakedStorage for VirtHeap<S, N> {
    /// An address is the number of a unit of the heap.
    open spec fn leaked_from(&self, addr: usize) -> bool {
        addr < N
    }

    fn unleak(&self, addr: usize, target: Target, meta: Metadata) -> (h: OffsetMetaHandle) {
        OffsetMetaHandle::from_offset_meta(addr, target, meta)
    }
}

} // verus!
