//! A doubly linked list whose nodes are kept in a storage.

use vstd::prelude::*;
use vstd::bytes::{
    lemma_auto_spec_u64_to_from_le_bytes,
    spec_u64_to_le_bytes,
    u64_from_le_bytes,
    u64_to_le_bytes,
};
use vstd::slice::slice_subrange;
use crate::base::{MultiItemStorage, Storage};
use crate::error::StorageError;
use crate::handles::{Handle, Metadata, OffsetMetaHandle, Target};
use crate::layout::Layout;
use crate::utils::overwrite;
use crate::value::Value;

verus! {

/// A link as a node keeps it: nothing for no node, and else one more than the
/// offset of the node that it leads to.
pub open spec fn spec_link(link: Option<usize>) -> u64 {
    match link {
        None => 0,
        Some(offset) => (offset + 1) as u64,
    }
}

/// A link as a node keeps it.
pub fn link_of(link: Option<usize>) -> (kept: u64)
    requires
        link matches Some(offset) ==> offset < usize::MAX,
    ensures
        kept == spec_link(link),
{
    match link {
        None => 0,
        Some(offset) => (offset + 1) as u64,
    }
}

/// The link that a node keeps as `kept`.
pub fn link_from(kept: u64) -> (link: Option<usize>)
    requires
        kept <= usize::MAX,
    ensures
        spec_link(link) == kept,
        link matches Some(offset) ==> offset < usize::MAX,
{
    if kept == 0 {
        None
    } else {
        Some((kept - 1) as usize)
    }
}

/// The bytes of a node: its link to the next node, its link to the node before
/// it, and its value.
pub open spec fn node_image<T: Value>(next: Option<usize>, prev: Option<usize>, value: T) -> Seq<
    u8,
> {
    spec_u64_to_le_bytes(spec_link(next)) + spec_u64_to_le_bytes(spec_link(prev)) + value.image()
}

/// The layout of a node with a value of type `T`.
pub open spec fn spec_node_layout<T: Value>() -> Layout {
    Layout {
        size: (16 + T::size()) as usize,
        align: if T::align() > 8 {
            T::align()
        } else {
            8
        },
    }
}

/// The layout of a node with a value of type `T`, if its size can be written
/// down.
pub fn node_layout<T: Value>() -> (r: Option<Layout>)
    ensures
        r == if 16 + T::size() <= usize::MAX {
            Some(spec_node_layout::<T>())
        } else {
            None
        },
{
    match T::layout() {
        Some(layout) => match layout.size.checked_add(16) {
            Some(size) => Some(
                Layout {
                    size,
                    align: if layout.align > 8 {
                        layout.align
                    } else {
                        8
                    },
                },
            ),
            None => None,
        },
        None => None,
    }
}

/// The offset of node `i` of `handles`, as a link; no link where there is no
/// such node.
pub open spec fn link_at(handles: Seq<OffsetMetaHandle>, i: int) -> Option<usize> {
    if 0 <= i < handles.len() {
        Some(handles[i].spec_offset())
    } else {
        None
    }
}

/// Node `i` is held by `storage` as the list has it: under a valid handle to a
/// node, with the links to its neighbours and with its value.
pub open spec fn node_ok<T: Value, S: Storage<Handle = OffsetMetaHandle>>(
    storage: S,
    handles: Seq<OffsetMetaHandle>,
    items: Seq<T>,
    i: int,
) -> bool {
    &&& storage.valid(handles[i])
    &&& handles[i].spec_offset() < usize::MAX
    &&& handles[i].spec_target() == Target::Sized(spec_node_layout::<T>())
    &&& handles[i].spec_metadata() == Metadata::Unit
    &&& storage.contents(handles[i]) == node_image(
        link_at(handles, i + 1),
        link_at(handles, i - 1),
        items[i],
    )
}

/// The parts of the bytes of a node.
pub proof fn lemma_node_parts<T: Value>(next: Option<usize>, prev: Option<usize>, value: T)
    ensures
        node_image(next, prev, value).len() == 16 + T::size(),
        node_image(next, prev, value).subrange(0, 8) == spec_u64_to_le_bytes(spec_link(next)),
        node_image(next, prev, value).subrange(8, 16) == spec_u64_to_le_bytes(spec_link(prev)),
        node_image(next, prev, value).subrange(16, 16 + T::size() as int) == value.image(),
{
    lemma_auto_spec_u64_to_from_le_bytes();
    value.lemma_image_len();
    let image = node_image(next, prev, value);
    assert(spec_u64_to_le_bytes(spec_link(next)).len() == 8);
    assert(spec_u64_to_le_bytes(spec_link(prev)).len() == 8);
    assert(image.subrange(0, 8) =~= spec_u64_to_le_bytes(spec_link(next)));
    assert(image.subrange(8, 16) =~= spec_u64_to_le_bytes(spec_link(prev)));
    assert(image.subrange(16, 16 + T::size() as int) =~= value.image());
}

/// Writing another link over the start of a node changes its link to the next
/// node and nothing else.
pub proof fn lemma_relink<T: Value>(
    next: Option<usize>,
    prev: Option<usize>,
    value: T,
    link: Option<usize>,
)
    ensures
        overwrite(node_image(next, prev, value), 0, spec_u64_to_le_bytes(spec_link(link)))
            == node_image(link, prev, value),
{
    lemma_auto_spec_u64_to_from_le_bytes();
    assert(spec_u64_to_le_bytes(spec_link(next)).len() == 8);
    assert(spec_u64_to_le_bytes(spec_link(link)).len() == 8);
    assert(spec_u64_to_le_bytes(spec_link(prev)).len() == 8);
    assert(overwrite(node_image(next, prev, value), 0, spec_u64_to_le_bytes(spec_link(link)))
        =~= node_image(link, prev, value));
}

/// A doubly linked list of items of type `T` in a storage of type `S`, which
/// the list owns. The nodes record each other by their offsets.
pub struct LinkedList<T: Value, S: MultiItemStorage<Handle = OffsetMetaHandle>> {
    nodes: Option<(OffsetMetaHandle, OffsetMetaHandle)>,
    len: usize,
    storage: S,
    handles: Ghost<Seq<OffsetMetaHandle>>,
    items: Ghost<Seq<T>>,
}

impl<T: Value, S: MultiItemStorage<Handle = OffsetMetaHandle>> View for LinkedList<T, S> {
    type V = Seq<T>;

    /// The items of the list, first to last.
    closed spec fn view(&self) -> Seq<T> {
        self.items@
    }
}

impl<T: Value, S: MultiItemStorage<Handle = OffsetMetaHandle>> LinkedList<T, S> {
    /// The storage that the list owns.
    pub closed spec fn storage(&self) -> S {
        self.storage
    }

    /// The handles of the nodes, first to last.
    pub closed spec fn handles(&self) -> Seq<OffsetMetaHandle> {
        self.handles@
    }

    /// The list is in order: its storage is, each node is held by the storage
    /// with its value and with the links to its neighbours, and no two nodes
    /// share a byte. Every function keeps it so.
    pub closed spec fn wf(&self) -> bool {
        &&& self.storage.wf()
        &&& self.handles@.len() == self.len
        &&& self.items@.len() == self.len
        &&& match self.nodes {
            None => self.len == 0,
            Some((first, last)) => {
                &&& self.len > 0
                &&& 16 + T::size() <= usize::MAX
                &&& first == self.handles@[0]
                &&& last == self.handles@[self.len - 1]
            },
        }
        &&& forall|i: int|
            0 <= i < self.len ==> #[trigger] node_ok(self.storage, self.handles@, self.items@, i)
        &&& forall|i: int, j: int|
            0 <= i < self.len && 0 <= j < self.len && i != j ==> S::apart(
                #[trigger] self.handles@[i],
                #[trigger] self.handles@[j],
            )
    }

    /// A list in order has a node for each item, and its storage is in order.
    pub proof fn lemma_wf(&self)
        requires
            self.wf(),
        ensures
            self.storage().wf(),
            self.handles().len() == self@.len(),
            forall|i: int| 0 <= i < self@.len() ==> self.storage().valid(#[trigger] self.handles()[i]),
            forall|i: int, j: int|
                0 <= i < self@.len() && 0 <= j < self@.len() && i != j ==> S::apart(
                    #[trigger] self.handles()[i],
                    #[trigger] self.handles()[j],
                ),
    {
        assert forall|i: int| 0 <= i < self@.len() implies self.storage().valid(
            #[trigger] self.handles()[i],
        ) by {
            assert(node_ok(self.storage, self.handles@, self.items@, i));
        }
    }

    /// An empty list in `storage`.
    pub fn new_in(storage: S) -> (list: LinkedList<T, S>)
        requires
            storage.wf(),
        ensures
            list.wf(),
            list@.len() == 0,
            list.storage() == storage,
    {
        LinkedList {
            nodes: None,
            len: 0,
            storage,
            handles: Ghost(Seq::empty()),
            items: Ghost(Seq::empty()),
        }
    }

    /// The number of items.
    pub fn len(&self) -> (n: usize)
        requires
            self.wf(),
        ensures
            n == self@.len(),
    {
        self.len
    }

    /// Whether the list has no item.
    pub fn is_empty(&self) -> (b: bool)
        requires
            self.wf(),
        ensures
            b == (self@.len() == 0),
    {
        self.len == 0
    }

    /// The handle of the first node, if the list has one.
    pub fn first_node(&self) -> (r: Option<OffsetMetaHandle>)
        requires
            self.wf(),
        ensures
            r == if self@.len() > 0 {
                Some(self.handles()[0])
            } else {
                None
            },
    {
        match self.nodes {
            Some((first, _)) => Some(first),
            None => None,
        }
    }

    /// The handle of the last node, if the list has one.
    pub fn last_node(&self) -> (r: Option<OffsetMetaHandle>)
        requires
            self.wf(),
        ensures
            r == if self@.len() > 0 {
                Some(self.handles()[self@.len() - 1])
            } else {
                None
            },
    {
        match self.nodes {
            Some((_, last)) => Some(last),
            None => None,
        }
    }

    /// The handle to the node at `offset`.
    fn node_at(offset: usize) -> (h: OffsetMetaHandle)
        requires
            offset < usize::MAX,
            16 + T::size() <= usize::MAX,
        ensures
            h.spec_offset() == offset,
            h.spec_target() == Target::Sized(spec_node_layout::<T>()),
            h.spec_metadata() == Metadata::Unit,
    {
        let layout = match node_layout::<T>() {
            Some(layout) => layout,
            None => Layout { size: 0, align: 1 },
        };
        OffsetMetaHandle::from_offset_meta(offset, Target::Sized(layout), Metadata::Unit)
    }

    /// The link from node `i` to the next node.
    fn node_next(&self, node: OffsetMetaHandle, Ghost(i): Ghost<int>) -> (next: Option<
        OffsetMetaHandle,
    >)
        requires
            self.wf(),
            0 <= i < self.handles@.len(),
            node == self.handles@[i],
        ensures
            next == if i + 1 < self.handles@.len() {
                Some(self.handles@[i + 1])
            } else {
                None
            },
    {
        proof {
            assert(node_ok(self.storage, self.handles@, self.items@, i));
            lemma_node_parts(
                link_at(self.handles@, i + 1),
                link_at(self.handles@, i - 1),
                self.items@[i],
            );
            lemma_auto_spec_u64_to_from_le_bytes();
        }
        let bytes = self.storage.get(node);
        let kept = u64_from_le_bytes(slice_subrange(bytes.as_slice(), 0, 8));
        proof {
            assert(spec_u64_to_le_bytes(spec_link(link_at(self.handles@, i + 1))).len() == 8);
            assert(kept == spec_link(link_at(self.handles@, i + 1)));
            if i + 1 < self.handles@.len() {
                assert(node_ok(self.storage, self.handles@, self.items@, i + 1));
            }
        }
        match link_from(kept) {
            Some(offset) => {
                let next = Self::node_at(offset);
                proof {
                    assert(node_ok(self.storage, self.handles@, self.items@, i + 1));
                    next.lemma_eq(self.handles@[i + 1]);
                }
                Some(next)
            },
            None => None,
        }
    }

    /// The value of node `i`.
    fn node_val(&self, node: OffsetMetaHandle, Ghost(i): Ghost<int>) -> (val: T)
        requires
            self.wf(),
            0 <= i < self.handles@.len(),
            node == self.handles@[i],
        ensures
            val == self.items@[i],
    {
        proof {
            assert(node_ok(self.storage, self.handles@, self.items@, i));
            lemma_node_parts(
                link_at(self.handles@, i + 1),
                link_at(self.handles@, i - 1),
                self.items@[i],
            );
        }
        let size = match T::layout() {
            Some(layout) => layout.size,
            None => 0,
        };
        let bytes = self.storage.get(node);
        let val = T::from_bytes(slice_subrange(bytes.as_slice(), 16, 16 + size));
        proof {
            val.lemma_injective(&self.items@[i]);
        }
        val
    }

    /// The bytes of a node with the links `next` and `prev` and the value
    /// `value`.
    fn encode_node(next: Option<usize>, prev: Option<usize>, value: &T) -> (bytes: Vec<u8>)
        requires
            next matches Some(offset) ==> offset < usize::MAX,
            prev matches Some(offset) ==> offset < usize::MAX,
        ensures
            bytes@ == node_image(next, prev, *value),
    {
        let mut bytes = u64_to_le_bytes(link_of(next));
        let mut second = u64_to_le_bytes(link_of(prev));
        let mut third = value.to_bytes();
        bytes.append(&mut second);
        bytes.append(&mut third);
        bytes
    }

    /// Makes `value` the one item of an empty list.
    pub fn init_list(&mut self, value: T) -> (r: Result<(), StorageError>)
        requires
            old(self).wf(),
            old(self)@.len() == 0,
        ensures
            final(self).wf(),
            match r {
                Ok(()) => {
                    &&& final(self)@ == seq![value]
                    &&& 16 + T::size() <= usize::MAX
                    &&& old(self).storage().verdict(
                        Target::Sized(spec_node_layout::<T>()),
                        Metadata::Unit,
                    ) is Ok
                },
                Err(e) => {
                    &&& final(self)@ == old(self)@
                    &&& if 16 + T::size() <= usize::MAX {
                        old(self).storage().verdict(
                            Target::Sized(spec_node_layout::<T>()),
                            Metadata::Unit,
                        ) == Err::<(), _>(e)
                    } else {
                        e == StorageError::spec_exceeds_max()
                    }
                },
            },
    {
        let layout = match node_layout::<T>() {
            Some(layout) => layout,
            None => {
                return Err(StorageError::exceeds_max());
            },
        };
        let first_node = self.storage.allocate(Target::Sized(layout), Metadata::Unit)?;
        first_node.offset_bound();
        let bytes = Self::encode_node(None, None, &value);
        proof {
            self.storage.lemma_valid(first_node);
            lemma_node_parts(None, None, value);
            assert(overwrite(self.storage.contents(first_node), 0, bytes@) =~= bytes@);
        }
        self.storage.set(first_node, 0, bytes.as_slice());
        self.nodes = Some((first_node, first_node));
        self.len = 1;
        self.handles = Ghost(Seq::empty().push(first_node));
        self.items = Ghost(Seq::empty().push(value));
        proof {
            assert(node_ok(self.storage, self.handles@, self.items@, 0));
            assert(self.items@ =~= seq![value]);
        }
        Ok(())
    }

    /// Puts a node with `value` behind `node`, which must be the last node.
    pub fn insert_node_after(&mut self, node: OffsetMetaHandle, value: T) -> (r: Result<
        (),
        StorageError,
    >)
        requires
            old(self).wf(),
            0 < old(self)@.len() < usize::MAX,
            node == old(self).handles()[old(self)@.len() - 1],
        ensures
            final(self).wf(),
            match r {
                Ok(()) => {
                    &&& final(self)@ == old(self)@.push(value)
                    &&& old(self).storage().verdict(
                        Target::Sized(spec_node_layout::<T>()),
                        Metadata::Unit,
                    ) is Ok
                },
                Err(e) => {
                    &&& final(self)@ == old(self)@
                    &&& old(self).storage().verdict(
                        Target::Sized(spec_node_layout::<T>()),
                        Metadata::Unit,
                    ) == Err::<(), _>(e)
                },
            },
    {
        let ghost count = self.len as int;
        let ghost handles = self.handles@;
        let ghost items = self.items@;
        let layout = match node_layout::<T>() {
            Some(layout) => layout,
            None => Layout { size: 0, align: 1 },
        };
        proof {
            assert forall|i: int| 0 <= i < count implies self.storage.valid(
                #[trigger] handles[i],
            ) by {
                assert(node_ok(self.storage, handles, items, i));
            }
        }
        let ghost before = self.storage;
        let new_node = match self.storage.allocate(Target::Sized(layout), Metadata::Unit) {
            Ok(new_node) => new_node,
            Err(e) => {
                proof {
                    assert forall|i: int| 0 <= i < count implies #[trigger] node_ok(
                        self.storage,
                        handles,
                        items,
                        i,
                    ) by {
                        assert(node_ok(before, handles, items, i));
                        assert(before.valid(handles[i]));
                        assert(self.storage.valid(handles[i]));
                        assert(self.storage.contents(handles[i]) == before.contents(handles[i]));
                    }
                }
                return Err(e);
            },
        };
        node.offset_bound();
        new_node.offset_bound();
        let bytes = Self::encode_node(None, Some(node.offset()), &value);
        proof {
            self.storage.lemma_valid(new_node);
            lemma_node_parts(None, Some(node.spec_offset()), value);
            assert(overwrite(self.storage.contents(new_node), 0, bytes@) =~= bytes@);
            assert forall|i: int| 0 <= i < count implies S::apart(new_node, #[trigger] handles[i])
                && S::apart(handles[i], new_node) by {
                assert(before.valid(handles[i]));
                S::lemma_apart_symmetric(new_node, handles[i]);
            }
        }
        let ghost allocated = self.storage;
        self.storage.set(new_node, 0, bytes.as_slice());
        proof {
            assert forall|i: int| 0 <= i < count implies #[trigger] node_ok(
                self.storage,
                handles,
                items,
                i,
            ) by {
                assert(node_ok(before, handles, items, i));
                assert(before.valid(handles[i]));
                assert(allocated.valid(handles[i]));
                assert(allocated.contents(handles[i]) == before.contents(handles[i]));
                assert(S::apart(new_node, handles[i]));
                assert(self.storage.valid(handles[i]));
                assert(self.storage.contents(handles[i]) == allocated.contents(handles[i]));
            }
        }
        self.fix_refs(node, new_node, Ghost(value));
        Ok(())
    }

    /// Makes `new`, which holds `value` and leads back to `prev`, the node
    /// behind `prev`, which must be the last node: the link of `prev` is set,
    /// and `new` becomes the last node.
    fn fix_refs(&mut self, prev: OffsetMetaHandle, new: OffsetMetaHandle, Ghost(value): Ghost<T>)
        requires
            old(self).storage.wf(),
            0 < old(self).len < usize::MAX,
            16 + T::size() <= usize::MAX,
            old(self).handles@.len() == old(self).len,
            old(self).items@.len() == old(self).len,
            old(self).nodes matches Some((first, last)) && first == old(self).handles@[0] && last
                == prev,
            prev == old(self).handles@[old(self).len - 1],
            forall|i: int|
                0 <= i < old(self).len ==> #[trigger] node_ok(
                    old(self).storage,
                    old(self).handles@,
                    old(self).items@,
                    i,
                ),
            forall|i: int, j: int|
                0 <= i < old(self).len && 0 <= j < old(self).len && i != j ==> S::apart(
                    #[trigger] old(self).handles@[i],
                    #[trigger] old(self).handles@[j],
                ),
            forall|i: int|
                0 <= i < old(self).len ==> S::apart(new, #[trigger] old(self).handles@[i])
                    && S::apart(old(self).handles@[i], new),
            old(self).storage.valid(new),
            new.spec_offset() < usize::MAX,
            new.spec_target() == Target::Sized(spec_node_layout::<T>()),
            new.spec_metadata() == Metadata::Unit,
            old(self).storage.contents(new) == node_image(None, Some(prev.spec_offset()), value),
        ensures
            final(self).wf(),
            final(self)@ == old(self)@.push(value),
    {
        let ghost count = self.len as int;
        let ghost handles = self.handles@;
        let ghost items = self.items@;
        let ghost before = self.storage;
        new.offset_bound();
        let link = u64_to_le_bytes(link_of(Some(new.offset())));
        proof {
            assert(node_ok(before, handles, items, count - 1));
            lemma_node_parts(
                link_at(handles, count),
                link_at(handles, count - 2),
                items[count - 1],
            );
            lemma_relink(
                link_at(handles, count),
                link_at(handles, count - 2),
                items[count - 1],
                Some(new.spec_offset()),
            );
            lemma_auto_spec_u64_to_from_le_bytes();
            assert(link@.len() == 8);
        }
        self.storage.set(prev, 0, link.as_slice());
        match self.nodes {
            Some((first, last)) => {
                if prev == last {
                    self.nodes = Some((first, new));
                }
            },
            None => {},
        }
        self.len = self.len + 1;
        self.handles = Ghost(handles.push(new));
        self.items = Ghost(items.push(value));
        proof {
            let after = self.storage;
            let grown = handles.push(new);
            let all = items.push(value);
            assert forall|i: int| 0 <= i < count + 1 implies #[trigger] node_ok(
                after,
                grown,
                all,
                i,
            ) by {
                if i < count - 1 {
                    assert(node_ok(before, handles, items, i));
                    assert(grown[i] == handles[i]);
                    assert(before.valid(handles[i]));
                    assert(S::apart(handles[count - 1], handles[i]));
                    assert(after.valid(handles[i]));
                    assert(after.contents(handles[i]) == before.contents(handles[i]));
                    assert(link_at(grown, i + 1) == link_at(handles, i + 1));
                    assert(link_at(grown, i - 1) == link_at(handles, i - 1));
                } else if i == count - 1 {
                    assert(grown[i] == handles[i]);
                    assert(after.valid(prev));
                    assert(link_at(grown, i + 1) == Some(new.spec_offset()));
                    assert(link_at(grown, i - 1) == link_at(handles, i - 1));
                } else {
                    assert(grown[i] == new);
                    assert(S::apart(handles[count - 1], new));
                    assert(after.valid(new));
                    assert(after.contents(new) == before.contents(new));
                    assert(link_at(grown, i + 1) == None::<usize>);
                    assert(link_at(grown, i - 1) == Some(prev.spec_offset()));
                }
            }
            assert forall|i: int, j: int|
                0 <= i < count + 1 && 0 <= j < count + 1 && i != j implies S::apart(
                #[trigger] grown[i],
                #[trigger] grown[j],
            ) by {
                if i < count && j < count {
                    assert(S::apart(handles[i], handles[j]));
                } else if i == count {
                    assert(S::apart(new, handles[j]));
                } else {
                    assert(S::apart(handles[i], new));
                }
            }
        }
    }

    /// Puts `value` behind the items of the list. Where the storage has no
    /// room for another node, nothing has changed.
    pub fn push(&mut self, value: T) -> (r: Result<(), StorageError>)
        requires
            old(self).wf(),
        ensures
            final(self).wf(),
            match r {
                Ok(()) => final(self)@ == old(self)@.push(value),
                Err(_) => final(self)@ == old(self)@,
            },
            old(self)@.len() < usize::MAX && 16 + T::size() <= usize::MAX ==> (r is Ok
                <==> old(self).storage().verdict(
                Target::Sized(spec_node_layout::<T>()),
                Metadata::Unit,
            ) is Ok),
            r is Err && old(self)@.len() < usize::MAX && 16 + T::size() <= usize::MAX ==> old(
                self,
            ).storage().verdict(Target::Sized(spec_node_layout::<T>()), Metadata::Unit) == Err::<
                (),
                _,
            >(r->Err_0),
            r is Err && old(self)@.len() < usize::MAX && 16 + T::size() > usize::MAX ==> r
                == Err::<(), _>(StorageError::spec_exceeds_max()),
            old(self)@.len() == usize::MAX ==> r == Err::<(), _>(StorageError::NoSlots),
    {
        if self.len == usize::MAX {
            return Err(StorageError::NoSlots);
        }
        match self.last_node() {
            Some(node) => self.insert_node_after(node, value),
            None => {
                let r = self.init_list(value);
                proof {
                    if r is Ok {
                        assert(self@ =~= old(self)@.push(value));
                    }
                }
                r
            },
        }
    }

    /// The item at place `index`, if the list has as many.
    pub fn get(&self, index: usize) -> (r: Option<T>)
        requires
            self.wf(),
        ensures
            r == if index < self@.len() {
                Some(self@[index as int])
            } else {
                None
            },
    {
        let mut cur = match self.first_node() {
            Some(first) => first,
            None => {
                return None;
            },
        };
        let mut i: usize = 0;
        while i < index
            invariant
                self.wf(),
                i <= index,
                i < self.handles@.len(),
                cur == self.handles@[i as int],
            decreases index - i,
        {
            cur = match self.node_next(cur, Ghost(i as int)) {
                Some(next) => next,
                None => {
                    return None;
                },
            };
            i += 1;
        }
        Some(self.node_val(cur, Ghost(i as int)))
    }

    /// Releases every node of the list, and gives the storage back.
    pub fn free(self) -> (storage: S)
        requires
            self.wf(),
        ensures
            storage.wf(),
    {
        let mut this = self;
        let mut cur = match this.first_node() {
            Some(first) => first,
            None => {
                return this.storage;
            },
        };
        let ghost handles = this.handles@;
        let ghost items = this.items@;
        let ghost count = this.len as int;
        let mut storage = this.storage;
        let mut i: usize = 0;
        loop
            invariant
                storage.wf(),
                16 + T::size() <= usize::MAX,
                0 <= i < count <= usize::MAX,
                handles.len() == count,
                items.len() == count,
                cur == handles[i as int],
                forall|k: int| i <= k < count ==> #[trigger] node_ok(storage, handles, items, k),
                forall|k: int, j: int|
                    0 <= k < count && 0 <= j < count && k != j ==> S::apart(
                        #[trigger] handles[k],
                        #[trigger] handles[j],
                    ),
            decreases count - i,
        {
            proof {
                assert(node_ok(storage, handles, items, i as int));
                lemma_node_parts(
                    link_at(handles, i + 1),
                    link_at(handles, i - 1),
                    items[i as int],
                );
                lemma_auto_spec_u64_to_from_le_bytes();
            }
            let bytes = storage.get(cur);
            let kept = u64_from_le_bytes(slice_subrange(bytes.as_slice(), 0, 8));
            proof {
                assert(spec_u64_to_le_bytes(spec_link(link_at(handles, i + 1))).len() == 8);
                assert(kept == spec_link(link_at(handles, i + 1)));
                if i + 1 < count {
                    assert(node_ok(storage, handles, items, i + 1));
                }
            }
            let next = link_from(kept);
            let ghost before = storage;
            storage.deallocate(cur);
            match next {
                Some(offset) => {
                    let node = Self::node_at(offset);
                    proof {
                        assert(node_ok(before, handles, items, i + 1));
                        node.lemma_eq(handles[i + 1]);
                        assert forall|k: int| i + 1 <= k < count implies #[trigger] node_ok(
                            storage,
                            handles,
                            items,
                            k,
                        ) by {
                            assert(node_ok(before, handles, items, k));
                            assert(before.valid(handles[k]));
                            assert(S::apart(handles[i as int], handles[k]));
                            assert(storage.valid(handles[k]));
                            assert(storage.contents(handles[k]) == before.contents(handles[k]));
                        }
                    }
                    cur = node;
                    i += 1;
                },
                None => {
                    return storage;
                },
            }
        }
    }
}

impl<T: Value, S: MultiItemStorage<Handle = OffsetMetaHandle> + Default> LinkedList<T, S> {
    /// An empty list in a storage of its own.
    pub fn new() -> (list: LinkedList<T, S>)
        requires
            crate::boxed::default_is_wf::<S>(),
        ensures
            list.wf(),
            list@.len() == 0,
    {
        LinkedList::new_in(S::default())
    }
}

} // verus!
