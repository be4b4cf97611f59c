//! Values that a collection can keep in a storage: plain data, which is as good
//! as the bytes it is made of.

use vstd::prelude::*;
use vstd::bytes::{
    lemma_auto_spec_u16_to_from_le_bytes,
    lemma_auto_spec_u32_to_from_le_bytes,
    lemma_auto_spec_u64_to_from_le_bytes,
    spec_u16_to_le_bytes,
    spec_u32_to_le_bytes,
    spec_u64_to_le_bytes,
    u16_from_le_bytes,
    u16_to_le_bytes,
    u32_from_le_bytes,
    u32_to_le_bytes,
    u64_from_le_bytes,
    u64_to_le_bytes,
};
use crate::handles::{Metadata, Target};
use crate::layout::Layout;
use crate::utils::{read_bytes, spec_layout_of};

verus! {

/// A type of plain data. Every value has an image of as many bytes as the type
/// has, two values with the same image are the same, and every run of that many
/// bytes is the image of a value.
pub trait Value: Sized {
    /// The number of bytes of a value.
    spec fn size() -> nat;

    /// The alignment of a value.
    spec fn align() -> usize;

    /// The target that describes the type to a storage.
    spec fn spec_target() -> Target;

    /// The bytes that a value is made of.
    spec fn image(&self) -> Seq<u8>;

    /// An image has as many bytes as the type has.
    proof fn lemma_image_len(&self)
        ensures
            self.image().len() == Self::size(),
    ;

    /// Values with the same image are the same.
    proof fn lemma_injective(&self, other: &Self)
        requires
            self.image() == other.image(),
        ensures
            *self == *other,
    ;

    /// The target has the layout of the type, as long as its size can be
    /// written down.
    proof fn lemma_target()
        ensures
            spec_layout_of(Self::spec_target(), Metadata::Unit) == if Self::size() <= usize::MAX {
                Some(Layout { size: Self::size() as usize, align: Self::align() })
            } else {
                None
            },
    ;

    /// The layout of the type; none if its size cannot be written down.
    fn layout() -> (r: Option<Layout>)
        ensures
            r == if Self::size() <= usize::MAX {
                Some(Layout { size: Self::size() as usize, align: Self::align() })
            } else {
                None
            },
    ;

    /// The target that describes the type to a storage.
    fn target() -> (t: Target)
        ensures
            t == Self::spec_target(),
    ;

    /// The bytes that the value is made of.
    fn to_bytes(&self) -> (bytes: Vec<u8>)
        ensures
            bytes@ == self.image(),
    ;

    /// The value that `bytes` are the image of.
    fn from_bytes(bytes: &[u8]) -> (value: Self)
        requires
            bytes@.len() == Self::size(),
        ensures
            value.image() == bytes@,
    ;
}

impl Value for () {
    open spec fn size() -> nat {
        0
    }

    open spec fn align() -> usize {
        1
    }

    open spec fn spec_target() -> Target {
        Target::Sized(Layout { size: 0, align: 1 })
    }

    open spec fn image(&self) -> Seq<u8> {
        Seq::empty()
    }

    proof fn lemma_image_len(&self) {
    }

    proof fn lemma_injective(&self, other: &Self) {
    }

    proof fn lemma_target() {
    }

    fn layout() -> (r: Option<Layout>) {
        Some(Layout { size: 0, align: 1 })
    }

    fn target() -> (t: Target) {
        Target::Sized(Layout { size: 0, align: 1 })
    }

    fn to_bytes(&self) -> (bytes: Vec<u8>) {
        Vec::new()
    }

    fn from_bytes(bytes: &[u8]) -> (value: Self) {
        assert(bytes@ =~= Seq::<u8>::empty());
    }
}

impl Value for u8 {
    open spec fn size() -> nat {
        1
    }

    open spec fn align() -> usize {
        1
    }

    open spec fn spec_target() -> Target {
        Target::Sized(Layout { size: 1, align: 1 })
    }

    open spec fn image(&self) -> Seq<u8> {
        seq![*self]
    }

    proof fn lemma_image_len(&self) {
    }

    proof fn lemma_injective(&self, other: &Self) {
        assert(self.image()[0] == *self);
        assert(other.image()[0] == *other);
    }

    proof fn lemma_target() {
    }

    fn layout() -> (r: Option<Layout>) {
        Some(Layout { size: 1, align: 1 })
    }

    fn target() -> (t: Target) {
        Target::Sized(Layout { size: 1, align: 1 })
    }

    fn to_bytes(&self) -> (bytes: Vec<u8>) {
        let mut bytes: Vec<u8> = Vec::new();
        bytes.push(*self);
        assert(bytes@ =~= seq![*self]);
        bytes
    }

    fn from_bytes(bytes: &[u8]) -> (value: Self) {
        let value = bytes[0];
        assert(value.image() =~= bytes@);
        value
    }
}

impl Value for u16 {
    open spec fn size() -> nat {
        2
    }

    open spec fn align() -> usize {
        2
    }

    open spec fn spec_target() -> Target {
        Target::Sized(Layout { size: 2, align: 2 })
    }

    open spec fn image(&self) -> Seq<u8> {
        spec_u16_to_le_bytes(*self)
    }

    proof fn lemma_image_len(&self) {
        lemma_auto_spec_u16_to_from_le_bytes();
    }

    proof fn lemma_injective(&self, other: &Self) {
        lemma_auto_spec_u16_to_from_le_bytes();
        assert(spec_u16_to_le_bytes(*self).len() == 2);
        assert(spec_u16_to_le_bytes(*other).len() == 2);
    }

    proof fn lemma_target() {
    }

    fn layout() -> (r: Option<Layout>) {
        Some(Layout { size: 2, align: 2 })
    }

    fn target() -> (t: Target) {
        Target::Sized(Layout { size: 2, align: 2 })
    }

    fn to_bytes(&self) -> (bytes: Vec<u8>) {
        u16_to_le_bytes(*self)
    }

    fn from_bytes(bytes: &[u8]) -> (value: Self) {
        proof {
            lemma_auto_spec_u16_to_from_le_bytes();
        }
        u16_from_le_bytes(bytes)
    }
}

impl Value for u32 {
    open spec fn size() -> nat {
        4
    }

    open spec fn align() -> usize {
        4
    }

    open spec fn spec_target() -> Target {
        Target::Sized(Layout { size: 4, align: 4 })
    }

    open spec fn image(&self) -> Seq<u8> {
        spec_u32_to_le_bytes(*self)
    }

    proof fn lemma_image_len(&self) {
        lemma_auto_spec_u32_to_from_le_bytes();
    }

    proof fn lemma_injective(&self, other: &Self) {
        lemma_auto_spec_u32_to_from_le_bytes();
        assert(spec_u32_to_le_bytes(*self).len() == 4);
        assert(spec_u32_to_le_bytes(*other).len() == 4);
    }

    proof fn lemma_target() {
    }

    fn layout() -> (r: Option<Layout>) {
        Some(Layout { size: 4, align: 4 })
    }

    fn target() -> (t: Target) {
        Target::Sized(Layout { size: 4, align: 4 })
    }

    fn to_bytes(&self) -> (bytes: Vec<u8>) {
        u32_to_le_bytes(*self)
    }

    fn from_bytes(bytes: &[u8]) -> (value: Self) {
        proof {
            lemma_auto_spec_u32_to_from_le_bytes();
        }
        u32_from_le_bytes(bytes)
    }
}

impl Value for u64 {
    open spec fn size() -> nat {
        8
    }

    open spec fn align() -> usize {
        8
    }

    open spec fn spec_target() -> Target {
        Target::Sized(Layout { size: 8, align: 8 })
    }

    open spec fn image(&self) -> Seq<u8> {
        spec_u64_to_le_bytes(*self)
    }

    proof fn lemma_image_len(&self) {
        lemma_auto_spec_u64_to_from_le_bytes();
    }

    proof fn lemma_injective(&self, other: &Self) {
        lemma_auto_spec_u64_to_from_le_bytes();
        assert(spec_u64_to_le_bytes(*self).len() == 8);
        assert(spec_u64_to_le_bytes(*other).len() == 8);
    }

    proof fn lemma_target() {
    }

    fn layout() -> (r: Option<Layout>) {
        Some(Layout { size: 8, align: 8 })
    }

    fn target() -> (t: Target) {
        Target::Sized(Layout { size: 8, align: 8 })
    }

    fn to_bytes(&self) -> (bytes: Vec<u8>) {
        u64_to_le_bytes(*self)
    }

    fn from_bytes(bytes: &[u8]) -> (value: Self) {
        proof {
            lemma_auto_spec_u64_to_from_le_bytes();
        }
        u64_from_le_bytes(bytes)
    }
}

/// The unsigned number with the bits of `x`.
pub open spec fn spec_bits_of(x: i32) -> u32 {
    if x >= 0 {
        x as u32
    } else {
        (x + 0x1_0000_0000) as u32
    }
}

/// The unsigned number with the bits of `x`.
pub fn bits_of(x: i32) -> (bits: u32)
    ensures
        bits == spec_bits_of(x),
{
    if x >= 0 {
        x as u32
    } else {
        let below: u32 = (x + i32::MAX + 1) as u32;
        below + 0x8000_0000u32
    }
}

/// The signed number with the bits of `bits`.
pub fn from_bits(bits: u32) -> (x: i32)
    ensures
        spec_bits_of(x) == bits,
{
    if bits < 0x8000_0000u32 {
        bits as i32
    } else {
        let below: i32 = (bits - 0x8000_0000u32) as i32;
        below - i32::MAX - 1
    }
}

impl Value for i32 {
    open spec fn size() -> nat {
        4
    }

    open spec fn align() -> usize {
        4
    }

    open spec fn spec_target() -> Target {
        Target::Sized(Layout { size: 4, align: 4 })
    }

    open spec fn image(&self) -> Seq<u8> {
        spec_u32_to_le_bytes(spec_bits_of(*self))
    }

    proof fn lemma_image_len(&self) {
        lemma_auto_spec_u32_to_from_le_bytes();
    }

    proof fn lemma_injective(&self, other: &Self) {
        lemma_auto_spec_u32_to_from_le_bytes();
        assert(spec_u32_to_le_bytes(spec_bits_of(*self)).len() == 4);
        assert(spec_u32_to_le_bytes(spec_bits_of(*other)).len() == 4);
        assert(spec_bits_of(*self) == spec_bits_of(*other));
    }

    proof fn lemma_target() {
    }

    fn layout() -> (r: Option<Layout>) {
        Some(Layout { size: 4, align: 4 })
    }

    fn target() -> (t: Target) {
        Target::Sized(Layout { size: 4, align: 4 })
    }

    fn to_bytes(&self) -> (bytes: Vec<u8>) {
        u32_to_le_bytes(bits_of(*self))
    }

    fn from_bytes(bytes: &[u8]) -> (value: Self) {
        proof {
            lemma_auto_spec_u32_to_from_le_bytes();
        }
        from_bits(u32_from_le_bytes(bytes))
    }
}

/// The images of the values of `items` one after the other, where each has
/// `size` bytes.
pub open spec fn join<T: Value>(items: Seq<T>, size: nat) -> Seq<u8> {
    Seq::new(items.len() * size, |j: int| items[j / size as int].image()[j % size as int])
}

/// Byte `j` of item `i` stands at place `i * size + j` of the joined images.
pub proof fn lemma_place(i: int, j: int, size: int)
    requires
        0 <= i,
        0 <= j < size,
    ensures
        (i * size + j) / size == i,
        (i * size + j) % size == j,
        0 <= i * size,
        (i + 1) * size == i * size + size,
{
    vstd::arithmetic::div_mod::lemma_fundamental_div_mod_converse(i * size + j, size, i, j);
    assert(0 <= i * size) by (nonlinear_arith)
        requires
            0 <= i,
            0 < size,
    ;
    assert((i + 1) * size == i * size + size) by (nonlinear_arith);
}

/// Item `i` of the joined images is the image of item `i`.
pub proof fn lemma_join_chunk<T: Value>(items: Seq<T>, i: int)
    requires
        0 <= i < items.len(),
    ensures
        0 <= i * T::size() <= (i + 1) * T::size() <= join(items, T::size()).len(),
        join(items, T::size()).subrange(i * T::size(), (i + 1) * T::size()) == items[i].image(),
{
    let size = T::size() as int;
    let all = join(items, T::size());
    items[i].lemma_image_len();
    assert(0 <= i * size) by (nonlinear_arith)
        requires
            0 <= i,
            0 <= size,
    ;
    assert((i + 1) * size == i * size + size) by (nonlinear_arith);
    assert((i + 1) * size <= items.len() * size) by (nonlinear_arith)
        requires
            i + 1 <= items.len(),
            0 <= size,
    ;
    let chunk = all.subrange(i * size, (i + 1) * size);
    assert forall|j: int| 0 <= j < size implies chunk[j] == items[i].image()[j] by {
        lemma_place(i, j, size);
    }
    assert(chunk =~= items[i].image());
}

/// Joining one more item puts its image behind the joined images of the rest.
pub proof fn lemma_join_push<T: Value>(items: Seq<T>, item: T)
    ensures
        join(items.push(item), T::size()) == join(items, T::size()) + item.image(),
{
    item.lemma_image_len();
    let size = T::size() as int;
    let before = join(items, T::size());
    let after = join(items.push(item), T::size());
    let count = items.len() as int;
    assert((count + 1) * size == count * size + size) by (nonlinear_arith);
    assert forall|j: int| 0 <= j < after.len() implies after[j] == (before + item.image())[j] by {
        if j < count * size {
            assert(size > 0) by (nonlinear_arith)
                requires
                    j < count * size,
                    0 <= j,
                    0 <= size,
            ;
            let q = j / size;
            vstd::arithmetic::div_mod::lemma_fundamental_div_mod(j, size);
            vstd::arithmetic::div_mod::lemma_mod_bound(j, size);
            assert(0 <= q < count) by (nonlinear_arith)
                requires
                    j == size * q + j % size,
                    0 <= j % size < size,
                    0 <= j < count * size,
                    0 < size,
            ;
            assert(items.push(item)[q] == items[q]);
        } else {
            lemma_place(count, j - count * size, size);
        }
    }
    assert(after =~= before + item.image());
}

/// Runs whose joined images are the same are the same.
pub proof fn lemma_join_injective<T: Value>(a: Seq<T>, b: Seq<T>)
    requires
        a.len() == b.len(),
        join(a, T::size()) == join(b, T::size()),
    ensures
        a == b,
{
    assert forall|i: int| 0 <= i < a.len() implies a[i] == b[i] by {
        lemma_join_chunk(a, i);
        lemma_join_chunk(b, i);
        a[i].lemma_injective(&b[i]);
    }
    assert(a =~= b);
}

/// The images of the values of `items`, one after the other.
pub fn encode_run<T: Value>(items: &[T]) -> (bytes: Vec<u8>)
    ensures
        bytes@ == join(items@, T::size()),
{
    let mut bytes: Vec<u8> = Vec::new();
    let mut i: usize = 0;
    while i < items.len()
        invariant
            i <= items@.len(),
            bytes@ == join(items@.subrange(0, i as int), T::size()),
        decreases items@.len() - i,
    {
        let mut image = items[i].to_bytes();
        proof {
            lemma_join_push(items@.subrange(0, i as int), items@[i as int]);
            assert(items@.subrange(0, i + 1) =~= items@.subrange(0, i as int).push(
                items@[i as int],
            ));
        }
        bytes.append(&mut image);
        i += 1;
    }
    assert(items@.subrange(0, i as int) =~= items@);
    bytes
}

/// The `count` values whose images `bytes` are, one after the other.
pub fn decode_run<T: Value>(bytes: &Vec<u8>, count: usize) -> (items: Vec<T>)
    requires
        bytes@.len() == count * T::size(),
    ensures
        items@.len() == count,
        join(items@, T::size()) == bytes@,
{
    let size = match T::layout() {
        Some(layout) => layout.size,
        None => 0,
    };
    let total = bytes.len();
    let mut items: Vec<T> = Vec::new();
    let mut i: usize = 0;
    proof {
        if count > 0 {
            assert(T::size() <= count * T::size()) by (nonlinear_arith)
                requires
                    count >= 1,
            ;
        }
    }
    while i < count
        invariant
            i <= count,
            total == bytes@.len(),
            bytes@.len() == count * T::size(),
            count > 0 ==> size == T::size(),
            items@.len() == i,
            forall|k: int|
                0 <= k < i ==> (#[trigger] items@[k]).image() == bytes@.subrange(
                    k * size,
                    k * size + size,
                ),
        decreases count - i,
    {
        proof {
            assert(0 <= i * size) by (nonlinear_arith)
                requires
                    0 <= i,
                    0 <= size,
            ;
            assert(i * size + size <= count * size) by (nonlinear_arith)
                requires
                    i + 1 <= count,
                    0 <= size,
            ;
        }
        let chunk = read_bytes(bytes, i * size, size);
        let item = T::from_bytes(chunk.as_slice());
        items.push(item);
        i += 1;
    }
    proof {
        let all = join(items@, T::size());
        let width = T::size() as int;
        assert forall|j: int| 0 <= j < all.len() implies all[j] == bytes@[j] by {
            assert(width > 0) by (nonlinear_arith)
                requires
                    j < count * width,
                    0 <= j,
                    0 <= width,
            ;
            let q = j / width;
            let r = j % width;
            vstd::arithmetic::div_mod::lemma_fundamental_div_mod(j, width);
            vstd::arithmetic::div_mod::lemma_mod_bound(j, width);
            assert(0 <= q < count) by (nonlinear_arith)
                requires
                    j == width * q + r,
                    0 <= r < width,
                    0 <= j < count * width,
                    0 < width,
            ;
            assert(q * width == width * q) by (nonlinear_arith);
            assert(q * width + width <= count * width) by (nonlinear_arith)
                requires
                    q + 1 <= count,
                    0 < width,
            ;
            assert(0 <= q * width) by (nonlinear_arith)
                requires
                    0 <= q,
                    0 < width,
            ;
            let chunk = bytes@.subrange(q * width, q * width + width);
            assert(items@[q].image() == chunk);
            assert(chunk[r] == bytes@[q * width + r]);
        }
        assert(all =~= bytes@);
    }
    items
}

/// Makes an array of the items of a vector that has as many items as the array.
///
/// This is `TryFrom<Vec<T>>` of the standard library for arrays, which gives
/// the whole contents of the vector as an array when the lengths agree. It is
/// taken on trust that the array then holds the items of the vector in order.
#[verifier::external_body]
fn array_from_vec<T, const N: usize>(items: Vec<T>) -> (array: [T; N])
    requires
        items@.len() == N,
    ensures
        array@ == items@,
{
    <[T; N]>::try_from(items).ok().unwrap()
}

/// An array is laid out as its items, one after the other.
impl<T: Value, const N: usize> Value for [T; N] {
    open spec fn size() -> nat {
        (N * T::size()) as nat
    }

    open spec fn align() -> usize {
        if T::size() <= usize::MAX {
            T::align()
        } else {
            1
        }
    }

    /// An array of items whose size can be written down. For others a target
    /// with the layout of the array takes its place, where it has one.
    open spec fn spec_target() -> Target {
        if T::size() <= usize::MAX {
            Target::Array(Layout { size: T::size() as usize, align: T::align() }, N)
        } else if N == 0 {
            Target::Sized(Layout { size: 0, align: 1 })
        } else {
            Target::Dyn
        }
    }

    open spec fn image(&self) -> Seq<u8> {
        join(self@, T::size())
    }

    proof fn lemma_image_len(&self) {
    }

    proof fn lemma_injective(&self, other: &Self) {
        lemma_join_injective(self@, other@);
        assert(*self =~= *other);
    }

    proof fn lemma_target() {
        let size = T::size();
        assert(N * size == size * N) by (nonlinear_arith);
        if size > usize::MAX && N != 0 {
            assert(N * size > usize::MAX) by (nonlinear_arith)
                requires
                    size > usize::MAX,
                    N >= 1,
            ;
        }
        if N == 0 {
            assert(N * size == 0) by (nonlinear_arith)
                requires
                    N == 0,
            ;
        }
    }

    fn layout() -> (r: Option<Layout>) {
        proof {
            Self::lemma_target();
        }
        match T::layout() {
            Some(elem) => elem.array(N),
            None => if N == 0 {
                Some(Layout { size: 0, align: 1 })
            } else {
                None
            },
        }
    }

    fn target() -> (t: Target) {
        match T::layout() {
            Some(elem) => Target::Array(elem, N),
            None => if N == 0 {
                Target::Sized(Layout { size: 0, align: 1 })
            } else {
                Target::Dyn
            },
        }
    }

    fn to_bytes(&self) -> (bytes: Vec<u8>) {
        encode_run(self.as_slice())
    }

    fn from_bytes(bytes: &[u8]) -> (value: Self) {
        let copy = vstd::slice::slice_to_vec(bytes);
        array_from_vec(decode_run::<T>(&copy, N))
    }
}

} // verus!
