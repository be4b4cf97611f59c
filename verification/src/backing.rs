//! A way to name the region behind a storage by its size and alignment, more
//! plainly than by an array of integers.

use vstd::prelude::*;
use crate::base::StorageSafe;
use crate::layout::Layout;

verus! {

/// An alignment that a `Backing` can have.
pub trait Align: Sized + Copy {
    /// The alignment in bytes.
    spec fn spec_align() -> usize;

    /// The alignment in bytes.
    fn align() -> (n: usize)
        ensures
            n == Self::spec_align(),
    ;

    /// The one value of the type.
    fn instance() -> Self;
}

/// Gives a `Backing` alignment 1.
#[derive(Debug, Clone, Copy, Default)]
pub struct Align1;

/// Gives a `Backing` alignment 2.
#[derive(Debug, Clone, Copy, Default)]
pub struct Align2;

/// Gives a `Backing` alignment 4.
#[derive(Debug, Clone, Copy, Default)]
pub struct Align4;

/// Gives a `Backing` alignment 8.
#[derive(Debug, Clone, Copy, Default)]
pub struct Align8;

/// Gives a `Backing` alignment 16.
#[derive(Debug, Clone, Copy, Default)]
pub struct Align16;

impl Align for Align1 {
    open spec fn spec_align() -> usize {
        1
    }

    fn align() -> (n: usize) {
        1
    }

    fn instance() -> Self {
        Align1
    }
}

impl Align for Align2 {
    open spec fn spec_align() -> usize {
        2
    }

    fn align() -> (n: usize) {
        2
    }

    fn instance() -> Self {
        Align2
    }
}

impl Align for Align4 {
    open spec fn spec_align() -> usize {
        4
    }

    fn align() -> (n: usize) {
        4
    }

    fn instance() -> Self {
        Align4
    }
}

impl Align for Align8 {
    open spec fn spec_align() -> usize {
        8
    }

    fn align() -> (n: usize) {
        8
    }

    fn instance() -> Self {
        Align8
    }
}

impl Align for Align16 {
    open spec fn spec_align() -> usize {
        16
    }

    fn align() -> (n: usize) {
        16
    }

    fn instance() -> Self {
        Align16
    }
}

/// The usual type to back a storage with: a region of `N` bytes with the
/// alignment of `A`.
pub struct Backing<const N: usize, A: Align = Align1> {
    align: A,
}

impl<const N: usize, A: Align> Clone for Backing<N, A> {
    fn clone(&self) -> Self {
        Backing { align: self.align }
    }
}

impl<const N: usize, A: Align> Copy for Backing<N, A> {

}

impl<const N: usize, A: Align> Backing<N, A> {
    /// A new backing.
    pub fn new() -> Backing<N, A> {
        Backing { align: A::instance() }
    }
}

impl<const N: usize, A: Align> Default for Backing<N, A> {
    fn default() -> Self {
        Backing::new()
    }
}

impl<const N: usize, A: Align> StorageSafe for Backing<N, A> {
    open spec fn spec_layout() -> Layout {
        Layout { size: N, align: A::spec_align() }
    }

    fn layout() -> (l: Layout) {
        Layout { size: N, align: A::align() }
    }
}

} // verus!
