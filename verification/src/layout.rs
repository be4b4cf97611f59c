//! Sizes and alignments of values and of regions of memory.

use vstd::prelude::*;

verus! {

/// The size and alignment of a value or of a region, in bytes.
#[derive(Debug, Clone, Copy, PartialEq, Eq, Structural)]
pub struct Layout {
    /// Number of bytes.
    pub size: usize,
    /// Alignment; an address that holds the value is a multiple of it.
    pub align: usize,
}

impl Layout {
    /// A layout of `size` bytes aligned to `align`.
    pub fn new(size: usize, align: usize) -> (l: Layout)
        ensures
            l == (Layout { size, align }),
    {
        Layout { size, align }
    }

    /// The layout of a value that takes no space.
    pub fn unit() -> (l: Layout)
        ensures
            l == (Layout { size: 0, align: 1 }),
    {
        Layout { size: 0, align: 1 }
    }

    /// Number of bytes.
    pub fn size(&self) -> (n: usize)
        ensures
            n == self.size,
    {
        self.size
    }

    /// Alignment in bytes.
    pub fn align(&self) -> (n: usize)
        ensures
            n == self.align,
    {
        self.align
    }

    /// The layout of `count` elements of layout `self` side by side, where its
    /// size fits in a `usize`.
    pub open spec fn spec_array(self, count: usize) -> Option<Layout> {
        if self.size * count <= usize::MAX {
            Some(Layout { size: (self.size * count) as usize, align: self.align })
        } else {
            None
        }
    }

    /// The layout of a run of `count` elements, each of layout `self`; `None`
    /// when the run would take more than `usize::MAX` bytes.
    pub fn array(&self, count: usize) -> (r: Option<Layout>)
        ensures
            r == self.spec_array(count),
    {
        match self.size.checked_mul(count) {
            Some(size) => Some(Layout { size, align: self.align }),
            None => None,
        }
    }
}

} // verus!
