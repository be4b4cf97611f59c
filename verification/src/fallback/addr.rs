//! The addresses of the handles of a fallback storage.

use core::cmp::Ordering;
use vstd::prelude::*;
use vstd::std_specs::cmp::PartialOrdSpec;

verus! {

/// The address of a fallback handle: the address within the storage that
/// holds the allocation, marked with which of the two that is.
///
/// Addresses within one storage compare as that storage has it. Addresses
/// within different storages are neither the same nor in any order.
#[derive(Debug, PartialEq, Eq)]
pub enum FallbackAddr<A1, A2> {
    /// An address within the first storage.
    First(A1),
    /// An address within the second storage.
    Second(A2),
}

impl<A1: Copy, A2: Copy> Clone for FallbackAddr<A1, A2> {
    fn clone(&self) -> (out: Self)
        ensures
            out == *self,
    {
        *self
    }
}

impl<A1: Copy, A2: Copy> Copy for FallbackAddr<A1, A2> {

}

impl<A1: PartialOrd, A2: PartialOrd> PartialOrd for FallbackAddr<A1, A2> {
    fn partial_cmp(&self, other: &Self) -> (order: Option<Ordering>) {
        match (self, other) {
            (FallbackAddr::First(this), FallbackAddr::First(other)) => this.partial_cmp(other),
            (FallbackAddr::Second(this), FallbackAddr::Second(other)) => this.partial_cmp(other),
            _ => None,
        }
    }
}

impl<A1: PartialOrd, A2: PartialOrd> vstd::std_specs::cmp::PartialOrdSpecImpl for FallbackAddr<A1, A2> {
    open spec fn obeys_partial_cmp_spec() -> bool {
        A1::obeys_partial_cmp_spec() && A2::obeys_partial_cmp_spec()
    }

    open spec fn partial_cmp_spec(&self, other: &Self) -> Option<Ordering> {
        match (self, other) {
            (FallbackAddr::First(this), FallbackAddr::First(that)) => A1::partial_cmp_spec(
                this,
                that,
            ),
            (FallbackAddr::Second(this), FallbackAddr::Second(that)) => A2::partial_cmp_spec(
                this,
                that,
            ),
            _ => None,
        }
    }
}

} // verus!
