//! Storages that keep their data in a region set aside for the whole run of the
//! program, behind a cell that only one storage at a time can claim.
//!
//! They need no allocator. Some hold one allocation, some one in each of a
//! number of slots, and one is a virtual heap.

pub mod cell;
pub mod multi;
pub mod single;
pub mod static_heap;
pub mod traits;

pub use cell::StorageCell;
pub use multi::MultiStatic;
pub use single::SingleStatic;
pub use static_heap::{HeapHandle, StaticHeap};
