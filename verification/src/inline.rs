//! Storages that keep their data inline, in the value of the storage itself.
//!
//! They need no allocator. A handle of theirs is good only for the very storage
//! that gave it out.

pub mod multi;
pub mod single;

pub use multi::MultiInline;
pub use single::SingleInline;
