//! Pluggable memory storages: interchangeable backends that hand out handles to
//! pieces of memory, the combinators built over them, and a few collections that
//! keep their data in a storage.
//!
//! Every backend keeps its memory as plain bytes. A handle records where an
//! allocation lies and what it denotes; resolving a handle yields the bytes of
//! the allocation.
//!
//! - `layout`, `handles`, `utils`, `value`: sizes and alignments, handles and the
//!   descriptions they carry, and the plain data that can be kept as bytes.
//! - `base`: the storage contract, with the laws that every backend keeps.
//! - `inline`, `statics`, `allocator`: storages with one slot or several, in the
//!   value itself, over a claimed cell, or in memory of the allocator.
//! - `bitmap`, `heap`: the virtual heap, a run of units under a map of which are
//!   in use, and the laws of its bookkeeping.
//! - `shared`: a virtual heap behind a lock, for several owners.
//! - `fallback`, `debug`: a storage made of two, and a storage with a ledger
//!   that tells misuse.
//! - `boxed`, `collections`, `string`, `rc`: an owning pointer, a growable run,
//!   a linked list, a text and a shared value, each kept in a storage.
//! - `backing`, `error`: a way to name a region, and what goes wrong.

pub mod allocator;
pub mod backing;
pub mod base;
pub mod bitmap;
pub mod boxed;
pub mod collections;
pub mod debug;
pub mod error;
pub mod fallback;
pub mod handles;
pub mod heap;
pub mod inline;
pub mod layout;
pub mod rc;
pub mod shared;
pub mod statics;
pub mod string;
pub mod utils;
pub mod value;
