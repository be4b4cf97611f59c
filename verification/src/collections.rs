//! Common collections that keep their items in a storage.

pub mod linked_list;
pub mod vec;

pub use linked_list::LinkedList;
pub use vec::Vec;
