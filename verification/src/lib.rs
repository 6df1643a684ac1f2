//! A singly linked list that owns its values, with contracts over the
//! sequence of those values from the head to the tail; and two counters over
//! text.

pub mod laws;
pub mod linked_list;
pub mod render;
pub mod text_counts;

pub use crate::linked_list::{LinkedList, LinkedListIter};
