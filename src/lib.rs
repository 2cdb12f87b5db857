//! A doubly linked list whose nodes live in an arena and link to one another
//! by index, with append at the tail, lookup by position and in-place reversal.

mod laws;
mod list;

pub use laws::{appended, lemma_appended_follow, lemma_appended_to_new, lemma_reverse_twice};
pub use list::LinkedList;
