//! Traversals of a cache: by recency and by key, from both ends.

pub mod double_ended_iter_cursors;
pub mod iter;
pub mod iter_key_order;
pub mod iter_mut;
pub mod iter_key_order_mut;
pub mod into_iter;
pub mod in_order_bst;
