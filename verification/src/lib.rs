//! Teaching data structures with machine-checked contracts: a binary heap
//! ordered by a caller-supplied comparison strategy, and a singly linked
//! list with a sorted merge.

pub mod heap;
pub mod list;
pub mod order;
