//! Node-based containers with machine-checked contracts.
//!
//! [`linked_list`] holds a sequence in forward-linked nodes and reaches both of its ends
//! in one step; [`avl_tree`] holds a map in a binary search tree. Each container stands
//! for a mathematical value, a sequence or a map, and every operation states what it
//! returns and how it changes that value. No operation has a precondition, and none
//! panics.

pub mod avl_tree;
pub mod linked_list;
