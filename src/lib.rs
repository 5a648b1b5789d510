//! Linked lists with verified contracts: a doubly-linked deque over an arena of
//! nodes, two singly-linked stacks, a singly-linked queue and a persistent list.
pub mod bad_safe_deque;
pub mod bad_single_linked_list;
pub mod ok_single_linked_list;
pub mod persistent_linked_list;
pub mod ok_unsafe_singly_linked_queue;
