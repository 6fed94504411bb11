//! Two containers: a growable stack that accounts for its storage through a
//! pluggable allocator, and a queue of linked nodes.
//!
//! The elements themselves live in safe, native storage. What an allocator
//! hands out is address space: a block is an address together with its
//! [`layout::Layout`], and the growth engine in [`raw_stack`] keeps the rules
//! by which a stack asks for its block, extends it and cuts it down. The
//! functions that return no error require of their callers that none can
//! occur; those named `try_` return it.

pub mod allocator;
pub mod arena;
pub mod error;
pub mod layout;
pub mod queue;
pub mod raw_stack;
pub mod stack;
