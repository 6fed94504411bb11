//! The allocator capability, and the process heap as its default.

use vstd::prelude::*;
use crate::layout::Layout;

verus! {

/// An allocator had no block to give for the layout asked of it.
#[derive(Clone, Copy, Debug, PartialEq, Eq, Structural)]
pub struct AllocError;

/// A source of blocks of address space.
///
/// A block is named by its address and its layout. What a request comes to
/// is a matter of the allocator's state alone, so a caller that knows the
/// state knows the answer: for each request a function of the state says
/// how the request leaves the allocator and what it returns. A block of
/// size zero takes no room.
pub trait Allocator: Sized {
    /// Whether the block at `ptr` with `layout` is lent out by `self`.
    spec fn owns(&self, ptr: usize, layout: Layout) -> bool;

    /// What a request for a new block of `layout` comes to: the allocator
    /// afterwards, and the address of the block or the error.
    spec fn allocation(&self, layout: Layout) -> (Self, Result<usize, AllocError>);

    /// What a request to extend the block at `ptr` from `old_layout` to
    /// `new_layout` comes to: the allocator afterwards, and the address at
    /// which the block then stands or the error.
    spec fn growth(&self, ptr: usize, old_layout: Layout, new_layout: Layout) -> (
        Self,
        Result<usize, AllocError>,
    );

    /// What a request to cut the block at `ptr` down from `old_layout` to
    /// `new_layout` comes to: the allocator afterwards, and the address at
    /// which the block then stands or the error.
    spec fn shrinkage(&self, ptr: usize, old_layout: Layout, new_layout: Layout) -> (
        Self,
        Result<usize, AllocError>,
    );

    /// The allocator once it has taken back the block at `ptr`.
    spec fn release(&self, ptr: usize, layout: Layout) -> Self;

    /// Lends out a new block of `layout` and returns its address, which is
    /// not null and is a multiple of the alignment.
    fn allocate(&mut self, layout: Layout) -> (r: Result<usize, AllocError>)
        ensures
            (*final(self), r) == old(self).allocation(layout),
            r matches Ok(ptr) ==> {
                &&& ptr != 0
                &&& ptr % layout.align() == 0
                &&& final(self).owns(ptr, layout)
            },
    ;

    /// As `allocate`, for a block whose bytes are to read as zero.
    fn allocate_zeroed(&mut self, layout: Layout) -> (r: Result<usize, AllocError>)
        ensures
            (*final(self), r) == old(self).allocation(layout),
            r matches Ok(ptr) ==> {
                &&& ptr != 0
                &&& ptr % layout.align() == 0
                &&& final(self).owns(ptr, layout)
            },
    ;

    /// Extends the block at `ptr` to `new_layout`. The block may move: the
    /// address returned names it from then on. Where the request is
    /// declined the block stays as it was.
    fn grow(&mut self, ptr: usize, old_layout: Layout, new_layout: Layout) -> (r: Result<
        usize,
        AllocError,
    >)
        requires
            old(self).owns(ptr, old_layout),
            new_layout.size() >= old_layout.size(),
            new_layout.align() == old_layout.align(),
        ensures
            (*final(self), r) == old(self).growth(ptr, old_layout, new_layout),
            r matches Ok(moved) ==> {
                &&& moved != 0
                &&& moved % new_layout.align() == 0
                &&& final(self).owns(moved, new_layout)
            },
            r is Err ==> final(self).owns(ptr, old_layout),
    ;

    /// Cuts the block at `ptr` down to `new_layout`. The block may move: the
    /// address returned names it from then on. Where the request is
    /// declined the block stays as it was.
    fn shrink(&mut self, ptr: usize, old_layout: Layout, new_layout: Layout) -> (r: Result<
        usize,
        AllocError,
    >)
        requires
            old(self).owns(ptr, old_layout),
            new_layout.size() <= old_layout.size(),
            new_layout.align() == old_layout.align(),
        ensures
            (*final(self), r) == old(self).shrinkage(ptr, old_layout, new_layout),
            r matches Ok(moved) ==> {
                &&& moved != 0
                &&& moved % new_layout.align() == 0
                &&& final(self).owns(moved, new_layout)
            },
            r is Err ==> final(self).owns(ptr, old_layout),
    ;

    /// Takes back the block at `ptr`.
    fn deallocate(&mut self, ptr: usize, layout: Layout)
        requires
            old(self).owns(ptr, layout),
        ensures
            *final(self) == old(self).release(ptr, layout),
    ;
}

/// The process heap.
///
/// The heap keeps no record that this library can read and is taken to be
/// without end: it grants every request, names a new block by the least
/// address that the block's alignment allows, and leaves a block that it
/// resizes where it stands.
#[derive(Clone, Copy, Debug, PartialEq, Eq, Structural)]
pub struct Global;

impl Allocator for Global {
    open spec fn owns(&self, ptr: usize, layout: Layout) -> bool {
        ptr != 0 && ptr % layout.align() == 0
    }

    open spec fn allocation(&self, layout: Layout) -> (Self, Result<usize, AllocError>) {
        (Global, Ok(layout.align()))
    }

    open spec fn growth(&self, ptr: usize, old_layout: Layout, new_layout: Layout) -> (
        Self,
        Result<usize, AllocError>,
    ) {
        (Global, Ok(ptr))
    }

    open spec fn shrinkage(&self, ptr: usize, old_layout: Layout, new_layout: Layout) -> (
        Self,
        Result<usize, AllocError>,
    ) {
        (Global, Ok(ptr))
    }

    open spec fn release(&self, ptr: usize, layout: Layout) -> Self {
        Global
    }

    fn allocate(&mut self, layout: Layout) -> (r: Result<usize, AllocError>) {
        Ok(layout.align())
    }

    fn allocate_zeroed(&mut self, layout: Layout) -> (r: Result<usize, AllocError>) {
        Ok(layout.align())
    }

    fn grow(&mut self, ptr: usize, old_layout: Layout, new_layout: Layout) -> (r: Result<
        usize,
        AllocError,
    >) {
        Ok(ptr)
    }

    fn shrink(&mut self, ptr: usize, old_layout: Layout, new_layout: Layout) -> (r: Result<
        usize,
        AllocError,
    >) {
        Ok(ptr)
    }

    fn deallocate(&mut self, ptr: usize, layout: Layout) {
    }
}

} // verus!
