//! The growth engine: a block of address space for a number of elements,
//! and the rules by which it grows and shrinks.

use vstd::prelude::*;
use core::marker::PhantomData;
use crate::allocator::{AllocError, Allocator, Global};
use crate::error::TryReserveError;
use crate::layout::{array_bytes, Layout, LayoutError};

verus! {

/// Whether values of type `T` occupy no memory.
pub open spec fn is_zst<T>() -> bool {
    vstd::layout::size_of::<T>() == 0
}

/// The least capacity that a growing buffer of `T` takes: 8 for elements of
/// one byte, 4 for elements of up to 1024 bytes, 1 for larger ones.
pub open spec fn min_non_zero_cap<T>() -> usize {
    if vstd::layout::size_of::<T>() == 1 {
        8
    } else if vstd::layout::size_of::<T>() <= 1024 {
        4
    } else {
        1
    }
}

/// The capacity that amortized growth asks for: the largest of twice the
/// present capacity, the capacity required and the least capacity for `T`.
pub open spec fn amortized_capacity<T>(capacity: usize, required: int) -> int {
    vstd::math::max(vstd::math::max(capacity * 2, required), min_non_zero_cap::<T>() as int)
}

/// The layout of a block for `capacity` elements of type `T`.
pub open spec fn array_layout<T>(capacity: usize) -> Layout {
    Layout::of(
        array_bytes::<T>(capacity as int) as usize,
        vstd::layout::align_of::<T>() as usize,
    )
}

/// `a - b` modulo the range of `usize`.
pub open spec fn wrapping_difference(a: usize, b: usize) -> usize {
    if a >= b {
        (a - b) as usize
    } else {
        (a - b + usize::MAX + 1) as usize
    }
}

/// How the block is to read when it is first handed out.
enum AllocInit {
    /// The contents of the new memory are left as they are.
    Uninitialized,
    /// The new memory reads as zero.
    Zeroed,
}

/// A block of address space for `capacity()` elements of type `T`, taken
/// from the allocator `A`.
///
/// For an element type of size zero no block is ever asked for and the
/// capacity is `usize::MAX`. Otherwise the capacity is the number of elements
/// that the block has room for, and it is zero exactly when there is no
/// block. The address is never null: where there is no block it is a
/// sentinel that stands for no memory. A buffer that is dropped does not
/// give its block back.
pub struct RawStack<T, A: Allocator = Global> {
    ptr: usize,
    capacity: usize,
    alloc: A,
    marker: PhantomData<T>,
}

impl<T> RawStack<T, Global> {
    /// A buffer without a block, on the process heap.
    pub fn new() -> (r: Self)
        ensures
            r.wf(),
            r.block() is None,
            r.spec_capacity() == (if is_zst::<T>() { usize::MAX } else { 0 }),
            r.spec_ptr() == vstd::layout::align_of::<T>(),
            r.spec_allocator() == Global,
    {
        Self::new_in(Global)
    }

    /// A buffer for `capacity` elements on the process heap.
    pub fn with_capacity(capacity: usize) -> (r: Self)
        requires
            Self::can_allocate(capacity, Global),
        ensures
            r.wf(),
            r.spec_capacity() == (if is_zst::<T>() { usize::MAX } else { capacity }),
            r.spec_ptr() == vstd::layout::align_of::<T>(),
            r.spec_allocator() == Global,
    {
        vstd::layout::layout_for_type_is_valid::<T>();
        proof {
            lemma_array_layout::<T>(capacity);
        }
        Self::with_capacity_in(capacity, Global)
    }

    /// As `with_capacity`, with the block asked for as zeroed memory.
    pub fn with_capacity_zeroed(capacity: usize) -> (r: Self)
        requires
            Self::can_allocate(capacity, Global),
        ensures
            r.wf(),
            r.spec_capacity() == (if is_zst::<T>() { usize::MAX } else { capacity }),
            r.spec_ptr() == vstd::layout::align_of::<T>(),
            r.spec_allocator() == Global,
    {
        vstd::layout::layout_for_type_is_valid::<T>();
        proof {
            lemma_array_layout::<T>(capacity);
        }
        Self::with_capacity_zeroed_in(capacity, Global)
    }
}

impl<T, A: Allocator> RawStack<T, A> {
    /// The address of the block, or the sentinel where there is none.
    pub closed spec fn spec_ptr(&self) -> usize {
        self.ptr
    }

    /// The number of elements that the buffer has room for.
    pub closed spec fn spec_capacity(&self) -> usize {
        if is_zst::<T>() {
            usize::MAX
        } else {
            self.capacity
        }
    }

    /// The allocator that the buffer takes its block from.
    pub closed spec fn spec_allocator(&self) -> &A {
        &self.alloc
    }

    /// The block that the buffer holds, by address and layout.
    pub open spec fn block(&self) -> Option<(usize, Layout)> {
        if is_zst::<T>() || self.spec_capacity() == 0 {
            None
        } else {
            Some((self.spec_ptr(), array_layout::<T>(self.spec_capacity())))
        }
    }

    /// What holds of every buffer: the address is not null and is aligned
    /// for `T`, the capacity has a layout, and the allocator has lent out
    /// the block.
    pub open spec fn wf(&self) -> bool {
        &&& self.spec_ptr() != 0
        &&& self.spec_ptr() as int % vstd::layout::align_of::<T>() as int == 0
        &&& !is_zst::<T>() ==> array_bytes::<T>(self.spec_capacity() as int) <= isize::MAX
        &&& self.block() matches Some((ptr, layout)) ==> self.spec_allocator().owns(ptr, layout)
    }

    /// Whether a buffer for `capacity` elements can be had from `alloc`.
    pub open spec fn can_allocate(capacity: usize, alloc: A) -> bool {
        is_zst::<T>() || capacity == 0 || (array_bytes::<T>(capacity as int) <= isize::MAX
            && alloc.allocation(array_layout::<T>(capacity)).1 is Ok)
    }

    /// Whether `additional` elements more than `len` do not fit in the
    /// present capacity.
    pub open spec fn needs_to_grow_spec(&self, len: usize, additional: usize) -> bool {
        additional > wrapping_difference(self.spec_capacity(), len)
    }

    /// The capacity that a reservation of `additional` elements more than
    /// `len` asks for, exactly or with amortized growth. There is none where
    /// the elements have no size, or the number of elements or of their
    /// bytes cannot be represented.
    pub open spec fn target_capacity(&self, len: usize, additional: usize, exact: bool) -> Option<
        usize,
    > {
        if is_zst::<T>() || len + additional > usize::MAX {
            None
        } else {
            let capacity = if exact {
                len + additional
            } else {
                amortized_capacity::<T>(self.spec_capacity(), len + additional)
            };
            if array_bytes::<T>(capacity) <= isize::MAX {
                Some(capacity as usize)
            } else {
                None
            }
        }
    }

    /// What asking the allocator for a block of `capacity` elements comes
    /// to: the allocator afterwards, and the address of the block or the
    /// error. A buffer that holds a block asks for that block to be
    /// extended, any other for a new one.
    pub open spec fn request(&self, capacity: usize) -> (A, Result<usize, AllocError>) {
        match self.block() {
            Some((ptr, layout)) => self.spec_allocator().growth(
                ptr,
                layout,
                array_layout::<T>(capacity),
            ),
            None => self.spec_allocator().allocation(array_layout::<T>(capacity)),
        }
    }

    /// How growing for `additional` elements more than `len` ends: with the
    /// new address and the new capacity, or with the error.
    pub open spec fn growth(&self, len: usize, additional: usize, exact: bool) -> Result<
        (usize, usize),
        TryReserveError,
    > {
        match self.target_capacity(len, additional, exact) {
            None => Err(TryReserveError::CapacityOverflow),
            Some(capacity) => match self.request(capacity).1 {
                Ok(ptr) => Ok((ptr, capacity)),
                Err(_) => Err(
                    TryReserveError::AllocError { layout: array_layout::<T>(capacity) },
                ),
            },
        }
    }

    /// The allocator as growing for `additional` elements more than `len`
    /// leaves it: untouched where no capacity will do.
    pub open spec fn allocator_after_growth(
        &self,
        len: usize,
        additional: usize,
        exact: bool,
    ) -> A {
        match self.target_capacity(len, additional, exact) {
            None => *self.spec_allocator(),
            Some(capacity) => self.request(capacity).0,
        }
    }

    /// How a reservation of `additional` elements more than `len` ends: with
    /// the address and the capacity that the buffer then has, or with the
    /// error.
    pub open spec fn reservation(&self, len: usize, additional: usize, exact: bool) -> Result<
        (usize, usize),
        TryReserveError,
    > {
        if self.needs_to_grow_spec(len, additional) {
            self.growth(len, additional, exact)
        } else {
            Ok((self.spec_ptr(), self.spec_capacity()))
        }
    }

    /// The allocator as a reservation of `additional` elements more than
    /// `len` leaves it: untouched where the buffer has the room.
    pub open spec fn allocator_after_reservation(
        &self,
        len: usize,
        additional: usize,
        exact: bool,
    ) -> A {
        if self.needs_to_grow_spec(len, additional) {
            self.allocator_after_growth(len, additional, exact)
        } else {
            *self.spec_allocator()
        }
    }

    /// How shrinking to `capacity` elements ends: with the address and the
    /// capacity that the buffer then has, or with the error.
    pub open spec fn shrinking(&self, capacity: usize) -> Result<(usize, usize), TryReserveError> {
        match self.block() {
            None => Ok((self.spec_ptr(), self.spec_capacity())),
            Some((ptr, layout)) => match self.spec_allocator().shrinkage(
                ptr,
                layout,
                array_layout::<T>(capacity),
            ).1 {
                Ok(moved) => Ok((moved, capacity)),
                Err(_) => Err(
                    TryReserveError::AllocError { layout: array_layout::<T>(capacity) },
                ),
            },
        }
    }

    /// The allocator as shrinking to `capacity` elements leaves it:
    /// untouched where the buffer holds no block.
    pub open spec fn allocator_after_shrinking(&self, capacity: usize) -> A {
        match self.block() {
            None => *self.spec_allocator(),
            Some((ptr, layout)) => self.spec_allocator().shrinkage(
                ptr,
                layout,
                array_layout::<T>(capacity),
            ).0,
        }
    }

    /// The address and the capacity of the buffer.
    pub open spec fn extent(&self) -> (usize, usize) {
        (self.spec_ptr(), self.spec_capacity())
    }

    /// Where growth succeeds, the new capacity holds the elements asked
    /// for and is no less than the old one. Amortized growth goes to the
    /// largest of twice the old capacity, the capacity required and the
    /// least capacity for `T`; exact growth goes to the capacity required.
    pub proof fn lemma_growth(&self, len: usize, additional: usize, exact: bool)
        requires
            self.wf(),
        ensures
            self.growth(len, additional, exact) matches Ok((_, capacity)) ==> {
                &&& capacity >= len + additional
                &&& !exact ==> capacity == amortized_capacity::<T>(
                    self.spec_capacity(),
                    len + additional,
                )
                &&& !exact ==> capacity >= 2 * self.spec_capacity()
                &&& !exact ==> capacity >= min_non_zero_cap::<T>()
                &&& exact ==> capacity == len + additional
            },
    {
        if !is_zst::<T>() && len + additional <= usize::MAX {
            let capacity = if exact {
                len + additional
            } else {
                amortized_capacity::<T>(self.spec_capacity(), len + additional)
            };
            if array_bytes::<T>(capacity) <= isize::MAX {
                lemma_bytes_at_least::<T>(capacity);
            }
        }
    }

    /// Where a reservation succeeds, the capacity is no less than before,
    /// and has room for `additional` elements more than `len`, if it had
    /// room for `len` before.
    pub proof fn lemma_reservation(&self, len: usize, additional: usize, exact: bool)
        requires
            self.wf(),
        ensures
            self.reservation(len, additional, exact) matches Ok((_, capacity)) ==> {
                &&& capacity >= self.spec_capacity()
                &&& len <= self.spec_capacity() ==> capacity - len >= additional
            },
    {
        self.lemma_growth(len, additional, exact);
    }

    /// A buffer of elements without size has all the capacity there is and
    /// holds no block. It never grows: a reservation leaves it as it is
    /// where the number of elements can be represented, and is a capacity
    /// overflow where it cannot. Nor does it shrink. So no request ever
    /// reaches its allocator.
    pub proof fn lemma_zero_sized(&self, len: usize, additional: usize, exact: bool)
        requires
            is_zst::<T>(),
        ensures
            self.spec_capacity() == usize::MAX,
            self.block() is None,
            self.growth(len, additional, exact) == Err::<(usize, usize), TryReserveError>(
                TryReserveError::CapacityOverflow,
            ),
            self.reservation(len, additional, exact) == (if len + additional <= usize::MAX {
                Ok::<(usize, usize), TryReserveError>(self.extent())
            } else {
                Err::<(usize, usize), TryReserveError>(TryReserveError::CapacityOverflow)
            }),
            forall|capacity: usize| #[trigger]
                self.shrinking(capacity) == Ok::<(usize, usize), TryReserveError>(self.extent()),
    {
    }

    /// The least capacity that a growing buffer of `T` takes.
    pub fn min_non_zero_cap() -> (r: usize)
        ensures
            r == min_non_zero_cap::<T>(),
    {
        let size: usize = core::mem::size_of::<T>();
        if size == 1 {
            8
        } else if size <= 1024 {
            4
        } else {
            1
        }
    }

    /// A buffer without a block, which takes its blocks from `alloc`.
    pub fn new_in(alloc: A) -> (r: Self)
        ensures
            r.wf(),
            r.block() is None,
            r.spec_capacity() == (if is_zst::<T>() { usize::MAX } else { 0 }),
            r.spec_ptr() == vstd::layout::align_of::<T>(),
            r.spec_allocator() == alloc,
    {
        vstd::layout::layout_for_type_is_valid::<T>();
        RawStack { ptr: core::mem::align_of::<T>(), capacity: 0, alloc, marker: PhantomData }
    }

    /// The address of the block, or the sentinel where there is none.
    #[verifier::when_used_as_spec(spec_ptr)]
    pub fn ptr(&self) -> (r: usize)
        ensures
            r == self.spec_ptr(),
    {
        self.ptr
    }

    /// The number of elements that the buffer has room for: `usize::MAX`
    /// for elements of size zero.
    #[verifier::when_used_as_spec(spec_capacity)]
    pub fn capacity(&self) -> (r: usize)
        ensures
            r == self.spec_capacity(),
            is_zst::<T>() ==> r == usize::MAX,
    {
        if core::mem::size_of::<T>() == 0 {
            usize::MAX
        } else {
            self.capacity
        }
    }

    /// The allocator that the buffer takes its block from.
    #[verifier::when_used_as_spec(spec_allocator)]
    pub fn allocator(&self) -> (r: &A)
        ensures
            r == self.spec_allocator(),
    {
        &self.alloc
    }
}

impl<T, A: Allocator> RawStack<T, A> {
    /// A buffer for `capacity` elements, which takes its blocks from
    /// `alloc`. No block is asked for where `capacity` is zero or the
    /// elements have no size.
    pub fn with_capacity_in(capacity: usize, alloc: A) -> (r: Self)
        requires
            Self::can_allocate(capacity, alloc),
        ensures
            r.wf(),
            r.spec_capacity() == (if is_zst::<T>() { usize::MAX } else { capacity }),
            if is_zst::<T>() || capacity == 0 {
                &&& r.spec_ptr() == vstd::layout::align_of::<T>()
                &&& r.spec_allocator() == alloc
            } else {
                (*r.spec_allocator(), Ok::<usize, AllocError>(r.spec_ptr()))
                    == alloc.allocation(array_layout::<T>(capacity))
            },
    {
        Self::allocate_in(capacity, AllocInit::Uninitialized, alloc)
    }

    /// As `with_capacity_in`, with the block asked for as zeroed memory.
    pub fn with_capacity_zeroed_in(capacity: usize, alloc: A) -> (r: Self)
        requires
            Self::can_allocate(capacity, alloc),
        ensures
            r.wf(),
            r.spec_capacity() == (if is_zst::<T>() { usize::MAX } else { capacity }),
            if is_zst::<T>() || capacity == 0 {
                &&& r.spec_ptr() == vstd::layout::align_of::<T>()
                &&& r.spec_allocator() == alloc
            } else {
                (*r.spec_allocator(), Ok::<usize, AllocError>(r.spec_ptr()))
                    == alloc.allocation(array_layout::<T>(capacity))
            },
    {
        Self::allocate_in(capacity, AllocInit::Zeroed, alloc)
    }

    /// A buffer for `capacity` elements from `alloc`, its block asked for
    /// as `init` says. No block is asked for where `capacity` is zero or
    /// the elements have no size.
    fn allocate_in(capacity: usize, init: AllocInit, alloc: A) -> (r: Self)
        requires
            Self::can_allocate(capacity, alloc),
        ensures
            r.wf(),
            r.spec_capacity() == (if is_zst::<T>() { usize::MAX } else { capacity }),
            if is_zst::<T>() || capacity == 0 {
                &&& r.spec_ptr() == vstd::layout::align_of::<T>()
                &&& r.spec_allocator() == alloc
            } else {
                (*r.spec_allocator(), Ok::<usize, AllocError>(r.spec_ptr()))
                    == alloc.allocation(array_layout::<T>(capacity))
            },
    {
        if core::mem::size_of::<T>() == 0 || capacity == 0 {
            Self::new_in(alloc)
        } else {
            let mut alloc = alloc;
            vstd::layout::layout_for_type_is_valid::<T>();
            match Layout::array::<T>(capacity) {
                Ok(layout) => {
                    proof {
                        Layout::lemma_of(
                            array_bytes::<T>(capacity as int) as usize,
                            vstd::layout::align_of::<T>() as usize,
                        );
                    }
                    handle_reserve(alloc_guard(layout.size()));
                    let result = match init {
                        AllocInit::Uninitialized => alloc.allocate(layout),
                        AllocInit::Zeroed => alloc.allocate_zeroed(layout),
                    };
                    match result {
                        Ok(ptr) => RawStack { ptr, capacity, alloc, marker: PhantomData },
                        Err(_) => vstd::pervasive::unreached(),
                    }
                },
                Err(_) => vstd::pervasive::unreached(),
            }
        }
    }

    /// The block that the buffer holds, by address and layout.
    fn current_memory(&self) -> (r: Option<(usize, Layout)>)
        requires
            self.wf(),
        ensures
            r == self.block(),
    {
        if core::mem::size_of::<T>() == 0 || self.capacity == 0 {
            None
        } else {
            match Layout::array::<T>(self.capacity) {
                Ok(layout) => Some((self.ptr, layout)),
                Err(_) => vstd::pervasive::unreached(),
            }
        }
    }

    /// Makes room for `additional` elements more than `len`, growing by
    /// at least a factor of two where it has to grow.
    pub fn reserve(&mut self, len: usize, additional: usize)
        requires
            old(self).wf(),
            old(self).reservation(len, additional, false) is Ok,
        ensures
            final(self).wf(),
            *final(self).spec_allocator() == old(self).allocator_after_reservation(
                len,
                additional,
                false,
            ),
            old(self).reservation(len, additional, false) == Ok::<(usize, usize), TryReserveError>(
                final(self).extent(),
            ),
            !old(self).needs_to_grow_spec(len, additional) ==> *final(self) == *old(self),
            is_zst::<T>() ==> *final(self) == *old(self),
            len <= old(self).spec_capacity() ==> final(self).spec_capacity() - len >= additional,
            final(self).spec_capacity() >= old(self).spec_capacity(),
    {
        proof {
            self.lemma_reservation(len, additional, false);
        }
        if self.needs_to_grow(len, additional) {
            Self::do_reserve_and_handle(self, len, additional);
        }
    }

    /// Grows `slf` for `additional` elements more than `len`.
    fn do_reserve_and_handle(slf: &mut RawStack<T, A>, len: usize, additional: usize)
        requires
            old(slf).wf(),
            additional > 0,
            old(slf).growth(len, additional, false) is Ok,
        ensures
            final(slf).wf(),
            *final(slf).spec_allocator() == old(slf).allocator_after_growth(
                len,
                additional,
                false,
            ),
            old(slf).growth(len, additional, false) == Ok::<(usize, usize), TryReserveError>(
                final(slf).extent(),
            ),
    {
        handle_reserve(slf.grow_amortized(len, additional));
    }

    /// Makes room for one element more than `len`, which is taken to be
    /// the present capacity.
    pub fn reserve_for_push(&mut self, len: usize)
        requires
            old(self).wf(),
            old(self).growth(len, 1, false) is Ok,
        ensures
            final(self).wf(),
            *final(self).spec_allocator() == old(self).allocator_after_growth(
                len,
                1,
                false,
            ),
            old(self).growth(len, 1, false) == Ok::<(usize, usize), TryReserveError>(
                final(self).extent(),
            ),
            final(self).spec_capacity() == amortized_capacity::<T>(
                old(self).spec_capacity(),
                len + 1,
            ),
    {
        proof {
            self.lemma_growth(len, 1, false);
        }
        handle_reserve(self.grow_amortized(len, 1));
    }

    /// As `reserve`, but returns the error where `reserve` may not be
    /// called. On an error the address and the capacity are as before.
    pub fn try_reserve(&mut self, len: usize, additional: usize) -> (r: Result<
        (),
        TryReserveError,
    >)
        requires
            old(self).wf(),
        ensures
            final(self).wf(),
            *final(self).spec_allocator() == old(self).allocator_after_reservation(
                len,
                additional,
                false,
            ),
            match old(self).reservation(len, additional, false) {
                Ok(extent) => r is Ok && final(self).extent() == extent,
                Err(e) => {
                    &&& r == Err::<(), TryReserveError>(e)
                    &&& final(self).spec_ptr() == old(self).spec_ptr()
                    &&& final(self).spec_capacity() == old(self).spec_capacity()
                },
            },
            !old(self).needs_to_grow_spec(len, additional) || r == Err::<(), TryReserveError>(
                TryReserveError::CapacityOverflow,
            ) ==> *final(self) == *old(self),
            is_zst::<T>() ==> *final(self) == *old(self),
            r is Ok && len <= old(self).spec_capacity() ==> final(self).spec_capacity() - len
                >= additional,
            final(self).spec_capacity() >= old(self).spec_capacity(),
    {
        proof {
            self.lemma_reservation(len, additional, false);
        }
        if self.needs_to_grow(len, additional) {
            self.grow_amortized(len, additional)
        } else {
            Ok(())
        }
    }

    /// Makes room for exactly `additional` elements more than `len`.
    pub fn reserve_exect(&mut self, len: usize, additional: usize)
        requires
            old(self).wf(),
            old(self).reservation(len, additional, true) is Ok,
        ensures
            final(self).wf(),
            *final(self).spec_allocator() == old(self).allocator_after_reservation(
                len,
                additional,
                true,
            ),
            old(self).reservation(len, additional, true) == Ok::<(usize, usize), TryReserveError>(
                final(self).extent(),
            ),
            !old(self).needs_to_grow_spec(len, additional) ==> *final(self) == *old(self),
            is_zst::<T>() ==> *final(self) == *old(self),
            len <= old(self).spec_capacity() ==> final(self).spec_capacity() - len >= additional,
            final(self).spec_capacity() >= old(self).spec_capacity(),
    {
        proof {
            self.lemma_reservation(len, additional, true);
        }
        handle_reserve(self.try_reserve_exact(len, additional));
    }

    /// As `reserve_exect`, but returns the error where `reserve_exect` may
    /// not be called. On an error the address and the capacity are as
    /// before.
    pub fn try_reserve_exact(&mut self, len: usize, additional: usize) -> (r: Result<
        (),
        TryReserveError,
    >)
        requires
            old(self).wf(),
        ensures
            final(self).wf(),
            *final(self).spec_allocator() == old(self).allocator_after_reservation(
                len,
                additional,
                true,
            ),
            match old(self).reservation(len, additional, true) {
                Ok(extent) => r is Ok && final(self).extent() == extent,
                Err(e) => {
                    &&& r == Err::<(), TryReserveError>(e)
                    &&& final(self).spec_ptr() == old(self).spec_ptr()
                    &&& final(self).spec_capacity() == old(self).spec_capacity()
                },
            },
            !old(self).needs_to_grow_spec(len, additional) || r == Err::<(), TryReserveError>(
                TryReserveError::CapacityOverflow,
            ) ==> *final(self) == *old(self),
            is_zst::<T>() ==> *final(self) == *old(self),
            r is Ok && len <= old(self).spec_capacity() ==> final(self).spec_capacity() - len
                >= additional,
            final(self).spec_capacity() >= old(self).spec_capacity(),
    {
        proof {
            self.lemma_reservation(len, additional, true);
        }
        if self.needs_to_grow(len, additional) {
            self.grow_exact(len, additional)
        } else {
            Ok(())
        }
    }

    /// Cuts the block down to `capacity` elements. A buffer without a
    /// block stays as it is.
    pub fn shrink_to_fit(&mut self, capacity: usize)
        requires
            old(self).wf(),
            capacity <= old(self).spec_capacity(),
            old(self).shrinking(capacity) is Ok,
        ensures
            final(self).wf(),
            *final(self).spec_allocator() == old(self).allocator_after_shrinking(capacity),
            old(self).shrinking(capacity) == Ok::<(usize, usize), TryReserveError>(
                final(self).extent(),
            ),
            final(self).spec_capacity() <= old(self).spec_capacity(),
            old(self).block() is None ==> *final(self) == *old(self),
    {
        handle_reserve(self.shrink(capacity));
    }
}

impl<T, A: Allocator> RawStack<T, A> {
    /// Whether `additional` elements more than `len` do not fit in the
    /// present capacity.
    pub fn needs_to_grow(&self, len: usize, additional: usize) -> (r: bool)
        ensures
            r == self.needs_to_grow_spec(len, additional),
    {
        additional > self.capacity().wrapping_sub(len)
    }

    /// Takes note of the block that the allocator has handed out.
    fn set_ptr_and_capacity(&mut self, ptr: usize, capacity: usize)
        ensures
            final(self).ptr == ptr,
            final(self).capacity == capacity,
            final(self).alloc == old(self).alloc,
    {
        self.ptr = ptr;
        self.capacity = capacity;
    }

    /// Grows for `additional` elements more than `len`, to the largest of
    /// twice the capacity, the capacity required and the least capacity
    /// for `T`. On an error the address and the capacity are as before.
    fn grow_amortized(&mut self, len: usize, additional: usize) -> (r: Result<
        (),
        TryReserveError,
    >)
        requires
            old(self).wf(),
            additional > 0,
        ensures
            final(self).wf(),
            *final(self).spec_allocator() == old(self).allocator_after_growth(
                len,
                additional,
                false,
            ),
            match old(self).growth(len, additional, false) {
                Ok(extent) => r is Ok && final(self).extent() == extent,
                Err(e) => {
                    &&& r == Err::<(), TryReserveError>(e)
                    &&& final(self).spec_ptr() == old(self).spec_ptr()
                    &&& final(self).spec_capacity() == old(self).spec_capacity()
                },
            },
            r == Err::<(), TryReserveError>(TryReserveError::CapacityOverflow) ==> *final(self)
                == *old(self),
    {
        vstd::layout::layout_for_type_is_valid::<T>();
        if core::mem::size_of::<T>() == 0 {
            return Err(TryReserveError::CapacityOverflow);
        }
        let required_capacity = match len.checked_add(additional) {
            Some(required) => required,
            None => {
                return Err(TryReserveError::CapacityOverflow);
            },
        };
        proof {
            lemma_bytes_at_least::<T>(self.capacity as int);
        }
        let capacity = max(self.capacity * 2, required_capacity);
        let capacity = max(Self::min_non_zero_cap(), capacity);

        let new_layout = Layout::array::<T>(capacity);
        proof {
            lemma_bytes_monotonic::<T>(self.capacity as int, capacity as int);
            lemma_array_layout::<T>(self.capacity);
            lemma_array_layout::<T>(capacity);
        }
        let current = self.current_memory();
        let ptr = match finish_grow(new_layout, current, &mut self.alloc) {
            Ok(ptr) => ptr,
            Err(e) => {
                return Err(e);
            },
        };
        self.set_ptr_and_capacity(ptr, capacity);
        Ok(())
    }

    /// Grows for `additional` elements more than `len`, to the capacity
    /// required and no further. On an error the address and the capacity
    /// are as before.
    fn grow_exact(&mut self, len: usize, additional: usize) -> (r: Result<(), TryReserveError>)
        requires
            old(self).wf(),
            old(self).needs_to_grow_spec(len, additional),
        ensures
            final(self).wf(),
            *final(self).spec_allocator() == old(self).allocator_after_growth(
                len,
                additional,
                true,
            ),
            match old(self).growth(len, additional, true) {
                Ok(extent) => r is Ok && final(self).extent() == extent,
                Err(e) => {
                    &&& r == Err::<(), TryReserveError>(e)
                    &&& final(self).spec_ptr() == old(self).spec_ptr()
                    &&& final(self).spec_capacity() == old(self).spec_capacity()
                },
            },
            r == Err::<(), TryReserveError>(TryReserveError::CapacityOverflow) ==> *final(self)
                == *old(self),
    {
        vstd::layout::layout_for_type_is_valid::<T>();
        if core::mem::size_of::<T>() == 0 {
            return Err(TryReserveError::CapacityOverflow);
        }
        let capacity = match len.checked_add(additional) {
            Some(required) => required,
            None => {
                return Err(TryReserveError::CapacityOverflow);
            },
        };
        let new_layout = Layout::array::<T>(capacity);
        proof {
            lemma_bytes_monotonic::<T>(self.capacity as int, capacity as int);
            lemma_array_layout::<T>(self.capacity);
            lemma_array_layout::<T>(capacity);
        }
        let current = self.current_memory();
        let ptr = match finish_grow(new_layout, current, &mut self.alloc) {
            Ok(ptr) => ptr,
            Err(e) => {
                return Err(e);
            },
        };
        self.set_ptr_and_capacity(ptr, capacity);
        Ok(())
    }

    /// Cuts the block down to `capacity` elements. A buffer without a
    /// block stays as it is. On an error the address and the capacity are
    /// as before.
    fn shrink(&mut self, capacity: usize) -> (r: Result<(), TryReserveError>)
        requires
            old(self).wf(),
            capacity <= old(self).spec_capacity(),
        ensures
            final(self).wf(),
            *final(self).spec_allocator() == old(self).allocator_after_shrinking(capacity),
            match old(self).shrinking(capacity) {
                Ok(extent) => r is Ok && final(self).extent() == extent,
                Err(e) => {
                    &&& r == Err::<(), TryReserveError>(e)
                    &&& final(self).spec_ptr() == old(self).spec_ptr()
                    &&& final(self).spec_capacity() == old(self).spec_capacity()
                },
            },
            final(self).spec_capacity() <= old(self).spec_capacity(),
            old(self).block() is None ==> *final(self) == *old(self),
    {
        vstd::layout::layout_for_type_is_valid::<T>();
        let (ptr, layout) = match self.current_memory() {
            Some(mem) => mem,
            None => {
                return Ok(());
            },
        };
        proof {
            lemma_bytes_monotonic::<T>(capacity as int, self.capacity as int);
            lemma_array_layout::<T>(self.capacity);
            lemma_array_layout::<T>(capacity);
        }
        let new_layout = match Layout::array::<T>(capacity) {
            Ok(new_layout) => new_layout,
            Err(_) => vstd::pervasive::unreached(),
        };
        let ptr = match self.alloc.shrink(ptr, layout, new_layout) {
            Ok(ptr) => ptr,
            Err(_) => {
                return Err(TryReserveError::AllocError { layout: new_layout });
            },
        };
        self.set_ptr_and_capacity(ptr, capacity);
        Ok(())
    }
}

/// The larger of two numbers.
fn max(a: usize, b: usize) -> (r: usize)
    ensures
        r == vstd::math::max(a as int, b as int),
{
    if a >= b {
        a
    } else {
        b
    }
}

/// More elements occupy no fewer bytes.
proof fn lemma_bytes_monotonic<T>(fewer: int, more: int)
    requires
        0 <= fewer <= more,
    ensures
        0 <= array_bytes::<T>(fewer) <= array_bytes::<T>(more),
{
    let size = vstd::layout::size_of::<T>() as int;
    assert(0 <= fewer * size <= more * size) by (nonlinear_arith)
        requires
            0 <= fewer <= more,
            0 <= size,
    ;
}

/// Elements that have a size occupy at least a byte each.
proof fn lemma_bytes_at_least<T>(n: int)
    requires
        0 <= n,
        !is_zst::<T>(),
    ensures
        n <= array_bytes::<T>(n),
{
    let size = vstd::layout::size_of::<T>() as int;
    assert(n <= n * size) by (nonlinear_arith)
        requires
            0 <= n,
            1 <= size,
    ;
}

/// The size and the alignment of the layout of an array.
proof fn lemma_array_layout<T>(capacity: usize)
    ensures
        array_layout::<T>(capacity).size() == array_bytes::<T>(capacity as int) as usize,
        array_layout::<T>(capacity).align() == vstd::layout::align_of::<T>() as usize,
{
    Layout::lemma_of(
        array_bytes::<T>(capacity as int) as usize,
        vstd::layout::align_of::<T>() as usize,
    );
}

/// What `finish_grow` comes to: the allocator afterwards, and the address
/// of the block or the error. Without a layout nothing is asked of the
/// allocator. With one, the block of `current_memory` is to be extended, or
/// a new block lent out where there is none; where the allocator declines,
/// the error names the layout.
pub open spec fn grow_outcome<A: Allocator>(
    new_layout: Result<Layout, LayoutError>,
    current_memory: Option<(usize, Layout)>,
    alloc: A,
) -> (A, Result<usize, TryReserveError>) {
    match new_layout {
        Err(_) => (alloc, Err(TryReserveError::CapacityOverflow)),
        Ok(layout) => {
            let (after, result) = match current_memory {
                Some((ptr, old_layout)) => alloc.growth(ptr, old_layout, layout),
                None => alloc.allocation(layout),
            };
            match result {
                Ok(ptr) => (after, Ok(ptr)),
                Err(_) => (after, Err(TryReserveError::AllocError { layout })),
            }
        },
    }
}

/// Asks `alloc` for a block of `new_layout`: the block of `current_memory`
/// extended, or a new one where there is none.
///
/// Returns the address of the block, which the allocator has then lent
/// out. Where the allocator declines, the block of `current_memory` stays
/// as it was.
pub fn finish_grow<A>(
    new_layout: Result<Layout, LayoutError>,
    current_memory: Option<(usize, Layout)>,
    alloc: &mut A,
) -> (r: Result<usize, TryReserveError>) where A: Allocator
    requires
        current_memory matches Some((ptr, old_layout)) ==> {
            &&& old(alloc).owns(ptr, old_layout)
            &&& new_layout matches Ok(layout) ==> layout.size() >= old_layout.size()
                && layout.align() == old_layout.align()
        },
    ensures
        (*final(alloc), r) == grow_outcome(new_layout, current_memory, *old(alloc)),
        r matches Ok(ptr) ==> (new_layout matches Ok(layout) && {
            &&& ptr != 0
            &&& ptr % layout.align() == 0
            &&& final(alloc).owns(ptr, layout)
        }),
        r is Err ==> (current_memory matches Some((ptr, old_layout)) ==> final(alloc).owns(
            ptr,
            old_layout,
        )),
{
    let new_layout = match new_layout {
        Ok(layout) => layout,
        Err(_) => {
            return Err(TryReserveError::CapacityOverflow);
        },
    };
    match alloc_guard(new_layout.size()) {
        Ok(_) => {},
        Err(e) => {
            return Err(e);
        },
    }
    let memory = match current_memory {
        Some((ptr, old_layout)) => alloc.grow(ptr, old_layout, new_layout),
        None => alloc.allocate(new_layout),
    };
    match memory {
        Ok(ptr) => Ok(ptr),
        Err(_) => Err(TryReserveError::AllocError { layout: new_layout }),
    }
}

/// Takes the result of a reservation that cannot have failed.
pub fn handle_reserve(result: Result<(), TryReserveError>)
    requires
        result is Ok,
{
    match result {
        Ok(()) => {},
        Err(_) => vstd::pervasive::unreached(),
    }
}

/// Refuses a size in bytes that the platform cannot address: where `usize`
/// has fewer than 64 bits, one above `isize::MAX`.
pub fn alloc_guard(alloc_size: usize) -> (r: Result<(), TryReserveError>)
    ensures
        r is Err <==> usize::BITS < 64 && alloc_size > isize::MAX,
        r is Err ==> r == Err::<(), TryReserveError>(TryReserveError::CapacityOverflow),
{
    if usize::BITS < 64 && alloc_size > isize::MAX as usize {
        Err(TryReserveError::CapacityOverflow)
    } else {
        Ok(())
    }
}

} // verus!
