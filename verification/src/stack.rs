//! A stack: last in, first out.

use vstd::prelude::*;
use crate::allocator::{AllocError, Allocator, Global};
use crate::error::TryReserveError;
use crate::raw_stack::{amortized_capacity, array_layout, is_zst, RawStack};

verus! {

/// A stack of elements of type `T`. The elements are kept in a vector; the
/// capacity, and the block of address space that stands for it, are kept by
/// a [`RawStack`].
///
/// Its view is the sequence of its elements, the oldest first. It never
/// holds more elements than its capacity.
pub struct Stack<T, A: Allocator = Global> {
    buf: RawStack<T, A>,
    items: Vec<T>,
}

impl<T, A: Allocator> View for Stack<T, A> {
    type V = Seq<T>;

    closed spec fn view(&self) -> Seq<T> {
        self.items@
    }
}

impl<T> Stack<T> {
    /// An empty stack on the process heap, without a block.
    pub fn new() -> (r: Self)
        ensures
            r.wf(),
            r@ == Seq::<T>::empty(),
            r.spec_capacity() == (if is_zst::<T>() { usize::MAX } else { 0 }),
            r.spec_as_ptr() == vstd::layout::align_of::<T>(),
            r.buffer().block() is None,
            r.spec_allocator() == Global,
    {
        Self { buf: RawStack::new(), items: Vec::new() }
    }

    /// An empty stack on the process heap, with room for `capacity`
    /// elements.
    pub fn with_capacity(capacity: usize) -> (r: Self)
        requires
            RawStack::<T, Global>::can_allocate(capacity, Global),
        ensures
            r.wf(),
            r@ == Seq::<T>::empty(),
            r.spec_capacity() == (if is_zst::<T>() { usize::MAX } else { capacity }),
            r.spec_as_ptr() == vstd::layout::align_of::<T>(),
            r.spec_allocator() == Global,
    {
        Self { buf: RawStack::with_capacity(capacity), items: Vec::new() }
    }
}

impl<T, A: Allocator> Stack<T, A> {
    /// The growth engine of the stack.
    pub closed spec fn buffer(&self) -> RawStack<T, A> {
        self.buf
    }

    /// The number of elements that the stack has room for.
    pub open spec fn spec_capacity(&self) -> usize {
        self.buffer().spec_capacity()
    }

    /// The address of the block, or the sentinel where there is none.
    pub open spec fn spec_as_ptr(&self) -> usize {
        self.buffer().spec_ptr()
    }

    /// The allocator that the stack takes its block from.
    pub open spec fn spec_allocator(&self) -> &A {
        self.buffer().spec_allocator()
    }

    /// The number of elements.
    pub open spec fn spec_len(&self) -> usize {
        self@.len() as usize
    }

    /// What holds of every stack: its buffer is well formed, and has room
    /// for its elements.
    pub open spec fn wf(&self) -> bool {
        &&& self.buffer().wf()
        &&& self@.len() <= self.spec_capacity()
    }

    /// The address of the block and the capacity of the stack.
    pub open spec fn extent(&self) -> (usize, usize) {
        self.buffer().extent()
    }

    /// How a reservation of `additional` more elements ends: with the
    /// address and the capacity that the stack then has, or with the error.
    pub open spec fn reservation(&self, additional: usize, exact: bool) -> Result<
        (usize, usize),
        TryReserveError,
    > {
        self.buffer().reservation(self.spec_len(), additional, exact)
    }

    /// The allocator as a reservation of `additional` more elements leaves
    /// it: untouched where the stack has the room.
    pub open spec fn allocator_after_reservation(&self, additional: usize, exact: bool) -> A {
        self.buffer().allocator_after_reservation(self.spec_len(), additional, exact)
    }

    /// The capacity that `shrink_to(min_capacity)` cuts the stack down to.
    pub open spec fn shrink_target(&self, min_capacity: usize) -> usize {
        vstd::math::max(self@.len() as int, min_capacity as int) as usize
    }

    /// Whether `push` finds or can make room for one more element.
    pub open spec fn can_push(&self) -> bool {
        self@.len() < self.spec_capacity() || self.buffer().growth(self.spec_len(), 1, false) is Ok
    }

    /// Whether the stack can be cut down to `min_capacity` elements, or to
    /// the number of its elements where that is more.
    pub open spec fn can_shrink(&self, min_capacity: usize) -> bool {
        self.spec_capacity() > min_capacity ==> self.buffer().shrinking(
            self.shrink_target(min_capacity),
        ) is Ok
    }

    /// A stack of elements without size has all the capacity there is. It
    /// takes one more element unless it holds `usize::MAX` of them; a
    /// reservation leaves it as it is where the number of elements can be
    /// represented, and is a capacity overflow where it cannot; and it can
    /// always be asked to shrink, which leaves it as it is. So no request
    /// ever reaches its allocator.
    pub proof fn lemma_zero_sized(&self, additional: usize, exact: bool)
        requires
            is_zst::<T>(),
            self.wf(),
        ensures
            self.spec_capacity() == usize::MAX,
            self.buffer().block() is None,
            self.can_push() <==> self@.len() < usize::MAX,
            self.reservation(additional, exact) == (if self@.len() + additional <= usize::MAX {
                Ok::<(usize, usize), TryReserveError>(self.extent())
            } else {
                Err::<(usize, usize), TryReserveError>(TryReserveError::CapacityOverflow)
            }),
            forall|capacity: usize| #[trigger] self.can_shrink(capacity),
    {
        self.buffer().lemma_zero_sized(self.spec_len(), additional, exact);
        self.buffer().lemma_zero_sized(self.spec_len(), 1, false);
    }

    /// An empty stack without a block, which takes its blocks from `alloc`.
    pub fn new_in(alloc: A) -> (r: Self)
        ensures
            r.wf(),
            r@ == Seq::<T>::empty(),
            r.spec_capacity() == (if is_zst::<T>() { usize::MAX } else { 0 }),
            r.spec_as_ptr() == vstd::layout::align_of::<T>(),
            r.buffer().block() is None,
            r.spec_allocator() == alloc,
    {
        Stack { buf: RawStack::new_in(alloc), items: Vec::new() }
    }

    /// An empty stack with room for `capacity` elements, which takes its
    /// blocks from `alloc`.
    pub fn with_capacity_in(capacity: usize, alloc: A) -> (r: Self)
        requires
            RawStack::<T, A>::can_allocate(capacity, alloc),
        ensures
            r.wf(),
            r@ == Seq::<T>::empty(),
            r.spec_capacity() == (if is_zst::<T>() { usize::MAX } else { capacity }),
            if is_zst::<T>() || capacity == 0 {
                &&& r.spec_as_ptr() == vstd::layout::align_of::<T>()
                &&& r.spec_allocator() == alloc
            } else {
                (*r.spec_allocator(), Ok::<usize, AllocError>(r.spec_as_ptr()))
                    == alloc.allocation(array_layout::<T>(capacity))
            },
    {
        Stack { buf: RawStack::with_capacity_in(capacity, alloc), items: Vec::new() }
    }

    /// The number of elements that the stack has room for: `usize::MAX`
    /// for elements of size zero.
    #[verifier::when_used_as_spec(spec_capacity)]
    pub fn capacity(&self) -> (r: usize)
        ensures
            r == self.spec_capacity(),
            is_zst::<T>() ==> r == usize::MAX,
    {
        self.buf.capacity()
    }

    /// The number of elements.
    #[verifier::when_used_as_spec(spec_len)]
    pub fn len(&self) -> (r: usize)
        ensures
            r == self@.len(),
    {
        self.items.len()
    }

    /// Makes room for `additional` more elements, growing by at least a
    /// factor of two where it has to grow.
    pub fn reserve(&mut self, additional: usize)
        requires
            old(self).wf(),
            old(self).reservation(additional, false) is Ok,
        ensures
            final(self).wf(),
            *final(self).spec_allocator() == old(self).allocator_after_reservation(
                additional,
                false,
            ),
            final(self)@ == old(self)@,
            old(self).reservation(additional, false) == Ok::<(usize, usize), TryReserveError>(
                final(self).extent(),
            ),
            final(self).spec_capacity() - final(self)@.len() >= additional,
            is_zst::<T>() ==> final(self).buffer() == old(self).buffer(),
    {
        self.buf.reserve(self.items.len(), additional);
    }

    /// Makes room for exactly `additional` more elements.
    pub fn reserve_exact(&mut self, additional: usize)
        requires
            old(self).wf(),
            old(self).reservation(additional, true) is Ok,
        ensures
            final(self).wf(),
            *final(self).spec_allocator() == old(self).allocator_after_reservation(
                additional,
                true,
            ),
            final(self)@ == old(self)@,
            old(self).reservation(additional, true) == Ok::<(usize, usize), TryReserveError>(
                final(self).extent(),
            ),
            final(self).spec_capacity() - final(self)@.len() >= additional,
            is_zst::<T>() ==> final(self).buffer() == old(self).buffer(),
    {
        self.buf.reserve_exect(self.items.len(), additional);
    }

    /// As `reserve`, but returns the error where `reserve` may not be
    /// called. On an error the stack is as it was: its elements, its
    /// capacity and the address of its block.
    pub fn try_reserve(&mut self, additional: usize) -> (r: Result<(), TryReserveError>)
        requires
            old(self).wf(),
        ensures
            final(self).wf(),
            *final(self).spec_allocator() == old(self).allocator_after_reservation(
                additional,
                false,
            ),
            final(self)@ == old(self)@,
            match old(self).reservation(additional, false) {
                Ok(extent) => r is Ok && final(self).extent() == extent,
                Err(e) => {
                    &&& r == Err::<(), TryReserveError>(e)
                    &&& final(self).spec_as_ptr() == old(self).spec_as_ptr()
                    &&& final(self).spec_capacity() == old(self).spec_capacity()
                },
            },
            r is Ok ==> final(self).spec_capacity() - final(self)@.len() >= additional,
            r == Err::<(), TryReserveError>(TryReserveError::CapacityOverflow)
                ==> final(self).buffer() == old(self).buffer(),
            is_zst::<T>() ==> final(self).buffer() == old(self).buffer(),
    {
        self.buf.try_reserve(self.items.len(), additional)
    }

    /// As `reserve_exact`, but returns the error where `reserve_exact` may
    /// not be called. On an error the stack is as it was: its elements, its
    /// capacity and the address of its block.
    pub fn try_reserve_exact(&mut self, additional: usize) -> (r: Result<(), TryReserveError>)
        requires
            old(self).wf(),
        ensures
            final(self).wf(),
            *final(self).spec_allocator() == old(self).allocator_after_reservation(
                additional,
                true,
            ),
            final(self)@ == old(self)@,
            match old(self).reservation(additional, true) {
                Ok(extent) => r is Ok && final(self).extent() == extent,
                Err(e) => {
                    &&& r == Err::<(), TryReserveError>(e)
                    &&& final(self).spec_as_ptr() == old(self).spec_as_ptr()
                    &&& final(self).spec_capacity() == old(self).spec_capacity()
                },
            },
            r is Ok ==> final(self).spec_capacity() - final(self)@.len() >= additional,
            r == Err::<(), TryReserveError>(TryReserveError::CapacityOverflow)
                ==> final(self).buffer() == old(self).buffer(),
            is_zst::<T>() ==> final(self).buffer() == old(self).buffer(),
    {
        self.buf.try_reserve_exact(self.items.len(), additional)
    }

    /// Cuts the capacity down to the number of elements. The elements stay
    /// as they are, and so does a stack without a block.
    pub fn shrink_to_fit(&mut self)
        requires
            old(self).wf(),
            old(self).can_shrink(old(self).spec_len()),
        ensures
            final(self).wf(),
            final(self)@ == old(self)@,
            final(self).spec_capacity() <= old(self).spec_capacity(),
            if old(self).spec_capacity() > old(self)@.len() {
                &&& old(self).buffer().shrinking(old(self).spec_len()) == Ok::<
                    (usize, usize),
                    TryReserveError,
                >(final(self).extent())
                &&& *final(self).spec_allocator() == old(self).buffer().allocator_after_shrinking(
                    old(self).spec_len(),
                )
            } else {
                final(self).buffer() == old(self).buffer()
            },
            final(self).spec_capacity() == (if old(self).buffer().block() is Some {
                old(self).spec_len()
            } else {
                old(self).spec_capacity()
            }),
            old(self).buffer().block() is None ==> final(self).buffer() == old(self).buffer(),
    {
        if self.capacity() > self.items.len() {
            self.buf.shrink_to_fit(self.items.len());
        }
    }

    /// Cuts the capacity down to `min_capacity`, or to the number of
    /// elements where that is more. The elements stay as they are, and so
    /// does a stack of no greater capacity or without a block.
    pub fn shrink_to(&mut self, min_capacity: usize)
        requires
            old(self).wf(),
            old(self).can_shrink(min_capacity),
        ensures
            final(self).wf(),
            final(self)@ == old(self)@,
            final(self).spec_capacity() <= old(self).spec_capacity(),
            if old(self).spec_capacity() > min_capacity {
                &&& old(self).buffer().shrinking(old(self).shrink_target(min_capacity)) == Ok::<
                    (usize, usize),
                    TryReserveError,
                >(final(self).extent())
                &&& *final(self).spec_allocator() == old(self).buffer().allocator_after_shrinking(
                    old(self).shrink_target(min_capacity),
                )
            } else {
                final(self).buffer() == old(self).buffer()
            },
            final(self).spec_capacity() == (if old(self).buffer().block() is Some
                && old(self).spec_capacity() > min_capacity {
                old(self).shrink_target(min_capacity)
            } else {
                old(self).spec_capacity()
            }),
            old(self).buffer().block() is None ==> final(self).buffer() == old(self).buffer(),
    {
        if self.capacity() > min_capacity {
            let len = self.items.len();
            let target = if len >= min_capacity {
                len
            } else {
                min_capacity
            };
            self.buf.shrink_to_fit(target);
        }
    }

    /// The address of the block, or the sentinel where there is none. It is
    /// never null.
    #[verifier::when_used_as_spec(spec_as_ptr)]
    pub fn as_ptr(&self) -> (r: usize)
        ensures
            r == self.spec_as_ptr(),
            self.wf() ==> r != 0,
    {
        self.buf.ptr()
    }

    /// As `as_ptr`, for a caller that holds the stack exclusively.
    pub fn as_mut_ptr(&mut self) -> (r: usize)
        ensures
            *final(self) == *old(self),
            r == old(self).spec_as_ptr(),
            old(self).wf() ==> r != 0,
    {
        self.buf.ptr()
    }

    /// The allocator that the stack takes its block from.
    #[verifier::when_used_as_spec(spec_allocator)]
    pub fn allocator(&self) -> (r: &A)
        ensures
            r == self.spec_allocator(),
    {
        self.buf.allocator()
    }

    /// What `push` makes of the stack `pre`. The elements stay where they
    /// are and `element` comes after them. A stack with room keeps its
    /// buffer as it is; a full one grows to the largest of twice its
    /// capacity, one more than its length and the least capacity for `T`,
    /// in the block that its allocator grants for that.
    pub open spec fn pushed(pre: Self, element: T, post: Self) -> bool {
        &&& post.wf()
        &&& post@ == pre@.push(element)
        &&& if pre@.len() < pre.spec_capacity() {
            post.buffer() == pre.buffer()
        } else {
            &&& post.spec_capacity() == amortized_capacity::<T>(
                pre.spec_capacity(),
                pre@.len() as int + 1,
            )
            &&& pre.buffer().growth(pre.spec_len(), 1, false) == Ok::<
                (usize, usize),
                TryReserveError,
            >(post.extent())
            &&& *post.spec_allocator() == pre.buffer().allocator_after_growth(
                pre.spec_len(),
                1,
                false,
            )
        }
    }

    /// What `pop` makes of the stack `pre`, and what it returns. The buffer
    /// stays as it is, and so does the capacity. An empty stack stays empty
    /// and gives `None`; any other gives its last element and keeps the
    /// rest.
    pub open spec fn popped(pre: Self, post: Self, r: Option<T>) -> bool {
        &&& post.wf()
        &&& post.buffer() == pre.buffer()
        &&& if pre@.len() == 0 {
            r is None && post@ == pre@
        } else {
            r == Some(pre@.last()) && post@ == pre@.drop_last()
        }
    }

    /// Puts `element` on top of the stack, which first grows where it is
    /// full.
    pub fn push(&mut self, element: T)
        requires
            old(self).wf(),
            old(self).can_push(),
        ensures
            Self::pushed(*old(self), element, *final(self)),
            is_zst::<T>() ==> final(self).buffer() == old(self).buffer(),
    {
        proof {
            self.buf.lemma_growth(self.items.len(), 1, false);
        }
        if self.items.len() == self.buf.capacity() {
            self.buf.reserve_for_push(self.items.len());
        }
        self.items.push(element);
    }

    /// Takes the element on top of the stack, or returns `None` where the
    /// stack is empty.
    pub fn pop(&mut self) -> (r: Option<T>)
        requires
            old(self).wf(),
        ensures
            Self::popped(*old(self), *final(self), r),
    {
        if self.items.len() == 0 {
            None
        } else {
            self.items.pop()
        }
    }

    /// Last in, first out. Let `elements` be pushed one by one, which
    /// takes the stack through `filling`, and let as many calls of `pop`
    /// follow, which take it through `draining` and return `results`. Then
    /// the calls return the elements in reverse, the last one pushed first;
    /// the stack holds again what it held before the first push, so that a
    /// stack that was empty then is empty now; and its buffer, and with it
    /// its capacity, is as it was before the first pop.
    pub proof fn lemma_last_in_first_out(
        filling: Seq<Self>,
        elements: Seq<T>,
        draining: Seq<Self>,
        results: Seq<Option<T>>,
    )
        requires
            filling.len() == elements.len() + 1,
            forall|i: int|
                0 <= i < elements.len() ==> Self::pushed(
                    #[trigger] filling[i],
                    elements[i],
                    filling[i + 1],
                ),
            draining.len() == elements.len() + 1,
            draining[0] == filling.last(),
            results.len() == elements.len(),
            forall|i: int|
                0 <= i < elements.len() ==> Self::popped(
                    #[trigger] draining[i],
                    draining[i + 1],
                    results[i],
                ),
        ensures
            forall|i: int|
                0 <= i < elements.len() ==> #[trigger] results[i] == Some(
                    elements[elements.len() - 1 - i],
                ),
            draining.last()@ == filling[0]@,
            filling[0]@.len() == 0 ==> draining.last()@.len() == 0,
            draining.last().buffer() == filling.last().buffer(),
            draining.last().spec_capacity() == filling.last().spec_capacity(),
    {
        let n = elements.len() as int;
        Self::lemma_filled(filling, elements, n);
        Self::lemma_drained(draining, results, n);
        let base = filling[0]@;
        let full = draining[0]@;
        assert(full == base + elements);
        assert forall|i: int| 0 <= i < n implies #[trigger] results[i] == Some(
            elements[n - 1 - i],
        ) by {
            assert(full[full.len() - 1 - i] == elements[n - 1 - i]);
        }
        assert(draining[n]@ =~= base);
    }

    /// After `i` pushes the stack holds what it held, then the first `i`
    /// elements.
    proof fn lemma_filled(filling: Seq<Self>, elements: Seq<T>, i: int)
        requires
            filling.len() == elements.len() + 1,
            forall|k: int|
                0 <= k < elements.len() ==> Self::pushed(
                    #[trigger] filling[k],
                    elements[k],
                    filling[k + 1],
                ),
            0 <= i <= elements.len(),
        ensures
            filling[i]@ == filling[0]@ + elements.take(i),
        decreases i,
    {
        if i == 0 {
            assert(filling[0]@ =~= filling[0]@ + elements.take(0));
        } else {
            Self::lemma_filled(filling, elements, i - 1);
            assert(Self::pushed(filling[i - 1], elements[i - 1], filling[i]));
            assert(filling[i]@ =~= filling[0]@ + elements.take(i));
        }
    }

    /// After `i` pops the stack has lost its last `i` elements, which the
    /// calls have returned from the last one down, and its buffer is as it
    /// was.
    proof fn lemma_drained(draining: Seq<Self>, results: Seq<Option<T>>, i: int)
        requires
            draining.len() == results.len() + 1,
            forall|k: int|
                0 <= k < results.len() ==> Self::popped(
                    #[trigger] draining[k],
                    draining[k + 1],
                    results[k],
                ),
            0 <= i <= results.len(),
            i <= draining[0]@.len(),
        ensures
            draining[i]@ == draining[0]@.take(draining[0]@.len() - i),
            draining[i].buffer() == draining[0].buffer(),
            forall|k: int|
                0 <= k < i ==> #[trigger] results[k] == Some(
                    draining[0]@[draining[0]@.len() - 1 - k],
                ),
        decreases i,
    {
        let full = draining[0]@;
        if i == 0 {
            assert(full =~= full.take(full.len() as int));
        } else {
            Self::lemma_drained(draining, results, i - 1);
            assert(Self::popped(draining[i - 1], draining[i], results[i - 1]));
            assert(draining[i]@ =~= full.take(full.len() - i));
        }
    }
}

} // verus!
