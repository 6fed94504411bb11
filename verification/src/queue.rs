//! A queue: first in, first out.

use vstd::prelude::*;

verus! {

/// A link of the chain: an element, and the handles of its neighbours.
///
/// `next` leads to the node that was pushed just before this one, `prev`
/// to the node that was pushed just after it.
pub struct Node<T> {
    next: Option<usize>,
    prev: Option<usize>,
    element: T,
}

impl<T> Node<T> {
    /// The handle of the node pushed just before this one.
    pub closed spec fn spec_next(&self) -> Option<usize> {
        self.next
    }

    /// The handle of the node pushed just after this one.
    pub closed spec fn spec_prev(&self) -> Option<usize> {
        self.prev
    }

    /// The element that the node holds.
    pub closed spec fn spec_element(&self) -> T {
        self.element
    }

    /// A node that holds `element` and has no neighbours.
    pub fn new(element: T) -> (r: Self)
        ensures
            r.spec_next() is None,
            r.spec_prev() is None,
            r.spec_element() == element,
    {
        Self { next: None, prev: None, element }
    }

    /// Gives up the node for the element that it holds.
    pub fn into_element(self: Box<Self>) -> (r: T)
        ensures
            r == self.spec_element(),
    {
        self.element
    }
}

/// A queue of elements of type `T`: a chain of nodes, each in a box of its
/// own, that are held in a table and name each other by their place in it.
///
/// Its view is the sequence of its elements, the oldest first. `push` adds
/// at the head of the chain and `take` removes at its tail.
pub struct Queue<T> {
    head: Option<usize>,
    tail: Option<usize>,
    size: usize,
    slots: Vec<Option<Box<Node<T>>>>,
    free: Vec<usize>,
    order: Ghost<Seq<usize>>,
}

impl<T> View for Queue<T> {
    type V = Seq<T>;

    closed spec fn view(&self) -> Seq<T> {
        Seq::new(self.order@.len(), |i: int| self.slots[self.order@[i] as int].unwrap().element)
    }
}

impl<T> Queue<T> {
    /// The handle of the node pushed last.
    pub closed spec fn spec_head(&self) -> Option<usize> {
        self.head
    }

    /// The handle of the node pushed first, which `take` removes next.
    pub closed spec fn spec_tail(&self) -> Option<usize> {
        self.tail
    }

    /// The number of elements.
    pub closed spec fn spec_size(&self) -> usize {
        self.size
    }

    /// The node that `handle` names, where it names one.
    pub closed spec fn node(&self, handle: usize) -> Option<Node<T>> {
        if handle < self.slots.len() {
            match self.slots[handle as int] {
                Some(node) => Some(*node),
                None => None,
            }
        } else {
            None
        }
    }

    /// The handles of the nodes, from the tail of the chain to its head.
    pub closed spec fn handles(&self) -> Seq<usize> {
        self.order@
    }

    /// What holds of every queue. The handles of the chain are distinct
    /// and name the nodes of the table, no others being there; each node's
    /// `next` names the node before it in the chain and its `prev` the one
    /// after it; `tail` and `head` name the first and the last; and the
    /// places of the table that hold no node are those on the free list.
    #[verifier::opaque]
    pub closed spec fn wf(&self) -> bool {
        let order = self.order@;
        &&& order.len() == self.size
        &&& order.no_duplicates()
        &&& forall|i: int|
            0 <= i < order.len() ==> (#[trigger] order[i]) < self.slots.len()
                && self.slots[order[i] as int] is Some
        &&& forall|k: int|
            0 <= k < self.slots.len() && (#[trigger] self.slots[k]) is Some ==> order.contains(
                k as usize,
            )
        &&& forall|i: int|
            0 <= i < order.len() ==> (#[trigger] self.slots[order[i] as int]).unwrap().next == (
            if i == 0 {
                None
            } else {
                Some(order[i - 1])
            })
        &&& forall|i: int|
            0 <= i < order.len() ==> (#[trigger] self.slots[order[i] as int]).unwrap().prev == (
            if i + 1 == order.len() {
                None
            } else {
                Some(order[i + 1])
            })
        &&& self.tail == (if order.len() == 0 {
            None
        } else {
            Some(order[0])
        })
        &&& self.head == (if order.len() == 0 {
            None
        } else {
            Some(order.last())
        })
        &&& self.free@.no_duplicates()
        &&& forall|j: int|
            0 <= j < self.free.len() ==> (#[trigger] self.free[j]) < self.slots.len()
                && self.slots[self.free[j] as int] is None
        &&& self.size + self.free.len() == self.slots.len()
    }

    /// Whether the neighbours that the node at `handle` names name it in
    /// return: it is the `prev` of its `next` and the `next` of its `prev`.
    pub open spec fn links_agree(&self, handle: usize) -> bool {
        self.node(handle) matches Some(node) ==> {
            &&& node.spec_next() matches Some(next) ==> (self.node(next) matches Some(before)
                && before.spec_prev() == Some(handle))
            &&& node.spec_prev() matches Some(prev) ==> (self.node(prev) matches Some(after)
                && after.spec_next() == Some(handle))
        }
    }

    /// The shape of a queue. Its size is the number of its elements, and is
    /// zero exactly when it has neither head nor tail. The handles of the
    /// chain are distinct; the tail is the first of them and the head the
    /// last; the node at each holds the element at that place, names the
    /// node before it as its `next` and the node after it as its `prev`;
    /// so the tail has no `next` and the head no `prev`. No other handle
    /// names a node, and the links of every node agree with those of its
    /// neighbours.
    pub proof fn lemma_shape(&self)
        requires
            self.wf(),
        ensures
            self.spec_size() == self@.len(),
            self.handles().len() == self@.len(),
            self.handles().no_duplicates(),
            self.spec_size() == 0 <==> self.spec_head() is None,
            self.spec_size() == 0 <==> self.spec_tail() is None,
            self.spec_size() > 0 ==> self.spec_tail() == Some(self.handles().first())
                && self.spec_head() == Some(self.handles().last()),
            forall|i: int|
                0 <= i < self@.len() ==> ((#[trigger] self.node(self.handles()[i])) matches Some(
                    node,
                ) && {
                    &&& node.spec_element() == self@[i]
                    &&& node.spec_next() == (if i == 0 {
                        None
                    } else {
                        Some(self.handles()[i - 1])
                    })
                    &&& node.spec_prev() == (if i + 1 == self@.len() {
                        None
                    } else {
                        Some(self.handles()[i + 1])
                    })
                }),
            forall|handle: usize| #[trigger]
                self.node(handle) is Some ==> self.handles().contains(handle),
            self.spec_head() matches Some(head) ==> (self.node(head) matches Some(node)
                && node.spec_prev() is None),
            self.spec_tail() matches Some(tail) ==> (self.node(tail) matches Some(node)
                && node.spec_next() is None),
            forall|handle: usize| #[trigger] self.links_agree(handle),
    {
        reveal(Queue::wf);
        let order = self.order@;
        assert forall|handle: usize| #[trigger] self.links_agree(handle) by {
            if self.node(handle) is Some {
                assert(self.slots[handle as int] is Some);
                let i = choose|i: int| 0 <= i < order.len() && order[i] == handle;
                assert(self.slots[order[i] as int].unwrap().next == (if i == 0 {
                    None
                } else {
                    Some(order[i - 1])
                }));
                assert(self.slots[order[i] as int].unwrap().prev == (if i + 1 == order.len() {
                    None
                } else {
                    Some(order[i + 1])
                }));
                if i > 0 {
                    assert(order[i - 1] < self.slots.len());
                    assert(self.slots[order[i - 1] as int].unwrap().prev == Some(order[i]));
                }
                if i + 1 < order.len() {
                    assert(order[i + 1] < self.slots.len());
                    assert(self.slots[order[i + 1] as int].unwrap().next == Some(order[i]));
                }
            }
        }
        if order.len() > 0 {
            assert(order[0] < self.slots.len());
            assert(order[order.len() - 1] < self.slots.len());
            assert(self.slots[order[0] as int].unwrap().next is None);
            assert(self.slots[order[order.len() - 1] as int].unwrap().prev is None);
        }
        assert forall|i: int| 0 <= i < self@.len() implies ((#[trigger] self.node(
            self.handles()[i],
        )) matches Some(node) && {
            &&& node.spec_element() == self@[i]
            &&& node.spec_next() == (if i == 0 {
                None
            } else {
                Some(self.handles()[i - 1])
            })
            &&& node.spec_prev() == (if i + 1 == self@.len() {
                None
            } else {
                Some(self.handles()[i + 1])
            })
        }) by {
            assert(order[i] < self.slots.len());
            assert(self.slots[order[i] as int].unwrap().next == (if i == 0 {
                None
            } else {
                Some(order[i - 1])
            }));
            assert(self.slots[order[i] as int].unwrap().prev == (if i + 1 == order.len() {
                None
            } else {
                Some(order[i + 1])
            }));
        }
        assert forall|handle: usize| #[trigger] self.node(handle) is Some
            implies self.handles().contains(handle) by {
            assert(self.slots[handle as int] is Some);
        }
    }

    /// An empty queue.
    pub fn new() -> (r: Self)
        ensures
            r.wf(),
            r@ == Seq::<T>::empty(),
            r.spec_size() == 0,
            r.spec_head() is None,
            r.spec_tail() is None,
    {
        reveal(Queue::wf);
        Self {
            head: None,
            tail: None,
            size: 0,
            slots: Vec::new(),
            free: Vec::new(),
            order: Ghost(Seq::empty()),
        }
    }

    /// The number of elements.
    #[verifier::when_used_as_spec(spec_size)]
    pub fn size(&self) -> (r: usize)
        ensures
            r == self.spec_size(),
            self.wf() ==> r == self@.len(),
    {
        reveal(Queue::wf);
        self.size
    }
}

impl<T> Queue<T> {
    /// What `push` makes of the queue `pre`: the elements stay in their
    /// order and `element` comes after them, in a node that joins the chain
    /// at its head.
    pub open spec fn pushed(pre: Self, element: T, post: Self) -> bool {
        &&& post.wf()
        &&& post@ == pre@.push(element)
        &&& post.spec_size() == pre.spec_size() + 1
        &&& post.handles().len() == pre.handles().len() + 1
        &&& post.handles().drop_last() == pre.handles()
    }

    /// What `take` makes of the queue `pre`, and what it returns. An empty
    /// queue stays as it is and gives `None`; any other gives its first
    /// element, whose node leaves the chain at its tail, and keeps the rest
    /// in their order.
    pub open spec fn taken(pre: Self, post: Self, r: Option<T>) -> bool {
        &&& post.wf()
        &&& if pre@.len() == 0 {
            &&& r is None
            &&& post@ == pre@
            &&& post.spec_size() == pre.spec_size()
            &&& post.spec_head() == pre.spec_head()
            &&& post.spec_tail() == pre.spec_tail()
            &&& post.handles() == pre.handles()
        } else {
            &&& r == Some(pre@.first())
            &&& post@ == pre@.drop_first()
            &&& post.spec_size() == pre.spec_size() - 1
            &&& post.handles() == pre.handles().drop_first()
        }
    }

    /// Adds `element` at the head of the chain, in a node of its own. The
    /// node takes a place from the free list, or a new place at the end of
    /// the table where the list is empty.
    pub fn push(&mut self, element: T)
        requires
            old(self).wf(),
        ensures
            Self::pushed(*old(self), element, *final(self)),
    {
        reveal(Queue::wf);
        let mut node = Node::new(element);
        node.next = self.head;
        node.prev = None;
        let node = Box::new(node);

        let handle = match self.free.pop() {
            Some(handle) => handle,
            None => {
                self.slots.push(None);
                self.slots.len() - 1
            },
        };
        assert(self.slots[handle as int] is None);
        assert(!self.order@.contains(handle));
        self.slots[handle] = Some(node);

        match self.head {
            None => {
                self.tail = Some(handle);
            },
            Some(head) => {
                assert(head == old(self).order@.last());
                match &mut self.slots[head] {
                    Some(first) => {
                        first.prev = Some(handle);
                    },
                    None => {},
                }
            },
        }

        self.head = Some(handle);
        self.size += 1;
        self.order = Ghost(self.order@.push(handle));

        proof {
            let before = old(self).order@;
            let after = self.order@;
            assert forall|i: int| 0 <= i < after.len() implies (#[trigger] after[i])
                < self.slots.len() && self.slots[after[i] as int] is Some by {
                if i < before.len() {
                    assert(before[i] < old(self).slots.len());
                }
            }
            assert forall|k: int| 0 <= k < self.slots.len() && (#[trigger] self.slots[k]) is Some
                implies after.contains(k as usize) by {
                if k == handle {
                    assert(after[after.len() - 1] == handle);
                } else {
                    assert(old(self).slots[k] is Some);
                    let i = choose|i: int| 0 <= i < before.len() && before[i] == k as usize;
                    assert(after[i] == k as usize);
                }
            }
            assert forall|j: int| 0 <= j < self.free.len() implies (#[trigger] self.free[j])
                < self.slots.len() && self.slots[self.free[j] as int] is None by {
                assert(self.free[j] == old(self).free[j]);
                assert(old(self).free[j] < old(self).slots.len());
            }
            assert(self@ =~= old(self)@.push(element));
            assert(after.drop_last() =~= before);
        }
    }

    /// Removes the node at the tail of the chain and returns its element,
    /// or returns `None` where the queue is empty. The place of the node
    /// goes to the free list.
    pub fn take(&mut self) -> (r: Option<T>)
        requires
            old(self).wf(),
        ensures
            Self::taken(*old(self), *final(self), r),
    {
        reveal(Queue::wf);
        match self.tail {
            None => None,
            Some(tail) => {
                assert(tail == self.order@[0]);
                let node = match self.slots[tail].take() {
                    Some(node) => node,
                    None => vstd::pervasive::unreached(),
                };
                self.free.push(tail);
                self.tail = node.prev;

                match self.tail {
                    None => {
                        self.head = None;
                    },
                    Some(second) => {
                        assert(second == old(self).order@[1]);
                        match &mut self.slots[second] {
                            Some(last) => {
                                last.next = None;
                            },
                            None => {},
                        }
                    },
                }

                self.size -= 1;
                self.order = Ghost(self.order@.drop_first());

                proof {
                    let before = old(self).order@;
                    let after = self.order@;
                    assert forall|i: int| 0 <= i < after.len() implies (#[trigger] after[i])
                        < self.slots.len() && self.slots[after[i] as int] is Some by {
                        assert(after[i] == before[i + 1]);
                    }
                    assert(after.no_duplicates()) by {
                        assert forall|i: int, j: int|
                            0 <= i < after.len() && 0 <= j < after.len() && i != j implies after[i]
                            != after[j] by {
                            assert(after[i] == before[i + 1]);
                            assert(after[j] == before[j + 1]);
                        }
                    }
                    assert forall|k: int|
                        0 <= k < self.slots.len() && (#[trigger] self.slots[k]) is Some
                        implies after.contains(k as usize) by {
                        assert(old(self).slots[k] is Some);
                        let i = choose|i: int| 0 <= i < before.len() && before[i] == k as usize;
                        assert(i != 0);
                        assert(after[i - 1] == k as usize);
                    }
                    assert forall|i: int| 0 <= i < after.len() implies (
                    #[trigger] self.slots[after[i] as int]).unwrap().next == (if i == 0 {
                        None
                    } else {
                        Some(after[i - 1])
                    }) by {
                        assert(after[i] == before[i + 1]);
                    }
                    assert forall|i: int| 0 <= i < after.len() implies (
                    #[trigger] self.slots[after[i] as int]).unwrap().prev == (if i + 1
                        == after.len() {
                        None
                    } else {
                        Some(after[i + 1])
                    }) by {
                        assert(after[i] == before[i + 1]);
                    }
                    assert(self.free@.no_duplicates()) by {
                        assert forall|i: int, j: int|
                            0 <= i < self.free.len() && 0 <= j < self.free.len() && i
                                != j implies self.free[i] != self.free[j] by {
                            if i < old(self).free.len() {
                                assert(old(self).free[i] == self.free[i]);
                            }
                            if j < old(self).free.len() {
                                assert(old(self).free[j] == self.free[j]);
                            }
                        }
                    }
                    assert forall|j: int| 0 <= j < self.free.len() implies (
                    #[trigger] self.free[j]) < self.slots.len()
                        && self.slots[self.free[j] as int] is None by {
                        if j < old(self).free.len() {
                            assert(old(self).free[j] == self.free[j]);
                        }
                    }
                    assert(self@ =~= old(self)@.drop_first());
                }
                Some(Node::into_element(node))
            },
        }
    }

    /// First in, first out. Let `elements` be pushed one by one, which
    /// takes the queue through `filling`, and let as many calls of `take`
    /// follow, which take it through `draining` and return `results`. Then
    /// the calls return, in their order, the elements that the queue held
    /// first and then those pushed. From an empty queue they return the
    /// elements pushed, the first one first, and leave the queue empty:
    /// its size is zero and it has neither head nor tail.
    pub proof fn lemma_first_in_first_out(
        filling: Seq<Self>,
        elements: Seq<T>,
        draining: Seq<Self>,
        results: Seq<Option<T>>,
    )
        requires
            filling[0].wf(),
            filling.len() == elements.len() + 1,
            forall|i: int|
                0 <= i < elements.len() ==> Self::pushed(
                    #[trigger] filling[i],
                    elements[i],
                    filling[i + 1],
                ),
            draining.len() == elements.len() + 1,
            draining[0] == filling.last(),
            results.len() == elements.len(),
            forall|i: int|
                0 <= i < elements.len() ==> Self::taken(
                    #[trigger] draining[i],
                    draining[i + 1],
                    results[i],
                ),
        ensures
            forall|i: int|
                0 <= i < elements.len() ==> #[trigger] results[i] == Some(
                    (filling[0]@ + elements)[i],
                ),
            draining.last()@ == (filling[0]@ + elements).skip(elements.len() as int),
            filling[0]@.len() == 0 ==> {
                &&& forall|i: int|
                    0 <= i < elements.len() ==> #[trigger] results[i] == Some(elements[i])
                &&& draining.last()@.len() == 0
                &&& draining.last().spec_size() == 0
                &&& draining.last().spec_head() is None
                &&& draining.last().spec_tail() is None
            },
    {
        let n = elements.len() as int;
        Self::lemma_filled(filling, elements, n);
        Self::lemma_drained(draining, results, n);
        let last = draining[n];
        assert(last.wf()) by {
            if n > 0 {
                assert(Self::taken(draining[n - 1], draining[n], results[n - 1]));
            }
        }
        last.lemma_shape();
        if filling[0]@.len() == 0 {
            assert(filling[0]@ + elements =~= elements);
        }
    }

    /// After `i` pushes the queue holds what it held, then the first `i`
    /// elements.
    proof fn lemma_filled(filling: Seq<Self>, elements: Seq<T>, i: int)
        requires
            filling.len() == elements.len() + 1,
            forall|k: int|
                0 <= k < elements.len() ==> Self::pushed(
                    #[trigger] filling[k],
                    elements[k],
                    filling[k + 1],
                ),
            0 <= i <= elements.len(),
        ensures
            filling[i]@ == filling[0]@ + elements.take(i),
        decreases i,
    {
        if i == 0 {
            assert(filling[0]@ =~= filling[0]@ + elements.take(0));
        } else {
            Self::lemma_filled(filling, elements, i - 1);
            assert(Self::pushed(filling[i - 1], elements[i - 1], filling[i]));
            assert(filling[i]@ =~= filling[0]@ + elements.take(i));
        }
    }

    /// After `i` takes the queue has lost its first `i` elements, which
    /// the calls have returned in their order.
    proof fn lemma_drained(draining: Seq<Self>, results: Seq<Option<T>>, i: int)
        requires
            draining.len() == results.len() + 1,
            forall|k: int|
                0 <= k < results.len() ==> Self::taken(
                    #[trigger] draining[k],
                    draining[k + 1],
                    results[k],
                ),
            0 <= i <= results.len(),
            i <= draining[0]@.len(),
        ensures
            draining[i]@ == draining[0]@.skip(i),
            forall|k: int| 0 <= k < i ==> #[trigger] results[k] == Some(draining[0]@[k]),
        decreases i,
    {
        let full = draining[0]@;
        if i == 0 {
            assert(full =~= full.skip(0));
        } else {
            Self::lemma_drained(draining, results, i - 1);
            assert(Self::taken(draining[i - 1], draining[i], results[i - 1]));
            assert(draining[i]@ =~= full.skip(i));
        }
    }
}

} // verus!
