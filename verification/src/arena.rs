//! A bounded allocator, for callers that want requests to fail at a known
//! point.

use vstd::prelude::*;
use crate::allocator::{AllocError, Allocator};
use crate::layout::Layout;

verus! {

/// The least multiple of `align` that is no less than `addr`.
pub open spec fn align_up(addr: int, align: int) -> int {
    if addr % align == 0 {
        addr
    } else {
        addr + align - addr % align
    }
}

/// The blocks `blocks` and the block at `ptr` with `layout`, which counts
/// only where it has a size.
pub open spec fn with_block(blocks: Set<(usize, Layout)>, ptr: usize, layout: Layout) -> Set<
    (usize, Layout),
> {
    if layout.size() == 0 {
        blocks
    } else {
        blocks.insert((ptr, layout))
    }
}

/// A range of addresses that is lent out from its low end upwards.
///
/// A new block starts at the first address, suitably aligned, that no block
/// has reached yet, and a request is declined where the block would pass the
/// end of the range. The last block lent out is extended where it stands;
/// any other block that has to grow moves to the front. Addresses that a
/// block has given up are not lent out again.
pub struct Arena {
    next: usize,
    end: usize,
    lent: Ghost<Set<(usize, Layout)>>,
}

impl Arena {
    #[verifier::type_invariant]
    spec fn inv(&self) -> bool {
        &&& 1 <= self.next <= self.end
        &&& forall|ptr: usize, layout: Layout| #[trigger]
            self.lent@.contains((ptr, layout)) ==> {
                &&& layout.size() > 0
                &&& layout.align() > 0
                &&& 1 <= ptr
                &&& ptr + layout.size() <= self.next
                &&& ptr % layout.align() == 0
            }
    }

    /// The first address that no block has reached yet.
    pub closed spec fn spec_next(&self) -> usize {
        self.next
    }

    /// The address at which the range ends.
    pub closed spec fn spec_end(&self) -> usize {
        self.end
    }

    /// The blocks of non-zero size that are lent out.
    pub closed spec fn lent(&self) -> Set<(usize, Layout)> {
        self.lent@
    }

    /// The number of bytes that no block has reached yet.
    pub open spec fn spec_remaining(&self) -> usize {
        (self.spec_end() - self.spec_next()) as usize
    }

    /// The arena that has reached `next`, ends at `end` and has lent out
    /// `lent`.
    pub closed spec fn of(next: usize, end: usize, lent: Set<(usize, Layout)>) -> Arena {
        Arena { next, end, lent: Ghost(lent) }
    }

    /// An arena is the address it has reached, its end and the blocks it
    /// has lent out, and nothing else.
    pub proof fn lemma_of(next: usize, end: usize, lent: Set<(usize, Layout)>)
        ensures
            Self::of(next, end, lent).spec_next() == next,
            Self::of(next, end, lent).spec_end() == end,
            Self::of(next, end, lent).lent() == lent,
    {
    }

    /// Whether a new block of `layout` fits between the first address,
    /// aligned for it, that no block has reached yet and the end.
    pub open spec fn grants(&self, layout: Layout) -> bool {
        align_up(self.spec_next() as int, layout.align() as int) + layout.size()
            <= self.spec_end()
    }

    /// The address at which a new block of `layout` would start.
    pub open spec fn address_for(&self, layout: Layout) -> usize {
        align_up(self.spec_next() as int, layout.align() as int) as usize
    }

    /// An arena of `size` bytes from the address `start`, or `None` where
    /// `start` is null or the range would pass the last address.
    pub fn new(start: usize, size: usize) -> (r: Option<Arena>)
        ensures
            r is Some <==> start != 0 && start + size <= usize::MAX,
            r matches Some(arena) ==> {
                &&& arena.spec_next() == start
                &&& arena.spec_end() == start + size
                &&& arena.lent() == Set::<(usize, Layout)>::empty()
            },
    {
        if start == 0 {
            return None;
        }
        match start.checked_add(size) {
            Some(end) => Some(Arena { next: start, end, lent: Ghost(Set::empty()) }),
            None => None,
        }
    }

    /// The number of bytes that no block has reached yet.
    #[verifier::when_used_as_spec(spec_remaining)]
    pub fn remaining(&self) -> (r: usize)
        ensures
            r == self.spec_remaining(),
    {
        proof {
            use_type_invariant(self);
        }
        self.end - self.next
    }

    /// The address at which a new block of `layout` would start, where the
    /// block fits.
    fn place(&self, layout: Layout) -> (r: Option<usize>)
        ensures
            r is Some <==> self.grants(layout),
            r matches Some(start) ==> {
                &&& start == align_up(self.next as int, layout.align() as int)
                &&& self.next <= start
                &&& start + layout.size() <= self.end
                &&& start % layout.align() == 0
                &&& layout.align() > 0
            },
    {
        proof {
            use_type_invariant(self);
        }
        let align = layout.align();
        let rem = self.next % align;
        let start = if rem == 0 {
            self.next
        } else {
            match self.next.checked_add(align - rem) {
                Some(start) => start,
                None => {
                    return None;
                },
            }
        };
        proof {
            lemma_align_up(self.next as int, align as int);
        }
        if start > self.end || layout.size() > self.end - start {
            None
        } else {
            Some(start)
        }
    }
}

/// `align_up` gives a multiple of the alignment, no less than the address
/// and less than one alignment above it.
proof fn lemma_align_up(addr: int, align: int)
    requires
        0 <= addr,
        0 < align,
    ensures
        align_up(addr, align) % align == 0,
        addr <= align_up(addr, align) < addr + align,
{
    let rem = addr % align;
    let quot = addr / align;
    assert(addr == align * quot + rem && 0 <= rem < align) by {
        vstd::arithmetic::div_mod::lemma_fundamental_div_mod(addr, align);
        vstd::arithmetic::div_mod::lemma_mod_bound(addr, align);
    }
    if rem != 0 {
        assert(addr + align - rem == align * (quot + 1)) by (nonlinear_arith)
            requires
                addr == align * quot + rem,
        ;
        vstd::arithmetic::div_mod::lemma_mod_multiples_basic(quot + 1, align);
        assert(align * (quot + 1) == (quot + 1) * align) by (nonlinear_arith);
    }
}

impl Allocator for Arena {
    open spec fn owns(&self, ptr: usize, layout: Layout) -> bool {
        if layout.size() == 0 {
            ptr != 0 && ptr % layout.align() == 0
        } else {
            self.lent().contains((ptr, layout))
        }
    }

    /// The block starts at the first address, aligned for `layout`, that
    /// no block has reached yet, and is declined where it would pass the
    /// end.
    open spec fn allocation(&self, layout: Layout) -> (Self, Result<usize, AllocError>) {
        if self.grants(layout) {
            let ptr = self.address_for(layout);
            (
                Self::of(
                    (ptr + layout.size()) as usize,
                    self.spec_end(),
                    with_block(self.lent(), ptr, layout),
                ),
                Ok(ptr),
            )
        } else {
            (*self, Err(AllocError))
        }
    }

    /// A block that keeps its size stays as it is. The last block lent out
    /// is extended where it stands, and declined where it would pass the
    /// end; any other block moves to where a new block would start.
    open spec fn growth(&self, ptr: usize, old_layout: Layout, new_layout: Layout) -> (
        Self,
        Result<usize, AllocError>,
    ) {
        if new_layout.size() == old_layout.size() {
            (*self, Ok(ptr))
        } else if old_layout.size() > 0 && ptr + old_layout.size() == self.spec_next() {
            if ptr + new_layout.size() <= self.spec_end() {
                (
                    Self::of(
                        (ptr + new_layout.size()) as usize,
                        self.spec_end(),
                        self.lent().remove((ptr, old_layout)).insert((ptr, new_layout)),
                    ),
                    Ok(ptr),
                )
            } else {
                (*self, Err(AllocError))
            }
        } else if self.grants(new_layout) {
            let moved = self.address_for(new_layout);
            (
                Self::of(
                    (moved + new_layout.size()) as usize,
                    self.spec_end(),
                    self.lent().remove((ptr, old_layout)).insert((moved, new_layout)),
                ),
                Ok(moved),
            )
        } else {
            (*self, Err(AllocError))
        }
    }

    /// The block is cut down where it stands, which never fails. The
    /// addresses that it gives up are not lent out again.
    open spec fn shrinkage(&self, ptr: usize, old_layout: Layout, new_layout: Layout) -> (
        Self,
        Result<usize, AllocError>,
    ) {
        (
            Self::of(
                self.spec_next(),
                self.spec_end(),
                with_block(self.lent().remove((ptr, old_layout)), ptr, new_layout),
            ),
            Ok(ptr),
        )
    }

    /// The block is struck from the blocks lent out. Its addresses are not
    /// lent out again.
    open spec fn release(&self, ptr: usize, layout: Layout) -> Self {
        Self::of(self.spec_next(), self.spec_end(), self.lent().remove((ptr, layout)))
    }

    fn allocate(&mut self, layout: Layout) -> (r: Result<usize, AllocError>) {
        proof {
            use_type_invariant(&*self);
        }
        match self.place(layout) {
            Some(start) => {
                self.next = start + layout.size();
                if layout.size() > 0 {
                    self.lent = Ghost(self.lent@.insert((start, layout)));
                }
                Ok(start)
            },
            None => Err(AllocError),
        }
    }

    fn allocate_zeroed(&mut self, layout: Layout) -> (r: Result<usize, AllocError>) {
        self.allocate(layout)
    }

    fn grow(&mut self, ptr: usize, old_layout: Layout, new_layout: Layout) -> (r: Result<
        usize,
        AllocError,
    >) {
        proof {
            use_type_invariant(&*self);
        }
        if new_layout.size() == old_layout.size() {
            proof {
                new_layout.lemma_same(old_layout);
            }
            Ok(ptr)
        } else if old_layout.size() > 0 && self.next - old_layout.size() == ptr {
            if new_layout.size() <= self.end - ptr {
                self.next = ptr + new_layout.size();
                self.lent = Ghost(self.lent@.remove((ptr, old_layout)).insert((ptr, new_layout)));
                Ok(ptr)
            } else {
                Err(AllocError)
            }
        } else {
            match self.place(new_layout) {
                Some(start) => {
                    self.next = start + new_layout.size();
                    self.lent = Ghost(
                        self.lent@.remove((ptr, old_layout)).insert((start, new_layout)),
                    );
                    Ok(start)
                },
                None => Err(AllocError),
            }
        }
    }

    fn shrink(&mut self, ptr: usize, old_layout: Layout, new_layout: Layout) -> (r: Result<
        usize,
        AllocError,
    >) {
        proof {
            use_type_invariant(&*self);
        }
        if new_layout.size() == old_layout.size() {
            proof {
                new_layout.lemma_same(old_layout);
                assert(self.lent@ =~= with_block(
                    self.lent@.remove((ptr, old_layout)),
                    ptr,
                    new_layout,
                ));
            }
        } else if new_layout.size() > 0 {
            self.lent = Ghost(self.lent@.remove((ptr, old_layout)).insert((ptr, new_layout)));
        } else {
            self.lent = Ghost(self.lent@.remove((ptr, old_layout)));
        }
        Ok(ptr)
    }

    fn deallocate(&mut self, ptr: usize, layout: Layout) {
        proof {
            use_type_invariant(&*self);
        }
        if layout.size() > 0 {
            self.lent = Ghost(self.lent@.remove((ptr, layout)));
        } else {
            proof {
                assert(self.lent@ =~= self.lent@.remove((ptr, layout)));
            }
        }
    }
}

} // verus!
