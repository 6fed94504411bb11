//! Size and alignment of a block of memory.

use vstd::prelude::*;

verus! {

/// The size in bytes and the alignment of a block of memory.
///
/// A layout is never larger than `isize::MAX` bytes and its alignment is
/// never zero.
#[derive(Clone, Copy, Debug, PartialEq, Eq, Structural)]
pub struct Layout {
    size: usize,
    align: usize,
}

/// No layout exists for the array that was asked for: it would be larger
/// than `isize::MAX` bytes.
#[derive(Clone, Copy, Debug, PartialEq, Eq, Structural)]
pub struct LayoutError;

/// The number of bytes that `n` values of type `T` occupy side by side.
pub open spec fn array_bytes<T>(n: int) -> int {
    n * vstd::layout::size_of::<T>()
}

impl Layout {
    #[verifier::type_invariant]
    spec fn inv(&self) -> bool {
        self.size <= isize::MAX && self.align >= 1
    }

    /// The size of the block in bytes.
    pub closed spec fn spec_size(&self) -> usize {
        self.size
    }

    /// The alignment of the block in bytes.
    pub closed spec fn spec_align(&self) -> usize {
        self.align
    }

    /// The layout with the given size and alignment.
    pub closed spec fn of(size: usize, align: usize) -> Layout {
        Layout { size, align }
    }

    /// The layout of `n` values of type `T` side by side, where there is one.
    pub open spec fn spec_array<T>(n: usize) -> Option<Layout> {
        if array_bytes::<T>(n as int) <= isize::MAX {
            Some(
                Self::of(
                    array_bytes::<T>(n as int) as usize,
                    vstd::layout::align_of::<T>() as usize,
                ),
            )
        } else {
            None
        }
    }

    /// A layout is its size and its alignment, and nothing else.
    pub proof fn lemma_of(size: usize, align: usize)
        ensures
            Self::of(size, align).size() == size,
            Self::of(size, align).align() == align,
    {
    }

    /// Two layouts of one size and one alignment are the same layout.
    pub proof fn lemma_same(self, other: Layout)
        requires
            self.size() == other.size(),
            self.align() == other.align(),
        ensures
            self == other,
    {
    }

    /// The size of the block in bytes.
    #[verifier::when_used_as_spec(spec_size)]
    pub fn size(&self) -> (r: usize)
        ensures
            r == self.spec_size(),
            r <= isize::MAX,
    {
        proof {
            use_type_invariant(self);
        }
        self.size
    }

    /// The alignment of the block in bytes.
    #[verifier::when_used_as_spec(spec_align)]
    pub fn align(&self) -> (r: usize)
        ensures
            r == self.spec_align(),
            r >= 1,
    {
        proof {
            use_type_invariant(self);
        }
        self.align
    }

    /// The layout of `[T; n]`, or an error where it would be larger than
    /// `isize::MAX` bytes.
    pub fn array<T>(n: usize) -> (r: Result<Layout, LayoutError>)
        ensures
            match r {
                Ok(layout) => Self::spec_array::<T>(n) == Some(layout),
                Err(_) => Self::spec_array::<T>(n) is None,
            },
    {
        vstd::layout::layout_for_type_is_valid::<T>();
        let elem: usize = core::mem::size_of::<T>();
        let align: usize = core::mem::align_of::<T>();
        assert(elem * n == n * elem) by (nonlinear_arith);
        match elem.checked_mul(n) {
            Some(bytes) => {
                if bytes <= isize::MAX as usize {
                    Ok(Layout { size: bytes, align })
                } else {
                    Err(LayoutError)
                }
            },
            None => Err(LayoutError),
        }
    }
}

} // verus!
