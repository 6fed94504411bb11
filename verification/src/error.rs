//! Why a reservation failed.

use vstd::prelude::*;
use crate::layout::Layout;

verus! {

/// The error of a fallible reservation. Whichever it is, the container is as
/// it was before the call.
#[derive(Clone, Copy, Debug, PartialEq, Eq, Structural)]
pub enum TryReserveError {
    /// The number of elements asked for, or the bytes they would occupy,
    /// cannot be represented.
    CapacityOverflow,
    /// The allocator declined the request for `layout`.
    AllocError { layout: Layout },
}

} // verus!
