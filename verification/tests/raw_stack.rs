use collections::allocator::{Allocator, Global};
use collections::arena::Arena;
use collections::error::TryReserveError;
use collections::layout::{Layout, LayoutError};
use collections::raw_stack::{alloc_guard, finish_grow, handle_reserve, RawStack};

#[test]
fn new_buffer_has_no_block() {
    let buf: RawStack<u32> = RawStack::new();
    assert_eq!(buf.capacity(), 0);
    assert_eq!(buf.ptr(), std::mem::align_of::<u32>());
    assert_eq!(*buf.allocator(), Global);
}

#[test]
fn new_in_keeps_the_allocator_untouched() {
    let arena = Arena::new(4096, 100).unwrap();
    let buf: RawStack<u32, Arena> = RawStack::new_in(arena);
    assert_eq!(buf.capacity(), 0);
    assert_eq!(buf.ptr(), std::mem::align_of::<u32>());
    assert_eq!(buf.allocator().remaining(), 100);
}

#[test]
fn with_capacity_has_the_capacity_asked_for() {
    let buf: RawStack<u32> = RawStack::with_capacity(5);
    assert_eq!(buf.capacity(), 5);
    assert!(buf.ptr() != 0);
    let zeroed: RawStack<u32> = RawStack::with_capacity_zeroed(6);
    assert_eq!(zeroed.capacity(), 6);
    assert!(zeroed.ptr() != 0);
    let none: RawStack<u32> = RawStack::with_capacity(0);
    assert_eq!(none.capacity(), 0);
}

#[test]
fn with_capacity_in_takes_one_block() {
    let arena = Arena::new(4096, 100).unwrap();
    let buf: RawStack<u32, Arena> = RawStack::with_capacity_in(5, arena);
    assert_eq!(buf.capacity(), 5);
    assert_eq!(buf.ptr(), 4096);
    assert_eq!(buf.allocator().remaining(), 80);
    let arena = Arena::new(4096, 100).unwrap();
    let zeroed: RawStack<u64, Arena> = RawStack::with_capacity_zeroed_in(2, arena);
    assert_eq!(zeroed.capacity(), 2);
    assert_eq!(zeroed.ptr(), 4096);
    assert_eq!(zeroed.allocator().remaining(), 84);
}

#[test]
fn zero_sized_buffer_reports_all_the_capacity() {
    let arena = Arena::new(4096, 100).unwrap();
    let mut buf: RawStack<(), Arena> = RawStack::with_capacity_in(7, arena);
    assert_eq!(buf.capacity(), usize::MAX);
    assert_eq!(buf.ptr(), 1);
    assert!(!buf.needs_to_grow(0, usize::MAX));
    assert!(buf.needs_to_grow(1, usize::MAX));
    assert_eq!(buf.try_reserve(1, usize::MAX), Err(TryReserveError::CapacityOverflow));
    assert_eq!(buf.try_reserve_exact(2, usize::MAX), Err(TryReserveError::CapacityOverflow));
    assert_eq!(buf.try_reserve(5, 10), Ok(()));
    buf.reserve(5, 10);
    buf.reserve_exect(5, 10);
    buf.shrink_to_fit(3);
    assert_eq!(buf.capacity(), usize::MAX);
    assert_eq!(buf.ptr(), 1);
    assert_eq!(buf.allocator().remaining(), 100);
}

#[test]
fn least_capacity_goes_by_the_size_of_the_elements() {
    assert_eq!(RawStack::<u8>::min_non_zero_cap(), 8);
    assert_eq!(RawStack::<bool>::min_non_zero_cap(), 8);
    assert_eq!(RawStack::<u16>::min_non_zero_cap(), 4);
    assert_eq!(RawStack::<[u8; 1024]>::min_non_zero_cap(), 4);
    assert_eq!(RawStack::<[u8; 1025]>::min_non_zero_cap(), 1);
    assert_eq!(RawStack::<()>::min_non_zero_cap(), 4);
}

#[test]
fn needs_to_grow_compares_with_the_room_left() {
    let buf: RawStack<u32> = RawStack::with_capacity(10);
    assert!(!buf.needs_to_grow(0, 10));
    assert!(buf.needs_to_grow(0, 11));
    assert!(!buf.needs_to_grow(4, 6));
    assert!(buf.needs_to_grow(4, 7));
    assert!(!buf.needs_to_grow(10, 0));
    assert!(buf.needs_to_grow(10, 1));
}

#[test]
fn needs_to_grow_wraps_when_the_length_is_beyond_the_capacity() {
    let buf: RawStack<u32> = RawStack::with_capacity(10);
    assert!(!buf.needs_to_grow(11, 5));
    assert!(!buf.needs_to_grow(11, usize::MAX));
    assert!(!buf.needs_to_grow(12, usize::MAX - 1));
    assert!(buf.needs_to_grow(12, usize::MAX));
}

#[test]
fn reserve_grows_by_doubling_at_least() {
    let mut buf: RawStack<u32> = RawStack::new();
    buf.reserve(0, 1);
    assert_eq!(buf.capacity(), 4);
    buf.reserve(4, 1);
    assert_eq!(buf.capacity(), 8);
    buf.reserve(8, 0);
    assert_eq!(buf.capacity(), 8);
    buf.reserve(8, 20);
    assert_eq!(buf.capacity(), 28);
    buf.reserve(2, 26);
    assert_eq!(buf.capacity(), 28);
}

#[test]
fn reserve_for_push_grows_without_asking_whether_to() {
    let mut buf: RawStack<u8> = RawStack::new();
    buf.reserve_for_push(0);
    assert_eq!(buf.capacity(), 8);
    buf.reserve_for_push(8);
    assert_eq!(buf.capacity(), 16);
    buf.reserve_for_push(3);
    assert_eq!(buf.capacity(), 32);
}

#[test]
fn reserve_exect_grows_to_what_is_required() {
    let mut buf: RawStack<u32> = RawStack::new();
    buf.reserve_exect(0, 3);
    assert_eq!(buf.capacity(), 3);
    buf.reserve_exect(3, 2);
    assert_eq!(buf.capacity(), 5);
    buf.reserve_exect(1, 4);
    assert_eq!(buf.capacity(), 5);
}

#[test]
fn try_reserve_reports_capacity_overflow() {
    let mut buf: RawStack<u32> = RawStack::with_capacity(4);
    let ptr = buf.ptr();
    assert_eq!(buf.try_reserve(1, usize::MAX), Err(TryReserveError::CapacityOverflow));
    assert_eq!(buf.try_reserve_exact(1, usize::MAX), Err(TryReserveError::CapacityOverflow));
    let too_many = (isize::MAX as usize) / 4 + 1;
    assert_eq!(buf.try_reserve(0, too_many), Err(TryReserveError::CapacityOverflow));
    assert_eq!(buf.try_reserve_exact(0, too_many), Err(TryReserveError::CapacityOverflow));
    assert_eq!(buf.capacity(), 4);
    assert_eq!(buf.ptr(), ptr);
    assert_eq!(buf.try_reserve_exact(0, too_many - 1), Ok(()));
    assert_eq!(buf.capacity(), too_many - 1);
}

#[test]
fn try_reserve_reports_the_layout_that_was_declined() {
    let arena = Arena::new(4096, 64).unwrap();
    let mut buf: RawStack<u64, Arena> = RawStack::new_in(arena);
    assert_eq!(buf.try_reserve(0, 4), Ok(()));
    assert_eq!(buf.capacity(), 4);
    assert_eq!(buf.ptr(), 4096);
    let declined = Layout::array::<u64>(9).unwrap();
    assert_eq!(declined.size(), 72);
    assert_eq!(
        buf.try_reserve(4, 5),
        Err(TryReserveError::AllocError { layout: declined })
    );
    assert_eq!(buf.capacity(), 4);
    assert_eq!(buf.ptr(), 4096);
    assert_eq!(buf.try_reserve(4, 4), Ok(()));
    assert_eq!(buf.capacity(), 8);
    assert_eq!(buf.ptr(), 4096);
    assert_eq!(buf.allocator().remaining(), 0);
}

#[test]
fn shrink_to_fit_cuts_the_block_down() {
    let arena = Arena::new(4096, 64).unwrap();
    let mut buf: RawStack<u64, Arena> = RawStack::with_capacity_in(8, arena);
    buf.shrink_to_fit(8);
    assert_eq!(buf.capacity(), 8);
    buf.shrink_to_fit(3);
    assert_eq!(buf.capacity(), 3);
    assert_eq!(buf.ptr(), 4096);
    buf.shrink_to_fit(0);
    assert_eq!(buf.capacity(), 0);
    assert!(buf.ptr() != 0);
    buf.shrink_to_fit(0);
    assert_eq!(buf.capacity(), 0);
}

#[test]
fn alloc_guard_passes_what_a_layout_can_hold() {
    assert_eq!(alloc_guard(0), Ok(()));
    assert_eq!(alloc_guard(isize::MAX as usize), Ok(()));
    if usize::BITS < 64 {
        assert_eq!(alloc_guard(isize::MAX as usize + 1), Err(TryReserveError::CapacityOverflow));
        assert_eq!(alloc_guard(usize::MAX), Err(TryReserveError::CapacityOverflow));
    } else {
        assert_eq!(alloc_guard(isize::MAX as usize + 1), Ok(()));
        assert_eq!(alloc_guard(usize::MAX), Ok(()));
    }
}

#[test]
fn handle_reserve_takes_a_success() {
    handle_reserve(Ok(()));
}

#[test]
fn finish_grow_without_a_layout_is_a_capacity_overflow() {
    let mut arena = Arena::new(4096, 64).unwrap();
    let result = finish_grow(Err(LayoutError), None, &mut arena);
    assert_eq!(result, Err(TryReserveError::CapacityOverflow));
    assert_eq!(arena.remaining(), 64);
}

#[test]
fn finish_grow_allocates_where_there_is_no_block() {
    let mut arena = Arena::new(4096, 64).unwrap();
    let layout = Layout::array::<u32>(4).unwrap();
    assert_eq!(finish_grow(Ok(layout), None, &mut arena), Ok(4096));
    assert_eq!(arena.remaining(), 48);
    assert_eq!(finish_grow(Ok(layout), None, &mut arena), Ok(4112));
    assert_eq!(arena.remaining(), 32);
}

#[test]
fn finish_grow_extends_the_block_that_there_is() {
    let mut arena = Arena::new(4096, 64).unwrap();
    let small = Layout::array::<u32>(4).unwrap();
    let large = Layout::array::<u32>(8).unwrap();
    let ptr = arena.allocate(small).unwrap();
    assert_eq!(finish_grow(Ok(large), Some((ptr, small)), &mut arena), Ok(ptr));
    assert_eq!(arena.remaining(), 32);
}

#[test]
fn finish_grow_reports_the_layout_that_was_declined() {
    let mut arena = Arena::new(4096, 24).unwrap();
    let small = Layout::array::<u32>(4).unwrap();
    let large = Layout::array::<u32>(8).unwrap();
    let ptr = arena.allocate(small).unwrap();
    assert_eq!(
        finish_grow(Ok(large), Some((ptr, small)), &mut arena),
        Err(TryReserveError::AllocError { layout: large })
    );
    assert_eq!(arena.remaining(), 8);
    assert_eq!(
        finish_grow(Ok(large), None, &mut arena),
        Err(TryReserveError::AllocError { layout: large })
    );
    assert_eq!(arena.remaining(), 8);
}
