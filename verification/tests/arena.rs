use collections::allocator::{AllocError, Allocator, Global};
use collections::arena::Arena;
use collections::layout::Layout;

#[test]
fn arena_needs_a_start_and_a_range_that_exists() {
    assert!(Arena::new(0, 10).is_none());
    assert!(Arena::new(1, usize::MAX).is_none());
    assert!(Arena::new(1, usize::MAX - 1).is_some());
    assert_eq!(Arena::new(4096, 10).unwrap().remaining(), 10);
    assert_eq!(Arena::new(4096, 0).unwrap().remaining(), 0);
}

#[test]
fn arena_lends_blocks_one_after_another() {
    let mut arena = Arena::new(4096, 64).unwrap();
    let layout = Layout::array::<u64>(2).unwrap();
    assert_eq!(arena.allocate(layout), Ok(4096));
    assert_eq!(arena.allocate(layout), Ok(4112));
    assert_eq!(arena.allocate_zeroed(layout), Ok(4128));
    assert_eq!(arena.remaining(), 16);
    assert_eq!(arena.allocate(layout), Ok(4144));
    assert_eq!(arena.remaining(), 0);
    assert_eq!(arena.allocate(layout), Err(AllocError));
    assert_eq!(arena.allocate_zeroed(layout), Err(AllocError));
}

#[test]
fn arena_aligns_the_blocks() {
    let mut arena = Arena::new(4097, 64).unwrap();
    let bytes = Layout::array::<u8>(3).unwrap();
    let words = Layout::array::<u64>(1).unwrap();
    assert_eq!(arena.allocate(bytes), Ok(4097));
    assert_eq!(arena.allocate(words), Ok(4104));
    assert_eq!(arena.remaining(), 49);
    assert_eq!(arena.allocate(bytes), Ok(4112));
    assert_eq!(arena.allocate(words), Ok(4120));
}

#[test]
fn arena_declines_what_passes_its_end() {
    let mut arena = Arena::new(4097, 14).unwrap();
    let words = Layout::array::<u64>(1).unwrap();
    assert_eq!(arena.allocate(words), Err(AllocError));
    assert_eq!(arena.remaining(), 14);
    let mut arena = Arena::new(4097, 15).unwrap();
    assert_eq!(arena.allocate(words), Ok(4104));
    assert_eq!(arena.remaining(), 0);
}

#[test]
fn arena_extends_the_last_block_where_it_stands() {
    let mut arena = Arena::new(4096, 64).unwrap();
    let two = Layout::array::<u64>(2).unwrap();
    let four = Layout::array::<u64>(4).unwrap();
    let nine = Layout::array::<u64>(9).unwrap();
    let ptr = arena.allocate(two).unwrap();
    assert_eq!(arena.grow(ptr, two, four), Ok(ptr));
    assert_eq!(arena.remaining(), 32);
    assert_eq!(arena.grow(ptr, four, nine), Err(AllocError));
    assert_eq!(arena.remaining(), 32);
    assert_eq!(arena.grow(ptr, four, four), Ok(ptr));
    assert_eq!(arena.remaining(), 32);
}

#[test]
fn arena_moves_a_block_that_is_not_the_last() {
    let mut arena = Arena::new(4096, 64).unwrap();
    let two = Layout::array::<u64>(2).unwrap();
    let three = Layout::array::<u64>(3).unwrap();
    let first = arena.allocate(two).unwrap();
    let second = arena.allocate(two).unwrap();
    assert_eq!(second, 4112);
    assert_eq!(arena.grow(first, two, three), Ok(4128));
    assert_eq!(arena.remaining(), 8);
    assert_eq!(arena.grow(second, two, three), Err(AllocError));
    assert_eq!(arena.remaining(), 8);
}

#[test]
fn arena_shrinks_a_block_where_it_stands() {
    let mut arena = Arena::new(4096, 64).unwrap();
    let four = Layout::array::<u64>(4).unwrap();
    let one = Layout::array::<u64>(1).unwrap();
    let none = Layout::array::<u64>(0).unwrap();
    let ptr = arena.allocate(four).unwrap();
    assert_eq!(arena.shrink(ptr, four, one), Ok(ptr));
    assert_eq!(arena.shrink(ptr, one, one), Ok(ptr));
    assert_eq!(arena.shrink(ptr, one, none), Ok(ptr));
    assert_eq!(arena.remaining(), 32);
    assert_eq!(arena.allocate(one), Ok(4128));
}

#[test]
fn arena_takes_a_block_back() {
    let mut arena = Arena::new(4096, 64).unwrap();
    let four = Layout::array::<u64>(4).unwrap();
    let ptr = arena.allocate(four).unwrap();
    arena.deallocate(ptr, four);
    assert_eq!(arena.remaining(), 32);
    assert_eq!(arena.allocate(four), Ok(4128));
}

#[test]
fn arena_gives_an_empty_block_an_aligned_address() {
    let mut arena = Arena::new(4097, 64).unwrap();
    let none = Layout::array::<u64>(0).unwrap();
    assert_eq!(arena.allocate(none), Ok(4104));
    assert_eq!(arena.allocate(none), Ok(4104));
    let one = Layout::array::<u64>(1).unwrap();
    assert_eq!(arena.grow(4104, none, one), Ok(4104));
    assert_eq!(arena.remaining(), 49);
}

#[test]
fn the_heap_grants_every_request() {
    let mut heap = Global;
    let layout = Layout::array::<u64>(4).unwrap();
    let larger = Layout::array::<u64>(8).unwrap();
    let ptr = heap.allocate(layout).unwrap();
    assert!(ptr != 0);
    assert_eq!(ptr % layout.align(), 0);
    let zeroed = heap.allocate_zeroed(layout).unwrap();
    assert!(zeroed != 0);
    assert_eq!(zeroed % layout.align(), 0);
    let moved = heap.grow(ptr, layout, larger).unwrap();
    assert!(moved != 0);
    assert_eq!(moved % layout.align(), 0);
    let back = heap.shrink(moved, larger, layout).unwrap();
    assert!(back != 0);
    heap.deallocate(back, layout);
    let most = Layout::array::<u8>(isize::MAX as usize).unwrap();
    assert!(heap.allocate(most).is_ok());
}
