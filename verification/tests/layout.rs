use collections::layout::{Layout, LayoutError};

#[test]
fn array_layout_multiplies_the_size() {
    let layout = Layout::array::<u32>(4).unwrap();
    assert_eq!(layout.size(), 16);
    assert_eq!(layout.align(), std::mem::align_of::<u32>());
    let layout = Layout::array::<[u8; 3]>(5).unwrap();
    assert_eq!(layout.size(), 15);
    assert_eq!(layout.align(), 1);
}

#[test]
fn array_layout_of_nothing_is_empty() {
    let layout = Layout::array::<u64>(0).unwrap();
    assert_eq!(layout.size(), 0);
    assert_eq!(layout.align(), std::mem::align_of::<u64>());
}

#[test]
fn array_layout_of_zero_sized_elements_is_empty() {
    let layout = Layout::array::<()>(usize::MAX).unwrap();
    assert_eq!(layout.size(), 0);
    assert_eq!(layout.align(), 1);
}

#[test]
fn array_layout_stops_at_the_largest_signed_size() {
    let most = isize::MAX as usize;
    assert_eq!(Layout::array::<u8>(most).unwrap().size(), most);
    assert_eq!(Layout::array::<u8>(most + 1), Err(LayoutError));
    assert_eq!(Layout::array::<u16>(most / 2).unwrap().size(), most - 1);
    assert_eq!(Layout::array::<u16>(most / 2 + 1), Err(LayoutError));
    assert_eq!(Layout::array::<u64>(usize::MAX), Err(LayoutError));
}

#[test]
fn layouts_of_one_size_and_alignment_are_equal() {
    assert_eq!(Layout::array::<u32>(2).unwrap(), Layout::array::<[u32; 2]>(1).unwrap());
    assert_ne!(Layout::array::<u32>(2).unwrap(), Layout::array::<u32>(3).unwrap());
}
