use dyn_list::layout::is_power_of_two;
use dyn_list::node::layout_from_value;
use dyn_list::{Header, Layout, LayoutError};

#[test]
fn from_size_align_takes_powers_of_two() {
    let layout = Layout::from_size_align(12, 4).unwrap_or_else(|_| panic!("12 by 4 exists"));
    assert_eq!(layout.size(), 12);
    assert_eq!(layout.align(), 4);
    assert_eq!(Layout::from_size_align(0, 1).map(|l| (l.size(), l.align())), Ok((0, 1)));
}

#[test]
fn from_size_align_refuses_other_alignments() {
    assert_eq!(Layout::from_size_align(8, 0), Err(LayoutError));
    assert_eq!(Layout::from_size_align(8, 3), Err(LayoutError));
    assert_eq!(Layout::from_size_align(8, 12), Err(LayoutError));
}

#[test]
fn from_size_align_refuses_sizes_past_the_limit() {
    let most = isize::MAX as usize;
    assert!(Layout::from_size_align(most, 1).is_ok());
    assert_eq!(Layout::from_size_align(most + 1, 1), Err(LayoutError));
    assert!(Layout::from_size_align(most - 7, 8).is_ok());
    assert_eq!(Layout::from_size_align(most - 6, 8), Err(LayoutError));
}

#[test]
fn powers_of_two() {
    assert!(is_power_of_two(1));
    assert!(is_power_of_two(2));
    assert!(is_power_of_two(1 << 20));
    assert!(!is_power_of_two(0));
    assert!(!is_power_of_two(6));
    assert!(!is_power_of_two(usize::MAX));
}

#[test]
fn new_is_the_layout_of_the_type() {
    assert_eq!(Layout::new::<u32>(), Layout::from_size_align(4, 4).unwrap());
    assert_eq!(Layout::new::<u8>(), Layout::from_size_align(1, 1).unwrap());
    assert_eq!(Layout::new::<()>().size(), 0);
}

#[test]
fn array_multiplies_the_size() {
    assert_eq!(Layout::array::<u32>(5), Layout::from_size_align(20, 4));
    assert_eq!(Layout::array::<u8>(0), Layout::from_size_align(0, 1));
    assert_eq!(Layout::array::<u64>(usize::MAX), Err(LayoutError));
    assert_eq!(Layout::array::<u64>(isize::MAX as usize / 8 + 1), Err(LayoutError));
    assert!(Layout::array::<u8>(isize::MAX as usize).is_ok());
}

#[test]
fn padding_reaches_the_next_multiple() {
    let layout = Layout::from_size_align(5, 1).unwrap();
    assert_eq!(layout.padding_needed_for(4), 3);
    assert_eq!(layout.padding_needed_for(1), 0);
    assert_eq!(layout.padding_needed_for(8), 3);
    let layout = Layout::from_size_align(8, 8).unwrap();
    assert_eq!(layout.padding_needed_for(8), 0);
    assert_eq!(layout.padding_needed_for(16), 8);
}

#[test]
fn extend_pads_before_and_not_after() {
    let first = Layout::from_size_align(5, 1).unwrap();
    let next = Layout::from_size_align(6, 4).unwrap();
    let (layout, offset) = first.extend(next).unwrap();
    assert_eq!(offset, 8);
    assert_eq!(layout.size(), 14);
    assert_eq!(layout.align(), 4);
    let (layout, offset) = next.extend(first).unwrap();
    assert_eq!(offset, 6);
    assert_eq!(layout.size(), 11);
    assert_eq!(layout.align(), 4);
}

#[test]
fn extend_refuses_what_does_not_fit() {
    let big = Layout::from_size_align(isize::MAX as usize - 7, 8).unwrap();
    let one = Layout::from_size_align(1, 1).unwrap();
    assert_eq!(big.extend(one), Err(LayoutError));
    assert!(one.extend(Layout::from_size_align(isize::MAX as usize - 15, 8).unwrap()).is_ok());
    assert_eq!(one.extend(big), Err(LayoutError));
}

#[test]
fn node_layout_is_header_then_descriptor_then_value() {
    let header = std::mem::size_of::<Header>();
    let word = std::mem::size_of::<usize>();
    let value = Layout::from_size_align(3, 1).unwrap();
    let (layout, metadata_offset, value_offset) = layout_from_value::<Header>(false, value).unwrap();
    assert_eq!(metadata_offset, header);
    assert_eq!(value_offset, header);
    assert_eq!(layout.size(), header + 3);
    assert_eq!(layout.align(), std::mem::align_of::<Header>());
    let (layout, metadata_offset, value_offset) = layout_from_value::<Header>(true, value).unwrap();
    assert_eq!(metadata_offset, header);
    assert_eq!(value_offset, header + word);
    assert_eq!(layout.size(), header + word + 3);
    let wide = Layout::from_size_align(16, 64).unwrap();
    let (layout, _, value_offset) = layout_from_value::<u8>(false, wide).unwrap();
    assert_eq!(value_offset, 64);
    assert_eq!(layout.size(), 80);
    assert_eq!(layout.align(), 64);
}

#[test]
fn node_layout_refuses_what_does_not_fit() {
    let big = Layout::from_size_align(isize::MAX as usize - 7, 8).unwrap();
    assert_eq!(layout_from_value::<Header>(false, big), Err(LayoutError));
    assert_eq!(layout_from_value::<Header>(true, big), Err(LayoutError));
}
