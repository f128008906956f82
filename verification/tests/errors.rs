use dyn_list::{AllocError, AllocateError, Allocator, Budget, Global, Layout, LayoutError};

#[test]
fn layout_error_carries_no_layout() {
    let error = AllocateError::new_layout(LayoutError);
    assert_eq!(error.layout(), None);
}

#[test]
fn alloc_error_carries_the_declined_layout() {
    let layout = Layout::from_size_align(24, 8).unwrap();
    let error = AllocateError::new_alloc(AllocError, layout);
    assert_eq!(error.layout(), Some(layout));
}

#[test]
fn value_goes_in_and_comes_out() {
    let layout = Layout::from_size_align(24, 8).unwrap();
    let error = AllocateError::new_alloc(AllocError, layout).with_value(String::from("kept"));
    assert_eq!(error.layout(), Some(layout));
    let (value, bare) = error.into_parts();
    assert_eq!(value, "kept");
    assert_eq!(bare.layout(), Some(layout));
    assert_eq!(bare.with_value(5_u8).into_value(), 5);
}

#[test]
fn map_changes_the_value_only() {
    let error = AllocateError::new_layout(LayoutError).with_value(20_u32);
    let mapped = error.map(|value| value + 1);
    assert_eq!(mapped.layout(), None);
    assert_eq!(mapped.into_value(), 21);
}

#[test]
fn unwrap_result_hands_out_the_value() {
    let result: Result<u8, AllocateError> = Ok(3);
    assert_eq!(AllocateError::unwrap_result(result), 3);
}

#[test]
fn global_grants_everything() {
    let mut allocator = Global;
    let layout = Layout::from_size_align(isize::MAX as usize, 1).unwrap();
    assert_eq!(allocator.allocate(layout), Ok(()));
    allocator.deallocate(layout);
}

#[test]
fn budget_counts_bytes() {
    let mut allocator = Budget::new(10);
    let six = Layout::from_size_align(6, 2).unwrap();
    assert_eq!(allocator.remaining(), 10);
    assert_eq!(allocator.allocate(six), Ok(()));
    assert_eq!(allocator, Budget { limit: 10, used: 6 });
    assert_eq!(allocator.allocate(six), Err(AllocError));
    assert_eq!(allocator, Budget { limit: 10, used: 6 });
    assert_eq!(allocator.remaining(), 4);
    allocator.deallocate(six);
    assert_eq!(allocator, Budget { limit: 10, used: 0 });
    allocator.deallocate(six);
    assert_eq!(allocator, Budget { limit: 10, used: 0 });
}

#[test]
fn errors_are_compared_and_cloned() {
    let layout = Layout::from_size_align(24, 8).unwrap();
    let denied = AllocateError::new_alloc(AllocError, layout).with_value(1_u8);
    assert_eq!(denied.clone(), denied);
    assert_ne!(denied, AllocateError::new_layout(LayoutError).with_value(1_u8));
    assert_ne!(denied, AllocateError::new_alloc(AllocError, layout).with_value(2_u8));
}
