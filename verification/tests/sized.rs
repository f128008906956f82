use dyn_list::{Budget, DynList, Header, Layout};

fn values(list: &DynList<u32>) -> Vec<u32> {
    let mut out = Vec::new();
    let mut iter = list.iter();
    while let Some(value) = iter.next() {
        out.push(*value);
    }
    out
}

fn one_two_three() -> DynList<u32> {
    let mut list = DynList::<u32>::new();
    list.push_back(1);
    list.push_back(2);
    list.push_back(3);
    list
}

#[test]
fn sized_extend() {
    let mut list = DynList::<u8>::new();
    list.extend(vec![1_u8, 2, 3]);
}

#[test]
fn extend_keeps_the_order_of_the_items() {
    let mut list = DynList::<u8>::new();
    list.push_back(9);
    list.extend(vec![1_u8, 2, 3]);
    list.extend(Vec::new());
    assert_eq!(list.len(), 4);
    assert_eq!(list.pop_front(), Some(9));
    assert_eq!(list.pop_front(), Some(1));
    assert_eq!(list.pop_front(), Some(2));
    assert_eq!(list.pop_front(), Some(3));
    assert_eq!(list.pop_front(), None);
}

#[test]
fn push_back_three_then_pop_front() {
    let mut list = one_two_three();
    assert_eq!(values(&list), vec![1, 2, 3]);
    assert_eq!(list.pop_front(), Some(1));
    assert_eq!(values(&list), vec![2, 3]);
    assert_eq!(list.check_debug(), Some(2));
    assert_eq!(list.len(), 2);
}

#[test]
fn cursor_removal_moves_to_the_previous_element() {
    let mut list = one_two_three();
    {
        let mut cursor = list.cursor_back_mut();
        cursor.move_previous();
        assert_eq!(cursor.current(), Some(&mut 2));
        assert_eq!(cursor.remove_current(), Some(2));
        assert_eq!(cursor.current(), Some(&mut 1));
    }
    assert_eq!(values(&list), vec![1, 3]);
    assert_eq!(list.check_debug(), Some(2));
}

#[test]
fn push_back_then_pop_back_gives_the_value_back() {
    let mut list = DynList::<u32>::new();
    list.push_back(17);
    assert_eq!(list.pop_back(), Some(17));
    assert_eq!(list.len(), 0);
    assert!(list.front().is_none());
    assert!(list.back().is_none());

    let mut list = one_two_three();
    list.push_back(4);
    assert_eq!(list.pop_back(), Some(4));
    assert_eq!(values(&list), vec![1, 2, 3]);
}

#[test]
fn push_front_then_pop_front_gives_the_value_back() {
    let mut list = one_two_three();
    list.push_front(0);
    assert_eq!(values(&list), vec![0, 1, 2, 3]);
    assert_eq!(list.pop_front(), Some(0));
    assert_eq!(values(&list), vec![1, 2, 3]);
}

#[test]
fn iterating_twice_yields_the_same_values() {
    let list = one_two_three();
    let first = values(&list);
    let second = values(&list);
    assert_eq!(first, second);
    assert_eq!(first, vec![1, 2, 3]);
}

#[test]
fn iteration_from_both_ends_meets_in_the_middle() {
    let list = one_two_three();
    let mut iter = list.iter();
    assert_eq!(iter.next(), Some(&1));
    assert_eq!(iter.next_back(), Some(&3));
    assert_eq!(iter.next_back(), Some(&2));
    assert_eq!(iter.next(), None);
    assert_eq!(iter.next_back(), None);
}

#[test]
fn iter_mut_writes_through() {
    let mut list = one_two_three();
    {
        let mut iter = list.iter_mut();
        while let Some(value) = iter.next() {
            *value *= 10;
        }
    }
    assert_eq!(values(&list), vec![10, 20, 30]);
    {
        let mut iter = list.iter_mut();
        if let Some(value) = iter.next_back() {
            *value += 1;
        }
    }
    assert_eq!(values(&list), vec![10, 20, 31]);
}

#[test]
fn into_iter_takes_the_values_out() {
    let list = one_two_three();
    let mut iter = list.into_iter();
    assert_eq!(iter.next(), Some(1));
    assert_eq!(iter.next_back(), Some(3));
    assert_eq!(iter.remainder().len(), 1);
    let mut rest = iter.take_remainder();
    assert_eq!(rest.pop_front(), Some(2));
    assert_eq!(rest.pop_front(), None);
}

#[test]
fn cursor_goes_round_in_one_step_more_than_the_length() {
    let list = one_two_three();
    let mut cursor = list.cursor_front();
    cursor.move_previous();
    assert!(cursor.current().is_none());
    cursor.move_next();
    assert_eq!(cursor.current(), Some(&1));
    cursor.move_next();
    assert_eq!(cursor.current(), Some(&2));
    cursor.move_next();
    assert_eq!(cursor.current(), Some(&3));
    cursor.move_next();
    assert!(cursor.current().is_none());
    cursor.move_previous();
    assert_eq!(cursor.current(), Some(&3));
    cursor.move_previous();
    cursor.move_previous();
    assert_eq!(cursor.current(), Some(&1));
    cursor.move_previous();
    assert!(cursor.current().is_none());
}

#[test]
fn cursor_on_the_empty_list_stays_on_the_ghost() {
    let list = DynList::<u32>::new();
    let mut cursor = list.cursor_front();
    assert!(cursor.current().is_none());
    cursor.move_next();
    assert!(cursor.current().is_none());
    cursor.move_previous();
    assert!(cursor.current().is_none());
    let cursor = list.cursor_back();
    assert!(cursor.current().is_none());
    assert!(cursor.as_list().front().is_none());
}

#[test]
fn cursor_inserts_before_and_after() {
    let mut list = one_two_three();
    {
        let mut cursor = list.cursor_front_mut();
        cursor.move_next();
        cursor.insert_before(10);
        assert_eq!(cursor.current(), Some(&mut 2));
        cursor.insert_after(20);
        assert_eq!(cursor.current(), Some(&mut 2));
        cursor.move_next();
        assert_eq!(cursor.current(), Some(&mut 20));
    }
    assert_eq!(values(&list), vec![1, 10, 2, 20, 3]);
    assert_eq!(list.check_debug(), Some(list.len()));
}

#[test]
fn cursor_on_the_ghost_inserts_at_the_ends() {
    let mut list = one_two_three();
    {
        let mut cursor = list.cursor_back_mut();
        cursor.move_next();
        assert!(cursor.current().is_none());
        cursor.insert_before(4);
        cursor.insert_after(0);
        assert!(cursor.current().is_none());
        assert_eq!(cursor.as_list().len(), 5);
        assert_eq!(cursor.as_cursor().current(), None);
    }
    assert_eq!(values(&list), vec![0, 1, 2, 3, 4]);
}

#[test]
fn cursor_removes_the_only_element() {
    let mut list = DynList::<u32>::new();
    list.push_back(5);
    {
        let mut cursor = list.cursor_front_mut();
        assert_eq!(cursor.remove_current(), Some(5));
        assert!(cursor.current().is_none());
        assert_eq!(cursor.remove_current(), None);
        assert!(!cursor.delete_current());
    }
    assert_eq!(list.len(), 0);
    assert_eq!(list.check_debug(), Some(list.len()));
}

#[test]
fn cursor_deletes_the_front() {
    let mut list = one_two_three();
    {
        let mut cursor = list.cursor_front_mut();
        assert!(cursor.delete_current());
        assert!(cursor.current().is_none());
        cursor.move_next();
        assert_eq!(cursor.current(), Some(&mut 2));
    }
    assert_eq!(values(&list), vec![2, 3]);
}

#[test]
fn delete_front_and_back() {
    let mut list = one_two_three();
    assert!(list.delete_front());
    assert!(list.delete_back());
    assert_eq!(values(&list), vec![2]);
    assert!(list.delete_back());
    assert!(!list.delete_back());
    assert!(!list.delete_front());
}

#[test]
fn front_mut_and_back_mut_write_through() {
    let mut list = one_two_three();
    if let Some(front) = list.front_mut() {
        *front = 7;
    }
    if let Some(back) = list.back_mut() {
        *back = 9;
    }
    assert_eq!(values(&list), vec![7, 2, 9]);
    let mut empty = DynList::<u32>::new();
    assert!(empty.front_mut().is_none());
    assert!(empty.back_mut().is_none());
}

#[test]
fn boxed_pops() {
    let mut list = one_two_three();
    assert_eq!(list.pop_front_boxed(), Some(Box::new(1)));
    assert_eq!(list.pop_back_boxed(), Some(Box::new(3)));
    assert_eq!(values(&list), vec![2]);
    let mut iter = list.into_iter_boxed();
    assert_eq!(iter.next(), Some(Box::new(2)));
    assert_eq!(iter.next_back(), None);
    assert_eq!(iter.remainder().len(), 0);
    assert_eq!(iter.take_remainder().len(), 0);
}

#[test]
fn cursor_removes_boxed() {
    let mut list = one_two_three();
    {
        let mut cursor = list.cursor_back_mut();
        assert_eq!(cursor.remove_current_boxed(), Some(Box::new(3)));
        assert_eq!(cursor.current(), Some(&mut 2));
    }
    assert_eq!(values(&list), vec![1, 2]);
}

#[test]
fn failed_push_leaves_the_list_and_hands_the_value_back() {
    let node_size = std::mem::size_of::<Header>() + 8;
    let mut list = DynList::<u64, Budget>::new_in(Budget::new(2 * node_size));
    assert!(list.try_push_back(1).is_ok());
    assert!(list.try_push_front(0).is_ok());
    assert_eq!(list.allocator().used, 2 * node_size);
    assert_eq!(list.allocator().remaining(), 0);
    let error = match list.try_push_back(7) {
        Ok(()) => panic!("the allocator has nothing left to give"),
        Err(error) => error,
    };
    let declined = error.layout();
    assert_eq!(declined.map(|layout| layout.size()), Some(node_size));
    assert_eq!(declined.map(|layout| layout.align()), Some(8));
    assert_eq!(error.into_value(), 7);
    assert_eq!(list.len(), 2);
    assert_eq!(list.front(), Some(&0));
    assert_eq!(list.back(), Some(&1));
    assert_eq!(list.allocator().used, 2 * node_size);
    let error = match list.try_push_front(8) {
        Ok(()) => panic!("the allocator has nothing left to give"),
        Err(error) => error,
    };
    assert_eq!(error.into_value(), 8);
    assert_eq!(list.check_debug(), Some(list.len()));
    assert_eq!(list.pop_front(), Some(0));
    assert_eq!(list.allocator().used, node_size);
    assert!(list.try_push_back(7).is_ok());
    assert_eq!(list.len(), 2);
}

#[test]
fn failed_cursor_insert_leaves_the_list_and_hands_the_value_back() {
    let node_size = std::mem::size_of::<Header>() + 8;
    let mut list = DynList::<u64, Budget>::new_in(Budget::new(node_size));
    list.push_back(1);
    {
        let mut cursor = list.cursor_front_mut();
        let error = match cursor.try_insert_after(2) {
            Ok(()) => panic!("the allocator has nothing left to give"),
            Err(error) => error,
        };
        assert_eq!(error.into_value(), 2);
        let error = match cursor.try_insert_before(3) {
            Ok(()) => panic!("the allocator has nothing left to give"),
            Err(error) => error,
        };
        let (value, error) = error.into_parts();
        assert_eq!(value, 3);
        assert!(error.layout().is_some());
        assert_eq!(cursor.current(), Some(&mut 1));
    }
    assert_eq!(list.len(), 1);
    assert_eq!(list.front(), Some(&1));
}

#[test]
fn failed_boxing_leaves_the_node_in_the_list() {
    let node_size = std::mem::size_of::<Header>() + 8;
    let mut list = DynList::<u64, Budget>::new_in(Budget::new(node_size + 4));
    list.push_back(1);
    match list.try_pop_front_boxed() {
        Some(Err(error)) => assert_eq!(error.layout(), Some(Layout::new::<u64>())),
        _ => panic!("four bytes are left, the value takes eight"),
    }
    assert_eq!(list.len(), 1);
    assert_eq!(list.front(), Some(&1));
    match list.try_pop_back_boxed() {
        Some(Err(_)) => {}
        _ => panic!("four bytes are left, the value takes eight"),
    }
    {
        let mut cursor = list.cursor_front_mut();
        match cursor.try_remove_current_boxed() {
            Some(Err(_)) => {}
            _ => panic!("four bytes are left, the value takes eight"),
        }
        assert_eq!(cursor.current(), Some(&mut 1));
    }
    assert_eq!(list.check_debug(), Some(list.len()));
    assert_eq!(list.len(), 1);
}

#[test]
fn staged_node_is_written_then_linked_or_given_back() {
    let mut list = one_two_three();
    {
        let mut node = list.allocate_uninit_sized_front();
        assert!(node.as_ref().is_none());
        assert_eq!(node.metadata(), None);
        node.write(0);
        assert_eq!(node.as_ref(), Some(&0));
        node.insert();
    }
    assert_eq!(values(&list), vec![0, 1, 2, 3]);
    {
        let node = list.allocate_uninit_sized_back();
        node.deallocate();
    }
    assert_eq!(values(&list), vec![0, 1, 2, 3]);
    {
        let mut node = match list.pop_back_node() {
            Some(node) => node,
            None => panic!("the list holds four values"),
        };
        assert_eq!(node.as_ref(), Some(&3));
        node.drop_in_place();
        assert!(node.as_ref().is_none());
        node.write(30);
        node.insert();
    }
    assert_eq!(values(&list), vec![0, 1, 2, 30]);
    {
        let node = match list.pop_front_node() {
            Some(node) => node,
            None => panic!("the list holds four values"),
        };
        assert_eq!(node.take(), 0);
    }
    assert_eq!(values(&list), vec![1, 2, 30]);
    assert_eq!(list.check_debug(), Some(list.len()));
}

#[test]
fn clone_in_another_allocator() {
    let list = one_two_three();
    let node_size = std::mem::size_of::<Header>() + 4;
    let copy = list.clone_in(Budget::new(1000));
    assert_eq!(copy.len(), 3);
    assert_eq!(copy.front(), Some(&1));
    assert_eq!(copy.back(), Some(&3));
    assert_eq!(copy.allocator().used, 3 * node_size);
    match list.try_clone_in(Budget::new(2 * node_size)) {
        Ok(_) => panic!("the third node does not fit"),
        Err(error) => assert_eq!(error.layout().map(|layout| layout.size()), Some(node_size)),
    }
    assert_eq!(values(&list), vec![1, 2, 3]);
}

#[test]
fn default_is_empty() {
    let list: DynList<u32> = Default::default();
    assert_eq!(list.len(), 0);
    assert_eq!(list.check_debug(), Some(list.len()));
}

#[test]
fn cloned_cursor_moves_on_its_own() {
    let list = one_two_three();
    let mut first = list.cursor_front();
    let second = first.clone();
    first.move_next();
    assert_eq!(first.current(), Some(&2));
    assert_eq!(second.current(), Some(&1));
}
