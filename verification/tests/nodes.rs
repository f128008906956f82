use dyn_list::{
    AllocError, AllocateError, Arena, Budget, DynList, Global, Header, Layout, LayoutError, NodePtr,
    StructureHandle,
};

#[test]
fn node_names_are_addresses() {
    let node = NodePtr::from_value_ptr(7);
    assert_eq!(node.value_ptr(), 7);
    assert!(node.same(NodePtr::from_value_ptr(7)));
    assert!(!node.same(NodePtr::from_value_ptr(8)));
    assert_eq!(node, NodePtr::from_value_ptr(7));
}

#[test]
fn arena_makes_writes_and_gives_back() {
    let mut arena = Arena::<u8, u32, Budget>::new_in(Budget::new(100));
    assert!(!arena.contains(NodePtr::from_value_ptr(0)));
    let first = NodePtr::allocate_sized_in(1, &mut arena);
    let second = match NodePtr::try_allocate_sized_in(2, &mut arena) {
        Ok(node) => node,
        Err(_) => panic!("a hundred bytes are enough"),
    };
    assert!(!first.same(second));
    assert!(arena.contains(first));
    assert!(arena.contains(second));
    assert_eq!(arena.allocator().used, 16);
    assert_eq!(arena.header(first), &1);
    assert_eq!(arena.header(second), &2);
    assert_eq!(arena.metadata(first), None);
    assert_eq!(arena.value_layout(first), Layout::new::<u32>());
    assert_eq!(arena.value(first), None);
    assert_eq!(arena.write(first, 10), None);
    assert_eq!(arena.write(first, 11), Some(10));
    assert_eq!(arena.value(first), Some(&11));
    if let Some(value) = arena.value_mut(first) {
        *value += 1;
    }
    assert_eq!(arena.value_mut(second), None);
    arena.set_header(first, 9);
    assert_eq!(arena.header(first), &9);
    assert_eq!(arena.take(first), Some(12));
    assert_eq!(arena.take(first), None);
    first.deallocate(&mut arena);
    assert!(!arena.contains(first));
    assert!(arena.contains(second));
    assert_eq!(arena.allocator().used, 8);
    let third = NodePtr::allocate_sized_in(3, &mut arena);
    assert!(arena.contains(third));
    assert_eq!(arena.value(third), None);
    assert_eq!(arena.header(third), &3);
    assert_eq!(arena.into_allocator(), Budget { limit: 100, used: 16 });
}

#[test]
fn arena_refuses_and_stays_as_it_was() {
    let mut arena = Arena::<u8, u64, Budget>::new_in(Budget::new(20));
    let first = NodePtr::allocate_sized_in(0, &mut arena);
    let error = match NodePtr::try_allocate_sized_in(0, &mut arena) {
        Ok(_) => panic!("four bytes are left, a node takes sixteen"),
        Err(error) => error,
    };
    assert_eq!(error.layout(), Layout::from_size_align(16, 8).ok());
    assert_eq!(arena.allocator().used, 16);
    assert!(arena.contains(first));
    assert!(!arena.contains(NodePtr::from_value_ptr(first.value_ptr() + 1)));
}

#[test]
fn arena_makes_array_and_string_nodes() {
    let mut arena = Arena::<u8, Vec<u16>, Global>::new_in(Global);
    let node = NodePtr::allocate_array_in::<u8, u16, Vec<u16>, Global>(3, 0, &mut arena);
    assert_eq!(arena.metadata(node), Some(3));
    assert_eq!(arena.value_layout(node), Layout::from_size_align(6, 2).unwrap());
    let error = match NodePtr::try_allocate_array_in::<u8, u16, Vec<u16>, Global>(
        usize::MAX,
        0,
        &mut arena,
    ) {
        Ok(_) => panic!("no array is that long"),
        Err(error) => error,
    };
    assert_eq!(error.layout(), None);
    let mut arena = Arena::<u8, String, Budget>::new_in(Budget::new(64));
    let node = NodePtr::allocate_string_in(5, 0, &mut arena);
    assert_eq!(arena.metadata(node), Some(5));
    assert_eq!(arena.value_layout(node), Layout::from_size_align(5, 1).unwrap());
    let word = std::mem::size_of::<usize>();
    assert_eq!(arena.allocator().used, 2 * word + 5);
    let error = match NodePtr::try_allocate_string_in(64, 0, &mut arena) {
        Ok(_) => panic!("the budget is spent"),
        Err(error) => error,
    };
    assert_eq!(error.layout().map(|layout| layout.size()), Some(2 * word + 64));
    assert!(NodePtr::try_allocate_string_in(usize::MAX, 0, &mut arena).is_err());
}

#[test]
fn arena_converts_its_values() {
    let mut arena = Arena::<u8, u32, Global>::new_in(Global);
    let first = NodePtr::allocate_sized_in(1, &mut arena);
    let second = NodePtr::allocate_sized_in(2, &mut arena);
    let third = NodePtr::allocate_sized_in(3, &mut arena);
    arena.write(first, 10);
    arena.write(third, 30);
    third.deallocate(&mut arena);
    let arena = arena.convert(|value: u32| value.to_string());
    assert_eq!(arena.value(first), Some(&String::from("10")));
    assert_eq!(arena.value(second), None);
    assert!(!arena.contains(third));
    assert_eq!(arena.header(second), &2);
}

#[test]
fn list_converts_its_values() {
    let mut list = DynList::<u32>::new();
    list.extend(vec![1, 2, 3]);
    let mut list = list.convert(|value: u32| u64::from(value) * 2);
    assert_eq!(list.check_debug(), Some(3));
    assert_eq!(list.pop_front(), Some(2));
    assert_eq!(list.pop_back(), Some(6));
    assert_eq!(list.pop_back(), Some(4));
}

#[test]
fn list_links_a_node_through_its_handle() {
    let mut list = DynList::<u32, Budget>::new_in(Budget::new(1000));
    list.push_back(1);
    list.push_back(3);
    let front = list.front_node();
    let back = list.back_node();
    assert_eq!(list.header(front.unwrap()), Header { next: back, previous: None });
    let node = match list.try_allocate_node(
        Header { next: back, previous: front },
        None,
        Layout::new::<u32>(),
    ) {
        Ok(node) => node,
        Err(_) => panic!("a thousand bytes are enough"),
    };
    assert_eq!(list.check_debug(), Some(2));
    assert_eq!(list.value(node), None);
    assert_eq!(list.write(node, 2), None);
    assert_eq!(list.metadata(node), None);
    assert_eq!(list.value_layout(node), Layout::new::<u32>());
    StructureHandle::insert(&mut list, node);
    assert_eq!(list.check_debug(), Some(3));
    assert_eq!(list.header(node), Header { next: back, previous: front });
    assert_eq!(list.header(front.unwrap()).next, Some(node));
    assert_eq!(list.header(back.unwrap()).previous, Some(node));
    let used = StructureHandle::allocator(&list).used;
    list.unlink(node);
    assert_eq!(list.check_debug(), Some(2));
    assert_eq!(list.take(node), Some(2));
    StructureHandle::deallocate(&mut list, node);
    assert_eq!(list.allocator().used, used - (std::mem::size_of::<Header>() + 4));
    assert_eq!(list.pop_front(), Some(1));
    assert_eq!(list.pop_front(), Some(3));
}

#[test]
fn clear_gives_every_node_back() {
    let mut list = DynList::<u64, Budget>::new_in(Budget::new(1000));
    list.extend(vec![1, 2, 3, 4]);
    assert_eq!(list.allocator().used, 4 * (std::mem::size_of::<Header>() + 8));
    list.clear();
    assert_eq!(list.len(), 0);
    assert_eq!(list.allocator().used, 0);
    assert_eq!(list.check_debug(), Some(0));
    list.clear();
    list.push_back(5);
    assert_eq!(list.front(), Some(&5));
}

#[test]
fn errors_convert() {
    let error: AllocateError = LayoutError.into();
    assert_eq!(error.layout(), None);
    let layout = Layout::from_size_align(8, 8).unwrap();
    let denied: AllocError = AllocateError::new_alloc(AllocError, layout).with_value(3).into();
    assert_eq!(denied, AllocError);
}

#[test]
fn every_link_is_answered_by_the_neighbour() {
    let mut list = DynList::<u32>::new();
    list.extend(vec![1, 2, 3, 4]);
    {
        let mut cursor = list.cursor_front_mut();
        cursor.move_next();
        assert_eq!(cursor.remove_current(), Some(2));
        cursor.insert_after(9);
    }
    let front = list.front_node();
    let back = list.back_node();
    assert_eq!(front.map(|node| list.header(node).previous), Some(None));
    assert_eq!(back.map(|node| list.header(node).next), Some(None));
    let mut steps = 0;
    let mut node = front;
    let mut last = None;
    while let Some(current) = node {
        let header = list.header(current);
        if let Some(next) = header.next {
            assert_eq!(list.header(next).previous, Some(current));
        }
        if let Some(previous) = header.previous {
            assert_eq!(list.header(previous).next, Some(current));
        }
        assert_eq!(header.previous, last);
        last = node;
        node = header.next;
        steps += 1;
    }
    assert_eq!(last, back);
    assert_eq!(steps, 4);
    let mut back_steps = 0;
    let mut node = back;
    while let Some(current) = node {
        last = node;
        node = list.header(current).previous;
        back_steps += 1;
    }
    assert_eq!(last, front);
    assert_eq!(back_steps, steps);
}

#[test]
fn list_is_taken_apart_and_put_together() {
    let mut list = DynList::<u32, Budget>::new_in(Budget::new(1000));
    list.extend(vec![1, 2, 3]);
    let front = list.front_node();
    let back = list.back_node();
    let (ends, arena) = list.into_raw_parts();
    assert_eq!(ends, front.zip(back));
    assert_eq!(arena.allocator().used, 3 * (std::mem::size_of::<Header>() + 4));
    assert_eq!(front.and_then(|node| arena.value(node)), Some(&1));
    let mut list = DynList::from_raw_parts(ends, arena);
    assert_eq!(list.check_debug(), Some(3));
    assert_eq!(list.pop_front(), Some(1));
    assert_eq!(list.pop_back(), Some(3));
    assert_eq!(list.pop_back(), Some(2));
    let (ends, arena) = list.into_raw_parts();
    assert_eq!(ends, None);
    let list = DynList::from_raw_parts(ends, arena);
    assert_eq!(list.len(), 0);
}
