use dyn_list::array::try_new_array;
use dyn_list::sized::try_new_sized;
use dyn_list::string::try_new_string;
use dyn_list::uninit::{new_maybe_uninit, try_new};
use dyn_list::{Arena, Budget, DynList, Global, Header, Layout, NodePtr};

fn values(list: &DynList<u32, Budget>) -> Vec<u32> {
    let mut out = Vec::new();
    let mut iter = list.iter();
    while let Some(value) = iter.next() {
        out.push(*value);
    }
    out
}

fn one_three() -> DynList<u32, Budget> {
    let mut list = DynList::<u32, Budget>::new_in(Budget::new(1000));
    list.push_back(1);
    list.push_back(3);
    list
}

#[test]
fn node_is_made_between_two_nodes() {
    let mut list = one_three();
    let header = Header { next: list.back_node(), previous: list.front_node() };
    {
        let mut node = match try_new(&mut list, None, Layout::new::<u32>(), header) {
            Ok(node) => node,
            Err(_) => panic!("a thousand bytes are enough"),
        };
        assert!(node.as_mut().is_none());
        node.write(20);
        if let Some(value) = node.as_mut() {
            *value /= 10;
        }
        node.insert();
    }
    assert_eq!(values(&list), vec![1, 2, 3]);
    {
        let header = Header { next: list.front_node(), previous: None };
        let mut node = match try_new_sized(&mut list, header) {
            Ok(node) => node,
            Err(_) => panic!("a thousand bytes are enough"),
        };
        node.write(0);
        node.insert();
    }
    assert_eq!(values(&list), vec![0, 1, 2, 3]);
    assert_eq!(list.check_debug(), Some(4));
}

#[test]
fn node_is_refused_where_the_budget_is_spent() {
    let mut list = DynList::<u32, Budget>::new_in(Budget::new(3));
    let header = Header { next: None, previous: None };
    assert!(try_new(&mut list, None, Layout::new::<u32>(), header).is_err());
    assert!(try_new_sized(&mut list, header).is_err());
    assert_eq!(list.len(), 0);
    assert_eq!(list.allocator().used, 0);
}

#[test]
fn array_and_string_nodes_are_made_with_links() {
    let mut list = DynList::<Vec<u8>>::new();
    list.push_back_copy_array(&[1]);
    {
        let header = Header { next: None, previous: list.back_node() };
        let mut node = match try_new_array(&mut list, 2, header) {
            Ok(node) => node,
            Err(_) => panic!("two bytes fit"),
        };
        assert_eq!(node.metadata(), Some(2));
        node.copy_from_slice(&[2, 2]);
        node.insert();
    }
    assert!(try_new_array(&mut list, usize::MAX, Header { next: None, previous: None }).is_err());
    assert_eq!(list.back(), Some(&vec![2, 2]));
    assert_eq!(list.check_debug(), Some(2));

    let mut list = DynList::<String>::new();
    {
        let header = Header { next: None, previous: None };
        let mut node = match try_new_string(&mut list, 2, header) {
            Ok(node) => node,
            Err(_) => panic!("two bytes fit"),
        };
        assert_eq!(node.metadata(), Some(2));
        node.copy_from_str("hi");
        node.insert();
    }
    assert!(try_new_string(&mut list, usize::MAX, Header { next: None, previous: None }).is_err());
    assert_eq!(list.front(), Some(&String::from("hi")));
}

#[test]
fn unlinked_node_is_watched_over_again() {
    let mut list = one_three();
    let front = match list.front_node() {
        Some(front) => front,
        None => panic!("the list holds two values"),
    };
    list.unlink(front);
    assert_eq!(values(&list), vec![3]);
    {
        let node = new_maybe_uninit(&mut list, front);
        assert_eq!(node.value_ptr(), front.value_ptr());
        assert_eq!(node.as_ref(), Some(&1));
        node.insert();
    }
    assert_eq!(values(&list), vec![1, 3]);
    assert_eq!(list.check_debug(), Some(2));
}

#[test]
fn value_is_boxed_in_another_allocator() {
    let mut list = one_three();
    let used = list.allocator().used;
    {
        let node = match list.pop_front_node() {
            Some(node) => node,
            None => panic!("the list holds two values"),
        };
        let node = match node.try_take_boxed_in(Budget::new(3)) {
            Ok(_) => panic!("three bytes do not hold four"),
            Err(error) => {
                assert_eq!(error.layout(), Some(Layout::new::<u32>()));
                error.into_value()
            }
        };
        assert_eq!(node.as_ref(), Some(&1));
        match node.try_take_boxed_in(Budget::new(4)) {
            Ok(value) => assert_eq!(*value, 1),
            Err(_) => panic!("four bytes hold four"),
        }
    }
    assert_eq!(values(&list), vec![3]);
    assert_eq!(list.allocator().used, used / 2);
    {
        let node = match list.pop_back_node() {
            Some(node) => node,
            None => panic!("the list holds one value"),
        };
        assert_eq!(*node.take_boxed_in(Global), 3);
    }
    assert_eq!(list.allocator().used, 0);
    list.push_back(5);
    {
        let node = match list.pop_back_node() {
            Some(node) => node,
            None => panic!("the list holds one value"),
        };
        match node.try_take_boxed() {
            Ok(value) => assert_eq!(*value, 5),
            Err(_) => panic!("the budget holds four bytes more"),
        }
    }
    list.push_back(6);
    {
        let node = match list.pop_back_node() {
            Some(node) => node,
            None => panic!("the list holds one value"),
        };
        assert_eq!(*node.take_boxed(), 6);
    }
    assert_eq!(list.len(), 0);
}

#[test]
fn cursor_names_the_links_of_a_new_neighbour() {
    let mut list = one_three();
    let front = list.front_node();
    let back = list.back_node();
    let mut cursor = list.cursor_front_mut();
    assert_eq!(cursor.links_before(), Header { next: front, previous: None });
    assert_eq!(cursor.links_after(), Header { next: back, previous: front });
    cursor.move_previous();
    assert_eq!(cursor.links_before(), Header { next: None, previous: back });
    assert_eq!(cursor.links_after(), Header { next: front, previous: None });
    assert!(cursor.try_insert_value_after(None, Layout::new::<u32>(), 0).is_ok());
    assert!(cursor.try_insert_value_before(None, Layout::new::<u32>(), 4).is_ok());
    cursor.move_next();
    assert_eq!(cursor.current(), Some(&mut 0));
    {
        let mut node = cursor.allocate_uninit_after(None, Layout::new::<u32>());
        node.write(7);
        node.insert();
    }
    {
        let node = cursor.allocate_uninit_before(None, Layout::new::<u32>());
        node.deallocate();
    }
    {
        let mut node = cursor.allocate_uninit_sized_before();
        node.write(8);
        node.insert();
        let node = cursor.allocate_uninit_sized_after();
        node.deallocate();
        assert!(cursor.try_allocate_uninit_sized_before().is_ok());
        assert!(cursor.try_allocate_uninit_sized_after().is_ok());
    }
    assert_eq!(values(cursor.as_list()), vec![8, 0, 7, 1, 3, 4]);
}

#[test]
fn arena_makes_a_node_with_a_given_layout() {
    let mut arena = Arena::<u16, u8, Global>::new_in(Global);
    let layout = Layout::from_size_align(12, 4).unwrap();
    let node = NodePtr::allocate_with_layout_in(5, Some(3), layout, &mut arena);
    assert_eq!(arena.header(node), &5);
    assert_eq!(arena.metadata(node), Some(3));
    assert_eq!(arena.value_layout(node), layout);
    assert_eq!(arena.value(node), None);
    let big = Layout::from_size_align(isize::MAX as usize - 3, 4).unwrap();
    let error = match NodePtr::try_allocate_with_layout_in(5, None, big, &mut arena) {
        Ok(_) => panic!("the header does not fit before such a value"),
        Err(error) => error,
    };
    assert_eq!(error.layout(), None);
    assert!(arena.contains(node));
}

#[test]
fn list_makes_nodes_at_its_ends() {
    let mut list = one_three();
    {
        let mut node = list.allocate_uninit_front(None, Layout::new::<u32>());
        node.write(0);
        node.insert();
        let mut node = list.allocate_uninit_back(None, Layout::new::<u32>());
        node.write(4);
        node.insert();
    }
    {
        let node = match list.try_allocate_uninit_front(None, Layout::new::<u32>()) {
            Ok(node) => node,
            Err(_) => panic!("a thousand bytes are enough"),
        };
        node.deallocate();
        let node = match list.try_allocate_uninit_back(None, Layout::new::<u32>()) {
            Ok(node) => node,
            Err(_) => panic!("a thousand bytes are enough"),
        };
        node.deallocate();
        assert!(list.try_allocate_uninit_sized_front().is_ok());
        assert!(list.try_allocate_uninit_sized_back().is_ok());
    }
    assert_eq!(values(&list), vec![0, 1, 3, 4]);
    let big = Layout::from_size_align(isize::MAX as usize - 3, 4).unwrap();
    let error = match list.try_allocate_uninit_back(None, big) {
        Ok(_) => panic!("the header does not fit before such a value"),
        Err(error) => error,
    };
    assert_eq!(error.layout(), None);
    assert_eq!(list.check_debug(), Some(4));
}

#[test]
fn values_of_several_types_are_charged_by_their_own_layout() {
    let fixed = std::mem::size_of::<Header>() + std::mem::size_of::<usize>();
    let mut list = DynList::<String, Budget>::new_in(Budget::new(1000));
    list.push_back_unsize::<u8>(String::from("a byte"));
    assert_eq!(list.allocator().used, fixed + 1);
    list.push_front_unsize::<[u64; 4]>(String::from("four words"));
    assert_eq!(list.allocator().used, 2 * fixed + 1 + 32);
    assert!(list.try_push_back_unsize::<[u8; 2000]>(String::from("too much")).is_err());
    let error = match list.try_push_front_unsize::<[u8; 2000]>(String::from("too much")) {
        Ok(()) => panic!("two thousand bytes do not fit in a thousand"),
        Err(error) => error,
    };
    assert_eq!(error.layout().map(|layout| layout.size()), Some(fixed + 2000));
    assert_eq!(error.into_value(), "too much");
    assert_eq!(list.len(), 2);
    list.extend_unsize::<u16>(vec![String::from("x"), String::from("y")]);
    assert_eq!(list.len(), 4);
    assert_eq!(list.back(), Some(&String::from("y")));
    assert_eq!(list.front(), Some(&String::from("four words")));
    {
        let mut cursor = list.cursor_front_mut();
        cursor.insert_after_unsize::<u8>(String::from("after"));
        cursor.insert_before_unsize::<u8>(String::from("before"));
        assert!(cursor.try_insert_after_unsize::<[u8; 2000]>(String::new()).is_err());
        assert!(cursor.try_insert_before_unsize::<[u8; 2000]>(String::new()).is_err());
        assert!(cursor.try_insert_after_unsize::<u8>(String::from("next")).is_ok());
        assert!(cursor.try_insert_before_unsize::<u8>(String::from("last")).is_ok());
    }
    assert_eq!(list.len(), 8);
    assert_eq!(list.front(), Some(&String::from("before")));
    assert_eq!(list.check_debug(), Some(8));
    let list = DynList::<u32, Budget>::from_iter_unsize_in::<u8>(vec![1, 2], Budget::new(1000));
    assert_eq!(list.allocator().used, 2 * (fixed + 1));
    assert_eq!(list.back(), Some(&2));
    let list = DynList::<u32>::from_iter_unsize::<u8>(vec![1, 2, 3]);
    assert_eq!(list.len(), 3);
    let list = DynList::<u32>::from_iter_unsize::<u8>(Vec::new());
    assert_eq!(list.len(), 0);
}

#[test]
fn arena_makes_a_node_for_a_value_of_another_type() {
    let mut arena = Arena::<u8, String, Budget>::new_in(Budget::new(100));
    let node = NodePtr::allocate_unsize_in::<u8, u32, String, Budget>(0, &mut arena);
    assert_eq!(arena.metadata(node), Some(4));
    assert_eq!(arena.value_layout(node), Layout::new::<u32>());
    let word = std::mem::size_of::<usize>();
    assert_eq!(arena.allocator().used, 2 * word + 4);
    assert!(NodePtr::try_allocate_unsize_in::<u8, [u8; 200], String, Budget>(0, &mut arena).is_err());
    assert!(NodePtr::try_allocate_unsize_in::<u8, u8, String, Budget>(0, &mut arena).is_ok());
}

#[test]
fn values_are_pushed_into_nodes_of_a_given_layout() {
    let mut list = DynList::<u32, Budget>::new_in(Budget::new(1000));
    let layout = Layout::from_size_align(64, 64).unwrap();
    assert!(list.try_push_value_back(None, layout, 2).is_ok());
    assert!(list.try_push_value_front(Some(9), layout, 1).is_ok());
    list.extend_values(None, Layout::new::<u32>(), vec![3, 4]);
    assert_eq!(values(&list), vec![1, 2, 3, 4]);
    let big = Layout::from_size_align(2048, 1).unwrap();
    let error = match list.try_push_value_back(None, big, 5) {
        Ok(()) => panic!("the budget is a thousand bytes"),
        Err(error) => error,
    };
    assert_eq!(error.into_value(), 5);
    assert!(list.try_push_value_front(None, big, 0).is_err());
    assert_eq!(values(&list), vec![1, 2, 3, 4]);
}
