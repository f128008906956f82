use dyn_list::{Budget, DynList, Header};

fn arrays(list: &DynList<Vec<u32>>) -> Vec<Vec<u32>> {
    let mut out = Vec::new();
    let mut iter = list.iter();
    while let Some(value) = iter.next() {
        out.push(value.clone());
    }
    out
}

#[test]
fn cursor_inserts_an_array_after_the_current_one() {
    let mut list = DynList::<Vec<u32>>::new();
    list.push_back_copy_array(&[1]);
    list.push_back_copy_array(&[2, 2]);
    {
        let mut cursor = list.cursor_front_mut();
        cursor.move_next();
        assert_eq!(cursor.current().map(|items| items.clone()), Some(vec![2, 2]));
        cursor.insert_copy_slice_after(&[3, 3, 3]);
        cursor.move_next();
        cursor.move_next();
        assert!(cursor.current().is_none());
    }
    assert_eq!(arrays(&list), vec![vec![1], vec![2, 2], vec![3, 3, 3]]);
    assert_eq!(list.check_debug(), Some(list.len()));
}

#[test]
fn arrays_are_pushed_at_both_ends() {
    let mut list = DynList::<Vec<u32>>::new();
    list.push_front_copy_array(&[1, 2]);
    list.push_front_clone_array(&[]);
    list.push_back_clone_array(&[3, 4, 5]);
    assert!(list.try_push_back_copy_array(&[6]).is_ok());
    assert!(list.try_push_front_copy_array(&[0]).is_ok());
    assert!(list.try_push_front_clone_array(&[9, 9]).is_ok());
    assert!(list.try_push_back_clone_array(&[7]).is_ok());
    assert_eq!(
        arrays(&list),
        vec![vec![9, 9], vec![0], vec![], vec![1, 2], vec![3, 4, 5], vec![6], vec![7]]
    );
}

#[test]
fn cursor_inserts_arrays_before_and_after() {
    let mut list = DynList::<Vec<u32>>::new();
    list.push_back_copy_array(&[5]);
    {
        let mut cursor = list.cursor_front_mut();
        cursor.insert_copy_slice_before(&[1, 1]);
        cursor.insert_clone_slice_before(&[2]);
        cursor.insert_clone_slice_after(&[8]);
        assert!(cursor.try_insert_copy_slice_after(&[6, 6]).is_ok());
        assert!(cursor.try_insert_copy_slice_before(&[3]).is_ok());
        assert!(cursor.try_insert_clone_slice_before(&[4]).is_ok());
        assert!(cursor.try_insert_clone_slice_after(&[]).is_ok());
        assert_eq!(cursor.current().map(|items| items.clone()), Some(vec![5]));
    }
    assert_eq!(
        arrays(&list),
        vec![vec![1, 1], vec![2], vec![3], vec![4], vec![5], vec![], vec![6, 6], vec![8]]
    );
}

#[test]
fn array_node_keeps_its_length() {
    let mut list = DynList::<Vec<u32>>::new();
    {
        let mut node = list.allocate_uninit_array_back(2);
        assert_eq!(node.metadata(), Some(2));
        assert_eq!(node.as_slice(), &[] as &[u32]);
        node.copy_from_slice(&[7, 8, 9]);
        assert_eq!(node.as_slice(), &[7, 8]);
        node.clone_from_slice(&[4]);
        assert_eq!(node.as_slice(), &[4]);
        node.copy_from_slice(&[5, 6]);
        node.insert();
    }
    {
        let node = list.allocate_uninit_array_front(3);
        assert_eq!(node.metadata(), Some(3));
        node.deallocate();
    }
    assert_eq!(arrays(&list), vec![vec![5, 6]]);
}

#[test]
fn array_node_is_charged_by_its_length() {
    let fixed = std::mem::size_of::<Header>() + std::mem::size_of::<usize>();
    let mut list = DynList::<Vec<u32>, Budget>::new_in(Budget::new(fixed + 12));
    assert!(list.try_push_back_copy_array(&[1, 2, 3, 4]).is_err());
    assert_eq!(list.len(), 0);
    assert_eq!(list.allocator().used, 0);
    assert!(list.try_push_back_copy_array(&[1, 2, 3]).is_ok());
    assert_eq!(list.allocator().used, fixed + 12);
    let error = match list.try_push_front_copy_array(&[]) {
        Ok(()) => panic!("nothing is left for the header"),
        Err(error) => error,
    };
    assert_eq!(error.layout().map(|layout| layout.size()), Some(fixed));
    assert_eq!(list.len(), 1);
    assert!(list.delete_front());
    assert_eq!(list.allocator().used, 0);
}

#[test]
fn array_that_has_no_layout_is_refused() {
    let mut list = DynList::<Vec<u64>>::new();
    let error = match list.try_allocate_uninit_array_back(usize::MAX) {
        Ok(_) => panic!("no array is that long"),
        Err(error) => error,
    };
    assert_eq!(error.layout(), None);
    let error = match list.try_allocate_uninit_array_front(isize::MAX as usize / 8) {
        Ok(_) => panic!("the header does not fit before such an array"),
        Err(error) => error,
    };
    assert_eq!(error.layout(), None);
    assert_eq!(list.len(), 0);
    {
        let mut cursor = list.cursor_front_mut();
        assert!(cursor.try_allocate_uninit_array_before(usize::MAX).is_err());
        assert!(cursor.try_allocate_uninit_array_after(usize::MAX).is_err());
        let node = cursor.allocate_uninit_array_before(1);
        node.deallocate();
        let mut node = cursor.allocate_uninit_array_after(1);
        node.copy_from_slice(&[1]);
        node.insert();
    }
    assert_eq!(list.len(), 1);
}
