use dyn_list::{Budget, DynList, Header};

fn texts(list: &DynList<String>) -> Vec<String> {
    let mut out = Vec::new();
    let mut iter = list.iter();
    while let Some(value) = iter.next() {
        out.push(value.clone());
    }
    out
}

#[test]
fn strings_round_trip_through_bytes() {
    let mut list = DynList::<String>::new();
    list.push_back_copy_string("Hello,");
    list.push_back_copy_string(" World!");
    assert_eq!(texts(&list), vec!["Hello,", " World!"]);
    let bytes = list.into_bytes();
    {
        let mut iter = bytes.iter();
        assert_eq!(iter.next().map(|b| b.as_slice()), Some("Hello,".as_bytes()));
        assert_eq!(iter.next().map(|b| b.as_slice()), Some(" World!".as_bytes()));
        assert!(iter.next().is_none());
    }
    assert_eq!(bytes.check_debug(), Some(bytes.len()));
    let list = DynList::<String>::from_utf8_unchecked(bytes);
    assert_eq!(texts(&list), vec!["Hello,", " World!"]);
    assert_eq!(list.check_debug(), Some(list.len()));
}

#[test]
fn bytes_of_text_beyond_ascii() {
    let mut list = DynList::<String>::new();
    list.push_front_copy_string("señor");
    list.push_front_copy_string("");
    let bytes = list.into_bytes();
    assert_eq!(bytes.back().map(|b| b.len()), Some(6));
    assert_eq!(bytes.front().map(|b| b.len()), Some(0));
    let list = DynList::<String>::from_utf8_unchecked(bytes);
    assert_eq!(texts(&list), vec!["", "señor"]);
}

#[test]
fn strings_are_pushed_at_both_ends() {
    let mut list = DynList::<String>::new();
    assert!(list.try_push_back_copy_string("b").is_ok());
    assert!(list.try_push_front_copy_string("a").is_ok());
    list.push_back_copy_string("c");
    list.push_front_copy_string("");
    assert_eq!(texts(&list), vec!["", "a", "b", "c"]);
}

#[test]
fn string_node_keeps_its_length() {
    let mut list = DynList::<String>::new();
    {
        let mut node = list.allocate_uninit_string_back(5);
        assert_eq!(node.metadata(), Some(5));
        assert_eq!(node.as_bytes(), &[] as &[u8]);
        node.copy_from_str("hey");
        assert_eq!(node.as_bytes(), "hey".as_bytes());
        node.copy_from_str("hello");
        node.insert();
    }
    {
        let node = list.allocate_uninit_string_front(2);
        node.deallocate();
    }
    {
        let node = match list.try_allocate_uninit_string_front(1) {
            Ok(node) => node,
            Err(_) => panic!("one byte fits"),
        };
        assert_eq!(node.metadata(), Some(1));
        node.deallocate();
        let node = match list.try_allocate_uninit_string_back(0) {
            Ok(node) => node,
            Err(_) => panic!("no byte fits"),
        };
        node.deallocate();
    }
    assert_eq!(texts(&list), vec!["hello"]);
}

#[test]
fn string_node_is_charged_by_its_bytes() {
    let fixed = std::mem::size_of::<Header>() + std::mem::size_of::<usize>();
    let mut list = DynList::<String, Budget>::new_in(Budget::new(fixed + 6));
    let error = match list.try_push_back_copy_string(" World!") {
        Ok(()) => panic!("seven bytes do not fit in six"),
        Err(error) => error,
    };
    assert_eq!(error.layout().map(|layout| layout.size()), Some(fixed + 7));
    assert_eq!(error.layout().map(|layout| layout.align()), Some(std::mem::align_of::<Header>()));
    assert_eq!(list.len(), 0);
    assert!(list.try_push_back_copy_string("Hello,").is_ok());
    assert_eq!(list.allocator().used, fixed + 6);
    assert!(list.try_push_front_copy_string("").is_err());
    assert_eq!(list.len(), 1);
}

#[test]
fn string_that_has_no_layout_is_refused() {
    let mut list = DynList::<String>::new();
    let error = match list.try_allocate_uninit_string_back(usize::MAX) {
        Ok(_) => panic!("no string is that long"),
        Err(error) => error,
    };
    assert_eq!(error.layout(), None);
    assert_eq!(list.len(), 0);
}

#[test]
fn cursor_inserts_strings() {
    let mut list = DynList::<String>::new();
    list.push_back_copy_string("m");
    {
        let mut cursor = list.cursor_front_mut();
        cursor.insert_copy_str_before("a");
        cursor.insert_copy_str_after("z");
        assert!(cursor.try_insert_copy_str_before("b").is_ok());
        assert!(cursor.try_insert_copy_str_after("n").is_ok());
        assert_eq!(cursor.current().map(|text| text.clone()), Some(String::from("m")));
        assert!(cursor.try_allocate_uninit_string_before(usize::MAX).is_err());
        assert!(cursor.try_allocate_uninit_string_after(usize::MAX).is_err());
        let node = cursor.allocate_uninit_string_before(3);
        node.deallocate();
        let mut node = cursor.allocate_uninit_string_after(3);
        node.copy_from_str("mmm");
        node.insert();
    }
    assert_eq!(texts(&list), vec!["a", "b", "m", "mmm", "n", "z"]);
    assert_eq!(list.check_debug(), Some(list.len()));
}
