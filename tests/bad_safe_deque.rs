use linked_lists::bad_safe_deque::List;

#[test]
fn bad_safe_deque_basics() {
    let mut list = List::new();

    // Check empty list behaves right
    assert_eq!(list.pop_front(), None);

    // Populate list
    list.push_front(1);
    list.push_front(2);
    list.push_front(3);

    // Check normal removal
    assert_eq!(list.pop_front(), Some(3));
    assert_eq!(list.pop_front(), Some(2));

    // Push some more just to make sure nothing's corrupted
    list.push_front(4);
    list.push_front(5);

    // Check normal removal
    assert_eq!(list.pop_front(), Some(5));
    assert_eq!(list.pop_front(), Some(4));

    // Check exhaustion
    assert_eq!(list.pop_front(), Some(1));
    assert_eq!(list.pop_front(), None);

    // ---- back -----

    // Check empty list behaves right
    assert_eq!(list.pop_back(), None);

    // Populate list
    list.push_back(1);
    list.push_back(2);
    list.push_back(3);

    // Check normal removal
    assert_eq!(list.pop_back(), Some(3));
    assert_eq!(list.pop_back(), Some(2));

    // Push some more just to make sure nothing's corrupted
    list.push_back(4);
    list.push_back(5);

    // Check normal removal
    assert_eq!(list.pop_back(), Some(5));
    assert_eq!(list.pop_back(), Some(4));

    // Check exhaustion
    assert_eq!(list.pop_back(), Some(1));
    assert_eq!(list.pop_back(), None);
}

#[test]
fn bad_safe_deque_peek() {
    let mut list = List::new();
    assert!(list.peek_front().is_none());
    assert!(list.peek_back().is_none());
    assert!(list.peek_front_mut().is_none());
    assert!(list.peek_back_mut().is_none());

    list.push_front(1);
    list.push_front(2);
    list.push_front(3);

    assert_eq!(&*list.peek_front().unwrap(), &3);
    assert_eq!(&mut *list.peek_front_mut().unwrap(), &mut 3);
    assert_eq!(&*list.peek_back().unwrap(), &1);
    assert_eq!(&mut *list.peek_back_mut().unwrap(), &mut 1);
}

#[test]
fn bad_safe_deque_into_iter() {
    let mut list = List::new();
    list.push_front(1);
    list.push_front(2);
    list.push_front(3);

    let mut iter = list.into_iter();
    assert_eq!(iter.next(), Some(3));
    assert_eq!(iter.next_back(), Some(1));
    assert_eq!(iter.next(), Some(2));
    assert_eq!(iter.next_back(), None);
    assert_eq!(iter.next(), None);
}

#[test]
fn deque_push_back_pop_back_is_lifo() {
    let mut list = List::new();
    for v in 1..=5 {
        list.push_back(v);
    }
    for v in (1..=5).rev() {
        assert_eq!(list.pop_back(), Some(v));
    }
    assert_eq!(list.pop_back(), None);
}

#[test]
fn deque_interleaved_pushes_drain_from_both_ends() {
    let mut list = List::new();
    list.push_front(2);
    list.push_back(3);
    list.push_front(1);
    list.push_back(4);
    list.push_front(0);
    // front to back: 0 1 2 3 4
    let mut iter = list.into_iter();
    assert_eq!(iter.next_back(), Some(4));
    assert_eq!(iter.next(), Some(0));
    assert_eq!(iter.next(), Some(1));
    assert_eq!(iter.next_back(), Some(3));
    assert_eq!(iter.next_back(), Some(2));
    assert_eq!(iter.next(), None);
    assert_eq!(iter.next_back(), None);
}

#[test]
fn deque_peek_does_not_change_contents() {
    let mut list = List::new();
    assert!(list.peek_front().is_none());
    assert!(list.peek_back().is_none());
    list.push_back(7);
    list.push_back(8);
    assert_eq!(list.peek_front(), Some(&7));
    assert_eq!(list.peek_back(), Some(&8));
    assert_eq!(list.peek_front(), Some(&7));
    assert_eq!(list.pop_front(), Some(7));
    assert_eq!(list.pop_front(), Some(8));
    assert!(list.peek_front().is_none());
    assert!(list.peek_back().is_none());
}

#[test]
fn deque_single_element_is_both_ends() {
    let mut list = List::new();
    list.push_back(9);
    assert_eq!(list.peek_front(), Some(&9));
    assert_eq!(list.peek_back(), Some(&9));
    assert_eq!(list.pop_front(), Some(9));
    assert_eq!(list.pop_back(), None);
    list.push_front(10);
    assert_eq!(list.pop_back(), Some(10));
    assert_eq!(list.pop_front(), None);
}

#[test]
fn deque_write_through_front_view_then_pop() {
    let mut list = List::new();
    list.push_back(1);
    list.push_back(2);
    if let Some(v) = list.peek_front_mut() {
        *v = 42;
    }
    assert_eq!(list.pop_front(), Some(42));
    assert_eq!(list.pop_front(), Some(2));
}

#[test]
fn deque_write_through_back_view_then_pop() {
    let mut list = List::new();
    list.push_back(1);
    list.push_back(2);
    if let Some(v) = list.peek_back_mut() {
        *v += 40;
    }
    assert_eq!(list.pop_back(), Some(42));
    assert_eq!(list.pop_back(), Some(1));
}

#[test]
fn deque_drain_yields_each_element_then_empty_forever() {
    let mut list = List::new();
    for v in 0..10 {
        if v % 2 == 0 {
            list.push_front(v);
        } else {
            list.push_back(v);
        }
    }
    let mut iter = list.into_iter();
    let mut seen = Vec::new();
    let mut k = 0;
    loop {
        let item = if k % 3 == 0 { iter.next_back() } else { iter.next() };
        match item {
            Some(v) => seen.push(v),
            None => break,
        }
        k += 1;
    }
    assert_eq!(seen.len(), 10);
    seen.sort();
    assert_eq!(seen, (0..10).collect::<Vec<i32>>());
    for _ in 0..5 {
        assert_eq!(iter.next(), None);
        assert_eq!(iter.next_back(), None);
    }
}

#[test]
fn deque_middle_slots_relinked_after_pops() {
    // pops from the front free arena slots that later elements move into
    let mut list = List::new();
    for v in 0..6 {
        list.push_back(v);
    }
    assert_eq!(list.pop_front(), Some(0));
    assert_eq!(list.pop_front(), Some(1));
    list.push_front(100);
    list.push_back(200);
    assert_eq!(list.pop_back(), Some(200));
    assert_eq!(list.pop_front(), Some(100));
    let mut iter = list.into_iter();
    assert_eq!(iter.next(), Some(2));
    assert_eq!(iter.next_back(), Some(5));
    assert_eq!(iter.next(), Some(3));
    assert_eq!(iter.next(), Some(4));
    assert_eq!(iter.next(), None);
}

#[test]
fn deque_long_chain_is_destroyed() {
    let mut list = List::new();
    for v in 0..100_000 {
        list.push_front(v);
    }
    drop(list);
    let mut list = List::new();
    for v in 0..100_000 {
        list.push_back(v);
    }
    assert_eq!(list.peek_back(), Some(&99_999));
}

#[test]
fn deque_holds_owned_values() {
    let mut list = List::new();
    list.push_back(String::from("b"));
    list.push_front(String::from("a"));
    assert_eq!(list.pop_back(), Some(String::from("b")));
    assert_eq!(list.pop_back(), Some(String::from("a")));
    assert_eq!(list.pop_back(), None);
}
