use containers::linked_list::{LinkedList, LinkedListError};

fn items(list: &LinkedList<u32>) -> Vec<u32> {
    let mut out = Vec::new();
    for i in 0..list.length() {
        out.push(list.get(i).unwrap());
    }
    out
}

#[test]
fn push_back_keeps_call_order() {
    let values = [7u32, 3, 9, 3, 1];
    let mut list = LinkedList::new();
    for v in values {
        list.push_back(v);
    }
    assert_eq!(list.length(), 5);
    for (i, v) in values.iter().enumerate() {
        assert_eq!(list.get(i), Ok(*v));
    }
    assert_eq!(list.get(5), Err(LinkedListError::OutOfBounds));
}

#[test]
fn push_front_reverses_call_order() {
    let values = [7u32, 3, 9, 1];
    let mut list = LinkedList::new();
    for v in values {
        list.push_front(v);
    }
    assert_eq!(list.length(), 4);
    assert_eq!(list.get(0), Ok(1));
    assert_eq!(list.get(3), Ok(7));
    assert_eq!(items(&list), vec![1, 9, 3, 7]);
}

#[test]
fn pop_front_is_first_in_first_out() {
    let mut list = LinkedList::new();
    for v in [4u32, 5, 6, 7] {
        list.push_back(v);
    }
    assert_eq!(list.pop_front(), Ok(4));
    assert_eq!(list.pop_front(), Ok(5));
    assert_eq!(list.pop_front(), Ok(6));
    assert_eq!(list.pop_front(), Ok(7));
    assert_eq!(list.pop_front(), Err(LinkedListError::EmptyList));
    assert_eq!(list.length(), 0);
}

#[test]
fn pop_back_is_last_in_first_out() {
    let mut list = LinkedList::new();
    for v in [4u32, 5, 6, 7] {
        list.push_back(v);
    }
    assert_eq!(list.pop_back(), Ok(7));
    assert_eq!(list.pop_back(), Ok(6));
    assert_eq!(list.pop_back(), Ok(5));
    assert_eq!(list.pop_back(), Ok(4));
    assert_eq!(list.pop_back(), Err(LinkedListError::EmptyList));
    assert_eq!(list.length(), 0);
}

#[test]
fn remove_shifts_later_items_up() {
    let mut list = LinkedList::from([10u32, 11, 12, 13, 14]);
    assert_eq!(list.remove(2), Ok(12));
    assert_eq!(list.length(), 4);
    assert_eq!(list.get(0), Ok(10));
    assert_eq!(list.get(1), Ok(11));
    assert_eq!(list.get(2), Ok(13));
    assert_eq!(list.get(3), Ok(14));
    assert_eq!(list.get(4), Err(LinkedListError::OutOfBounds));
}

#[test]
fn failed_remove_changes_nothing() {
    let mut list = LinkedList::from([10u32, 11, 12]);
    assert_eq!(list.remove(3), Err(LinkedListError::OutOfBounds));
    assert_eq!(list.remove(usize::MAX), Err(LinkedListError::OutOfBounds));
    assert_eq!(list.length(), 3);
    assert_eq!(items(&list), vec![10, 11, 12]);
}

#[test]
fn append_puts_other_behind() {
    let mut list = LinkedList::from([1u32, 2]);
    let other = LinkedList::from([3u32, 4, 5]);
    list.append(other);
    assert_eq!(list.length(), 5);
    assert_eq!(items(&list), vec![1, 2, 3, 4, 5]);
    assert_eq!(list.back(), Ok(5));
    list.push_back(6);
    assert_eq!(items(&list), vec![1, 2, 3, 4, 5, 6]);
}

#[test]
fn append_to_empty_adopts_other() {
    let mut list: LinkedList<u32> = LinkedList::new();
    list.append(LinkedList::from([3u32, 4, 5]));
    assert_eq!(list.length(), 3);
    assert_eq!(list.front(), Ok(3));
    assert_eq!(list.back(), Ok(5));
    assert_eq!(items(&list), vec![3, 4, 5]);
    list.push_back(6);
    list.push_front(2);
    assert_eq!(items(&list), vec![2, 3, 4, 5, 6]);
}

#[test]
fn append_of_empty_changes_nothing() {
    let mut list = LinkedList::from([1u32, 2]);
    list.append(LinkedList::new());
    assert_eq!(items(&list), vec![1, 2]);
    let mut none: LinkedList<u32> = LinkedList::new();
    none.append(LinkedList::new());
    assert!(none.is_empty());
    assert_eq!(none.front(), Err(LinkedListError::EmptyList));
}

#[test]
fn append_after_removals_keeps_order() {
    let mut list = LinkedList::from([1u32, 2, 3, 4]);
    assert_eq!(list.remove(1), Ok(2));
    assert_eq!(list.pop_front(), Ok(1));
    let mut other = LinkedList::from([7u32, 8, 9]);
    assert_eq!(other.pop_back(), Ok(9));
    other.push_front(6);
    list.append(other);
    assert_eq!(items(&list), vec![3, 4, 6, 7, 8]);
}

#[test]
fn cleared_list_fails_with_empty_list() {
    let mut list = LinkedList::from([1u32, 2, 3]);
    list.clear();
    assert_eq!(list.get(0), Err(LinkedListError::EmptyList));
    assert_eq!(list.front(), Err(LinkedListError::EmptyList));
    assert_eq!(list.back(), Err(LinkedListError::EmptyList));
    assert_eq!(list.pop_front(), Err(LinkedListError::EmptyList));
    assert_eq!(list.pop_back(), Err(LinkedListError::EmptyList));
    assert_eq!(list.remove(0), Err(LinkedListError::EmptyList));
    assert_eq!(list.length(), 0);
    assert!(list.is_empty());
    assert!(!list.contains(1));
}

#[test]
fn cleared_list_can_be_filled_again() {
    let mut list = LinkedList::from([1u32, 2, 3]);
    list.clear();
    list.push_back(8);
    list.push_front(7);
    list.push_back(9);
    assert_eq!(items(&list), vec![7, 8, 9]);
    assert_eq!(list.front(), Ok(7));
    assert_eq!(list.back(), Ok(9));
}

#[test]
fn scenario_remove_until_empty() {
    let mut list: LinkedList<u32> = LinkedList::new();
    list.push_back(1);
    list.push_back(2);
    list.push_back(3);
    assert_eq!(list.remove(1), Ok(2));
    assert_eq!(list.get(1), Ok(3));
    assert_eq!(list.remove(4), Err(LinkedListError::OutOfBounds));
    assert_eq!(list.remove(1), Ok(3));
    assert_eq!(list.remove(0), Ok(1));
    assert_eq!(list.remove(0), Err(LinkedListError::EmptyList));
}

#[test]
fn scenario_pop_front_on_empty_then_one() {
    let mut list: LinkedList<u32> = LinkedList::new();
    assert_eq!(list.pop_front(), Err(LinkedListError::EmptyList));
    list.push_front(1);
    assert_eq!(list.pop_front(), Ok(1));
    assert!(list.is_empty());
    assert_eq!(list.length(), 0);
}

#[test]
fn scenario_pop_back_of_three() {
    let mut list: LinkedList<u32> = LinkedList::new();
    list.push_back(10);
    list.push_back(20);
    list.push_back(30);
    assert_eq!(list.pop_back(), Ok(30));
    assert_eq!(list.get(1), Ok(20));
    assert_eq!(list.length(), 2);
}

#[test]
fn removing_the_last_item_moves_the_back() {
    let mut list = LinkedList::from([1u32, 2, 3]);
    assert_eq!(list.remove(2), Ok(3));
    assert_eq!(list.back(), Ok(2));
    list.push_back(4);
    assert_eq!(items(&list), vec![1, 2, 4]);
    assert_eq!(list.back(), Ok(4));
}

#[test]
fn removing_the_only_item_empties_both_ends() {
    let mut list = LinkedList::from([5u32]);
    assert_eq!(list.remove(0), Ok(5));
    assert_eq!(list.front(), Err(LinkedListError::EmptyList));
    assert_eq!(list.back(), Err(LinkedListError::EmptyList));
    list.push_back(6);
    assert_eq!(list.front(), Ok(6));
    assert_eq!(list.back(), Ok(6));
}

#[test]
fn pop_back_down_to_one_keeps_front_and_back_together() {
    let mut list = LinkedList::from([1u32, 2]);
    assert_eq!(list.pop_back(), Ok(2));
    assert_eq!(list.front(), Ok(1));
    assert_eq!(list.back(), Ok(1));
    assert_eq!(list.length(), 1);
}

#[test]
fn get_distinguishes_empty_from_out_of_bounds() {
    let mut list: LinkedList<u32> = LinkedList::new();
    assert_eq!(list.get(usize::MAX), Err(LinkedListError::EmptyList));
    list.push_back(1);
    assert_eq!(list.get(1), Err(LinkedListError::OutOfBounds));
    assert_eq!(list.get(usize::MAX), Err(LinkedListError::OutOfBounds));
    assert_eq!(list.get(0), Ok(1));
}

#[test]
fn freed_nodes_are_used_again() {
    let mut list: LinkedList<u32> = LinkedList::new();
    for round in 0..50u32 {
        list.push_back(round + 100);
        list.push_back(round);
        list.push_front(round + 200);
        assert_eq!(list.remove(list.length() - 1), Ok(round));
        assert_eq!(list.pop_front(), Ok(round + 200));
    }
    assert_eq!(list.length(), 50);
    for i in 0..50usize {
        assert_eq!(list.get(i), Ok(i as u32 + 100));
    }
}

#[test]
fn contains_finds_each_item_and_nothing_else() {
    let list = LinkedList::from([2u32, 4, 6, 4]);
    assert!(list.contains(2));
    assert!(list.contains(4));
    assert!(list.contains(6));
    assert!(!list.contains(3));
    assert!(!list.contains(0));
}

#[test]
fn from_empty_array_is_empty() {
    let arr: [u32; 0] = [];
    let list = LinkedList::from(arr);
    assert!(list.is_empty());
    assert_eq!(list.length(), 0);
}

#[test]
fn errors_compare_as_their_variants() {
    assert_eq!(LinkedListError::EmptyList, LinkedListError::EmptyList);
    assert_ne!(LinkedListError::EmptyList, LinkedListError::OutOfBounds);
    assert_eq!(format!("{:?}", LinkedListError::OutOfBounds), "OutOfBounds");
}

#[derive(Clone, Copy, Debug, PartialEq)]
struct Point {
    x: i16,
    y: i16,
}

#[test]
fn lists_hold_any_copyable_comparable_value() {
    let a = Point { x: 1, y: 2 };
    let b = Point { x: -3, y: 4 };
    let mut list = LinkedList::new();
    list.push_back(a);
    list.push_front(b);
    assert_eq!(list.get(0), Ok(b));
    assert_eq!(list.get(1), Ok(a));
    assert!(list.contains(Point { x: 1, y: 2 }));
    assert!(!list.contains(Point { x: 2, y: 1 }));
    assert_eq!(list.pop_back(), Ok(a));
    assert_eq!(list.pop_back(), Ok(b));
    assert_eq!(list.pop_back(), Err(LinkedListError::EmptyList));
}

#[test]
fn long_list_keeps_every_position() {
    let mut list = LinkedList::new();
    for v in 0..2000u32 {
        list.push_back(v);
    }
    assert_eq!(list.length(), 2000);
    assert_eq!(list.front(), Ok(0));
    assert_eq!(list.back(), Ok(1999));
    assert_eq!(list.get(1234), Ok(1234));
    assert_eq!(list.remove(1000), Ok(1000));
    assert_eq!(list.get(1000), Ok(1001));
    assert_eq!(list.length(), 1999);
    list.clear();
    assert_eq!(list.length(), 0);
}
