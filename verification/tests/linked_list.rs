use chora::linked_list::LinkedList;
use std::cmp::Ordering;

#[test]
fn test_new() {
    let list: LinkedList<i32> = LinkedList::new();
    assert_eq!(list.len(), 0);
    assert!(list.first_handle().is_none());
    assert!(list.last_handle().is_none());
}

#[test]
fn test_push_front() {
    let mut list = LinkedList::new();
    let node1 = list.push_front(10);
    assert_eq!(list.len(), 1);
    assert_eq!(list.get(node1), Some(&10));
    assert!(list.prev_of(node1).is_none());
    assert!(list.next_of(node1).is_none());

    let node2 = list.push_front(20);
    assert_eq!(list.len(), 2);
    assert_eq!(list.get(node2), Some(&20));
    assert_eq!(list.next_of(node2), Some(node1));
    assert_eq!(list.prev_of(node1), Some(node2));
}

#[test]
fn test_push_back() {
    let mut list = LinkedList::new();
    let node1 = list.push_back(10);
    assert_eq!(list.len(), 1);
    assert_eq!(list.get(node1), Some(&10));
    assert!(list.prev_of(node1).is_none());
    assert!(list.next_of(node1).is_none());

    let node2 = list.push_back(20);
    assert_eq!(list.len(), 2);
    assert_eq!(list.get(node2), Some(&20));
    assert_eq!(list.prev_of(node2), Some(node1));
    assert_eq!(list.next_of(node1), Some(node2));
}

#[test]
fn test_pop_front() {
    let mut list = LinkedList::new();
    assert_eq!(list.pop_front(), None);

    list.push_back(10);
    list.push_back(20);
    assert_eq!(list.pop_front(), Some(10));
    assert_eq!(list.len(), 1);
    let first = list.first_handle().unwrap();
    assert!(list.prev_of(first).is_none());
    assert_eq!(list.pop_front(), Some(20));
    assert_eq!(list.len(), 0);
    assert!(list.first_handle().is_none());
    assert!(list.last_handle().is_none());
    assert_eq!(list.pop_front(), None);
}

#[test]
fn test_pop_back() {
    let mut list = LinkedList::new();
    assert_eq!(list.pop_back(), None);

    list.push_front(10);
    list.push_front(20);
    assert_eq!(list.pop_back(), Some(10));
    assert_eq!(list.len(), 1);
    let last = list.last_handle().unwrap();
    assert!(list.next_of(last).is_none());
    assert_eq!(list.pop_back(), Some(20));
    assert_eq!(list.len(), 0);
    assert!(list.first_handle().is_none());
    assert!(list.last_handle().is_none());
    assert_eq!(list.pop_back(), None);
}

#[test]
fn test_single_node() {
    let mut list = LinkedList::new();
    let node = list.push_front(42);
    assert_eq!(list.len(), 1);
    assert_eq!(list.first_handle(), Some(node));
    assert_eq!(list.last_handle(), Some(node));
    assert!(list.next_of(node).is_none());
    assert!(list.prev_of(node).is_none());

    // Remove the only node
    assert_eq!(list.pop_front(), Some(42));
    assert_eq!(list.len(), 0);
    assert!(list.first_handle().is_none());
    assert!(list.last_handle().is_none());
}

#[test]
fn test_pinch() {
    let mut list = LinkedList::<i32>::new();
    let mut elsewhere = LinkedList::<i32>::new();
    let stray = elsewhere.push_back(0);
    assert_eq!(list.pinch(stray), None);

    let node1 = list.push_back(10);
    let node2 = list.push_back(20);
    let node3 = list.push_back(30);

    assert_eq!(list.pinch(node2), Some(20));
    assert_eq!(list.len(), 2);
    assert_eq!(list.next_of(node1), Some(node3));
    assert_eq!(list.prev_of(node3), Some(node1));

    assert_eq!(list.pinch(node3), Some(30));
    assert_eq!(list.len(), 1);
    assert!(list.next_of(node1).is_none());

    assert_eq!(list.pinch(node1), Some(10));
    assert_eq!(list.len(), 0);
    assert!(list.first_handle().is_none());
    assert!(list.last_handle().is_none());
}

#[test]
fn test_generic_support() {
    let mut list = LinkedList::new();
    list.push_front("Hello");
    list.push_back("World");
    assert_eq!(list.pop_front(), Some("Hello"));
    assert_eq!(list.pop_back(), Some("World"));
}

#[test]
fn test_complex_operations() {
    let mut list = LinkedList::new();
    list.push_back(10);
    list.push_front(20);
    list.push_back(30);

    assert_eq!(list.pop_front(), Some(20));
    assert_eq!(list.pop_back(), Some(30));
    assert_eq!(list.pop_front(), Some(10));
    assert!(list.first_handle().is_none());
    assert!(list.last_handle().is_none());
    assert_eq!(list.len(), 0);

    list.push_back(40);
    assert_eq!(list.pop_back(), Some(40));
}

fn collect(list: &LinkedList<i32>) -> Vec<i32> {
    let mut out = Vec::new();
    let mut it = list.iter();
    while let Some(v) = it.next() {
        out.push(*v);
    }
    out
}

#[test]
fn push_back_then_pop_back_restores_the_list() {
    let mut list = LinkedList::from_vec(vec![1, 2, 3]);
    list.push_back(9);
    assert_eq!(list.pop_back(), Some(9));
    assert_eq!(collect(&list), vec![1, 2, 3]);
}

#[test]
fn push_front_then_pop_front_restores_the_list() {
    let mut list = LinkedList::from_vec(vec![1, 2, 3]);
    list.push_front(9);
    assert_eq!(list.pop_front(), Some(9));
    assert_eq!(collect(&list), vec![1, 2, 3]);
}

#[test]
fn push_back_pop_front_is_first_in_first_out() {
    let mut list = LinkedList::new();
    list.push_back(1);
    list.push_back(2);
    assert_eq!(list.pop_front(), Some(1));
    list.push_back(3);
    assert_eq!(list.pop_front(), Some(2));
    assert_eq!(list.pop_front(), Some(3));
    assert_eq!(list.pop_front(), None);
}

#[test]
fn pinching_a_pushed_handle_takes_out_that_element() {
    let mut list = LinkedList::from_vec(vec![5, 6]);
    let h = list.push_back(7);
    assert_eq!(list.pinch(h), Some(7));
    assert_eq!(collect(&list), vec![5, 6]);
    assert_eq!(list.pinch(h), None);
    assert_eq!(list.get(h), None);
}

#[test]
fn handles_of_other_nodes_survive_a_pinch() {
    let mut list = LinkedList::new();
    let a = list.push_back(1);
    let b = list.push_back(2);
    let c = list.push_back(3);
    assert_eq!(list.pinch(b), Some(2));
    assert_eq!(list.get(a), Some(&1));
    assert_eq!(list.get(c), Some(&3));
    let d = list.push_front(0);
    assert_eq!(list.next_of(d), Some(a));
    assert_eq!(collect(&list), vec![0, 1, 3]);
}

#[test]
fn merge_appends_the_other_list() {
    let mut left = LinkedList::from_vec(vec![1, 2]);
    let right = LinkedList::from_vec(vec![3, 4]);
    left.merge(right);
    assert_eq!(left.len(), 4);
    assert_eq!(collect(&left), vec![1, 2, 3, 4]);

    let mut empty = LinkedList::new();
    let other = LinkedList::from_vec(vec![8]);
    empty.merge(other);
    assert_eq!(collect(&empty), vec![8]);
}

#[test]
fn merge_takes_over_the_other_lists_nodes() {
    let mut left = LinkedList::new();
    let a = left.push_back(1);
    left.push_back(2);
    left.pop_front();
    let mut right = LinkedList::new();
    let b = right.push_back(3);
    let c = right.push_back(4);
    let b2 = left.handle_after_merge(b);
    let c2 = left.handle_after_merge(c);
    left.merge(right);
    assert_eq!(collect(&left), vec![2, 3, 4]);
    assert_eq!(left.get(b2), Some(&3));
    assert_eq!(left.get(c2), Some(&4));
    assert_eq!(left.get(a), None);
    let last_left = left.first_handle().unwrap();
    assert_eq!(left.prev_of(b2), Some(last_left));
    assert_eq!(left.next_of(last_left), Some(b2));
    assert_eq!(left.last_handle(), Some(c2));
    assert_eq!(left.pinch(b2), Some(3));
    assert_eq!(collect(&left), vec![2, 4]);

    // An empty list takes the other one over with its handles as they are.
    let mut empty: LinkedList<i32> = LinkedList::new();
    let mut other = LinkedList::new();
    let d = other.push_back(9);
    assert_eq!(empty.handle_after_merge(d), d);
    empty.merge(other);
    assert_eq!(empty.get(d), Some(&9));
}

#[test]
fn iter_mut_changes_elements_in_place() {
    let mut list = LinkedList::from_vec(vec![1, 2, 3]);
    {
        let mut it = list.iter_mut();
        while let Some(v) = it.next() {
            *v *= 10;
        }
        it.finish();
    }
    assert_eq!(list.len(), 3);
    assert_eq!(collect(&list), vec![10, 20, 30]);
}

#[test]
fn into_iter_yields_front_to_back() {
    let mut list = LinkedList::from_vec(vec![4, 5]);
    list.extend(vec![6]);
    let mut it = list.into_iter();
    assert_eq!(it.next(), Some(4));
    assert_eq!(it.next(), Some(5));
    assert_eq!(it.next(), Some(6));
    assert_eq!(it.next(), None);
}

#[test]
fn default_list_is_empty() {
    let list: LinkedList<u8> = LinkedList::default();
    assert_eq!(list.len(), 0);
}

#[test]
fn a_duplicate_holds_equal_elements_in_order() {
    let list = LinkedList::from_vec(vec!["a".to_string(), "b".to_string()]);
    let copy = list.duplicate();
    assert_eq!(copy.len(), 2);
    assert!(copy.equals(&list));
    let mut it = copy.into_iter();
    assert_eq!(it.next(), Some("a".to_string()));
    assert_eq!(it.next(), Some("b".to_string()));
}

#[test]
fn lists_are_equal_element_by_element() {
    let a = LinkedList::from_vec(vec![1, 2, 3]);
    let b = LinkedList::from_vec(vec![1, 2, 3]);
    let c = LinkedList::from_vec(vec![1, 2]);
    let d = LinkedList::from_vec(vec![1, 5, 3]);
    assert!(a.equals(&b));
    assert!(!a.equals(&c));
    assert!(!a.equals(&d));
    assert!(LinkedList::<i32>::new().equals(&LinkedList::new()));
}

#[test]
fn lists_order_lexicographically() {
    let a = LinkedList::from_vec(vec![1, 2, 3]);
    let b = LinkedList::from_vec(vec![1, 2]);
    let c = LinkedList::from_vec(vec![1, 3]);
    assert_eq!(a.compare(&b), Ordering::Greater);
    assert_eq!(b.compare(&a), Ordering::Less);
    assert_eq!(a.compare(&c), Ordering::Less);
    assert_eq!(a.compare(&a.duplicate()), Ordering::Equal);
    let x = LinkedList::from_vec(vec![1.0f64, f64::NAN]);
    let y = LinkedList::from_vec(vec![1.0f64, 2.0]);
    assert_eq!(x.compare_partial(&y), None);
    let z = LinkedList::from_vec(vec![0.5f64, 9.0]);
    assert_eq!(z.compare_partial(&y), Some(Ordering::Less));
    assert_eq!(y.compare_partial(&y.duplicate()), Some(Ordering::Equal));
}

#[test]
fn length_is_pushes_less_elements_taken_out() {
    let mut list = LinkedList::new();
    let a = list.push_back(1);
    list.push_front(0);
    let c = list.push_back(2);
    let mut taken = 0;
    if list.pop_front().is_some() {
        taken += 1;
    }
    if list.pinch(c).is_some() {
        taken += 1;
    }
    // A handle whose node has left the list takes nothing out.
    if list.pinch(c).is_some() {
        taken += 1;
    }
    if list.pop_back().is_some() {
        taken += 1;
    }
    if list.pop_back().is_some() {
        taken += 1;
    }
    assert_eq!(list.len(), 3 - taken);
    assert_eq!(list.len(), 0);
    assert_eq!(list.get(a), None);
}

#[test]
fn links_run_both_ways_through_every_node() {
    let mut list = LinkedList::new();
    let hs = vec![list.push_back(1), list.push_back(2), list.push_back(3), list.push_back(4)];
    let b = hs[1];
    list.pinch(b);
    let live = vec![hs[0], hs[2], hs[3]];
    let mut forward = Vec::new();
    let mut h = list.first_handle();
    while let Some(x) = h {
        forward.push(x);
        h = list.next_of(x);
    }
    assert_eq!(forward, live);
    let mut backward = Vec::new();
    let mut h = list.last_handle();
    while let Some(x) = h {
        backward.push(x);
        h = list.prev_of(x);
    }
    assert_eq!(backward, vec![hs[3], hs[2], hs[0]]);
    assert_eq!(list.prev_of(hs[0]), None);
    assert_eq!(list.next_of(hs[3]), None);

    let empty: LinkedList<i32> = LinkedList::new();
    assert_eq!(empty.first_handle(), None);
    assert_eq!(empty.last_handle(), None);
}
