use heap_list::list::LinkedList;

fn render<T: std::fmt::Display>(list: &mut LinkedList<T>) -> String {
    let mut s = String::new();
    let mut i: i32 = 0;
    loop {
        match list.get(i) {
            Some(v) => {
                if i > 0 {
                    s.push_str(", ");
                }
                s.push_str(&v.to_string());
            }
            None => break,
        }
        i += 1;
    }
    s
}

#[test]
fn create_numeric_list() {
    let mut list = LinkedList::<i32>::new();
    list.add(1);
    list.add(2);
    list.add(3);
    println!("Linked List is {}", render(&mut list));
    assert_eq!(3, list.length);
}

#[test]
fn create_string_list() {
    let mut list_str = LinkedList::<String>::new();
    list_str.add("A".to_string());
    list_str.add("B".to_string());
    list_str.add("C".to_string());
    println!("Linked List is {}", render(&mut list_str));
    assert_eq!(3, list_str.length);
}

#[test]
fn test_merge_linked_list_1() {
    let mut list_a = LinkedList::<i32>::new();
    let mut list_b = LinkedList::<i32>::new();
    let vec_a = vec![1, 3, 5, 7];
    let vec_b = vec![2, 4, 6, 8];
    let target_vec = vec![1, 2, 3, 4, 5, 6, 7, 8];

    for i in 0..vec_a.len() {
        list_a.add(vec_a[i]);
    }
    for i in 0..vec_b.len() {
        list_b.add(vec_b[i]);
    }
    println!("list a {} list b {}", render(&mut list_a), render(&mut list_b));
    let mut list_c = LinkedList::<i32>::merge(list_a, list_b);
    println!("merged List is {}", render(&mut list_c));
    for i in 0..target_vec.len() {
        assert_eq!(target_vec[i], *list_c.get(i as i32).unwrap());
    }
}

#[test]
fn test_merge_linked_list_2() {
    let mut list_a = LinkedList::<i32>::new();
    let mut list_b = LinkedList::<i32>::new();
    let vec_a = vec![11, 33, 44, 88, 89, 90, 100];
    let vec_b = vec![1, 22, 30, 45];
    let target_vec = vec![1, 11, 22, 30, 33, 44, 45, 88, 89, 90, 100];

    for i in 0..vec_a.len() {
        list_a.add(vec_a[i]);
    }
    for i in 0..vec_b.len() {
        list_b.add(vec_b[i]);
    }
    println!("list a {} list b {}", render(&mut list_a), render(&mut list_b));
    let mut list_c = LinkedList::<i32>::merge(list_a, list_b);
    println!("merged List is {}", render(&mut list_c));
    for i in 0..target_vec.len() {
        assert_eq!(target_vec[i], *list_c.get(i as i32).unwrap());
    }
}

#[test]
fn get_is_absent_outside_the_live_range() {
    let mut list = LinkedList::<i32>::new();
    assert!(list.get(0).is_none());
    list.add(10);
    list.add(20);
    assert_eq!(list.get(0), Some(&10));
    assert_eq!(list.get(1), Some(&20));
    assert!(list.get(2).is_none());
    assert!(list.get(-1).is_none());
    assert!(list.get(i32::MIN).is_none());
}

#[test]
fn merge_keeps_equal_values_and_lengths() {
    let mut list_a = LinkedList::<i32>::new();
    let mut list_b = LinkedList::<i32>::new();
    for v in [1, 2, 2, 9] {
        list_a.add(v);
    }
    for v in [2, 3, 9] {
        list_b.add(v);
    }
    let mut merged = LinkedList::<i32>::merge(list_a, list_b);
    assert_eq!(merged.length, 7);
    let expected = [1, 2, 2, 2, 3, 9, 9];
    for i in 0..expected.len() {
        assert_eq!(expected[i], *merged.get(i as i32).unwrap());
    }
}

#[test]
fn default_list_is_empty() {
    let mut list: LinkedList<i32> = Default::default();
    assert_eq!(0, list.length);
    assert!(list.get(0).is_none());
}
