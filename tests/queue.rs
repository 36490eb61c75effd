use spsc_queue::SPSCQueue;
use std::rc::Rc;

#[test]
fn new_queue_pops_nothing() {
    let mut q: SPSCQueue<i32> = SPSCQueue::new(4);
    assert_eq!(q.pop(), None);
    assert_eq!(q.pop(), None);
}

#[test]
fn full_after_capacity_minus_one_pushes() {
    let n: usize = 5;
    let mut q: SPSCQueue<usize> = SPSCQueue::new(n);
    for i in 0..n - 1 {
        assert!(q.push(i).is_ok());
    }
    assert_eq!(q.push(99), Err(99));
    assert_eq!(q.pop(), Some(0));
    assert!(q.push(4).is_ok());
    assert_eq!(q.push(5), Err(5));
}

#[test]
fn fifo_order_single_producer_single_consumer() {
    let mut q: SPSCQueue<u64> = SPSCQueue::new(10);
    let values: Vec<u64> = vec![7, 3, 3, 100, 0, 42, 8, 1, 9];
    for v in &values {
        assert!(q.push(*v).is_ok());
    }
    let mut seen: Vec<u64> = Vec::new();
    while let Some(v) = q.pop() {
        seen.push(v);
    }
    assert_eq!(seen, values);
}

#[test]
fn refused_push_leaves_contents_unchanged() {
    let mut q: SPSCQueue<i32> = SPSCQueue::new(3);
    assert!(q.push(1).is_ok());
    assert!(q.push(2).is_ok());
    assert_eq!(q.push(3), Err(3));
    assert_eq!(q.push(4), Err(4));
    assert_eq!(q.pop(), Some(1));
    assert_eq!(q.pop(), Some(2));
    assert_eq!(q.pop(), None);
}

#[test]
fn smallest_capacity_holds_one_element() {
    let mut q: SPSCQueue<char> = SPSCQueue::new(2);
    for c in ['a', 'b', 'c', 'd'] {
        assert!(q.push(c).is_ok());
        assert_eq!(q.push('z'), Err('z'));
        assert_eq!(q.pop(), Some(c));
        assert_eq!(q.pop(), None);
    }
}

#[test]
fn cursors_wrap_around_many_times() {
    let mut q: SPSCQueue<u32> = SPSCQueue::new(4);
    let mut next_in: u32 = 0;
    let mut next_out: u32 = 0;
    for round in 0..50u32 {
        let k = round % 3 + 1;
        for _ in 0..k {
            assert!(q.push(next_in).is_ok());
            next_in += 1;
        }
        for _ in 0..k {
            assert_eq!(q.pop(), Some(next_out));
            next_out += 1;
        }
    }
    assert_eq!(q.pop(), None);
}

#[test]
fn moves_values_that_are_not_copy() {
    let mut q: SPSCQueue<String> = SPSCQueue::new(3);
    assert!(q.push(String::from("first")).is_ok());
    assert!(q.push(String::from("second")).is_ok());
    assert_eq!(q.pop().as_deref(), Some("first"));
    assert!(q.push(String::from("third")).is_ok());
    assert_eq!(q.pop().as_deref(), Some("second"));
    assert_eq!(q.pop().as_deref(), Some("third"));
    assert_eq!(q.pop(), None);
}

#[test]
fn interleaved_transfer_of_ten_thousand_items() {
    let mut q: SPSCQueue<i32> = SPSCQueue::new(100);
    let mut next: i32 = 0;
    let mut seen: Vec<i32> = Vec::new();
    while seen.len() < 10000 {
        // producer turn: push until refused or done
        while next < 10000 && q.push(next).is_ok() {
            next += 1;
        }
        // consumer turn: a few pops, then yield back
        for _ in 0..37 {
            match q.pop() {
                Some(v) => seen.push(v),
                None => break,
            }
        }
    }
    let expected: Vec<i32> = (0..10000).collect();
    assert_eq!(seen, expected);
    assert_eq!(q.pop(), None);
}

#[test]
fn dropping_queue_releases_each_held_value_once() {
    let token = Rc::new(5u8);
    let mut q: SPSCQueue<Rc<u8>> = SPSCQueue::new(4);
    assert!(q.push(Rc::clone(&token)).is_ok());
    assert!(q.push(Rc::clone(&token)).is_ok());
    assert!(q.push(Rc::clone(&token)).is_ok());
    assert_eq!(Rc::strong_count(&token), 4);
    let out = q.pop();
    assert_eq!(Rc::strong_count(&token), 4);
    drop(q);
    assert_eq!(Rc::strong_count(&token), 2);
    drop(out);
    assert_eq!(Rc::strong_count(&token), 1);
}

#[test]
fn dropping_wrapped_queue_releases_held_values() {
    let token = Rc::new(());
    let mut q: SPSCQueue<Rc<()>> = SPSCQueue::new(3);
    for _ in 0..5 {
        assert!(q.push(Rc::clone(&token)).is_ok());
        assert!(q.pop().is_some());
    }
    assert!(q.push(Rc::clone(&token)).is_ok());
    assert!(q.push(Rc::clone(&token)).is_ok());
    assert_eq!(Rc::strong_count(&token), 3);
    drop(q);
    assert_eq!(Rc::strong_count(&token), 1);
}

#[test]
fn refused_push_hands_the_item_back() {
    let mut q: SPSCQueue<String> = SPSCQueue::new(2);
    assert!(q.push(String::from("kept")).is_ok());
    let back = q.push(String::from("returned"));
    assert_eq!(back, Err(String::from("returned")));
    assert_eq!(q.pop().as_deref(), Some("kept"));
    assert!(q.push(back.unwrap_err()).is_ok());
    assert_eq!(q.pop().as_deref(), Some("returned"));
}
