use beee::epoch::ThreadStatus;
use beee::trieber_stack::Stack;

#[test]
fn single_thread_push() {
    let mut s = Stack::new();
    let n: i32 = 1 << 20;
    let mut i: i32 = 0;
    while i < n {
        s.push(i);
        i += 1;
    }
}

#[test]
fn single_thread_pop() {
    let mut s = Stack::new();
    let n: i32 = 1 << 20;
    let mut i: i32 = 0;
    while i < n {
        s.push(i);
        i += 1;
    }
    let mut j: i32 = 0;
    while j < n {
        s.pop();
        j += 1;
    }
}

#[test]
fn pop_returns_newest_first() {
    let mut s = Stack::new();
    s.push(1);
    s.push(2);
    s.push(3);
    assert_eq!(s.pop(), Some(3));
    assert_eq!(s.pop(), Some(2));
    s.push(4);
    assert_eq!(s.pop(), Some(4));
    assert_eq!(s.pop(), Some(1));
    assert_eq!(s.pop(), None);
}

#[test]
fn pop_on_empty_is_none() {
    let mut s: Stack<i32> = Stack::new();
    assert_eq!(s.pop(), None);
    assert_eq!(s.pop(), None);
}

#[test]
fn thread_status_starts_empty_and_pins() {
    let _status = ThreadStatus::new();
    let _guard = ThreadStatus::pin();
}
