use beee::cas_utils::arena::Arena;
use beee::cas_utils::c_cas::CCasUnion;
use beee::cas_utils::m_cas::{
    AtomicMCasPtr, MCas, MCasPtr, MCasRead, MCasUnion, SingleCas,
};
use beee::mcas_queue::{Node, Queue};

fn payload_at(arena: &Arena<MCasUnion<i32>>, node: usize) -> i32 {
    match &arena.nodes[node] {
        CCasUnion::Value(MCasUnion::Value(v)) => *v,
        _ => panic!("expected a plain value node"),
    }
}

#[test]
fn single_thread_m_cas() {
    let mut arena: Arena<MCasUnion<i32>> = Arena::new();
    let num1 = MCasPtr::new(&mut arena, 1);
    let num2 = MCasPtr::new(&mut arena, 2);
    let num3 = MCasPtr::new(&mut arena, 3);
    let num4 = MCasPtr::new(&mut arena, 4);

    let atomic_num1 = AtomicMCasPtr::new(&mut arena, &num1);
    let first_cas = SingleCas::new(&atomic_num1.clone(), &mut num2.clone(), &mut num2.clone());

    let atomic_num3 = AtomicMCasPtr::new(&mut arena, &num3);
    let second_cas = SingleCas::new(&atomic_num3.clone(), &mut num3.clone(), &mut num4.clone());

    let m_cas = vec![first_cas, second_cas];
    assert_eq!(m_cas.m_cas(&mut arena), false);
    let p1 = atomic_num1.read(&mut arena);
    assert_eq!(payload_at(&arena, p1), 1);
    let p3 = atomic_num3.read(&mut arena);
    assert_eq!(payload_at(&arena, p3), 3);

    let first_cas = SingleCas::new(&atomic_num1.clone(), &mut num1.clone(), &mut num2.clone());
    let second_cas = SingleCas::new(&atomic_num3.clone(), &mut num3.clone(), &mut num4.clone());
    let m_cas = vec![first_cas, second_cas];
    assert_eq!(m_cas.m_cas(&mut arena), true);
    let p1 = atomic_num1.read(&mut arena);
    assert_eq!(payload_at(&arena, p1), 2);
    let p3 = atomic_num3.read(&mut arena);
    assert_eq!(payload_at(&arena, p3), 4);
}

#[test]
fn m_cas_empty_entry_list_fails() {
    let mut arena: Arena<MCasUnion<i32>> = Arena::new();
    let entries: Vec<SingleCas> = vec![];
    assert_eq!(entries.m_cas(&mut arena), false);
}

#[test]
fn m_cas_entry_order_does_not_matter() {
    // the operation sorts internally by the words' stable names
    let mut arena: Arena<MCasUnion<i32>> = Arena::new();
    let n1 = MCasPtr::new(&mut arena, 1);
    let n2 = MCasPtr::new(&mut arena, 2);
    let n3 = MCasPtr::new(&mut arena, 3);
    let n4 = MCasPtr::new(&mut arena, 4);
    let c1 = AtomicMCasPtr::new(&mut arena, &n1);
    let c3 = AtomicMCasPtr::new(&mut arena, &n3);
    // entries listed against allocation order
    let entries = vec![
        SingleCas::new(&c3, &n3, &n4),
        SingleCas::new(&c1, &n1, &n2),
    ];
    assert_eq!(entries.m_cas(&mut arena), true);
    let p1 = c1.read(&mut arena);
    assert_eq!(payload_at(&arena, p1), 2);
    let p3 = c3.read(&mut arena);
    assert_eq!(payload_at(&arena, p3), 4);
}

#[test]
fn overlapping_m_cas_runs_serialize_first_wins() {
    // two swaps share one word; run one after the other, the first commits
    // and the second sees a stale expectation: the outcome is exactly the
    // serial order in which they ran
    let mut arena: Arena<MCasUnion<i32>> = Arena::new();
    let x = MCasPtr::new(&mut arena, 10);
    let y = MCasPtr::new(&mut arena, 11);
    let z = MCasPtr::new(&mut arena, 12);
    let a = MCasPtr::new(&mut arena, 20);
    let b = MCasPtr::new(&mut arena, 21);
    let p = MCasPtr::new(&mut arena, 30);
    let q = MCasPtr::new(&mut arena, 31);
    let shared = AtomicMCasPtr::new(&mut arena, &x);
    let left = AtomicMCasPtr::new(&mut arena, &a);
    let right = AtomicMCasPtr::new(&mut arena, &p);

    let first = vec![
        SingleCas::new(&left, &a, &b),
        SingleCas::new(&shared, &x, &y),
    ];
    let second = vec![
        SingleCas::new(&shared, &x, &z),
        SingleCas::new(&right, &p, &q),
    ];
    assert_eq!(first.m_cas(&mut arena), true);
    assert_eq!(second.m_cas(&mut arena), false);
    let s = shared.read(&mut arena);
    assert_eq!(payload_at(&arena, s), 11);
    let l = left.read(&mut arena);
    assert_eq!(payload_at(&arena, l), 21);
    let r = right.read(&mut arena);
    assert_eq!(payload_at(&arena, r), 30);
}

#[test]
fn overlapping_m_cas_runs_serialize_other_order() {
    let mut arena: Arena<MCasUnion<i32>> = Arena::new();
    let x = MCasPtr::new(&mut arena, 10);
    let y = MCasPtr::new(&mut arena, 11);
    let z = MCasPtr::new(&mut arena, 12);
    let a = MCasPtr::new(&mut arena, 20);
    let b = MCasPtr::new(&mut arena, 21);
    let p = MCasPtr::new(&mut arena, 30);
    let q = MCasPtr::new(&mut arena, 31);
    let shared = AtomicMCasPtr::new(&mut arena, &x);
    let left = AtomicMCasPtr::new(&mut arena, &a);
    let right = AtomicMCasPtr::new(&mut arena, &p);

    let first = vec![
        SingleCas::new(&left, &a, &b),
        SingleCas::new(&shared, &x, &y),
    ];
    let second = vec![
        SingleCas::new(&shared, &x, &z),
        SingleCas::new(&right, &p, &q),
    ];
    assert_eq!(second.m_cas(&mut arena), true);
    assert_eq!(first.m_cas(&mut arena), false);
    let s = shared.read(&mut arena);
    assert_eq!(payload_at(&arena, s), 12);
    let l = left.read(&mut arena);
    assert_eq!(payload_at(&arena, l), 20);
    let r = right.read(&mut arena);
    assert_eq!(payload_at(&arena, r), 31);
}

#[test]
fn failed_m_cas_leaves_no_new_value_visible() {
    // a failing swap never lets any of its new values become visible
    let mut arena: Arena<MCasUnion<i32>> = Arena::new();
    let n1 = MCasPtr::new(&mut arena, 1);
    let n2 = MCasPtr::new(&mut arena, 2);
    let n3 = MCasPtr::new(&mut arena, 3);
    let n4 = MCasPtr::new(&mut arena, 4);
    let c1 = AtomicMCasPtr::new(&mut arena, &n1);
    let c3 = AtomicMCasPtr::new(&mut arena, &n4);
    // the second entry's expectation is stale
    let entries = vec![
        SingleCas::new(&c1, &n1, &n2),
        SingleCas::new(&c3, &n3, &n4),
    ];
    assert_eq!(entries.m_cas(&mut arena), false);
    let p1 = c1.read(&mut arena);
    assert_eq!(payload_at(&arena, p1), 1);
    let p3 = c3.read(&mut arena);
    assert_eq!(payload_at(&arena, p3), 4);
}

#[test]
fn read_mut_sees_the_created_value() {
    let mut arena: Arena<MCasUnion<i32>> = Arena::new();
    let n = MCasPtr::new(&mut arena, 42);
    assert_eq!(*n.read_mut(&arena), 42);
    assert_eq!(n.get_mut_ptr(), 0);
}

#[test]
fn queue_new_is_empty() {
    let mut arena: Arena<MCasUnion<Option<Node<i32>>>> = Arena::new();
    let queue = Queue::new(&mut arena);
    let head = queue.head.read(&mut arena);
    match &arena.nodes[head] {
        CCasUnion::Value(MCasUnion::Value(None)) => {},
        _ => panic!("a fresh queue must hold the empty link"),
    }
    let tail = queue.tail.read(&mut arena);
    assert_eq!(head, tail);
}

#[test]
fn queue_pop_on_empty_is_none() {
    let mut arena: Arena<MCasUnion<Option<Node<i32>>>> = Arena::new();
    let queue = Queue::new(&mut arena);
    assert_eq!(queue.pop(&mut arena), None);
    assert_eq!(queue.pop(&mut arena), None);
}

#[test]
fn queue_pop_walks_the_chain() {
    let mut arena: Arena<MCasUnion<Option<Node<i32>>>> = Arena::new();
    let empty = MCasPtr::new(&mut arena, None);
    let next_word = AtomicMCasPtr::new(&mut arena, &empty);
    let link = MCasPtr::new(&mut arena, Some(Node { val: 5, next: next_word }));
    let head = AtomicMCasPtr::new(&mut arena, &link);
    let tail = AtomicMCasPtr::new(&mut arena, &empty);
    let queue = Queue { head, tail };
    assert_eq!(queue.pop(&mut arena), Some(5));
    assert_eq!(queue.pop(&mut arena), None);
}
