use beee::cas_utils::arena::Arena;
use beee::cas_utils::c_cas::{CCasDesc, CCasPtr, CCasUnion};
use beee::cas_utils::Status;
use beee::utils::{AtomicNumLikes, AtomicNumLikesMethods, AtomicPtrAddOn};

fn value_at(arena: &Arena<i32>, node: usize) -> i32 {
    match &arena.nodes[node] {
        CCasUnion::Value(v) => *v,
        _ => panic!("expected a plain value node"),
    }
}

#[test]
fn ccas_condition_successful_is_noop() {
    // a conditional swap whose status word is already terminal leaves the
    // target word unchanged
    let mut arena: Arena<i32> = Arena::new();
    let a = CCasUnion::Value(1).get_ptr(&mut arena);
    let b = CCasUnion::Value(2).get_ptr(&mut arena);
    let cell = CCasPtr::from_c_cas_union(&mut arena, a);
    let success = AtomicNumLikes::new(&mut arena, Status::Successful);
    cell.c_cas(&mut arena, a, b, success);
    let p = cell.read(&mut arena);
    assert_eq!(value_at(&arena, p), 1);
}

#[test]
fn ccas_condition_undecided_swaps() {
    let mut arena: Arena<i32> = Arena::new();
    let a = CCasUnion::Value(1).get_ptr(&mut arena);
    let b = CCasUnion::Value(2).get_ptr(&mut arena);
    let cell = CCasPtr::from_c_cas_union(&mut arena, a);
    let undecided = AtomicNumLikes::new(&mut arena, Status::Undecided);
    cell.c_cas(&mut arena, a, b, undecided);
    let p = cell.read(&mut arena);
    assert_eq!(value_at(&arena, p), 2);
}

#[test]
fn ccas_failed_status_is_noop() {
    let mut arena: Arena<i32> = Arena::new();
    let a = CCasUnion::Value(1).get_ptr(&mut arena);
    let b = CCasUnion::Value(2).get_ptr(&mut arena);
    let cell = CCasPtr::from_c_cas_union(&mut arena, a);
    let failed = AtomicNumLikes::new(&mut arena, Status::Failed);
    cell.c_cas(&mut arena, a, b, failed);
    let p = cell.read(&mut arena);
    assert_eq!(value_at(&arena, p), 1);
}

#[test]
fn ccas_stale_expect_is_noop() {
    // the word holds `b`; expecting `a` leaves it alone even when undecided
    let mut arena: Arena<i32> = Arena::new();
    let a = CCasUnion::Value(1).get_ptr(&mut arena);
    let b = CCasUnion::Value(2).get_ptr(&mut arena);
    let cell = CCasPtr::from_c_cas_union(&mut arena, b);
    let undecided = AtomicNumLikes::new(&mut arena, Status::Undecided);
    cell.c_cas(&mut arena, a, b, undecided);
    let p = cell.read(&mut arena);
    assert_eq!(value_at(&arena, p), 2);
}

#[test]
fn ccas_stress_reader_sees_only_both_values() {
    // the sequential shape of the concurrent stress run: many swaps between
    // the two nodes, a read after each; every read is 1 or 2, never a
    // descriptor's content
    let mut arena: Arena<i32> = Arena::new();
    let a = CCasUnion::Value(1).get_ptr(&mut arena);
    let b = CCasUnion::Value(2).get_ptr(&mut arena);
    let cell = CCasPtr::from_c_cas_union(&mut arena, a);
    let success = AtomicNumLikes::new(&mut arena, Status::Successful);
    let undecided = AtomicNumLikes::new(&mut arena, Status::Undecided);
    let iterations: usize = 1000;
    let mut i: usize = 0;
    while i < iterations {
        cell.c_cas(&mut arena, a, b, success);
        cell.c_cas(&mut arena, a, b, undecided);
        cell.c_cas(&mut arena, b, a, undecided);
        cell.c_cas(&mut arena, a, b, success);
        let p = cell.read(&mut arena);
        let v = value_at(&arena, p);
        assert!(v == 1 || v == 2);
        i += 1;
    }
}

#[test]
fn help_is_idempotent() {
    // once helping has finalized the word, a second helping step against
    // the same published address changes nothing
    let mut arena: Arena<i32> = Arena::new();
    let a = CCasUnion::Value(1).get_ptr(&mut arena);
    let b = CCasUnion::Value(2).get_ptr(&mut arena);
    let cell = CCasPtr::from_c_cas_union(&mut arena, a);
    let undecided = AtomicNumLikes::new(&mut arena, Status::Undecided);
    let desc = CCasDesc { inner: cell, expect: a, new: b, cond: undecided };
    desc.help(&mut arena, a);
    let p1 = cell.read(&mut arena);
    assert_eq!(value_at(&arena, p1), 2);
    desc.help(&mut arena, a);
    let p2 = cell.read(&mut arena);
    assert_eq!(value_at(&arena, p2), 2);
}

#[test]
fn status_word_never_leaves_terminal() {
    let mut arena: Arena<i32> = Arena::new();
    let status = AtomicNumLikes::new(&mut arena, Status::Undecided);
    // the first decision sticks
    let prev = status.compare_and_swap(&mut arena, Status::Undecided, Status::Failed);
    assert!(prev == Status::Undecided);
    assert!(status.get(&arena) == Status::Failed);
    // a second decision attempt changes nothing
    let prev2 = status.compare_and_swap(&mut arena, Status::Undecided, Status::Successful);
    assert!(prev2 == Status::Failed);
    assert!(status.get(&arena) == Status::Failed);
}

#[test]
fn status_encoding_round_trip() {
    assert_eq!(Status::Undecided.as_usize(), 0);
    assert_eq!(Status::Failed.as_usize(), 1);
    assert_eq!(Status::Successful.as_usize(), 2);
    assert!(Status::from_usize(0) == Status::Undecided);
    assert!(Status::from_usize(1) == Status::Failed);
    assert!(Status::from_usize(2) == Status::Successful);
}

#[test]
fn get_addr_is_stable_and_distinct() {
    let mut arena: Arena<i32> = Arena::new();
    let c1 = CCasPtr::from_value(&mut arena, 1);
    let c2 = CCasPtr::from_value(&mut arena, 2);
    assert_eq!(c1.get_addr(), c1.get_addr());
    assert!(c1.get_addr() != c2.get_addr());
    assert!(c1.get_addr() < c2.get_addr());
}

#[test]
fn union_load_and_borrow() {
    let n = CCasUnion::<i32>::Value(7);
    assert_eq!(*n.load(), 7);
    let mut arena: Arena<i32> = Arena::new();
    let cell = CCasPtr::from_value(&mut arena, 1);
    let undecided = AtomicNumLikes::new(&mut arena, Status::Undecided);
    let mut d = CCasUnion::<i32>::CCasDesc(
        CCasDesc { inner: cell, expect: 0, new: 0, cond: undecided },
    );
    let borrowed = d.borrow_mut_c_cas_desc();
    assert_eq!(borrowed.expect, 0);
    assert_eq!(borrowed.new, 0);
}

#[test]
fn raw_compare_and_swap_reports_previous() {
    let mut arena: Arena<i32> = Arena::new();
    let a = CCasUnion::Value(1).get_ptr(&mut arena);
    let b = CCasUnion::Value(2).get_ptr(&mut arena);
    let cell = CCasPtr::from_c_cas_union(&mut arena, a);
    let prev = cell.compare_and_swap(&mut arena, b, b);
    assert_eq!(prev, a);
    assert_eq!(cell.load(&arena), a);
    let prev2 = cell.compare_and_swap(&mut arena, a, b);
    assert_eq!(prev2, a);
    assert_eq!(cell.load(&arena), b);
}
