//! The small collaborators of the protocol: the tri-state status word and
//! the stable numeric name of a target word.

use vstd::prelude::*;

use crate::cas_utils::arena::Arena;
use crate::cas_utils::Status;

verus! {

/// A handle to one atomic tri-state status word.
///
/// On a multiprocessor this is an atomic machine word under shared
/// ownership; here the word lives in the arena's status table and the
/// handle is its copyable allocation index.
#[derive(Clone, Copy)]
pub struct AtomicNumLikes {
    id: usize,
}

/// The status table after a value compare-and-swap of one status word:
/// the word changes to `new` exactly when it held `current`.
pub open spec fn status_cas_after(
    sts: Seq<Status>,
    id: int,
    current: Status,
    new: Status,
) -> Seq<Status> {
    if sts[id] == current {
        sts.update(id, new)
    } else {
        sts
    }
}

/// Load and value compare-and-swap on a tri-state status word.
pub trait AtomicNumLikesMethods: Sized {
    /// The allocation index of the status word this handle names.
    spec fn sid(&self) -> int;

    /// Allocates a fresh status word holding `v`.
    fn new<T>(arena: &mut Arena<T>, v: Status) -> (r: Self)
        ensures
            r.sid() == old(arena).statuses@.len(),
            final(arena).statuses@ == old(arena).statuses@.push(v),
            final(arena).nodes@ == old(arena).nodes@,
            final(arena).cells@ == old(arena).cells@,
    ;

    /// Atomic load of the status word.
    fn get<T>(&self, arena: &Arena<T>) -> (r: Status)
        requires
            0 <= self.sid() < arena.statuses@.len(),
        ensures
            r == arena.statuses@[self.sid()],
    ;

    /// Atomic value compare-and-swap of the status word; returns the
    /// previous value.
    fn compare_and_swap<T>(&self, arena: &mut Arena<T>, current: Status, new: Status) -> (r:
        Status)
        requires
            0 <= self.sid() < old(arena).statuses@.len(),
        ensures
            r == old(arena).statuses@[self.sid()],
            final(arena).statuses@ == status_cas_after(old(arena).statuses@, self.sid(), current, new),
            final(arena).nodes@ == old(arena).nodes@,
            final(arena).cells@ == old(arena).cells@,
    ;
}

impl AtomicNumLikesMethods for AtomicNumLikes {
    closed spec fn sid(&self) -> int {
        self.id as int
    }

    fn new<T>(arena: &mut Arena<T>, v: Status) -> (r: Self) {
        let id = arena.statuses.len();
        arena.statuses.push(v);
        AtomicNumLikes { id }
    }

    fn get<T>(&self, arena: &Arena<T>) -> (r: Status) {
        arena.statuses[self.id]
    }

    fn compare_and_swap<T>(&self, arena: &mut Arena<T>, current: Status, new: Status) -> (r:
        Status) {
        let prev = arena.statuses[self.id];
        if prev == current {
            arena.statuses[self.id] = new;
        }
        prev
    }
}

/// The stable numeric name of a target word, the sort key that puts the
/// entries of a multi-word swap in a fixed total order.
pub trait AtomicPtrAddOn {
    /// The name as a specification-level value.
    spec fn addr_spec(&self) -> u64;

    /// Yields the stable numeric name of the target word.  On a
    /// multiprocessor this is the machine address of the atomic word; here
    /// the allocation index plays that part, a total order that is stable
    /// for the lifetime of the word.
    fn get_addr(&self) -> (r: u64)
        ensures
            r == self.addr_spec(),
    ;
}

/// A status word never leaves a terminal state: a compare-and-swap that
/// expects `Undecided` changes nothing once the word is decided.
pub proof fn lemma_status_monotonic(sts: Seq<Status>, id: int, new: Status)
    requires
        0 <= id < sts.len(),
        sts[id].is_terminal(),
    ensures
        status_cas_after(sts, id, Status::Undecided, new) == sts,
{
}

/// `Undecided` precedes exactly one terminal value: the first decision
/// sticks, and any later decision attempt leaves the word as the first
/// decision wrote it.
pub proof fn lemma_status_decided_once(sts: Seq<Status>, id: int, first: Status, second: Status)
    requires
        0 <= id < sts.len(),
        sts[id] == Status::Undecided,
        first.is_terminal(),
        second.is_terminal(),
    ensures
        status_cas_after(sts, id, Status::Undecided, first)[id] == first,
        status_cas_after(
            status_cas_after(sts, id, Status::Undecided, first),
            id,
            Status::Undecided,
            second,
        ) == status_cas_after(sts, id, Status::Undecided, first),
{
}

} // verus!
