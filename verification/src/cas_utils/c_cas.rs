//! The conditional single-word compare-and-swap (CCAS).
//!
//! A CCAS replaces the referent of a target word with a new node exactly
//! when the word still holds the expected node *and* an auxiliary status
//! word is still `Undecided`.  The operation publishes a descriptor into the
//! target word and then finalizes it with [`CCasDesc::help`]; any observer
//! of a published descriptor can run the same helping step, and repeated
//! helping is harmless.

use vstd::prelude::*;

use crate::cas_utils::arena::Arena;
use crate::cas_utils::Status;
use crate::utils::{AtomicNumLikes, AtomicNumLikesMethods, AtomicPtrAddOn};

verus! {

/// A pending conditional swap.
///
/// * `inner` — the target word.
/// * `expect` — the node the word is expected to hold.
/// * `new` — the node to install.
/// * `cond` — the status word the swap is conditional on: the swap takes
///   effect only while it is `Undecided`.
#[derive(Clone, Copy)]
pub struct CCasDesc {
    pub inner: CCasPtr,
    pub expect: usize,
    pub new: usize,
    pub cond: AtomicNumLikes,
}

/// The referent of a target word: either a plain value or a published
/// conditional-swap descriptor.
pub enum CCasUnion<T> {
    CCasDesc(CCasDesc),
    Value(T),
}

/// A shared target word, named by its stable allocation index.
#[derive(Clone, Copy)]
pub struct CCasPtr {
    cell: usize,
}

impl CCasDesc {
    /// The descriptor's fields name allocated words and nodes, and neither
    /// the expected nor the new node is itself a descriptor (a published
    /// descriptor is always replaced by a plain node).
    pub open spec fn wf<T>(self, a: Arena<T>) -> bool {
        &&& self.inner.id() < a.cells@.len()
        &&& (self.expect as int) < a.nodes@.len()
        &&& (self.new as int) < a.nodes@.len()
        &&& !(a.nodes@[self.expect as int] is CCasDesc)
        &&& !(a.nodes@[self.new as int] is CCasDesc)
        &&& 0 <= self.cond.sid() < a.statuses@.len()
    }

    /// The node the target word holds after one helping step against the
    /// published address `desc_ptr`, given the target words and status words
    /// the step runs over: helping finalizes the word to `new` or back to
    /// `expect`, chosen by the status word, and is a no-op when the word has
    /// already moved on.
    pub open spec fn help_cell_value(
        self,
        cells: Seq<usize>,
        statuses: Seq<Status>,
        desc_ptr: usize,
    ) -> usize {
        if cells[self.inner.id()] == desc_ptr {
            if statuses[self.cond.sid()] is Undecided {
                self.new
            } else {
                self.expect
            }
        } else {
            cells[self.inner.id()]
        }
    }

    /// [`CCasDesc::help_cell_value`] read off one arena.
    pub open spec fn help_cell_after<T>(self, a: Arena<T>, desc_ptr: usize) -> usize {
        self.help_cell_value(a.cells@, a.statuses@, desc_ptr)
    }

    /// Helps the conditional swap whose descriptor was published into its
    /// target word under the address `desc_ptr`: reads the status word and
    /// finalizes the target to `new` (still `Undecided`) or back to
    /// `expect` (already decided).
    pub fn help<T>(&self, arena: &mut Arena<T>, desc_ptr: usize)
        requires
            old(arena).wf(),
            self.wf(*old(arena)),
        ensures
            final(arena).wf(),
            final(arena).nodes@ == old(arena).nodes@,
            final(arena).statuses@ == old(arena).statuses@,
            final(arena).cells@ == old(arena).cells@.update(
                self.inner.id(),
                self.help_cell_after(*old(arena), desc_ptr),
            ),
            old(arena).quiescent() ==> final(arena).quiescent(),
    {
        let cond: Status = self.cond.get(arena);
        let success = cond == Status::Undecided;
        self.inner.compare_and_swap(
            arena,
            desc_ptr,
            if success {
                self.new
            } else {
                self.expect
            },
        );
        proof {
            if old(arena).quiescent() {
                assert forall|c: int|
                    0 <= c < arena.cells@.len() implies !((#[trigger] arena.nodes@[arena.cells@[c]
                    as int]) is CCasDesc) by {
                    assert(!(old(arena).nodes@[old(arena).cells@[c] as int] is CCasDesc));
                }
            }
        }
    }
}

impl<T> CCasUnion<T> {
    /// Borrows the descriptor inside a `CCasDesc` node; the node must not be
    /// a plain value.
    pub fn borrow_mut_c_cas_desc(&mut self) -> (r: &mut CCasDesc)
        requires
            *old(self) is CCasDesc,
        ensures
            *old(self) == CCasUnion::<T>::CCasDesc(*r),
            *final(self) == CCasUnion::<T>::CCasDesc(*final(r)),
    {
        match self {
            CCasUnion::CCasDesc(c_cas_desc) => c_cas_desc,
            _ => vstd::pervasive::unreached(),
        }
    }

    /// Borrows the plain value inside a `Value` node; the node must not be a
    /// descriptor.  Helping a descriptor is the target word's business, not
    /// the node's: see [`CCasPtr::read`].
    pub fn load(&self) -> (r: &T)
        requires
            *self is Value,
        ensures
            *self == CCasUnion::Value(*r),
    {
        match self {
            CCasUnion::Value(val) => val,
            _ => vstd::pervasive::unreached(),
        }
    }

    /// Moves this node into the shared arena and yields its stable address.
    /// Taking the address of a node is what makes it reachable to other
    /// participants, so the node gives up local ownership here.
    pub fn get_ptr(self, arena: &mut Arena<T>) -> (r: usize)
        ensures
            final(arena).nodes@ == old(arena).nodes@.push(self),
            final(arena).cells@ == old(arena).cells@,
            final(arena).statuses@ == old(arena).statuses@,
            r == old(arena).nodes@.len(),
    {
        let r = arena.nodes.len();
        arena.nodes.push(self);
        r
    }
}

impl CCasPtr {
    /// The allocation index of the target word.
    pub closed spec fn id(self) -> int {
        self.cell as int
    }

    /// The stable name of a target word fits a machine word.
    pub proof fn lemma_id_bounds(self)
        ensures
            0 <= self.id() <= u64::MAX,
    {
    }

    /// Allocates a fresh plain-value node and a fresh target word holding
    /// it.
    pub fn from_value<T>(arena: &mut Arena<T>, val: T) -> (r: CCasPtr)
        ensures
            final(arena).nodes@ == old(arena).nodes@.push(CCasUnion::Value(val)),
            final(arena).cells@ == old(arena).cells@.push(old(arena).nodes@.len() as usize),
            final(arena).statuses@ == old(arena).statuses@,
            r.id() == old(arena).cells@.len(),
    {
        let node = arena.nodes.len();
        arena.nodes.push(CCasUnion::Value(val));
        let cell = arena.cells.len();
        arena.cells.push(node);
        CCasPtr { cell }
    }

    /// Allocates a fresh target word holding the already-shared node
    /// `union_ptr`.  The node must be a plain value: a descriptor becomes
    /// observable only through the publishing step of its own operation.
    pub fn from_c_cas_union<T>(arena: &mut Arena<T>, union_ptr: usize) -> (r: CCasPtr)
        requires
            (union_ptr as int) < old(arena).nodes@.len(),
            !(old(arena).nodes@[union_ptr as int] is CCasDesc),
        ensures
            final(arena).nodes@ == old(arena).nodes@,
            final(arena).cells@ == old(arena).cells@.push(union_ptr),
            final(arena).statuses@ == old(arena).statuses@,
            r.id() == old(arena).cells@.len(),
    {
        let cell = arena.cells.len();
        arena.cells.push(union_ptr);
        CCasPtr { cell }
    }

    /// The conditional swap: replaces the referent of this target word with
    /// `new` exactly when the word still holds `expect` and the status word
    /// `cond` is still `Undecided`; otherwise the word is left unchanged
    /// (silently — a stale `expect` is defined behavior, not an error).
    ///
    /// The operation publishes a fresh descriptor into the word by a raw
    /// compare-and-swap and finalizes it with [`CCasDesc::help`].  The
    /// descriptor node stays behind in the arena, retired: the explicit
    /// counterpart of the deliberate leak of a minimal implementation.
    pub fn c_cas<T>(&self, arena: &mut Arena<T>, expect: usize, new: usize, cond: AtomicNumLikes)
        requires
            old(arena).wf(),
            old(arena).quiescent(),
            0 <= self.id() < old(arena).cells@.len(),
            (expect as int) < old(arena).nodes@.len(),
            (new as int) < old(arena).nodes@.len(),
            !(old(arena).nodes@[new as int] is CCasDesc),
            0 <= cond.sid() < old(arena).statuses@.len(),
        ensures
            final(arena).wf(),
            final(arena).quiescent(),
            final(arena).statuses@ == old(arena).statuses@,
            final(arena).cells@ == old(arena).cells@.update(
                self.id(),
                ccas_cell_after(*old(arena), self.id(), expect, new, cond.sid()),
            ),
            final(arena).nodes@.len() >= old(arena).nodes@.len(),
            forall|i: int|
                0 <= i < old(arena).nodes@.len() ==> final(arena).nodes@[i] == old(
                    arena,
                ).nodes@[i],
    {
        let ghost a0 = *arena;
        let desc = CCasDesc { inner: *self, expect, new, cond };
        let desc_ptr = CCasUnion::CCasDesc(desc).get_ptr(arena);
        loop
            invariant_except_break
                a0 == *old(arena),
                arena.wf(),
                arena.quiescent(),
                arena.cells@ == a0.cells@,
                arena.statuses@ == a0.statuses@,
                arena.nodes@ == a0.nodes@.push(CCasUnion::CCasDesc(desc)),
                a0.wf(),
                a0.quiescent(),
                0 <= self.id() < a0.cells@.len(),
                (expect as int) < a0.nodes@.len(),
                (new as int) < a0.nodes@.len(),
                !(a0.nodes@[new as int] is CCasDesc),
                0 <= cond.sid() < a0.statuses@.len(),
                desc_ptr == a0.nodes@.len(),
                desc == (CCasDesc { inner: *self, expect, new, cond }),
            ensures
                arena.wf(),
                arena.quiescent(),
                arena.statuses@ == a0.statuses@,
                arena.cells@ == a0.cells@.update(
                    self.id(),
                    ccas_cell_after(a0, self.id(), expect, new, cond.sid()),
                ),
                arena.nodes@ == a0.nodes@.push(CCasUnion::CCasDesc(desc)),
            decreases 0int,
        {
            let res = self.compare_and_swap(arena, expect, desc_ptr);
            if res == expect {
                // published: the word now holds the descriptor; finalize it
                desc.help(arena, desc_ptr);
                proof {
                    assert(arena.cells@ =~= a0.cells@.update(
                        self.id(),
                        ccas_cell_after(a0, self.id(), expect, new, cond.sid()),
                    ));
                    assert forall|c: int|
                        0 <= c < arena.cells@.len() implies !((
                        #[trigger] arena.nodes@[arena.cells@[c] as int]) is CCasDesc) by {
                        assert(!(a0.nodes@[a0.cells@[c] as int] is CCasDesc));
                    }
                }
                break ;
            }
            // the swap did not publish: look at what the word holds instead
            match &arena.nodes[res] {
                CCasUnion::CCasDesc(other) => {
                    // a competing descriptor could rest in the word only
                    // between the publishing and the helping step of another
                    // swap, and every swap unwinds its descriptor before it
                    // returns; a quiescent arena cannot show one
                    proof {
                        assert(!(arena.nodes@[arena.cells@[self.id()] as int] is CCasDesc));
                        assert(false);
                    }
                    let other_desc = *other;
                    other_desc.help(arena, res);
                }
                CCasUnion::Value(_) => {
                    // the word does not hold `expect`: the precondition of
                    // the swap has failed and the word stays as it is
                    proof {
                        assert(arena.cells@ =~= a0.cells@.update(
                            self.id(),
                            ccas_cell_after(a0, self.id(), expect, new, cond.sid()),
                        ));
                    }
                    return ;
                }
            }
        }
    }

    /// Reads the target word through any pending conditional swap: a
    /// published descriptor is helped to completion and the read retried, so
    /// the caller always receives a plain-value node, never a descriptor.
    pub fn read<T>(&self, arena: &mut Arena<T>) -> (r: usize)
        requires
            old(arena).wf(),
            old(arena).quiescent(),
            0 <= self.id() < old(arena).cells@.len(),
        ensures
            *final(arena) == *old(arena),
            r == old(arena).cells@[self.id()],
            !(final(arena).nodes@[r as int] is CCasDesc),
    {
        let ghost a0 = *arena;
        loop
            invariant
                a0 == *old(arena),
                *arena == a0,
                a0.wf(),
                a0.quiescent(),
                0 <= self.id() < a0.cells@.len(),
            decreases 0int,
        {
            let res = self.load(arena);
            proof {
                assert(!(arena.nodes@[arena.cells@[self.id()] as int] is CCasDesc));
            }
            match &arena.nodes[res] {
                CCasUnion::CCasDesc(other) => {
                    // unobservable in a quiescent arena, as in `c_cas`
                    proof {
                        assert(false);
                    }
                    let other_desc = *other;
                    other_desc.help(arena, res);
                }
                CCasUnion::Value(_) => {
                    return res;
                }
            }
        }
    }

    /// Atomic load of the target word: the address it currently holds.
    pub fn load<T>(&self, arena: &Arena<T>) -> (r: usize)
        requires
            0 <= self.id() < arena.cells@.len(),
        ensures
            r == arena.cells@[self.id()],
    {
        arena.cells[self.cell]
    }

    /// Raw atomic compare-and-swap of the target word; returns the previous
    /// address.  This is the bare publishing primitive: it can install any
    /// allocated node, a descriptor included.
    pub fn compare_and_swap<T>(&self, arena: &mut Arena<T>, current: usize, new: usize) -> (r:
        usize)
        requires
            old(arena).wf(),
            0 <= self.id() < old(arena).cells@.len(),
            (new as int) < old(arena).nodes@.len(),
        ensures
            r == old(arena).cells@[self.id()],
            final(arena).cells@ == if r == current {
                old(arena).cells@.update(self.id(), new)
            } else {
                old(arena).cells@
            },
            final(arena).nodes@ == old(arena).nodes@,
            final(arena).statuses@ == old(arena).statuses@,
            final(arena).wf(),
    {
        let prev = arena.cells[self.cell];
        if prev == current {
            arena.cells[self.cell] = new;
        }
        prev
    }
}

/// One conditional swap as a function of the node the word currently holds:
/// the swap installs `new` exactly when the word holds `expect` and the
/// status read at that moment is still `Undecided`, and otherwise leaves the
/// word alone.
pub open spec fn ccas_step(cur: usize, expect: usize, new: usize, status: Status) -> usize {
    if cur == expect && status is Undecided {
        new
    } else {
        cur
    }
}

/// The node a target word holds after one whole conditional swap against the
/// arena `a`.
pub open spec fn ccas_cell_after<T>(
    a: Arena<T>,
    cell: int,
    expect: usize,
    new: usize,
    cond: int,
) -> usize {
    ccas_step(a.cells@[cell], expect, new, a.statuses@[cond])
}

/// The node a target word holds after a whole sequence of conditional swaps,
/// each given as the `(expect, new, status)` triple it ran with — the status
/// being whatever its status word held at that moment, so the sequence covers
/// arbitrary interleavings with the operations that decide those words.
pub open spec fn ccas_run(cur: usize, ops: Seq<(usize, usize, Status)>) -> usize
    decreases ops.len(),
{
    if ops.len() == 0 {
        cur
    } else {
        ccas_run(ccas_step(cur, ops.first().0, ops.first().1, ops.first().2), ops.drop_first())
    }
}

/// However many conditional swaps run against a word, each trying to install
/// one of the two nodes `a_node` and `b_node`, a word that starts on one of
/// the two always holds one of the two: a reader never observes any other
/// node, and never a descriptor (see [`CCasPtr::read`]).
pub proof fn lemma_ccas_run_stays_within(
    cur: usize,
    ops: Seq<(usize, usize, Status)>,
    a_node: usize,
    b_node: usize,
)
    requires
        cur == a_node || cur == b_node,
        forall|i: int|
            0 <= i < ops.len() ==> (#[trigger] ops[i]).1 == a_node || ops[i].1 == b_node,
    ensures
        ccas_run(cur, ops) == a_node || ccas_run(cur, ops) == b_node,
    decreases ops.len(),
{
    if ops.len() > 0 {
        let stepped = ccas_step(cur, ops.first().0, ops.first().1, ops.first().2);
        assert(ops.first() == ops[0]);
        assert(forall|i: int|
            0 <= i < ops.drop_first().len() ==> (#[trigger] ops.drop_first()[i]) == ops[i + 1]);
        lemma_ccas_run_stays_within(stepped, ops.drop_first(), a_node, b_node);
    }
}

/// A conditional swap whose status word is already terminal is a no-op for
/// the target word: the helping step unwinds the published descriptor back
/// to the expected node, so the word is left exactly as it was.
pub proof fn lemma_ccas_terminal_noop<T>(
    a: Arena<T>,
    cell: int,
    expect: usize,
    new: usize,
    cond: int,
)
    requires
        a.statuses@[cond].is_terminal(),
    ensures
        ccas_cell_after(a, cell, expect, new, cond) == a.cells@[cell],
{
}

/// Helping is idempotent: once one helping step has finalized the target
/// word of a published descriptor, any further helping step against the same
/// published address changes nothing — whatever the status words hold by
/// then — because the word no longer holds that address.  Concurrent helpers
/// therefore leave the word in the state the first effective step chose.
pub proof fn lemma_help_idempotent<T>(
    a: Arena<T>,
    d: CCasDesc,
    desc_ptr: usize,
    statuses2: Seq<Status>,
)
    requires
        a.wf(),
        d.wf(a),
        (desc_ptr as int) < a.nodes@.len(),
        a.nodes@[desc_ptr as int] is CCasDesc,
    ensures
        ({
            let once = a.cells@.update(d.inner.id(), d.help_cell_after(a, desc_ptr));
            once.update(d.inner.id(), d.help_cell_value(once, statuses2, desc_ptr)) == once
        }),
{
    let once = a.cells@.update(d.inner.id(), d.help_cell_after(a, desc_ptr));
    // the first step leaves the word on a plain node, never on `desc_ptr`
    assert(once[d.inner.id()] != desc_ptr);
    assert(once.update(d.inner.id(), d.help_cell_value(once, statuses2, desc_ptr)) =~= once);
}

impl AtomicPtrAddOn for CCasPtr {
    open spec fn addr_spec(&self) -> u64 {
        self.id() as u64
    }

    fn get_addr(&self) -> (r: u64) {
        self.cell as u64
    }
}

} // verus!
