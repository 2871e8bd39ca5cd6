//! A queue whose links are moved by the multi-word swap.
//!
//! A chain of links reached from a head word and a tail word, the consumer
//! of the multi-word swap: popping swings the head word from the first link
//! to its successor by a one-entry swap, so that the swing also helps and
//! is helped like any other swap.  The words live in the shared arena like
//! every other target word.

use vstd::prelude::*;
use vstd::pervasive::VecAdditionalExecFns;

use crate::cas_utils::arena::Arena;
use crate::cas_utils::c_cas::CCasUnion;
use crate::cas_utils::m_cas::{
    cells_plain, mcas_commits, plain, AtomicMCasPtr, MCas, MCasPtr, MCasRead, MCasUnion, SingleCas,
};
use crate::cas_utils::Status;

verus! {

/// One link of the queue: a value and the word naming the next link.
pub struct Node<T> {
    pub val: T,
    pub next: AtomicMCasPtr,
}

/// A first-in, first-out queue over the multi-word swap.
pub struct Queue {
    pub head: AtomicMCasPtr,
    pub tail: AtomicMCasPtr,
}

impl Queue {
    /// An empty queue: head and tail are fresh words, both naming one
    /// fresh empty link.
    pub fn new<T>(arena: &mut Arena<MCasUnion<Option<Node<T>>>>) -> (r: Queue)
        requires
            old(arena).wf(),
        ensures
            final(arena).wf(),
            final(arena).nodes@ == old(arena).nodes@.push(
                CCasUnion::Value(MCasUnion::Value(None::<Node<T>>)),
            ),
            final(arena).cells@ == old(arena).cells@.push(old(arena).nodes@.len() as usize).push(
                old(arena).nodes@.len() as usize,
            ),
            final(arena).statuses@ == old(arena).statuses@,
            r.head.cid() == old(arena).cells@.len(),
            r.tail.cid() == old(arena).cells@.len() + 1,
            cells_plain(*old(arena)) ==> cells_plain(*final(arena)),
    {
        let ghost a0 = *arena;
        let none = MCasPtr::new(arena, None);
        proof {
            if cells_plain(a0) {
                assert forall|c: int|
                    0 <= c < arena.cells@.len() implies plain(
                    #[trigger] arena.nodes@[arena.cells@[c] as int]) by {
                    assert((a0.cells@[c] as int) < a0.nodes@.len());
                    assert(plain(a0.nodes@[a0.cells@[c] as int]));
                }
            }
        }
        let head = AtomicMCasPtr::new(arena, &none);
        let tail = AtomicMCasPtr::new(arena, &none);
        Queue { head, tail }
    }

    /// Pops the first link: swings the head word from that link to its
    /// successor by a one-entry multi-word swap and takes the value out of
    /// the won link.  Returns nothing when the head names the empty link.
    pub fn pop<T>(&self, arena: &mut Arena<MCasUnion<Option<Node<T>>>>) -> (r: Option<T>)
        requires
            old(arena).wf(),
            cells_plain(*old(arena)),
            0 <= self.head.cid() < old(arena).cells@.len(),
            old(arena).nodes@[old(arena).cells@[self.head.cid()] as int] matches CCasUnion::Value(
                MCasUnion::Value(Some(link)),
            ) ==> 0 <= link.next.cid() < old(arena).cells@.len(),
        ensures
            final(arena).wf(),
            cells_plain(*final(arena)),
            final(arena).cells@.len() == old(arena).cells@.len(),
            old(arena).nodes@[old(arena).cells@[self.head.cid()] as int] matches CCasUnion::Value(
                MCasUnion::Value(None::<Node<T>>),
            ) ==> r is None && *final(arena) == *old(arena),
            old(arena).nodes@[old(arena).cells@[self.head.cid()] as int] matches CCasUnion::Value(
                MCasUnion::Value(Some(link)),
            ) ==> {
                &&& r matches Some(v) && v == link.val
                &&& final(arena).cells@[self.head.cid()] == old(arena).cells@[link.next.cid()]
                &&& forall|c: int|
                    0 <= c < old(arena).cells@.len() && c != self.head.cid()
                        ==> final(arena).cells@[c] == old(arena).cells@[c]
                &&& final(arena).nodes@[old(arena).cells@[self.head.cid()] as int]
                    == CCasUnion::Value(MCasUnion::Value(None::<Node<T>>))
                &&& final(arena).statuses@ == old(arena).statuses@.push(Status::Successful)
            },
            final(arena).nodes@.len() >= old(arena).nodes@.len(),
            forall|x: int|
                0 <= x < old(arena).nodes@.len() && x != old(arena).cells@[self.head.cid()] as int
                    ==> final(arena).nodes@[x] == old(arena).nodes@[x],
    {
        let ghost a0 = *arena;
        loop
            invariant_except_break
                *arena == a0,
                a0 == *old(arena),
                a0.wf(),
                cells_plain(a0),
                0 <= self.head.cid() < a0.cells@.len(),
                a0.nodes@[a0.cells@[self.head.cid()] as int] matches CCasUnion::Value(
                    MCasUnion::Value(Some(link)),
                ) ==> 0 <= link.next.cid() < a0.cells@.len(),
            decreases 0int,
        {
            let h = self.head.read(arena);
            proof {
                assert(plain(arena.nodes@[h as int]));
            }
            let next = match &arena.nodes[h] {
                CCasUnion::Value(MCasUnion::Value(Some(link))) => link.next,
                CCasUnion::Value(MCasUnion::Value(None)) => {
                    return None;
                },
                _ => vstd::pervasive::unreached(),
            };
            let new = next.get_ptr(arena);
            let mut entries: Vec<SingleCas> = Vec::new();
            entries.push(SingleCas { origin: self.head.word(), expect: h, new });
            let ok = entries.m_cas(arena);
            proof {
                // the one-entry swap expected exactly what the word held
                assert(entries@[0].origin.id() == self.head.cid());
                assert(a0.cells@[entries@[0].origin.id()] == entries@[0].expect);
                assert(mcas_commits(a0, entries@)) by {
                    assert forall|i: int|
                        0 <= i < entries@.len() implies a0.cells@[(
                    #[trigger] entries@[i]).origin.id()] == entries@[i].expect by {
                        assert(entries@[i] == entries@[0]);
                    }
                }
                assert(arena.cells@[entries@[0].origin.id()] == entries@[0].new);
                assert forall|c: int|
                    0 <= c < a0.cells@.len() && c != self.head.cid() implies arena.cells@[c]
                    == a0.cells@[c] by {
                    assert forall|i: int|
                        0 <= i < entries@.len() implies (#[trigger] entries@[i]).origin.id()
                        != c by {
                        assert(entries@[i] == entries@[0]);
                    }
                }
                assert((h as int) < a0.nodes@.len());
                assert(arena.nodes@[h as int] == a0.nodes@[h as int]);
            }
            if ok {
                // the swing won: this caller owns the popped link and takes
                // its value, leaving the empty link behind
                let mut taken: CCasUnion<MCasUnion<Option<Node<T>>>> = CCasUnion::Value(
                    MCasUnion::Value(None),
                );
                arena.nodes.set_and_swap(h, &mut taken);
                proof {
                    assert forall|c: int|
                        0 <= c < arena.cells@.len() implies plain(
                        #[trigger] arena.nodes@[arena.cells@[c] as int]) by {
                        if arena.cells@[c] != h {
                            assert(plain(arena.nodes@[arena.cells@[c] as int]));
                        }
                    }
                }
                match taken {
                    CCasUnion::Value(MCasUnion::Value(Some(link))) => {
                        return Some(link.val);
                    },
                    _ => {
                        return vstd::pervasive::unreached();
                    },
                }
            }
            // the word moved on under this caller: take a fresh look.
            // Sequentially the one-entry swap against the node just read
            // cannot lose, so this retry never runs
            proof {
                assert(false);
            }
        }
    }
}

} // verus!
