//! The multi-word compare-and-swap (MCAS).
//!
//! An MCAS atomically replaces the referents of N distinct target words:
//! either every word moves from its expected node to its new node, or none
//! does.  A descriptor carrying the frozen entry list and a shared status
//! word is published into each word in ascending order of the words' stable
//! names (phase one); the first mismatch fails the status word, acquiring
//! every word decides it `Successful`, and the outcome is then propagated to
//! every word (phase two).

use vstd::prelude::*;

use crate::cas_utils::arena::Arena;
use crate::cas_utils::c_cas::{CCasDesc, CCasPtr, CCasUnion};
use crate::cas_utils::Status;
use crate::utils::{AtomicNumLikes, AtomicNumLikesMethods, AtomicPtrAddOn};

verus! {

/// A pending multi-word swap: the per-word entries, sorted by the stable
/// names of their target words and frozen before publication, plus the
/// shared status word that decides the collective outcome.
#[derive(Clone)]
pub struct MCasDesc {
    inner: Vec<SingleCas>,
    status: AtomicNumLikes,
}

/// What a target word's payload means at the multi-word layer: a plain value
/// or a pending multi-word descriptor.  A word participating in MCAS holds,
/// through both layers, one of three things: a plain value, an in-flight
/// single-word descriptor, or (inside the single-word `Value` envelope) an
/// in-flight multi-word descriptor.
pub enum MCasUnion<U> {
    MCasDesc(MCasDesc),
    Value(U),
}

/// One entry of a multi-word swap: the target word and the expected and new
/// nodes for it.
#[derive(Clone, Copy)]
pub struct SingleCas {
    pub origin: CCasPtr,
    pub expect: usize,
    pub new: usize,
}

/// A node that is a plain value through both layers of the protocol.
pub open spec fn plain<U>(n: CCasUnion<MCasUnion<U>>) -> bool {
    n matches CCasUnion::Value(MCasUnion::Value(_))
}

/// Every target word holds a plain value: no descriptor of either layer is
/// published anywhere.  Public multi-word operations find the arena in this
/// state and leave it in it.
pub open spec fn cells_plain<U>(a: Arena<MCasUnion<U>>) -> bool {
    forall|c: int|
        0 <= c < a.cells@.len() ==> plain(#[trigger] a.nodes@[a.cells@[c] as int])
}

/// The entry names an allocated word, and its expected and new nodes are
/// allocated plain values.
pub open spec fn entry_wf<U>(e: SingleCas, a: Arena<MCasUnion<U>>) -> bool {
    &&& 0 <= e.origin.id() < a.cells@.len()
    &&& (e.expect as int) < a.nodes@.len()
    &&& (e.new as int) < a.nodes@.len()
    &&& plain(a.nodes@[e.expect as int])
    &&& plain(a.nodes@[e.new as int])
}

pub open spec fn entries_wf<U>(s: Seq<SingleCas>, a: Arena<MCasUnion<U>>) -> bool {
    forall|i: int| 0 <= i < s.len() ==> entry_wf(#[trigger] s[i], a)
}

/// No target word is listed twice: the linearizability of the swap depends
/// on it, so a caller breaking it is a programmer error.
pub open spec fn distinct_origins(s: Seq<SingleCas>) -> bool {
    forall|i: int, j: int|
        0 <= i < j < s.len() ==> (#[trigger] s[i]).origin.id() != (#[trigger] s[j]).origin.id()
}

/// Entries stand in ascending order of their target words' stable names.
pub open spec fn sorted_by_origin(s: Seq<SingleCas>) -> bool {
    forall|i: int, j: int|
        0 <= i < j < s.len() ==> (#[trigger] s[i]).origin.id() <= (#[trigger] s[j]).origin.id()
}

/// The swap commits exactly when every listed word holds its expected node.
pub open spec fn mcas_commits<U>(a: Arena<MCasUnion<U>>, s: Seq<SingleCas>) -> bool {
    forall|i: int|
        0 <= i < s.len() ==> a.cells@[(#[trigger] s[i]).origin.id()] == s[i].expect
}

/// Returns the entries in ascending order of their target words' stable
/// names: the fixed acquisition order that rules out cyclic waiting between
/// overlapping multi-word swaps.  Selection by repeated minimum; the result
/// holds exactly the given entries.
fn sort_entries(v: &Vec<SingleCas>) -> (r: Vec<SingleCas>)
    requires
        distinct_origins(v@),
    ensures
        r@.len() == v@.len(),
        sorted_by_origin(r@),
        distinct_origins(r@),
        forall|x: SingleCas| r@.contains(x) <==> v@.contains(x),
{
    let mut rest: Vec<SingleCas> = Vec::new();
    let mut i: usize = 0;
    while i < v.len()
        invariant
            i <= v@.len(),
            rest@ == v@.subrange(0, i as int),
        decreases v@.len() - i,
    {
        rest.push(v[i]);
        proof {
            assert(rest@ =~= v@.subrange(0, i + 1));
        }
        i = i + 1;
    }
    proof {
        assert(rest@ =~= v@);
    }
    let mut r: Vec<SingleCas> = Vec::new();
    proof {
        broadcast use vstd::multiset::group_multiset_axioms;

        r@.to_multiset_ensures();
        assert forall|x: SingleCas| r@.to_multiset().count(x) == 0 by {
            assert(!r@.contains(x));
        }
        assert(r@.to_multiset().add(rest@.to_multiset()) =~= v@.to_multiset());
    }
    while rest.len() > 0
        invariant
            r@.to_multiset().add(rest@.to_multiset()) =~= v@.to_multiset(),
            sorted_by_origin(r@),
            forall|i: int, j: int|
                0 <= i < r@.len() && 0 <= j < rest@.len() ==> (#[trigger] r@[i]).origin.id() <= (
                #[trigger] rest@[j]).origin.id(),
        decreases rest@.len(),
    {
        // index of the entry with the least name among the remaining ones
        let mut k: usize = 0;
        let mut m: usize = 1;
        while m < rest.len()
            invariant
                0 <= k < m <= rest@.len(),
                forall|t: int|
                    0 <= t < m ==> rest@[k as int].origin.id() <= (#[trigger] rest@[t]).origin.id(),
            decreases rest@.len() - m,
        {
            let am = rest[m].origin.get_addr();
            let ak = rest[k].origin.get_addr();
            proof {
                // the stable names are the allocation indices, so their
                // machine-word order is their index order
                rest@[m as int].origin.lemma_id_bounds();
                rest@[k as int].origin.lemma_id_bounds();
                assert(am < ak <==> rest@[m as int].origin.id() < rest@[k as int].origin.id());
            }
            if am < ak {
                k = m;
            }
            m = m + 1;
        }
        let ghost rest0 = rest@;
        let ghost r0 = r@;
        let e = rest.remove(k);
        r.push(e);
        proof {
            broadcast use vstd::multiset::group_multiset_axioms;

            rest0.to_multiset_ensures();
            r0.to_multiset_ensures();
            assert(rest0[k as int] == e);
            assert(rest0.contains(e));
            assert(rest0.to_multiset().count(e) > 0);
            // moving the least remaining entry from `rest` to `r` keeps the
            // union of the two multisets
            assert(rest@.to_multiset() =~= rest0.to_multiset().remove(e));
            assert(r@.to_multiset() =~= r0.to_multiset().insert(e));
            assert forall|x: SingleCas|
                (r@.to_multiset().add(rest@.to_multiset())).count(x) == (r0.to_multiset().add(
                rest0.to_multiset())).count(x) by {}
            assert(r@.to_multiset().add(rest@.to_multiset()) =~= v@.to_multiset());
            // indices of the shrunken remainder name entries of the old one
            assert forall|j: int| 0 <= j < rest@.len() implies rest0.contains(#[trigger] rest@[j])
                && rest0[k as int].origin.id() <= rest@[j].origin.id() by {
                if j < k {
                    assert(rest@[j] == rest0[j]);
                } else {
                    assert(rest@[j] == rest0[j + 1]);
                }
            }
        }
    }
    proof {
        broadcast use vstd::multiset::group_multiset_axioms;

        rest@.to_multiset_ensures();
        r@.to_multiset_ensures();
        v@.to_multiset_ensures();
        assert(rest@.to_multiset().len() == 0);
        assert(r@.to_multiset() =~= v@.to_multiset());
        // same multiset, so same membership and no new duplicates
        assert forall|x: SingleCas| r@.contains(x) <==> v@.contains(x) by {
            assert(r@.contains(x) <==> r@.to_multiset().count(x) > 0);
            assert(v@.contains(x) <==> v@.to_multiset().count(x) > 0);
        }
        assert(r@.to_multiset().len() == v@.to_multiset().len());
        lemma_distinct_origins_no_duplicates(v@);
        v@.lemma_multiset_has_no_duplicates();
        r@.lemma_multiset_has_no_duplicates_conv();
        lemma_distinct_origins_transfer(v@, r@);
    }
    r
}

impl MCasDesc {
    /// The descriptor is well formed over the arena: its entries name
    /// allocated words with allocated plain expected and new nodes, no word
    /// is listed twice, and the status word is allocated.
    spec fn desc_wf<U>(self, a: Arena<MCasUnion<U>>) -> bool {
        &&& entries_wf(self.inner@, a)
        &&& distinct_origins(self.inner@)
        &&& 0 <= self.status.sid() < a.statuses@.len()
    }

    /// Runs a published multi-word swap to completion: acquires every listed
    /// word in order by publishing the descriptor through the conditional
    /// swap, decides the shared status word at the first mismatch
    /// (`Failed`) or after the last acquisition (`Successful`), and then
    /// propagates the decision to every word.  Any thread that observes the
    /// published descriptor can run this same routine; the decision is taken
    /// by at most one compare-and-swap either way.
    ///
    /// Returns whether the swap committed: exactly when the entry list was
    /// non-empty and every listed word held its expected node.
    fn help<U>(&self, arena: &mut Arena<MCasUnion<U>>, desc_ptr: usize) -> (r: bool)
        requires
            old(arena).wf(),
            cells_plain(*old(arena)),
            self.desc_wf(*old(arena)),
            (desc_ptr as int) < old(arena).nodes@.len(),
            old(arena).nodes@[desc_ptr as int] matches CCasUnion::Value(MCasUnion::MCasDesc(_)),
            old(arena).statuses@[self.status.sid()] == Status::Undecided,
            forall|c: int| 0 <= c < old(arena).cells@.len() ==> old(arena).cells@[c] != desc_ptr,
        ensures
            final(arena).wf(),
            cells_plain(*final(arena)),
            r == (self.inner@.len() > 0 && mcas_commits(*old(arena), self.inner@)),
            final(arena).cells@.len() == old(arena).cells@.len(),
            forall|i: int|
                0 <= i < self.inner@.len() ==> final(arena).cells@[(
                #[trigger] self.inner@[i]).origin.id()] == if r {
                    self.inner@[i].new
                } else {
                    old(arena).cells@[self.inner@[i].origin.id()]
                },
            forall|c: int|
                (0 <= c < old(arena).cells@.len() && (forall|i: int|
                    0 <= i < self.inner@.len() ==> (#[trigger] self.inner@[i]).origin.id() != c))
                    ==> final(arena).cells@[c] == old(arena).cells@[c],
            final(arena).statuses@ == if self.inner@.len() == 0 {
                old(arena).statuses@
            } else {
                old(arena).statuses@.update(
                    self.status.sid(),
                    if r {
                        Status::Successful
                    } else {
                        Status::Failed
                    },
                )
            },
            final(arena).nodes@.len() >= old(arena).nodes@.len(),
            forall|x: int|
                0 <= x < old(arena).nodes@.len() ==> final(arena).nodes@[x] == old(
                    arena,
                ).nodes@[x],
        decreases 0int,
    {
        let ghost a0 = *arena;
        let n = self.inner.len();
        let mut i: usize = 0;
        let mut failed = false;
        // phase one: acquire every word in ascending order of stable names
        while i < n && !failed
            invariant
                a0 == *old(arena),
                n == self.inner@.len(),
                0 <= i <= n,
                a0.wf(),
                cells_plain(a0),
                self.desc_wf(a0),
                (desc_ptr as int) < a0.nodes@.len(),
                !(a0.nodes@[desc_ptr as int] is CCasDesc),
                !plain(a0.nodes@[desc_ptr as int]),
                a0.statuses@[self.status.sid()] == Status::Undecided,
                forall|c: int| 0 <= c < a0.cells@.len() ==> a0.cells@[c] != desc_ptr,
                arena.wf(),
                arena.quiescent(),
                arena.cells@.len() == a0.cells@.len(),
                arena.statuses@.len() == a0.statuses@.len(),
                arena.nodes@.len() >= a0.nodes@.len(),
                forall|x: int| 0 <= x < a0.nodes@.len() ==> arena.nodes@[x] == a0.nodes@[x],
                forall|j: int|
                    0 <= j < i ==> arena.cells@[(#[trigger] self.inner@[j]).origin.id()]
                        == desc_ptr,
                forall|j: int|
                    0 <= j < i ==> a0.cells@[(#[trigger] self.inner@[j]).origin.id()]
                        == self.inner@[j].expect,
                forall|c: int|
                    (0 <= c < a0.cells@.len() && (forall|j: int|
                        0 <= j < i ==> (#[trigger] self.inner@[j]).origin.id() != c))
                        ==> arena.cells@[c] == a0.cells@[c],
                !failed && i < n ==> arena.statuses@ == a0.statuses@,
                n == 0 ==> arena.statuses@ == a0.statuses@,
                !failed && n > 0 && i == n ==> arena.statuses@ == a0.statuses@.update(
                    self.status.sid(),
                    Status::Successful,
                ),
                failed ==> i < n && a0.cells@[self.inner@[i as int].origin.id()]
                    != self.inner@[i as int].expect && arena.statuses@ == a0.statuses@.update(
                    self.status.sid(),
                    Status::Failed,
                ),
            decreases 2 * (n - i) + (if failed {
                0int
            } else {
                1int
            }),
        {
            let e = self.inner[i];
            proof {
                // this word is not among the acquired ones, so it is
                // untouched and plain
                assert forall|j: int| 0 <= j < i implies (#[trigger] self.inner@[j]).origin.id()
                    != e.origin.id() by {
                    assert(self.inner@[j].origin.id() != self.inner@[i as int].origin.id());
                }
                assert(arena.cells@[e.origin.id()] == a0.cells@[e.origin.id()]);
                assert(plain(a0.nodes@[a0.cells@[e.origin.id()] as int]));
            }
            let ghost a1 = *arena;
            // acquire the word, helping whatever stands in the way
            loop
                invariant_except_break
                    *arena == a1,
                    a1.wf(),
                    a1.quiescent(),
                    n == self.inner@.len(),
                    0 <= i < n,
                    e == self.inner@[i as int],
                    entries_wf(self.inner@, a1),
                    0 <= self.status.sid() < a1.statuses@.len(),
                    a1.statuses@[self.status.sid()] == Status::Undecided,
                    (desc_ptr as int) < a1.nodes@.len(),
                    !(a1.nodes@[desc_ptr as int] is CCasDesc),
                    !plain(a1.nodes@[desc_ptr as int]),
                    a1.cells@[e.origin.id()] != desc_ptr,
                    plain(a1.nodes@[a1.cells@[e.origin.id()] as int]),
                    failed == false,
                ensures
                    arena.wf(),
                    arena.quiescent(),
                    arena.cells@.len() == a1.cells@.len(),
                    arena.statuses@.len() == a1.statuses@.len(),
                    arena.nodes@.len() >= a1.nodes@.len(),
                    forall|x: int| 0 <= x < a1.nodes@.len() ==> arena.nodes@[x] == a1.nodes@[x],
                    !failed ==> a1.cells@[e.origin.id()] == e.expect && arena.cells@
                        == a1.cells@.update(e.origin.id(), desc_ptr) && arena.statuses@
                        == a1.statuses@,
                    failed ==> a1.cells@[e.origin.id()] != e.expect && arena.cells@ == a1.cells@
                        && arena.statuses@ == a1.statuses@.update(
                        self.status.sid(),
                        Status::Failed,
                    ),
                decreases 0int,
            {
                e.origin.c_cas(arena, e.expect, desc_ptr, self.status);
                let p = e.origin.load(arena);
                if p == desc_ptr {
                    // acquired: the word now holds the descriptor
                    break ;
                }
                proof {
                    assert(arena.cells@ =~= a1.cells@);
                    assert(plain(arena.nodes@[p as int]));
                }
                match &arena.nodes[p] {
                    CCasUnion::Value(u) => {
                        match u {
                            MCasUnion::MCasDesc(other) => {
                                // a pending multi-word swap could rest here
                                // only while its own operation runs; between
                                // operations every word is plain
                                proof {
                                    assert(false);
                                }
                                let other_desc = other.clone();
                                other_desc.help(arena, p);
                            },
                            MCasUnion::Value(_) => {
                                // some other plain value: the expected node
                                // is stale and the whole swap fails
                                self.status.compare_and_swap(
                                    arena,
                                    Status::Undecided,
                                    Status::Failed,
                                );
                                failed = true;
                                break ;
                            },
                        }
                    },
                    CCasUnion::CCasDesc(cd) => {
                        // unobservable between operations, as in `c_cas`
                        proof {
                            assert(false);
                        }
                        let other_desc = *cd;
                        other_desc.help(arena, p);
                    },
                }
            }
            if !failed {
                if i == n - 1 {
                    // every word acquired: the swap is decided successful
                    self.status.compare_and_swap(arena, Status::Undecided, Status::Successful);
                }
                proof {
                    assert forall|j: int|
                        0 <= j < i + 1 implies arena.cells@[(
                    #[trigger] self.inner@[j]).origin.id()] == desc_ptr by {
                        if j < i {
                            assert(self.inner@[j].origin.id() != self.inner@[i as int].origin.id());
                        }
                    }
                }
                i = i + 1;
            }
        }
        // the swap is decided; read the decision and propagate it
        let cond: Status = self.status.get(arena);
        let success = cond == Status::Successful;
        proof {
            if failed {
                assert(!mcas_commits(a0, self.inner@));
            } else if n > 0 {
                assert(i == n);
                assert(mcas_commits(a0, self.inner@));
            }
            assert(success == (n > 0 && !failed));
        }
        // phase two: move every acquired word to its decided referent
        let mut j: usize = 0;
        while j < n
            invariant
                a0 == *old(arena),
                n == self.inner@.len(),
                0 <= j <= n,
                0 <= i <= n,
                a0.wf(),
                cells_plain(a0),
                self.desc_wf(a0),
                (desc_ptr as int) < a0.nodes@.len(),
                !plain(a0.nodes@[desc_ptr as int]),
                forall|c: int| 0 <= c < a0.cells@.len() ==> a0.cells@[c] != desc_ptr,
                success == (n > 0 && !failed),
                !failed ==> i == n,
                arena.wf(),
                arena.cells@.len() == a0.cells@.len(),
                arena.nodes@.len() >= a0.nodes@.len(),
                forall|x: int| 0 <= x < a0.nodes@.len() ==> arena.nodes@[x] == a0.nodes@[x],
                n == 0 ==> arena.statuses@ == a0.statuses@,
                n > 0 ==> arena.statuses@ == a0.statuses@.update(
                    self.status.sid(),
                    if success {
                        Status::Successful
                    } else {
                        Status::Failed
                    },
                ),
                forall|jj: int|
                    0 <= jj < j ==> arena.cells@[(#[trigger] self.inner@[jj]).origin.id()]
                        == if success {
                        self.inner@[jj].new
                    } else {
                        a0.cells@[self.inner@[jj].origin.id()]
                    },
                forall|jj: int|
                    j <= jj < n ==> arena.cells@[(#[trigger] self.inner@[jj]).origin.id()]
                        == if jj < i {
                        desc_ptr
                    } else {
                        a0.cells@[self.inner@[jj].origin.id()]
                    },
                forall|jj: int|
                    0 <= jj < i ==> a0.cells@[(#[trigger] self.inner@[jj]).origin.id()]
                        == self.inner@[jj].expect,
                forall|c: int|
                    (0 <= c < a0.cells@.len() && (forall|jj: int|
                        0 <= jj < n ==> (#[trigger] self.inner@[jj]).origin.id() != c))
                        ==> arena.cells@[c] == a0.cells@[c],
            decreases n - j,
        {
            let e = self.inner[j];
            let target = if success {
                e.new
            } else {
                e.expect
            };
            e.origin.compare_and_swap(arena, desc_ptr, target);
            j = j + 1;
            proof {
                assert forall|jj: int|
                    0 <= jj < j implies arena.cells@[(#[trigger] self.inner@[jj]).origin.id()]
                        == if success {
                        self.inner@[jj].new
                    } else {
                        a0.cells@[self.inner@[jj].origin.id()]
                    } by {
                    if jj < j - 1 {
                        assert(self.inner@[jj].origin.id() != self.inner@[j - 1].origin.id());
                    }
                }
                assert forall|jj: int|
                    j <= jj < n implies arena.cells@[(#[trigger] self.inner@[jj]).origin.id()]
                        == if jj < i {
                        desc_ptr
                    } else {
                        a0.cells@[self.inner@[jj].origin.id()]
                    } by {
                    assert(self.inner@[jj].origin.id() != self.inner@[j - 1].origin.id());
                }
            }
        }
        proof {
            // every word is plain again: the descriptor is fully unwound
            assert forall|c: int|
                0 <= c < arena.cells@.len() implies plain(#[trigger] arena.nodes@[arena.cells@[c]
                as int]) by {
                if exists|jj: int|
                    0 <= jj < n && (#[trigger] self.inner@[jj]).origin.id() == c {
                    let jj = choose|jj: int|
                        0 <= jj < n && (#[trigger] self.inner@[jj]).origin.id() == c;
                    assert(entry_wf(self.inner@[jj], a0));
                } else {
                    assert(arena.cells@[c] == a0.cells@[c]);
                    assert(plain(a0.nodes@[a0.cells@[c] as int]));
                }
            }
        }
        success
    }
}

/// The multi-word swap over a list of entries.
pub trait MCas {
    /// The entry list as a specification-level sequence.
    spec fn entries(&self) -> Seq<SingleCas>;

    /// Atomically replaces the referent of every listed word: each moves
    /// from its expected node to its new node exactly when every listed
    /// word still holds its expected node, and otherwise every word is left
    /// as it was.  Returns whether the swap committed.  Sorts the entries
    /// internally by the stable names of their words; the caller may list
    /// them in any order, but no word twice.
    fn m_cas<U>(&self, arena: &mut Arena<MCasUnion<U>>) -> (r: bool)
        requires
            old(arena).wf(),
            cells_plain(*old(arena)),
            entries_wf(self.entries(), *old(arena)),
            distinct_origins(self.entries()),
        ensures
            final(arena).wf(),
            cells_plain(*final(arena)),
            r == (self.entries().len() > 0 && mcas_commits(*old(arena), self.entries())),
            final(arena).cells@.len() == old(arena).cells@.len(),
            forall|i: int|
                0 <= i < self.entries().len() ==> final(arena).cells@[(
                #[trigger] self.entries()[i]).origin.id()] == if r {
                    self.entries()[i].new
                } else {
                    old(arena).cells@[self.entries()[i].origin.id()]
                },
            forall|c: int|
                (0 <= c < old(arena).cells@.len() && (forall|i: int|
                    0 <= i < self.entries().len() ==> (#[trigger] self.entries()[i]).origin.id()
                        != c)) ==> final(arena).cells@[c] == old(arena).cells@[c],
            final(arena).statuses@ == old(arena).statuses@.push(
                if self.entries().len() == 0 {
                    Status::Undecided
                } else if r {
                    Status::Successful
                } else {
                    Status::Failed
                },
            ),
            final(arena).nodes@.len() >= old(arena).nodes@.len(),
            forall|x: int|
                0 <= x < old(arena).nodes@.len() ==> final(arena).nodes@[x] == old(
                    arena,
                ).nodes@[x],
    ;
}

impl MCas for Vec<SingleCas> {
    open spec fn entries(&self) -> Seq<SingleCas> {
        self@
    }

    fn m_cas<U>(&self, arena: &mut Arena<MCasUnion<U>>) -> (r: bool) {
        let ghost a0 = *arena;
        let sorted = sort_entries(self);
        let ghost t = sorted@;
        // freeze a second copy of the ordered entry list inside the node
        // that will be published
        let mut frozen: Vec<SingleCas> = Vec::new();
        let mut idx: usize = 0;
        while idx < sorted.len()
            invariant
                idx <= sorted@.len(),
                frozen@ == sorted@.subrange(0, idx as int),
            decreases sorted@.len() - idx,
        {
            frozen.push(sorted[idx]);
            proof {
                assert(frozen@ =~= sorted@.subrange(0, idx + 1));
            }
            idx = idx + 1;
        }
        proof {
            assert(frozen@ =~= sorted@);
        }
        let status = AtomicNumLikes::new(arena, Status::Undecided);
        let desc = MCasDesc { inner: sorted, status };
        let envelope = MCasDesc { inner: frozen, status };
        let desc_ptr = CCasUnion::Value(MCasUnion::MCasDesc(envelope)).get_ptr(arena);
        let ghost ah = *arena;
        proof {
            assert(ah.cells@ == a0.cells@);
            assert forall|c: int|
                0 <= c < ah.cells@.len() implies plain(#[trigger] ah.nodes@[ah.cells@[c] as int])
                && ah.cells@[c] != desc_ptr by {
                assert(plain(a0.nodes@[a0.cells@[c] as int]));
                assert((a0.cells@[c] as int) < a0.nodes@.len());
            }
            // the sorted entries are exactly the given ones, so they are
            // well formed over the extended arena too
            assert forall|i: int| 0 <= i < t.len() implies entry_wf(#[trigger] t[i], ah) by {
                assert(t.contains(t[i]));
                assert(self@.contains(t[i]));
                let k = choose|k: int| 0 <= k < self@.len() && self@[k] == t[i];
                assert(entry_wf(self@[k], a0));
            }
        }
        let r = desc.help(arena, desc_ptr);
        proof {
            // carry the outcome back from the sorted entries to the given
            // ones: the two lists hold exactly the same entries
            if mcas_commits(ah, t) {
                assert forall|i: int|
                    0 <= i < self@.len() implies a0.cells@[(#[trigger] self@[i]).origin.id()]
                    == self@[i].expect by {
                    assert(self@.contains(self@[i]));
                    assert(t.contains(self@[i]));
                    let k = choose|k: int| 0 <= k < t.len() && t[k] == self@[i];
                    assert(ah.cells@[t[k].origin.id()] == t[k].expect);
                }
                assert(mcas_commits(a0, self@));
            }
            if mcas_commits(a0, self@) {
                assert forall|k: int|
                    0 <= k < t.len() implies ah.cells@[(#[trigger] t[k]).origin.id()]
                    == t[k].expect by {
                    assert(t.contains(t[k]));
                    assert(self@.contains(t[k]));
                    let i = choose|i: int| 0 <= i < self@.len() && self@[i] == t[k];
                    assert(a0.cells@[self@[i].origin.id()] == self@[i].expect);
                }
                assert(mcas_commits(ah, t));
            }
            assert(r == (self@.len() > 0 && mcas_commits(a0, self@)));
            assert forall|i: int|
                0 <= i < self@.len() implies arena.cells@[(#[trigger] self@[i]).origin.id()]
                == if r {
                    self@[i].new
                } else {
                    a0.cells@[self@[i].origin.id()]
                } by {
                assert(self@.contains(self@[i]));
                assert(t.contains(self@[i]));
                let k = choose|k: int| 0 <= k < t.len() && t[k] == self@[i];
                assert(arena.cells@[t[k].origin.id()] == if r {
                    t[k].new
                } else {
                    ah.cells@[t[k].origin.id()]
                });
            }
            assert forall|c: int|
                (0 <= c < a0.cells@.len() && (forall|i: int|
                    0 <= i < self@.len() ==> (#[trigger] self@[i]).origin.id() != c))
                implies arena.cells@[c] == a0.cells@[c] by {
                assert forall|k: int| 0 <= k < t.len() implies (#[trigger] t[k]).origin.id()
                    != c by {
                    assert(t.contains(t[k]));
                    assert(self@.contains(t[k]));
                    let i = choose|i: int| 0 <= i < self@.len() && self@[i] == t[k];
                    assert(self@[i].origin.id() != c);
                }
                assert(arena.cells@[c] == ah.cells@[c]);
            }
            if self@.len() > 0 {
                assert(arena.statuses@ =~= a0.statuses@.push(
                    if r {
                        Status::Successful
                    } else {
                        Status::Failed
                    },
                ));
            }
        }
        r
    }
}

/// A target word holding only plain values holds no conditional-swap
/// descriptor in particular.
pub proof fn lemma_cells_plain_quiescent<U>(a: Arena<MCasUnion<U>>)
    requires
        cells_plain(a),
    ensures
        a.quiescent(),
{
    assert forall|c: int|
        0 <= c < a.cells@.len() implies !((#[trigger] a.nodes@[a.cells@[c] as int])
        is CCasDesc) by {
        assert(plain(a.nodes@[a.cells@[c] as int]));
    }
}

impl SingleCas {
    /// Builds one entry of a multi-word swap from the target word and the
    /// expected and new nodes.
    pub fn new(origin: &AtomicMCasPtr, expect: &MCasPtr, new: &MCasPtr) -> (r: SingleCas)
        ensures
            r.origin.id() == origin.cid(),
            r.expect == expect.nid(),
            r.new == new.nid(),
    {
        SingleCas { origin: origin.inner, expect: expect.get_mut_ptr(), new: new.get_mut_ptr() }
    }
}

/// Reading a target word through any pending multi-word swap.
pub trait MCasRead {
    /// The allocation index of the target word read.
    spec fn cid(&self) -> int;

    /// Yields the address of the plain node the word currently holds,
    /// helping any pending swap out of the way first: the caller never
    /// observes a descriptor of either layer.
    fn read<U>(&self, arena: &mut Arena<MCasUnion<U>>) -> (r: usize)
        requires
            old(arena).wf(),
            cells_plain(*old(arena)),
            0 <= self.cid() < old(arena).cells@.len(),
        ensures
            *final(arena) == *old(arena),
            r == old(arena).cells@[self.cid()],
            plain(final(arena).nodes@[r as int]),
    ;

    /// Like [`MCasRead::read`], but meant for the address itself: what it
    /// returns serves as the expected node of a following swap.
    fn get_ptr<U>(&self, arena: &mut Arena<MCasUnion<U>>) -> (r: usize)
        requires
            old(arena).wf(),
            cells_plain(*old(arena)),
            0 <= self.cid() < old(arena).cells@.len(),
        ensures
            *final(arena) == *old(arena),
            r == old(arena).cells@[self.cid()],
            plain(final(arena).nodes@[r as int]),
    ;
}

/// A shared target word of the multi-word layer: a single-word target word
/// whose payload is read through both layers.
#[derive(Clone, Copy)]
pub struct AtomicMCasPtr {
    inner: CCasPtr,
}

impl AtomicMCasPtr {
    /// The underlying single-word target word.
    pub(crate) fn word(&self) -> (r: CCasPtr)
        ensures
            r.id() == self.cid(),
    {
        self.inner
    }

    /// Allocates a fresh target word holding the given plain node.
    pub fn new<U>(arena: &mut Arena<MCasUnion<U>>, ptr: &MCasPtr) -> (r: AtomicMCasPtr)
        requires
            (ptr.nid() as int) < old(arena).nodes@.len(),
            plain(old(arena).nodes@[ptr.nid() as int]),
        ensures
            final(arena).nodes@ == old(arena).nodes@,
            final(arena).cells@ == old(arena).cells@.push(ptr.nid()),
            final(arena).statuses@ == old(arena).statuses@,
            r.cid() == old(arena).cells@.len(),
            cells_plain(*old(arena)) ==> cells_plain(*final(arena)),
    {
        let inner = CCasPtr::from_c_cas_union(arena, ptr.get_mut_ptr());
        proof {
            if cells_plain(*old(arena)) {
                assert forall|c: int|
                    0 <= c < arena.cells@.len() implies plain(
                    #[trigger] arena.nodes@[arena.cells@[c] as int]) by {
                    if c < old(arena).cells@.len() {
                        assert(plain(old(arena).nodes@[old(arena).cells@[c] as int]));
                    }
                }
            }
        }
        AtomicMCasPtr { inner }
    }
}

impl MCasRead for AtomicMCasPtr {
    closed spec fn cid(&self) -> int {
        self.inner.id()
    }

    fn read<U>(&self, arena: &mut Arena<MCasUnion<U>>) -> (r: usize) {
        let ghost a0 = *arena;
        loop
            invariant
                a0 == *old(arena),
                *arena == a0,
                a0.wf(),
                cells_plain(a0),
                0 <= self.cid() < a0.cells@.len(),
            decreases 0int,
        {
            proof {
                lemma_cells_plain_quiescent(a0);
            }
            // the single-word layer first: helps any conditional swap
            let c_union_ptr = self.inner.read(arena);
            proof {
                assert(plain(arena.nodes@[arena.cells@[self.cid()] as int]));
            }
            match &arena.nodes[c_union_ptr] {
                CCasUnion::Value(u) => {
                    match u {
                        MCasUnion::MCasDesc(other) => {
                            // a pending multi-word swap could rest here only
                            // while its own operation runs; between
                            // operations every word is plain
                            proof {
                                assert(false);
                            }
                            let other_desc = other.clone();
                            other_desc.help(arena, c_union_ptr);
                        },
                        MCasUnion::Value(_) => {
                            return c_union_ptr;
                        },
                    }
                },
                CCasUnion::CCasDesc(cd) => {
                    // ruled out by the single-word read above
                    proof {
                        assert(false);
                    }
                    let other_desc = *cd;
                    other_desc.help(arena, c_union_ptr);
                },
            }
        }
    }

    fn get_ptr<U>(&self, arena: &mut Arena<MCasUnion<U>>) -> (r: usize) {
        let ghost a0 = *arena;
        loop
            invariant
                a0 == *old(arena),
                *arena == a0,
                a0.wf(),
                cells_plain(a0),
                0 <= self.cid() < a0.cells@.len(),
            decreases 0int,
        {
            proof {
                lemma_cells_plain_quiescent(a0);
            }
            let c_union_ptr = self.inner.read(arena);
            proof {
                assert(plain(arena.nodes@[arena.cells@[self.cid()] as int]));
            }
            match &arena.nodes[c_union_ptr] {
                CCasUnion::Value(u) => {
                    match u {
                        MCasUnion::MCasDesc(other) => {
                            proof {
                                assert(false);
                            }
                            let other_desc = other.clone();
                            other_desc.help(arena, c_union_ptr);
                        },
                        MCasUnion::Value(_) => {
                            return c_union_ptr;
                        },
                    }
                },
                CCasUnion::CCasDesc(cd) => {
                    proof {
                        assert(false);
                    }
                    let other_desc = *cd;
                    other_desc.help(arena, c_union_ptr);
                },
            }
        }
    }
}

/// A heap node of the multi-word layer, created as a plain value; handles to
/// it serve as the expected and new arguments of swaps.
#[derive(Clone, Copy)]
pub struct MCasPtr {
    node: usize,
}

impl MCasPtr {
    /// The allocation index of the node.
    pub closed spec fn nid(self) -> usize {
        self.node
    }

    /// Allocates a fresh plain-value node.
    pub fn new<U>(arena: &mut Arena<MCasUnion<U>>, val: U) -> (r: MCasPtr)
        ensures
            final(arena).nodes@ == old(arena).nodes@.push(
                CCasUnion::Value(MCasUnion::Value(val)),
            ),
            final(arena).cells@ == old(arena).cells@,
            final(arena).statuses@ == old(arena).statuses@,
            r.nid() == old(arena).nodes@.len(),
            plain(final(arena).nodes@[r.nid() as int]),
    {
        let node = CCasUnion::Value(MCasUnion::Value(val)).get_ptr(arena);
        MCasPtr { node }
    }

    /// Borrows the plain payload of the node.  Nodes never change once
    /// allocated, and a node handed out through this handle was created
    /// plain, so there is nothing to help here.
    pub fn read_mut<'a, U>(&self, arena: &'a Arena<MCasUnion<U>>) -> (r: &'a U)
        requires
            (self.nid() as int) < arena.nodes@.len(),
            plain(arena.nodes@[self.nid() as int]),
        ensures
            arena.nodes@[self.nid() as int] == CCasUnion::Value(MCasUnion::Value(*r)),
    {
        match &arena.nodes[self.node] {
            CCasUnion::Value(u) => match u {
                MCasUnion::Value(v) => v,
                _ => vstd::pervasive::unreached(),
            },
            _ => vstd::pervasive::unreached(),
        }
    }

    /// The stable address of the node, as a swap argument.
    pub fn get_mut_ptr(&self) -> (r: usize)
        ensures
            r == self.nid(),
    {
        self.node
    }
}

/// Entries over pairwise-distinct words are pairwise-distinct values.
proof fn lemma_distinct_origins_no_duplicates(s: Seq<SingleCas>)
    requires
        distinct_origins(s),
    ensures
        s.no_duplicates(),
{
}

/// A reordering of an entry list over pairwise-distinct words is again over
/// pairwise-distinct words.
proof fn lemma_distinct_origins_transfer(v: Seq<SingleCas>, r: Seq<SingleCas>)
    requires
        distinct_origins(v),
        r.no_duplicates(),
        forall|x: SingleCas| r.contains(x) <==> v.contains(x),
    ensures
        distinct_origins(r),
{
    assert forall|i: int, j: int|
        0 <= i < j < r.len() implies (#[trigger] r[i]).origin.id() != (
    #[trigger] r[j]).origin.id() by {
        assert(r.contains(r[i]));
        assert(r.contains(r[j]));
        let vi = choose|k: int| 0 <= k < v.len() && v[k] == r[i];
        let vj = choose|k: int| 0 <= k < v.len() && v[k] == r[j];
        assert(r[i] != r[j]);
        assert(vi != vj);
        if vi < vj {
            assert(v[vi].origin.id() != v[vj].origin.id());
        } else {
            assert(v[vj].origin.id() != v[vi].origin.id());
        }
    }
}

} // verus!
