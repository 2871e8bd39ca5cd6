//! The explicit shared memory that the protocol runs against.
//!
//! The concurrent algorithm traffics in machine addresses of heap nodes,
//! atomic target words and atomic status words.  Here all three live in one
//! arena and are named by their stable allocation index, a total order that
//! serves the same purpose the address order serves for the concurrent
//! algorithm.  Nodes are immutable once allocated; only target words and
//! status words ever change, and only through the compare-and-swap
//! operations of the two protocol layers.  Descriptors that the protocol
//! retires are left behind in the arena, the explicit counterpart of the
//! deliberate leak a minimal implementation makes in place of a reclamation
//! scheme.

use vstd::prelude::*;

use crate::cas_utils::c_cas::CCasUnion;
use crate::cas_utils::Status;

verus! {

/// All shared state of one run of the protocol.
///
/// * `nodes` — every allocated node of the tagged union, immutable once in.
/// * `cells` — the target words; each holds the index of its referent node.
/// * `statuses` — the status words of pending and decided operations.
pub struct Arena<T> {
    pub nodes: Vec<CCasUnion<T>>,
    pub cells: Vec<usize>,
    pub statuses: Vec<Status>,
}

impl<T> Arena<T> {
    /// Every target word names an allocated node.
    pub open spec fn wf(self) -> bool {
        forall|c: int|
            0 <= c < self.cells@.len() ==> (self.cells@[c] as int) < self.nodes@.len()
    }

    /// No target word holds a published conditional-swap descriptor: every
    /// pending conditional swap has been helped to completion.  Each public
    /// operation of the protocol finds the arena in this state and leaves it
    /// in it; a descriptor is published only inside an operation, and the
    /// operation itself unwinds it before returning.
    pub open spec fn quiescent(self) -> bool {
        forall|c: int|
            0 <= c < self.cells@.len() ==> !((#[trigger] self.nodes@[self.cells@[c] as int])
                is CCasDesc)
    }

    /// An empty shared memory: no nodes, no target words, no status words.
    pub fn new() -> (r: Arena<T>)
        ensures
            r.nodes@.len() == 0,
            r.cells@.len() == 0,
            r.statuses@.len() == 0,
    {
        Arena { nodes: Vec::new(), cells: Vec::new(), statuses: Vec::new() }
    }
}

} // verus!
