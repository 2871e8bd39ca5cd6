//! Hooks for a memory-reclamation layer.
//!
//! The protocol itself retires descriptors by leaving them in the arena
//! (the explicit counterpart of a deliberate leak); these are the
//! attachment points an epoch-based scheme would use instead.

use vstd::prelude::*;

verus! {

/// What one thread would hand to a reclamation layer: the addresses of the
/// nodes it has retired, to be freed once no other thread can still reach
/// them.
pub struct ThreadStatus {
    retired_list: Vec<usize>,
}

/// Witness that the holding thread takes part in the current epoch; letting
/// go of it leaves the epoch again.
pub struct Guard {}

impl ThreadStatus {
    /// The retired addresses, oldest first.
    pub closed spec fn retired(self) -> Seq<usize> {
        self.retired_list@
    }

    /// A thread starts with nothing retired.
    pub fn new() -> (r: ThreadStatus)
        ensures
            r.retired().len() == 0,
    {
        ThreadStatus { retired_list: Vec::new() }
    }

    /// Enters the current epoch.
    pub fn pin() -> (r: Guard) {
        Guard {  }
    }
}

} // verus!
