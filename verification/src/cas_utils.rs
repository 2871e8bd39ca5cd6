//! The two layers of the protocol: the conditional single-word swap
//! ([`c_cas`]) and the multi-word swap built on it ([`m_cas`]), together with
//! the tri-state outcome word they share.

use vstd::prelude::*;

pub mod arena;
pub mod c_cas;
pub mod m_cas;

verus! {

/// The outcome of a pending multi-word swap, shared by every conditional
/// swap synthesized on its behalf.
///
/// A status word starts `Undecided` and is decided at most once, by a
/// value compare-and-swap, to one of the two terminal states.
#[derive(Clone, Copy, Debug, PartialEq, Eq, Structural)]
pub enum Status {
    Undecided,
    Failed,
    Successful,
}

impl Status {
    /// A status is terminal when it can never change again.
    pub open spec fn is_terminal(self) -> bool {
        self is Failed || self is Successful
    }

    /// The machine-word encoding of the tri-state: {0, 1, 2}.
    pub fn as_usize(self) -> (r: usize)
        ensures
            r == self.as_usize_spec(),
    {
        match self {
            Status::Undecided => 0,
            Status::Failed => 1,
            Status::Successful => 2,
        }
    }

    /// Decodes the machine-word encoding; values above 2 name no status.
    pub fn from_usize(num: usize) -> (r: Status)
        requires
            num <= 2,
        ensures
            r.as_usize_spec() == num,
    {
        match num {
            0 => Status::Undecided,
            1 => Status::Failed,
            _ => Status::Successful,
        }
    }

    pub open spec fn as_usize_spec(self) -> usize {
        match self {
            Status::Undecided => 0,
            Status::Failed => 1,
            Status::Successful => 2,
        }
    }
}

} // verus!
