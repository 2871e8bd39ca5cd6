//! A sequential, fully verified model of the descriptor-based multi-word
//! compare-and-swap (MCAS) protocol and the conditional compare-and-swap
//! (CCAS) it is built on, after Harris, Fraser and Pratt's "Practical
//! Lock-Freedom".
//!
//! Shared memory is made explicit: an [`cas_utils::arena::Arena`] owns every
//! node, target word and status word, and a word names its referent by a
//! stable allocation index rather than a machine address.  Every operation of
//! the protocol — publishing a descriptor, helping it to completion, deciding
//! a status word, propagating the outcome — is an ordinary verified function
//! on that arena, with a contract that pins down the exact transition.

pub mod cas_utils;
pub mod epoch;
pub mod mcas_queue;
pub mod trieber_stack;
pub mod utils;
