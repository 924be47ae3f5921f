//! What tells one queue from another.
use std::mem::MaybeUninit;

use vstd::prelude::*;

verus! {

/// Which queue something is, or belongs to.
///
/// It takes no room, and nothing can be learnt of it but that a copy is the same. So two queues
/// that were made one by one are never taken for the same.
#[derive(Clone, Copy, Debug)]
pub struct Identity(MaybeUninit<()>);

impl Identity {
    /// An identity for a new queue.
    pub fn fresh() -> Self {
        Identity(MaybeUninit::uninit())
    }
}

} // verus!
