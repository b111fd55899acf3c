//! The buffer where decoded measurements wait between the ingestion side
//! and the polling side. It is a simple unbounded queue: updates come out
//! in arrival order.

use vstd::prelude::*;

use crate::hardware_data_manager::{HardwareDataManager, Update};
use std::collections::VecDeque;

verus! {

/// A buffer of decoded updates, drained in arrival order.
#[derive(Debug)]
pub struct Hdm {
    msgs: VecDeque<Update>,
}

impl Hdm {
    /// An empty buffer.
    pub fn new() -> (r: Self)
        ensures
            r.pending().len() == 0,
    {
        Hdm { msgs: VecDeque::new() }
    }

    /// Enqueues a new update behind everything already waiting.
    pub fn add_update(&mut self, update: Update)
        ensures
            final(self).pending() == old(self).pending().push(update),
    {
        self.msgs.push_back(update);
    }
}

impl Default for Hdm {
    /// Same as `Hdm::new`.
    fn default() -> (r: Self)
        ensures
            r.pending().len() == 0,
    {
        Hdm { msgs: VecDeque::new() }
    }
}

impl HardwareDataManager for Hdm {
    closed spec fn pending(&self) -> Seq<Update> {
        self.msgs@
    }

    fn next_update(&mut self) -> (r: Option<Update>)
    {
        let r = self.msgs.pop_front();
        proof {
            if r is Some {
                assert(self.msgs@ =~= old(self).msgs@.drop_first());
            }
        }
        r
    }

    fn clear(&mut self)
    {
        self.msgs.clear();
    }
}

} // verus!
