//! The minimal pipeline block: like the grape block, but its stage carries
//! no name and the constructor takes the sending end first.

use vstd::prelude::*;

use crate::channel::{channel_recv, channel_send};
use std::sync::mpsc::{Receiver, Sender};

verus! {

/// A stage in the pipeline: a pure conversion step.
pub trait Component {
    /// What the stage consumes.
    type InData;

    /// What the stage produces.
    type OutData;

    /// Converts one input into one output.
    fn convert(&self, input: Self::InData) -> Self::OutData;
}

/// One pipeline block: a stage between its channels.
pub struct PipeBlock<C: Component> {
    /// The stage this block runs.
    pub component: C,
    /// Where outputs go.
    pub output: Sender<C::OutData>,
    /// Where inputs arrive.
    pub input: Receiver<C::InData>,
}

impl<C: Component> PipeBlock<C> {
    /// Puts a stage between its channels.
    pub fn new(comp: C, tx: Sender<C::OutData>, rx: Receiver<C::InData>) -> (r: Self)
        ensures
            r.component == comp,
            r.output == tx,
            r.input == rx,
    {
        Self { component: comp, output: tx, input: rx }
    }

    /// Pumps up to `budget` values, stopping early when the input side is
    /// closed and drained; failed sends are dropped. The caller drives
    /// this in a loop from its worker thread.
    pub fn run(&self, budget: usize) -> (processed: usize)
        ensures
            processed <= budget,
    {
        let mut done: usize = 0;
        while done < budget
            invariant
                done <= budget,
            decreases budget - done,
        {
            match channel_recv(&self.input) {
                None => {
                    return done;
                },
                Some(data) => {
                    let out_data = self.component.convert(data);
                    let _delivered = channel_send(&self.output, out_data);
                },
            }
            done = done + 1;
        }
        done
    }
}

} // verus!
