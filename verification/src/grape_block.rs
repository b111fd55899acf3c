//! A worker block that pumps one stage between two channels: it receives a
//! value, converts it, and sends the result on. The embedding program
//! spawns one thread per block and drives `run` until the input side
//! closes.

use vstd::prelude::*;

use crate::channel::{channel_recv, channel_send};
use std::sync::mpsc::{Receiver, Sender};

verus! {

/// A stage a block can pump: a pure conversion step with a name.
pub trait Component {
    /// What the stage consumes.
    type InData;

    /// What the stage produces.
    type OutData;

    /// Converts one input into one output.
    fn convert(&self, input: Self::InData) -> Self::OutData;

    /// The stage's name, for reporting.
    fn name(&self) -> String;
}

/// One pipeline block: a stage between its input and output channels. The
/// generic parameter ties the receiver's type to the stage's input and the
/// sender's type to its output.
pub struct GrapeBlock<C: Component> {
    /// The stage this block runs.
    pub component: C,
    /// Where inputs arrive.
    pub input: Receiver<C::InData>,
    /// Where outputs go.
    pub output: Sender<C::OutData>,
}

impl<C: Component> GrapeBlock<C> {
    /// Puts a stage between its channels.
    pub fn new(component: C, input: Receiver<C::InData>, output: Sender<C::OutData>) -> (r: Self)
        ensures
            r.component == component,
            r.input == input,
            r.output == output,
    {
        Self { component, input, output }
    }

    /// Pumps up to `budget` values: each received input is converted and
    /// the result sent on; a closed and drained input ends the run early.
    /// A send to a departed consumer is dropped and the run continues, as
    /// the block's own input decides its lifetime. The caller drives this
    /// in a loop from its worker thread.
    pub fn run(&self, budget: usize) -> (processed: usize)
        ensures
            processed <= budget,
    {
        let mut done: usize = 0;
        while done < budget
            invariant
                done <= budget,
            decreases budget - done,
        {
            match channel_recv(&self.input) {
                None => {
                    return done;
                },
                Some(data) => {
                    let out_data = self.component.convert(data);
                    let _delivered = channel_send(&self.output, out_data);
                },
            }
            done = done + 1;
        }
        done
    }
}

} // verus!
