//! The common interface of the processing stages, so that each stage can
//! consume data from the preceding stage, process it, and pass new data to
//! the subsequent stage. The embedding program runs each stage on its own
//! worker thread; see also the block modules, which pump a stage between
//! two channels.

use vstd::prelude::*;

use crate::channel::{channel_recv, channel_send};
use std::sync::mpsc::{Receiver, Sender};

verus! {

/// A stage failed to finish its work at shutdown.
#[derive(Debug, Clone, PartialEq, Eq)]
pub enum ComponentError {
    /// The stage's backing sink reported an error; the message is its own
    /// description of it.
    Backend(String),
}

/// A stage of the processing pipeline. Implementations are free to do
/// whatever their conversion calls for; the pipeline promises only to call
/// `convert` once per input, in arrival order, and `finalize` once at
/// shutdown.
pub trait Component {
    /// What the stage consumes.
    type InData;

    /// What the stage produces.
    type OutData;

    /// Converts one input into one output.
    fn convert(&mut self, input: Self::InData) -> Self::OutData;

    /// Cleans up at termination of the pipeline.
    fn finalize(&mut self) -> Result<(), ComponentError>;

    /// The stage's name, for reporting.
    fn name(&self) -> String;
}

/// Drives a stage between two channels for up to `budget` inputs: each
/// received input is converted and the result sent on; a send to a
/// departed consumer is dropped, as the stage's own input decides its
/// lifetime. When the input closes and drains before the budget runs out,
/// the stage is finalized exactly once and its outcome returned; when the
/// budget runs out first, the caller drives another round. The embedding
/// program loops this from the stage's worker thread.
pub fn run_stage<C: Component>(
    component: &mut C,
    input: &Receiver<C::InData>,
    output: &Sender<C::OutData>,
    budget: usize,
) -> (r: (usize, Option<Result<(), ComponentError>>))
    ensures
        r.0 <= budget,
        r.1 is None ==> r.0 == budget,
{
    let mut done: usize = 0;
    while done < budget
        invariant
            done <= budget,
        decreases budget - done,
    {
        match channel_recv(input) {
            None => {
                let finished = component.finalize();
                return (done, Some(finished));
            },
            Some(data) => {
                let out_data = component.convert(data);
                let _delivered = channel_send(output, out_data);
            },
        }
        done = done + 1;
    }
    (done, None)
}

} // verus!
