//! Configuration records for the recording task. The command-line front
//! end parses its own argument types and converts into these.

use vstd::prelude::*;

verus! {

/// The settings needed to record positional data from the serial stream.
#[derive(Debug, Clone)]
pub struct SerialCommand {
    /// Filename the serialized recording is written to.
    pub outfile: String,
    /// Number of tags to record spatial data from.
    pub num_tags: usize,
}

} // verus!
