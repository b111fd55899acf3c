//! The data handed to the audio spatialization engine. The engine itself is
//! an external collaborator; this module holds the metadata record that
//! describes one tag's spatial state at one tick.

use vstd::prelude::*;

verus! {

/// One tag's spatial state at a tick. Each field is the bit pattern of an
/// IEEE 754 single; azimuth and elevation are radians normalized to
/// `[0, 2*pi)` after disambiguation.
#[derive(Debug, Clone, Copy, PartialEq, Eq, Structural)]
pub struct BufferMetadata {
    /// Horizontal angle, radians.
    pub azimuth: u32,
    /// Vertical angle, radians.
    pub elevation: u32,
    /// Distance to the tag.
    pub range: u32,
    /// Gain applied to the tag's audio.
    pub gain: u32,
}

} // verus!
