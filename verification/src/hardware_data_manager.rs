//! The interface at the hardware/software barrier: angular readings and the
//! clearable queue that delivers them.

use vstd::prelude::*;

verus! {

/// An angle in radians, carried as the bit pattern of an IEEE 754 double.
/// The queue, the accumulator and the sphericalizer treat the value as
/// opaque; the embedding program converts with `f64::to_bits` /
/// `f64::from_bits` when it does arithmetic on it.
pub type Radian = u64;

/// Each tracked object is identified by a unique 64-bit integer; the wire
/// protocol assigns 48-bit ids, so they all fit.
pub type Id = u64;

/// A radial measurement taken from `src` to `dst`.
#[derive(Debug, Clone, Copy, PartialEq, Eq, Structural)]
pub struct Update {
    /// The identifier of the object we are measuring from.
    pub src: Id,
    /// The identifier of the object we are measuring to.
    pub dst: Id,
    /// The angle from `src` to `dst` above the x/y plane: the elevation.
    pub elv: Radian,
    /// The angle from `src` to `dst` within the x/y plane: the azimuth.
    pub azm: Radian,
}

/// A typed, clearable queue of updates. The next update out stands first
/// in `pending`.
pub trait HardwareDataManager: Sized {
    /// The queued updates, next-out first.
    spec fn pending(&self) -> Seq<Update>;

    /// Removes and returns the next queued update, if there is one.
    fn next_update(&mut self) -> (r: Option<Update>)
        ensures
            match r {
                Some(u) => old(self).pending().len() > 0 && u == old(self).pending()[0]
                    && final(self).pending() == old(self).pending().drop_first(),
                None => old(self).pending().len() == 0
                    && final(self).pending() == old(self).pending(),
            },
    ;

    /// Empties the queue. This is helpful when the consumer cannot keep up
    /// with the updates and wants to skip forward to the most recent ones.
    fn clear(&mut self)
        ensures
            final(self).pending().len() == 0,
    ;
}

} // verus!
