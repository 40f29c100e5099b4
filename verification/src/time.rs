//! Simulation clock.
//!
//! Time is discrete: the world advances one [`Tick`] at a time. There is no
//! wall-clock anywhere in the simulation; a tick is the only notion of "when".

use vstd::prelude::*;

verus! {

/// Monotonic simulation tick counter.
#[derive(Debug, Default, Clone, Copy, PartialEq, Eq, Structural, PartialOrd, Ord, Hash)]
pub struct Tick(pub u64);

impl Tick {
    /// The following tick.
    pub fn next(self) -> (r: Tick)
        requires
            self.0 < u64::MAX,
        ensures
            r.0 == self.0 + 1,
    {
        Tick(self.0 + 1)
    }

    /// The raw tick number.
    pub fn get(self) -> (r: u64)
        ensures
            r == self.0,
    {
        self.0
    }
}

} // verus!
