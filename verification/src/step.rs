//! The shared per-tick stepping contract.
//!
//! Subsystems advance in discrete ticks against the same [`SimContext`], which
//! carries the current tick and the run's random stream `R`, borrowed mutably
//! so all randomness flows from one seeded source.

use vstd::prelude::*;

use crate::time::Tick;

verus! {

/// Per-tick context threaded to every subsystem.
pub struct SimContext<'a, R> {
    pub tick: Tick,
    pub rng: &'a mut R,
}

impl<'a, R> SimContext<'a, R> {
    pub fn new(tick: Tick, rng: &'a mut R) -> (r: Self)
        ensures
            r.tick == tick,
            *r.rng == *old(rng),
            *final(r.rng) == *final(rng),
    {
        SimContext { tick, rng }
    }
}

/// Something that advances by exactly one simulation tick.
pub trait Step<R> {
    fn step(&mut self, ctx: &mut SimContext<R>);
}

} // verus!
