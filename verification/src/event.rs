//! The simulation event log: a stream of notable happenings for observing and
//! debugging a run. Events are ephemeral debug output, not simulation state.

use vstd::prelude::*;

use crate::time::Tick;

verus! {

/// Broad kind of a [`SimEvent`], for filtering and colouring in a viewer.
#[derive(Debug, Clone, Copy, PartialEq, Eq, Structural)]
pub enum EventCategory {
    /// A trader won or lost a fight.
    Combat,
    /// A trader was destroyed by pirates.
    Piracy,
    /// The navy engaged pirates on patrol.
    Navy,
    /// Fleet/agent lifecycle (respawns, etc.).
    System,
}

/// One recorded happening: when, what kind, and a human-readable description.
#[derive(Debug, PartialEq, Eq)]
pub struct SimEvent {
    pub tick: Tick,
    pub category: EventCategory,
    pub message: String,
}

impl Clone for SimEvent {
    fn clone(&self) -> (r: Self)
        ensures
            r == *self,
    {
        SimEvent { tick: self.tick, category: self.category, message: self.message.clone() }
    }
}

} // verus!
