//! `drift`: the deterministic, headless core of a trading space sim.
//!
//! Typed ids and interning, the discrete clock, markets and sticky pricing,
//! production recipes, NPC trade selection, the player command pipeline, and
//! content linking, each with its contract proved by Verus.

use vstd::prelude::*;

pub mod command;
pub mod data;
pub mod event;
pub mod hook;
pub mod idmap;
pub mod ids;
pub mod laws;
pub mod market;
pub mod messages;
pub mod mods;
pub mod patrol;
pub mod play;
pub mod pricing;
pub mod production;
pub mod registry;
pub mod session;
pub mod step;
pub mod time;
pub mod trader;
pub mod turn;
pub mod world;

verus! {

/// A quantity of money, in whole credits.
pub type Money = i64;

/// A quantity of goods, in whole units.
pub type Quantity = u32;

} // verus!
