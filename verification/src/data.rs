//! The moddable content schema.
//!
//! Content is authored with namespaced string ids and linked into handles by
//! [`link`](crate::registry::link). Real-valued authored quantities (price
//! elasticities, galaxy coordinates, route danger, flight and weapon figures)
//! have the scalar type `F` chosen by the host; this library carries them
//! through unchanged and never computes with them.

use vstd::prelude::*;

use crate::{Money, Quantity};

verus! {

/// A tradeable good. Authored with a namespaced string `id` (e.g. `"core:food"`)
/// which the loader interns to a `CommodityId`.
#[derive(Debug, Clone)]
pub struct CommodityDef<F> {
    /// Namespaced unique id.
    pub id: String,
    /// Human-readable name.
    pub name: String,
    /// Reference price in credits at equilibrium stock.
    pub base_price: Money,
    /// Mass per unit; constrains how much fits in a ship's hold.
    pub unit_mass: u32,
    /// Price responsiveness to scarcity.
    pub elasticity: F,
    /// Free-form grouping (e.g. "food", "minerals", "tech").
    pub category: String,
}

/// A quantity of a specific commodity, referenced by string id at authoring time.
/// Used in recipes and initial stock lists.
#[derive(Debug, Clone, PartialEq, Eq)]
pub struct CommodityAmount {
    pub commodity: String,
    pub qty: Quantity,
}

/// A transformation of input commodities into output commodities, applied up to
/// `rate` times per tick, limited by available input stock. Recipes with empty
/// `inputs` are raw producers.
#[derive(Debug, Clone)]
pub struct ProductionRecipe<F> {
    /// Namespaced unique id.
    pub id: String,
    /// Consumed per application. Empty for raw extraction.
    pub inputs: Vec<CommodityAmount>,
    /// Produced per application.
    pub outputs: Vec<CommodityAmount>,
    /// Nominal applications per tick at equilibrium price.
    pub rate: u32,
    /// Price responsiveness of throughput.
    pub elasticity: F,
}

/// A star system: a market, a set of industries, and jump connections to other
/// systems. `initial_stock` is both the market's starting inventory and its
/// equilibrium anchor.
#[derive(Debug, Clone)]
pub struct SystemDef<F> {
    /// Namespaced unique id.
    pub id: String,
    /// Human-readable name.
    pub name: String,
    /// 2-D galactic coordinates; jump distance is Euclidean over these.
    pub position: [F; 2],
    /// Recipe ids this system runs each tick (its industries).
    pub industries: Vec<String>,
    /// System ids reachable by a single jump.
    pub connections: Vec<String>,
    /// Starting inventory and equilibrium anchor for each commodity.
    pub initial_stock: Vec<CommodityAmount>,
    /// Name of the pricing strategy this market uses.
    pub pricing: String,
    /// Lawlessness of routes into this system.
    pub danger: F,
}

/// Combat loadout for a ship. Absent on a [`ShipDef`] means unarmed.
#[derive(Debug, Clone, Copy)]
pub struct CombatStats<F> {
    /// Shield hit points; absorbs damage before the hull and regenerates.
    pub shield: u32,
    /// Shield points regenerated per tick.
    pub shield_regen: F,
    /// Damage dealt per successful shot.
    pub weapon_damage: u32,
    /// Maximum engagement distance for the weapon.
    pub weapon_range: F,
    /// Ticks between shots.
    pub weapon_cooldown: u32,
    /// Point-blank hit probability.
    pub accuracy: F,
    /// Steering acceleration when manoeuvring.
    pub acceleration: F,
}

/// A ship variant that traders, pirates and the navy fly.
#[derive(Debug, Clone)]
pub struct ShipDef<F> {
    /// Namespaced unique id.
    pub id: String,
    /// Human-readable name.
    pub name: String,
    /// Cargo hold capacity in mass units.
    pub cargo_capacity: u32,
    /// Distance units traversable per tick when travelling between systems.
    pub jump_speed: F,
    /// Structural hull points.
    pub hull: u32,
    /// Maximum in-system flight speed.
    pub max_speed: F,
    /// Combat loadout. `None` = unarmed civilian.
    pub combat: Option<CombatStats<F>>,
}

/// How to populate the galaxy with NPC traders at the start of a run.
#[derive(Debug, Clone, PartialEq, Eq)]
pub struct TraderSpawn {
    /// Number of NPC traders to create.
    pub count: u32,
    /// Ship id every spawned trader flies.
    pub ship: String,
    /// Starting capital, in credits, per trader.
    pub starting_capital: Money,
}

/// Convoy escorts: armed ships that fight alongside every trader when it is
/// ambushed.
#[derive(Debug, Clone, PartialEq, Eq)]
pub struct EscortConfig {
    /// Ship id the escorts fly.
    pub ship: String,
    /// Number of escorts accompanying each trader.
    pub count: u32,
}

/// A persistent navy fleet that patrols lawless space, hunts pirates, and
/// defends traders under ambush.
#[derive(Debug, Clone, PartialEq, Eq)]
pub struct NavyConfig {
    /// Ship id navy patrols fly.
    pub ship: String,
    /// Target size of the persistent navy fleet.
    pub fleet_size: u32,
    /// Ticks between reinforcement checks that top the fleet back up.
    pub reinforce_interval: u64,
}

/// Piracy settings for a run. Absent means no piracy (traders are never ambushed).
#[derive(Debug, Clone)]
pub struct PiracyConfig<F> {
    /// Ship id pirates fly.
    pub pirate_ship: String,
    /// Per-tick, per-pirate probability that a pirate present at a laden trader's
    /// destination intercepts it.
    pub base_ambush_chance: F,
    /// Maximum number of pirates that join a single ambush.
    pub max_pirates: u32,
    /// Ticks a destroyed trader is out of action before respawning.
    pub respawn_delay: u64,
    /// Target size of the persistent, roaming pirate fleet.
    pub fleet_size: u32,
    /// Credits paid to a trader for each pirate it destroys in a won fight.
    pub bounty: Money,
    /// Ticks between reinforcement checks that top the fleet back up.
    pub reinforce_interval: u64,
}

/// A complete run configuration.
#[derive(Debug, Clone)]
pub struct ScenarioDef<F> {
    /// Human-readable name.
    pub name: String,
    /// RNG seed.
    pub seed: u64,
    /// Default number of ticks to run.
    pub ticks: u64,
    /// NPC trader population.
    pub traders: TraderSpawn,
    /// Optional piracy settings. `None` disables piracy entirely.
    pub piracy: Option<PiracyConfig<F>>,
    /// How strongly traders avoid dangerous routes (0 = risk-neutral).
    pub risk_aversion: F,
    /// Optional convoy escorts. `None` = traders travel unescorted.
    pub escort: Option<EscortConfig>,
    /// Optional navy patrol fleet. `None` = no navy.
    pub navy: Option<NavyConfig>,
}

/// All content of the loaded mods after dependency ordering and merging, ready
/// to be linked.
#[derive(Debug, Clone)]
pub struct MergedContent<F> {
    pub commodities: Vec<CommodityDef<F>>,
    pub recipes: Vec<ProductionRecipe<F>>,
    pub systems: Vec<SystemDef<F>>,
    pub ships: Vec<ShipDef<F>>,
}

} // verus!
