//! The simulation world: markets and traders, and the command pipeline through
//! which players act on them.
//!
//! The world owns the mutable, integer-valued simulation state. The phases that
//! depend on the seeded random stream or on real-valued pricing and production
//! factors are driven by the host, which hands their outcomes to the verified
//! operations here (reprice toward targets, run an industry a given number of
//! times, settle an ambush, move and trade a trader).

use std::sync::Arc;

use vstd::prelude::*;

use crate::command::{Command, CommandError, Owner, PlayerId};
use crate::event::{EventCategory, SimEvent};
use crate::idmap::{sorted_entries, CommodityMap};
use crate::ids::{CommodityId, ShipId, SystemId};
use crate::market::{sat_add, Market, MarketGood};
use crate::patrol::{docked_indices, indices_docked_at, lemma_docked_indices, Patrol, PatrolLocation};
use crate::production::ResolvedRecipe;
use crate::data::ScenarioDef;
use crate::hook::NamedRegistry;
use crate::pricing::PricingStrategy;
use crate::ids::RecipeId;
use crate::registry::Registry;
use crate::time::Tick;
use crate::trader::{Trader, TraderId, TraderLocation};
use crate::{Money, Quantity};

verus! {

/// Most recent simulation events retained for the debug log (older ones drop off).
pub const EVENT_CAP: usize = 2000;

/// Cumulative piracy tallies over a run.
#[derive(Debug, Clone, Copy, PartialEq, Eq, Structural)]
pub struct PiracyStats {
    /// Ambushes that were triggered.
    pub ambushes: u64,
    /// Traders destroyed by pirates.
    pub traders_lost: u64,
    /// Pirates destroyed by traders (in ambushes).
    pub pirates_destroyed: u64,
    /// Total bounty credits paid out to victorious traders.
    pub bounties_paid: Money,
    /// Pirates destroyed by the navy (on patrol, outside ambushes).
    pub pirates_suppressed: u64,
    /// Navy ships lost fighting pirates.
    pub navy_lost: u64,
}

impl Default for PiracyStats {
    fn default() -> (r: Self)
        ensures
            r == (PiracyStats {
                ambushes: 0,
                traders_lost: 0,
                pirates_destroyed: 0,
                bounties_paid: 0,
                pirates_suppressed: 0,
                navy_lost: 0,
            }),
    {
        PiracyStats {
            ambushes: 0,
            traders_lost: 0,
            pirates_destroyed: 0,
            bounties_paid: 0,
            pirates_suppressed: 0,
            navy_lost: 0,
        }
    }
}

/// Why a world could not be built.
#[derive(Debug, Clone, PartialEq, Eq)]
pub enum WorldError {
    /// The scenario references a ship id that no content defines.
    UnknownShip(String),
    /// A system runs an industry using a commodity that its market does not trade.
    MissingIndustryCommodity { system: String, commodity: String },
    /// The galaxy has no systems.
    NoSystems,
}

/// Whole-tick travel times between systems for each ship: `ticks[ship][from][to]`.
#[derive(Debug, Clone)]
pub struct TravelTimes {
    pub ticks: Vec<Vec<Vec<u64>>>,
}

impl TravelTimes {
    /// The table as nested sequences.
    pub open spec fn table(&self) -> Seq<Seq<Seq<u64>>> {
        self.ticks@.map_values(|a: Vec<Vec<u64>>| a@.map_values(|b: Vec<u64>| b@))
    }
}

/// The integer-valued view of a trader.
pub struct TraderView {
    pub id: TraderId,
    pub ship: ShipId,
    pub owner: Owner,
    pub capital: Money,
    pub location: TraderLocation,
    pub cargo: Map<CommodityId, Quantity>,
}

impl View for Trader {
    type V = TraderView;

    open spec fn view(&self) -> TraderView {
        TraderView {
            id: self.id,
            ship: self.ship,
            owner: self.owner,
            capital: self.capital,
            location: self.location,
            cargo: self.cargo@,
        }
    }
}

/// The part of the world that commands read and change.
pub struct WorldState {
    pub tick: Tick,
    /// Goods of each market, indexed by system.
    pub goods: Seq<Map<CommodityId, MarketGood>>,
    pub traders: Seq<TraderView>,
    pub next_trader_id: u64,
}

// ---------------------------------------------------------------------------
// Command semantics
// ---------------------------------------------------------------------------

/// The slot of the trader with id `id`, if any.
pub open spec fn find_trader(ts: Seq<TraderView>, id: TraderId) -> Option<int> {
    if exists|i: int| 0 <= i < ts.len() && (#[trigger] ts[i]).id == id {
        Some(choose|i: int| 0 <= i < ts.len() && (#[trigger] ts[i]).id == id)
    } else {
        None
    }
}

/// The slot of trader `id` if it exists and `player` owns it.
pub open spec fn owned_index(ts: Seq<TraderView>, id: TraderId, player: PlayerId) -> Result<int, CommandError> {
    match find_trader(ts, id) {
        None => Err(CommandError::UnknownTrader),
        Some(i) => if ts[i].owner == Owner::Player(player) {
            Ok(i)
        } else {
            Err(CommandError::NotOwner)
        },
    }
}

/// Units of `c` in a hold (0 when none).
pub open spec fn held(cargo: Map<CommodityId, Quantity>, c: CommodityId) -> int {
    if cargo.contains_key(c) {
        cargo[c] as int
    } else {
        0
    }
}

/// Mass of a sequence of cargo entries.
pub open spec fn entries_mass<F>(reg: Registry<F>, s: Seq<(CommodityId, Quantity)>) -> int
    decreases s.len(),
{
    if s.len() == 0 {
        0
    } else {
        entries_mass(reg, s.drop_last()) + s.last().1 * reg.commodity_defs()[s.last().0.0 as int].unit_mass
    }
}

/// Mass of goods in a hold.
pub open spec fn hold_used<F>(reg: Registry<F>, cargo: Map<CommodityId, Quantity>) -> int {
    entries_mass(reg, sorted_entries(cargo))
}

/// What one command does to the world: the new state, or why it is rejected.
/// Every precondition (ownership, reachability, funds, stock, hold capacity) is
/// checked; a rejected command changes nothing.
pub open spec fn command_step<F>(reg: Registry<F>, tt: Seq<Seq<Seq<u64>>>, s: WorldState, cmd: Command) -> Result<WorldState, CommandError> {
    match cmd {
        Command::Spawn { player, ship, at, capital } => {
            if ship.0 >= reg.ship_defs().len() {
                Err(CommandError::UnknownShip)
            } else if at.0 >= reg.system_list().len() {
                Err(CommandError::InvalidSystem)
            } else {
                Ok(
                    WorldState {
                        traders: s.traders.push(
                            TraderView {
                                id: TraderId(s.next_trader_id),
                                ship,
                                owner: Owner::Player(player),
                                capital,
                                location: TraderLocation::Docked(at),
                                cargo: Map::empty(),
                            },
                        ),
                        next_trader_id: (s.next_trader_id + 1) as u64,
                        ..s
                    },
                )
            }
        },
        Command::Despawn { player, trader } => match owned_index(s.traders, trader, player) {
            Err(e) => Err(e),
            Ok(i) => Ok(WorldState { traders: s.traders.remove(i), ..s }),
        },
        Command::Jump { player, trader, dest } => match owned_index(s.traders, trader, player) {
            Err(e) => Err(e),
            Ok(i) => {
                let t = s.traders[i];
                match t.location {
                    TraderLocation::Docked(sys) => {
                        if dest.0 >= reg.system_list().len() {
                            Err(CommandError::InvalidSystem)
                        } else if !reg.system_list()[sys.0 as int].connections@.contains(dest) {
                            Err(CommandError::Unreachable)
                        } else {
                            let travel = tt[t.ship.0 as int][sys.0 as int][dest.0 as int];
                            Ok(
                                WorldState {
                                    traders: s.traders.update(
                                        i,
                                        TraderView {
                                            location: TraderLocation::InTransit {
                                                origin: sys,
                                                dest,
                                                departure: s.tick,
                                                arrival: Tick((s.tick.0 + travel) as u64),
                                            },
                                            ..t
                                        },
                                    ),
                                    ..s
                                },
                            )
                        }
                    },
                    _ => Err(CommandError::NotDocked),
                }
            },
        },
        Command::Buy { player, trader, commodity: c, qty } => {
            if qty == 0 {
                Err(CommandError::ZeroQuantity)
            } else {
                match owned_index(s.traders, trader, player) {
                    Err(e) => Err(e),
                    Ok(i) => {
                        let t = s.traders[i];
                        match t.location {
                            TraderLocation::Docked(sys) => {
                                let g = s.goods[sys.0 as int];
                                if !g.contains_key(c) {
                                    Err(CommandError::UnknownGood)
                                } else if g[c].stock < qty {
                                    Err(CommandError::InsufficientStock)
                                } else if t.capital < g[c].price * qty {
                                    Err(CommandError::InsufficientFunds)
                                } else if hold_used(reg, t.cargo) + qty * reg.commodity_defs()[c.0 as int].unit_mass
                                    > reg.ship_defs()[t.ship.0 as int].cargo_capacity {
                                    Err(CommandError::OverCapacity)
                                } else {
                                    Ok(
                                        WorldState {
                                            goods: s.goods.update(
                                                sys.0 as int,
                                                g.insert(c, MarketGood { stock: (g[c].stock - qty) as u32, ..g[c] }),
                                            ),
                                            traders: s.traders.update(
                                                i,
                                                TraderView {
                                                    capital: (t.capital - g[c].price * qty) as i64,
                                                    cargo: t.cargo.insert(c, (held(t.cargo, c) + qty) as u32),
                                                    ..t
                                                },
                                            ),
                                            ..s
                                        },
                                    )
                                }
                            },
                            _ => Err(CommandError::NotDocked),
                        }
                    },
                }
            }
        },
        Command::Sell { player, trader, commodity: c, qty } => {
            if qty == 0 {
                Err(CommandError::ZeroQuantity)
            } else {
                match owned_index(s.traders, trader, player) {
                    Err(e) => Err(e),
                    Ok(i) => {
                        let t = s.traders[i];
                        match t.location {
                            TraderLocation::Docked(sys) => {
                                let g = s.goods[sys.0 as int];
                                if held(t.cargo, c) < qty {
                                    Err(CommandError::InsufficientCargo)
                                } else if !g.contains_key(c) {
                                    Err(CommandError::UnknownGood)
                                } else {
                                    let remaining = held(t.cargo, c) - qty;
                                    Ok(
                                        WorldState {
                                            goods: s.goods.update(
                                                sys.0 as int,
                                                g.insert(c, MarketGood { stock: sat_add(g[c].stock, qty), ..g[c] }),
                                            ),
                                            traders: s.traders.update(
                                                i,
                                                TraderView {
                                                    capital: (t.capital + g[c].price * qty) as i64,
                                                    cargo: if remaining == 0 {
                                                        t.cargo.remove(c)
                                                    } else {
                                                        t.cargo.insert(c, remaining as u32)
                                                    },
                                                    ..t
                                                },
                                            ),
                                            ..s
                                        },
                                    )
                                }
                            },
                            _ => Err(CommandError::NotDocked),
                        }
                    },
                }
            }
        },
    }
}

/// Whether applying `cmd` stays within the integer ranges the state is kept
/// in: where this fails, the arithmetic of the command (a fresh trader id, an
/// arrival tick, a cost, a hold mass, a held quantity or the seller's capital)
/// would leave its type.
pub open spec fn command_fits<F>(reg: Registry<F>, tt: Seq<Seq<Seq<u64>>>, s: WorldState, cmd: Command) -> bool {
    match cmd {
        Command::Spawn { ship, at, .. } => {
            (ship.0 < reg.ship_defs().len() && at.0 < reg.system_list().len()) ==> s.next_trader_id < u64::MAX
        },
        Command::Despawn { .. } => true,
        Command::Jump { player, trader, dest } => match owned_index(s.traders, trader, player) {
            Ok(i) => match s.traders[i].location {
                TraderLocation::Docked(sys) => (dest.0 < reg.system_list().len()
                    && reg.system_list()[sys.0 as int].connections@.contains(dest)) ==> s.tick.0
                    + tt[s.traders[i].ship.0 as int][sys.0 as int][dest.0 as int] <= u64::MAX,
                _ => true,
            },
            Err(_) => true,
        },
        Command::Buy { player, trader, commodity: c, qty } => match owned_index(s.traders, trader, player) {
            Ok(i) => match s.traders[i].location {
                TraderLocation::Docked(sys) => {
                    let g = s.goods[sys.0 as int];
                    let t = s.traders[i];
                    (qty > 0 && g.contains_key(c) && g[c].stock >= qty) ==> {
                        &&& g[c].price * qty <= i64::MAX
                        &&& t.capital >= g[c].price * qty ==> {
                            &&& hold_used(reg, t.cargo) + qty * reg.commodity_defs()[c.0 as int].unit_mass <= u32::MAX
                            &&& hold_used(reg, t.cargo) + qty * reg.commodity_defs()[c.0 as int].unit_mass
                                <= reg.ship_defs()[t.ship.0 as int].cargo_capacity ==> held(t.cargo, c) + qty <= u32::MAX
                        }
                    }
                },
                _ => true,
            },
            Err(_) => true,
        },
        Command::Sell { player, trader, commodity: c, qty } => match owned_index(s.traders, trader, player) {
            Ok(i) => match s.traders[i].location {
                TraderLocation::Docked(sys) => {
                    let g = s.goods[sys.0 as int];
                    let t = s.traders[i];
                    (qty > 0 && held(t.cargo, c) >= qty && g.contains_key(c)) ==> {
                        &&& g[c].price * qty <= i64::MAX
                        &&& t.capital + g[c].price * qty <= i64::MAX
                    }
                },
                _ => true,
            },
            Err(_) => true,
        },
    }
}

/// The outcome of a command phase: the state, the errors of rejected commands
/// in order, how many were applied, and where the phase stopped if a command
/// did not fit.
pub struct PhaseOutcome {
    pub state: WorldState,
    pub errors: Seq<CommandError>,
    pub applied: nat,
    pub halted: Option<nat>,
}

/// Apply `cmds` in submission order: each either applies, or is rejected and
/// its error recorded; the phase stops at the first command that does not fit.
pub open spec fn command_phase_spec<F>(
    reg: Registry<F>,
    tt: Seq<Seq<Seq<u64>>>,
    s: WorldState,
    cmds: Seq<Command>,
) -> PhaseOutcome
    decreases cmds.len(),
{
    if cmds.len() == 0 {
        PhaseOutcome { state: s, errors: Seq::empty(), applied: 0, halted: None }
    } else {
        let p = command_phase_spec(reg, tt, s, cmds.drop_last());
        if p.halted is Some {
            p
        } else if !command_fits(reg, tt, p.state, cmds.last()) {
            PhaseOutcome { halted: Some((cmds.len() - 1) as nat), ..p }
        } else {
            match command_step(reg, tt, p.state, cmds.last()) {
                Ok(s2) => PhaseOutcome { state: s2, applied: p.applied + 1, ..p },
                Err(e) => PhaseOutcome { errors: p.errors.push(e), ..p },
            }
        }
    }
}

} // verus!

verus! {

/// Resolved piracy settings for a run.
#[derive(Debug, Clone, Copy)]
pub struct PiracyRuntime<F> {
    pub pirate_ship: ShipId,
    pub base_ambush_chance: F,
    pub max_pirates: u32,
    pub respawn_delay: u64,
    pub fleet_size: u32,
    pub bounty: Money,
    pub reinforce_interval: u64,
}

/// Resolved navy settings.
#[derive(Debug, Clone, Copy)]
pub struct NavyRuntime {
    pub navy_ship: ShipId,
    pub fleet_size: u32,
    pub reinforce_interval: u64,
}

/// Resolved escort settings.
#[derive(Debug, Clone, Copy)]
pub struct EscortRuntime {
    pub escort_ship: ShipId,
    pub count: u32,
}

/// The views of a list of traders.
pub open spec fn trader_views(ts: Seq<Trader>) -> Seq<TraderView> {
    ts.map_values(|t: Trader| t@)
}

/// The goods maps of a list of markets.
pub open spec fn goods_views(ms: Seq<Market>) -> Seq<Map<CommodityId, MarketGood>> {
    ms.map_values(|m: Market| m.goods@)
}

/// No two traders share an id, and every id is below the next one to assign.
pub open spec fn ids_ok(ts: Seq<TraderView>, next: u64) -> bool {
    &&& forall|i: int, j: int| 0 <= i < ts.len() && 0 <= j < ts.len() && i != j ==> (#[trigger] ts[i]).id != (#[trigger] ts[j]).id
    &&& forall|i: int| 0 <= i < ts.len() ==> (#[trigger] ts[i]).id.0 < next
}

/// Every handle a trader holds indexes the registry.
pub open spec fn trader_ok<F>(reg: Registry<F>, t: TraderView) -> bool {
    &&& t.ship.0 < reg.ship_defs().len()
    &&& match t.location {
        TraderLocation::Docked(s) => s.0 < reg.system_list().len(),
        TraderLocation::InTransit { origin, dest, .. } => origin.0 < reg.system_list().len() && dest.0 < reg.system_list().len(),
        TraderLocation::Destroyed { .. } => true,
    }
    &&& forall|c: CommodityId| #[trigger] t.cargo.contains_key(c) ==> c.0 < reg.commodity_defs().len()
}

/// Every traded good is a known commodity with a positive price.
pub open spec fn goods_ok<F>(reg: Registry<F>, g: Map<CommodityId, MarketGood>) -> bool {
    forall|c: CommodityId| #[trigger] g.contains_key(c) ==> c.0 < reg.commodity_defs().len() && g[c].price >= 1
}

/// The state is consistent with the registry.
pub open spec fn state_ok<F>(reg: Registry<F>, s: WorldState) -> bool {
    &&& reg.fully_connected()
    &&& s.goods.len() == reg.system_list().len()
    &&& forall|i: int| 0 <= i < s.goods.len() ==> goods_ok(reg, #[trigger] s.goods[i])
    &&& ids_ok(s.traders, s.next_trader_id)
    &&& forall|i: int| 0 <= i < s.traders.len() ==> trader_ok(reg, #[trigger] s.traders[i])
}

/// The travel table covers every ship and every pair of systems.
pub open spec fn travel_ok<F>(reg: Registry<F>, tt: Seq<Seq<Seq<u64>>>) -> bool {
    &&& tt.len() == reg.ship_defs().len()
    &&& forall|a: int| 0 <= a < tt.len() ==> (#[trigger] tt[a]).len() == reg.system_list().len()
    &&& forall|a: int, b: int|
        0 <= a < tt.len() && 0 <= b < reg.system_list().len() ==> (#[trigger] tt[a][b]).len() == reg.system_list().len()
}

/// The simulation world: shares the immutable [`Registry`] (static content) via
/// `Arc` and owns the mutable simulation state.
pub struct World<F> {
    registry: Arc<Registry<F>>,
    tick: Tick,
    markets: Vec<Market>,
    traders: Vec<Trader>,
    piracy: Option<PiracyRuntime<F>>,
    piracy_stats: PiracyStats,
    pirates: Vec<Patrol<F>>,
    navy_runtime: Option<NavyRuntime>,
    navy: Vec<Patrol<F>>,
    escort: Option<EscortRuntime>,
    risk_aversion: F,
    commands: Vec<Command>,
    commands_applied: u64,
    commands_rejected: u64,
    last_errors: Vec<CommandError>,
    next_trader_id: u64,
    events: Vec<SimEvent>,
}

impl<F> World<F> {
    /// The static content.
    pub closed spec fn reg(&self) -> Registry<F> {
        *self.registry
    }

    pub closed spec fn spec_markets(&self) -> Seq<Market> {
        self.markets@
    }

    pub closed spec fn spec_traders(&self) -> Seq<Trader> {
        self.traders@
    }

    pub closed spec fn spec_tick(&self) -> Tick {
        self.tick
    }

    pub closed spec fn spec_next_trader_id(&self) -> u64 {
        self.next_trader_id
    }

    pub closed spec fn spec_commands(&self) -> Seq<Command> {
        self.commands@
    }

    pub closed spec fn spec_commands_applied(&self) -> u64 {
        self.commands_applied
    }

    pub closed spec fn spec_commands_rejected(&self) -> u64 {
        self.commands_rejected
    }

    pub closed spec fn spec_last_errors(&self) -> Seq<CommandError> {
        self.last_errors@
    }

    pub closed spec fn spec_piracy_stats(&self) -> PiracyStats {
        self.piracy_stats
    }

    pub closed spec fn spec_events(&self) -> Seq<SimEvent> {
        self.events@
    }

    /// The pirate fleet.
    pub closed spec fn spec_pirates(&self) -> Seq<Patrol<F>> {
        self.pirates@
    }

    /// The navy fleet.
    pub closed spec fn spec_navy_fleet(&self) -> Seq<Patrol<F>> {
        self.navy@
    }

    pub closed spec fn spec_piracy(&self) -> Option<PiracyRuntime<F>> {
        self.piracy
    }

    pub closed spec fn spec_navy(&self) -> Option<NavyRuntime> {
        self.navy_runtime
    }

    pub closed spec fn spec_escort(&self) -> Option<EscortRuntime> {
        self.escort
    }

    pub closed spec fn spec_risk_aversion(&self) -> F {
        self.risk_aversion
    }

    /// The part of the world commands act on.
    pub open spec fn state(&self) -> WorldState {
        WorldState {
            tick: self.spec_tick(),
            goods: goods_views(self.spec_markets()),
            traders: trader_views(self.spec_traders()),
            next_trader_id: self.spec_next_trader_id(),
        }
    }

    /// The world's internal consistency.
    pub open spec fn wf(&self) -> bool {
        &&& state_ok(self.reg(), self.state())
        &&& self.spec_events().len() <= EVENT_CAP
    }

    /// Everything but the command-visible state stays the same.
    pub open spec fn same_config(&self, other: &World<F>) -> bool {
        &&& self.same_setup(other)
        &&& self.spec_pirates() == other.spec_pirates()
        &&& self.spec_navy_fleet() == other.spec_navy_fleet()
    }

    /// The content, the scenario's settings and each market's identity stay.
    pub open spec fn same_setup(&self, other: &World<F>) -> bool {
        &&& self.reg() == other.reg()
        &&& self.spec_piracy() == other.spec_piracy()
        &&& self.spec_navy() == other.spec_navy()
        &&& self.spec_escort() == other.spec_escort()
        &&& self.spec_risk_aversion() == other.spec_risk_aversion()
        &&& forall|i: int| 0 <= i < self.spec_markets().len() && i < other.spec_markets().len()
            ==> (#[trigger] self.spec_markets()[i]).system == other.spec_markets()[i].system
                && self.spec_markets()[i].pricing == other.spec_markets()[i].pricing
    }

    pub fn tick_count(&self) -> (r: Tick)
        ensures
            r == self.spec_tick(),
    {
        self.tick
    }

    pub fn markets(&self) -> (r: &[Market])
        ensures
            r@ == self.spec_markets(),
    {
        self.markets.as_slice()
    }

    pub fn traders(&self) -> (r: &[Trader])
        ensures
            r@ == self.spec_traders(),
    {
        self.traders.as_slice()
    }

    pub fn registry(&self) -> (r: &Registry<F>)
        ensures
            *r == self.reg(),
    {
        &self.registry
    }

    /// A second handle to the shared registry, independent of `self`, so a
    /// host can read the content while it changes the world.
    pub fn registry_arc(&self) -> (r: Arc<Registry<F>>)
        ensures
            *r == self.reg(),
    {
        share(&self.registry)
    }

    /// The pirate fleet.
    pub fn pirates(&self) -> (r: &[Patrol<F>])
        ensures
            r@ == self.spec_pirates(),
    {
        self.pirates.as_slice()
    }

    /// The navy fleet.
    pub fn navy(&self) -> (r: &[Patrol<F>])
        ensures
            r@ == self.spec_navy_fleet(),
    {
        self.navy.as_slice()
    }

    pub fn piracy_stats(&self) -> (r: PiracyStats)
        ensures
            r == self.spec_piracy_stats(),
    {
        self.piracy_stats
    }

    pub fn commands_applied(&self) -> (r: u64)
        ensures
            r == self.spec_commands_applied(),
    {
        self.commands_applied
    }

    pub fn commands_rejected(&self) -> (r: u64)
        ensures
            r == self.spec_commands_rejected(),
    {
        self.commands_rejected
    }

    /// Errors from commands rejected in the most recent command phase.
    pub fn last_command_errors(&self) -> (r: &[CommandError])
        ensures
            r@ == self.spec_last_errors(),
    {
        self.last_errors.as_slice()
    }

    /// The recorded simulation events, oldest first (a bounded recent tail).
    pub fn events(&self) -> (r: &[SimEvent])
        ensures
            r@ == self.spec_events(),
    {
        self.events.as_slice()
    }

    /// Resolved piracy settings, if piracy is on.
    pub fn piracy(&self) -> (r: &Option<PiracyRuntime<F>>)
        ensures
            *r == self.spec_piracy(),
    {
        &self.piracy
    }

    /// Resolved navy settings, if there is a navy.
    pub fn navy_runtime(&self) -> (r: Option<NavyRuntime>)
        ensures
            r == self.spec_navy(),
    {
        self.navy_runtime
    }

    /// Resolved escort settings, if traders are escorted.
    pub fn escort(&self) -> (r: Option<EscortRuntime>)
        ensures
            r == self.spec_escort(),
    {
        self.escort
    }

    /// How strongly traders discount profit by destination danger.
    pub fn risk_aversion(&self) -> (r: &F)
        ensures
            *r == self.spec_risk_aversion(),
    {
        &self.risk_aversion
    }

    /// Enqueue a player command for the next command phase. Commands are
    /// validated and applied in `command_phase`, not on receipt, so ordering is
    /// deterministic.
    pub fn queue_command(&mut self, command: Command)
        ensures
            final(self).spec_commands() == old(self).spec_commands().push(command),
            final(self).state() == old(self).state(),
            final(self).wf() == old(self).wf(),
            final(self).same_config(old(self)),
            final(self).spec_commands_applied() == old(self).spec_commands_applied(),
            final(self).spec_commands_rejected() == old(self).spec_commands_rejected(),
            final(self).spec_last_errors() == old(self).spec_last_errors(),
            final(self).spec_events() == old(self).spec_events(),
            final(self).spec_piracy_stats() == old(self).spec_piracy_stats(),
    {
        self.commands.push(command);
    }
}

} // verus!

verus! {

/// A command that applies keeps the state consistent with the registry.
pub proof fn lemma_step_keeps_state_ok<F>(reg: Registry<F>, tt: Seq<Seq<Seq<u64>>>, s: WorldState, cmd: Command)
    requires
        state_ok(reg, s),
        command_fits(reg, tt, s, cmd),
        command_step(reg, tt, s, cmd) is Ok,
    ensures
        state_ok(reg, command_step(reg, tt, s, cmd)->Ok_0),
{
    let s2 = command_step(reg, tt, s, cmd)->Ok_0;
    match cmd {
        Command::Spawn { player, ship, at, capital } => {
            assert forall|i: int| 0 <= i < s2.traders.len() implies trader_ok(reg, #[trigger] s2.traders[i]) by {
                if i < s.traders.len() {
                    assert(s2.traders[i] == s.traders[i]);
                }
            }
            assert(ids_ok(s2.traders, s2.next_trader_id)) by {
                assert forall|i: int, j: int| 0 <= i < s2.traders.len() && 0 <= j < s2.traders.len() && i != j
                    implies (#[trigger] s2.traders[i]).id != (#[trigger] s2.traders[j]).id by {
                    if i < s.traders.len() && j < s.traders.len() {
                        assert(s2.traders[i] == s.traders[i]);
                        assert(s2.traders[j] == s.traders[j]);
                    } else if i < s.traders.len() {
                        assert(s2.traders[i] == s.traders[i]);
                    } else {
                        assert(s2.traders[j] == s.traders[j]);
                    }
                }
                assert forall|i: int| 0 <= i < s2.traders.len() implies (#[trigger] s2.traders[i]).id.0 < s2.next_trader_id by {
                    if i < s.traders.len() {
                        assert(s2.traders[i] == s.traders[i]);
                    }
                }
            }
        },
        Command::Despawn { player, trader } => {
            let i0 = owned_index(s.traders, trader, player)->Ok_0;
            assert forall|i: int| 0 <= i < s2.traders.len() implies trader_ok(reg, #[trigger] s2.traders[i]) by {
                if i < i0 {
                    assert(s2.traders[i] == s.traders[i]);
                } else {
                    assert(s2.traders[i] == s.traders[i + 1]);
                }
            }
            assert(ids_ok(s2.traders, s2.next_trader_id)) by {
                assert forall|i: int, j: int| 0 <= i < s2.traders.len() && 0 <= j < s2.traders.len() && i != j
                    implies (#[trigger] s2.traders[i]).id != (#[trigger] s2.traders[j]).id by {
                    let a = if i < i0 { i } else { i + 1 };
                    let b = if j < i0 { j } else { j + 1 };
                    assert(s2.traders[i] == s.traders[a]);
                    assert(s2.traders[j] == s.traders[b]);
                }
                assert forall|i: int| 0 <= i < s2.traders.len() implies (#[trigger] s2.traders[i]).id.0 < s2.next_trader_id by {
                    let a = if i < i0 { i } else { i + 1 };
                    assert(s2.traders[i] == s.traders[a]);
                }
            }
        },
        Command::Jump { player, trader, dest } => {
            let i0 = owned_index(s.traders, trader, player)->Ok_0;
            assert forall|i: int| 0 <= i < s2.traders.len() implies trader_ok(reg, #[trigger] s2.traders[i]) by {
                if i != i0 {
                    assert(s2.traders[i] == s.traders[i]);
                } else {
                    assert(trader_ok(reg, s.traders[i0]));
                }
            }
            assert(ids_ok(s2.traders, s2.next_trader_id)) by {
                assert forall|i: int| 0 <= i < s2.traders.len() implies (#[trigger] s2.traders[i]).id == s.traders[i].id by {}
            }
        },
        Command::Buy { player, trader, commodity: c, qty } => {
            let i0 = owned_index(s.traders, trader, player)->Ok_0;
            let t = s.traders[i0];
            let sys = t.location->Docked_0;
            assert(trader_ok(reg, t));
            assert(goods_ok(reg, s.goods[sys.0 as int]));
            assert forall|k: int| 0 <= k < s2.goods.len() implies goods_ok(reg, #[trigger] s2.goods[k]) by {
                if k != sys.0 {
                    assert(s2.goods[k] == s.goods[k]);
                } else {
                    let g = s.goods[k];
                    assert forall|x: CommodityId| #[trigger] s2.goods[k].contains_key(x) implies x.0 < reg.commodity_defs().len()
                        && s2.goods[k][x].price >= 1 by {
                        assert(g.contains_key(x));
                    }
                }
            }
            assert forall|i: int| 0 <= i < s2.traders.len() implies trader_ok(reg, #[trigger] s2.traders[i]) by {
                if i != i0 {
                    assert(s2.traders[i] == s.traders[i]);
                } else {
                    assert forall|x: CommodityId| #[trigger] s2.traders[i].cargo.contains_key(x) implies x.0 < reg.commodity_defs().len() by {
                        if x != c {
                            assert(t.cargo.contains_key(x));
                        } else {
                            assert(s.goods[sys.0 as int].contains_key(c));
                        }
                    }
                }
            }
            assert(ids_ok(s2.traders, s2.next_trader_id)) by {
                assert forall|i: int| 0 <= i < s2.traders.len() implies (#[trigger] s2.traders[i]).id == s.traders[i].id by {}
            }
        },
        Command::Sell { player, trader, commodity: c, qty } => {
            let i0 = owned_index(s.traders, trader, player)->Ok_0;
            let t = s.traders[i0];
            let sys = t.location->Docked_0;
            assert(trader_ok(reg, t));
            assert(goods_ok(reg, s.goods[sys.0 as int]));
            assert forall|k: int| 0 <= k < s2.goods.len() implies goods_ok(reg, #[trigger] s2.goods[k]) by {
                if k != sys.0 {
                    assert(s2.goods[k] == s.goods[k]);
                } else {
                    let g = s.goods[k];
                    assert forall|x: CommodityId| #[trigger] s2.goods[k].contains_key(x) implies x.0 < reg.commodity_defs().len()
                        && s2.goods[k][x].price >= 1 by {
                        assert(g.contains_key(x));
                    }
                }
            }
            assert forall|i: int| 0 <= i < s2.traders.len() implies trader_ok(reg, #[trigger] s2.traders[i]) by {
                if i != i0 {
                    assert(s2.traders[i] == s.traders[i]);
                } else {
                    assert forall|x: CommodityId| #[trigger] s2.traders[i].cargo.contains_key(x) implies x.0 < reg.commodity_defs().len() by {
                        assert(t.cargo.contains_key(x));
                    }
                }
            }
            assert(ids_ok(s2.traders, s2.next_trader_id)) by {
                assert forall|i: int| 0 <= i < s2.traders.len() implies (#[trigger] s2.traders[i]).id == s.traders[i].id by {}
            }
        },
    }
}

} // verus!

verus! {

impl<F> World<F> {
    /// Resolve a `TraderId` to its current slot.
    fn find_trader_index(&self, id: TraderId) -> (r: Option<usize>)
        requires
            ids_ok(self.state().traders, self.spec_next_trader_id()),
        ensures
            r is None ==> find_trader(self.state().traders, id) is None,
            r matches Some(i) ==> find_trader(self.state().traders, id) == Some(i as int) && i < self.spec_traders().len(),
    {
        let ghost ts = self.state().traders;
        let n = self.traders.len();
        let mut i: usize = 0;
        while i < n
            invariant
                n == self.traders@.len(),
                ts == trader_views(self.traders@),
                ids_ok(ts, self.spec_next_trader_id()),
                i <= n,
                forall|j: int| 0 <= j < i ==> (#[trigger] ts[j]).id != id,
            decreases n - i,
        {
            if self.traders[i].id.0 == id.0 {
                proof {
                    assert(ts[i as int].id == id);
                    let k = choose|k: int| 0 <= k < ts.len() && (#[trigger] ts[k]).id == id;
                    if k != i {
                        assert(ts[k].id != ts[i as int].id);
                    }
                }
                return Some(i);
            }
            i = i + 1;
        }
        None
    }

    /// Resolve a `TraderId` to its current slot, checking it exists and is owned
    /// by `player`. A stale id (its trader removed) resolves to `UnknownTrader`.
    fn owned_trader_index(&self, id: TraderId, player: PlayerId) -> (r: Result<usize, CommandError>)
        requires
            ids_ok(self.state().traders, self.spec_next_trader_id()),
        ensures
            r matches Ok(i) ==> owned_index(self.state().traders, id, player) == Ok::<int, CommandError>(i as int)
                && i < self.spec_traders().len(),
            r matches Err(e) ==> owned_index(self.state().traders, id, player) == Err::<int, CommandError>(e),
    {
        match self.find_trader_index(id) {
            None => Err(CommandError::UnknownTrader),
            Some(idx) => {
                let is_owner = match self.traders[idx].owner {
                    Owner::Player(p) => p.0 == player.0,
                    Owner::Npc => false,
                };
                proof {
                    assert(self.state().traders[idx as int] == self.traders@[idx as int]@);
                }
                if !is_owner {
                    Err(CommandError::NotOwner)
                } else {
                    Ok(idx)
                }
            },
        }
    }

    /// The system a trader is docked at, or `NotDocked`.
    fn docked_system(&self, idx: usize) -> (r: Result<SystemId, CommandError>)
        requires
            idx < self.spec_traders().len(),
        ensures
            r matches Ok(s) ==> self.spec_traders()[idx as int].location == TraderLocation::Docked(s),
            r is Err ==> r == Err::<SystemId, CommandError>(CommandError::NotDocked) && !(self.spec_traders()[idx as int].location is Docked),
    {
        match self.traders[idx].location {
            TraderLocation::Docked(sys) => Ok(sys),
            _ => Err(CommandError::NotDocked),
        }
    }

    /// Mass of the goods in trader `idx`'s hold.
    fn hold_mass(&self, idx: usize) -> (r: u128)
        requires
            self.wf(),
            idx < self.spec_traders().len(),
        ensures
            r == hold_used(self.reg(), self.spec_traders()[idx as int].cargo@),
    {
        let cargo = &self.traders[idx].cargo;
        proof {
            use_type_invariant(cargo);
            cargo.lemma_sorted_entries();
            cargo.lemma_entries();
            assert(trader_ok(self.reg(), self.state().traders[idx as int]));
        }
        let ghost s = cargo.spec_entries();
        proof {
            assert forall|j: int| 0 <= j < s.len() implies (#[trigger] s[j]).0.0 < self.reg().commodity_defs().len() by {
                assert(cargo@.contains_key(s[j].0));
                assert(self.state().traders[idx as int].cargo.contains_key(s[j].0));
            }
        }
        let n = cargo.len();
        let mut total: u128 = 0;
        let mut i: usize = 0;
        assert(s.take(0) =~= Seq::<(CommodityId, Quantity)>::empty());
        while i < n
            invariant
                n == s.len(),
                s == cargo.spec_entries(),
                i <= n,
                forall|j: int| 0 <= j < n ==> (#[trigger] s[j]).0.0 < self.reg().commodity_defs().len(),
                total == entries_mass(self.reg(), s.take(i as int)),
                total <= i * 0xffff_ffff_ffff_ffff,
            decreases n - i,
        {
            let c = cargo.key_at(i);
            let q = *cargo.value_at(i);
            let m = self.registry.commodity(c).unit_mass;
            proof {
                assert(s.take(i + 1).drop_last() =~= s.take(i as int));
                assert((q as int) * (m as int) <= 0xffff_ffff_ffff_ffff) by (nonlinear_arith)
                    requires
                        q <= u32::MAX,
                        m <= u32::MAX,
                ;
                assert(i * 0xffff_ffff_ffff_ffff + 0xffff_ffff_ffff_ffff == (i + 1) * 0xffff_ffff_ffff_ffff) by (nonlinear_arith);
                assert((i + 1) * 0xffff_ffff_ffff_ffff < 0x1_0000_0000_0000_0000 * 0x1_0000_0000_0000_0000) by (nonlinear_arith)
                    requires
                        i < n,
                        n <= usize::MAX,
                ;
            }
            total = total + (q as u128) * (m as u128);
            i = i + 1;
        }
        assert(s.take(n as int) =~= s);
        proof {
            assert(forall|c: CommodityId| cargo@.contains_key(c) ==> c.0 < self.reg().commodity_defs().len());
        }
        total
    }
}

} // verus!

verus! {

impl<F> World<F> {
    /// Bookkeeping outside the command-visible state is the same.
    pub open spec fn same_records(&self, other: &World<F>) -> bool {
        &&& self.spec_commands() == other.spec_commands()
        &&& self.spec_commands_applied() == other.spec_commands_applied()
        &&& self.spec_commands_rejected() == other.spec_commands_rejected()
        &&& self.spec_last_errors() == other.spec_last_errors()
        &&& self.spec_events() == other.spec_events()
        &&& self.spec_piracy_stats() == other.spec_piracy_stats()
    }

    /// Whether `dest` is one jump from `sys`.
    fn connected(&self, sys: SystemId, dest: SystemId) -> (r: bool)
        requires
            sys.0 < self.reg().system_list().len(),
        ensures
            r == self.reg().system_list()[sys.0 as int].connections@.contains(dest),
    {
        let system = self.registry.system(sys);
        let conns = &system.connections;
        assert(conns@ == self.reg().system_list()[sys.0 as int].connections@);
        let n = conns.len();
        let mut i: usize = 0;
        while i < n
            invariant
                n == conns@.len(),
                i <= n,
                forall|j: int| 0 <= j < i ==> (#[trigger] conns@[j]) != dest,
                conns@ == self.reg().system_list()[sys.0 as int].connections@,
            decreases n - i,
        {
            if conns[i].0 == dest.0 {
                assert(conns@[i as int] == dest);
                return true;
            }
            i = i + 1;
        }
        false
    }

    /// Validate and apply a single command against the world. Every
    /// precondition (ownership, reachability, funds, stock, hold capacity) is
    /// checked, because commands are untrusted input.
    fn apply_command(&mut self, tt: &TravelTimes, command: Command) -> (r: Result<(), CommandError>)
        requires
            old(self).wf(),
            travel_ok(old(self).reg(), tt.table()),
            command_fits(old(self).reg(), tt.table(), old(self).state(), command),
        ensures
            final(self).wf(),
            final(self).same_config(old(self)),
            final(self).same_records(old(self)),
            final(self).spec_markets().len() == old(self).spec_markets().len(),
            match command_step(old(self).reg(), tt.table(), old(self).state(), command) {
                Ok(s2) => r is Ok && final(self).state() == s2,
                Err(e) => r == Err::<(), CommandError>(e) && final(self).state() == old(self).state(),
            },
    {
        let ghost reg = self.reg();
        let ghost s = self.state();
        let ghost table = tt.table();
        match command {
            Command::Spawn { player, ship, at, capital } => {
                if ship.index() >= self.registry.ship_count() {
                    return Err(CommandError::UnknownShip);
                }
                if at.index() >= self.registry.system_count() {
                    return Err(CommandError::InvalidSystem);
                }
                let id = TraderId(self.next_trader_id);
                self.next_trader_id = self.next_trader_id + 1;
                let t = Trader::owned(id, ship, capital, at, player);
                self.traders.push(t);
                proof {
                    let s2 = command_step(reg, table, s, command)->Ok_0;
                    assert(trader_views(self.traders@) =~= s2.traders);
                    assert(self.state() == s2);
                    lemma_step_keeps_state_ok(reg, table, s, command);
                }
                Ok(())
            },
            Command::Despawn { player, trader } => {
                let idx = match self.owned_trader_index(trader, player) {
                    Ok(i) => i,
                    Err(e) => return Err(e),
                };
                self.traders.remove(idx);
                proof {
                    let s2 = command_step(reg, table, s, command)->Ok_0;
                    assert(trader_views(self.traders@) =~= s2.traders);
                    lemma_step_keeps_state_ok(reg, table, s, command);
                }
                Ok(())
            },
            Command::Jump { player, trader, dest } => {
                let idx = match self.owned_trader_index(trader, player) {
                    Ok(i) => i,
                    Err(e) => return Err(e),
                };
                let sys = match self.docked_system(idx) {
                    Ok(x) => x,
                    Err(e) => return Err(e),
                };
                proof {
                    assert(s.traders[idx as int] == self.traders@[idx as int]@);
                    assert(trader_ok(reg, s.traders[idx as int]));
                }
                if dest.index() >= self.registry.system_count() {
                    return Err(CommandError::InvalidSystem);
                }
                if !self.connected(sys, dest) {
                    return Err(CommandError::Unreachable);
                }
                let ship = self.traders[idx].ship;
                proof {
                    assert(table[ship.0 as int][sys.0 as int].len() == reg.system_list().len());
                }
                let travel = tt.ticks[ship.index()][sys.index()][dest.index()];
                let departure = self.tick;
                let arrival = Tick(self.tick.0 + travel);
                self.traders[idx].location = TraderLocation::InTransit { origin: sys, dest, departure, arrival };
                proof {
                    let s2 = command_step(reg, table, s, command)->Ok_0;
                    assert(trader_views(self.traders@) =~= s2.traders);
                    lemma_step_keeps_state_ok(reg, table, s, command);
                }
                Ok(())
            },
            Command::Buy { player, trader, commodity, qty } => {
                if qty == 0 {
                    return Err(CommandError::ZeroQuantity);
                }
                let idx = match self.owned_trader_index(trader, player) {
                    Ok(i) => i,
                    Err(e) => return Err(e),
                };
                let sys = match self.docked_system(idx) {
                    Ok(x) => x,
                    Err(e) => return Err(e),
                };
                proof {
                    assert(s.traders[idx as int] == self.traders@[idx as int]@);
                    assert(trader_ok(reg, s.traders[idx as int]));
                    assert(s.goods[sys.0 as int] == self.markets@[sys.0 as int].goods@);
                }
                let si = sys.index();
                let price = match self.markets[si].price(commodity) {
                    Some(p) => p,
                    None => return Err(CommandError::UnknownGood),
                };
                if self.markets[si].stock(commodity) < qty {
                    return Err(CommandError::InsufficientStock);
                }
                proof {
                    assert(goods_ok(reg, s.goods[sys.0 as int]));
                    assert(price >= 1);
                    assert(price * qty <= i64::MAX);
                    assert(price * qty >= 0) by (nonlinear_arith)
                        requires
                            price >= 1,
                    ;
                }
                let cost: i64 = price * (qty as i64);
                if self.traders[idx].capital < cost {
                    return Err(CommandError::InsufficientFunds);
                }
                proof {
                    assert(goods_ok(reg, s.goods[sys.0 as int]));
                    assert(s.goods[sys.0 as int].contains_key(commodity));
                }
                let unit_mass = self.registry.commodity(commodity).unit_mass;
                let capacity = self.registry.ship(self.traders[idx].ship).cargo_capacity;
                let used = self.hold_mass(idx);
                if used + (qty as u128) * (unit_mass as u128) > capacity as u128 {
                    return Err(CommandError::OverCapacity);
                }
                let have: u32 = match self.traders[idx].cargo.get(commodity) {
                    Some(q) => *q,
                    None => 0,
                };
                self.markets[si].try_remove(commodity, qty);
                self.traders[idx].capital = self.traders[idx].capital - cost;
                self.traders[idx].cargo.insert(commodity, have + qty);
                proof {
                    let s2 = command_step(reg, table, s, command)->Ok_0;
                    assert(goods_views(self.markets@) =~= s2.goods);
                    assert(trader_views(self.traders@) =~= s2.traders);
                    lemma_step_keeps_state_ok(reg, table, s, command);
                    assert forall|i: int| 0 <= i < self.spec_markets().len() && i < old(self).spec_markets().len()
                        implies (#[trigger] self.spec_markets()[i]).system == old(self).spec_markets()[i].system
                        && self.spec_markets()[i].pricing == old(self).spec_markets()[i].pricing by {}
                }
                Ok(())
            },
            Command::Sell { player, trader, commodity, qty } => {
                if qty == 0 {
                    return Err(CommandError::ZeroQuantity);
                }
                let idx = match self.owned_trader_index(trader, player) {
                    Ok(i) => i,
                    Err(e) => return Err(e),
                };
                let sys = match self.docked_system(idx) {
                    Ok(x) => x,
                    Err(e) => return Err(e),
                };
                proof {
                    assert(s.traders[idx as int] == self.traders@[idx as int]@);
                    assert(trader_ok(reg, s.traders[idx as int]));
                    assert(s.goods[sys.0 as int] == self.markets@[sys.0 as int].goods@);
                }
                let si = sys.index();
                let have: u32 = match self.traders[idx].cargo.get(commodity) {
                    Some(q) => *q,
                    None => 0,
                };
                if have < qty {
                    return Err(CommandError::InsufficientCargo);
                }
                let price = match self.markets[si].price(commodity) {
                    Some(p) => p,
                    None => return Err(CommandError::UnknownGood),
                };
                proof {
                    assert(goods_ok(reg, s.goods[sys.0 as int]));
                    assert(price * qty >= 0) by (nonlinear_arith)
                        requires
                            price >= 1,
                    ;
                }
                self.markets[si].add(commodity, qty);
                self.traders[idx].capital = self.traders[idx].capital + price * (qty as i64);
                let remaining = have - qty;
                if remaining == 0 {
                    self.traders[idx].cargo.remove(commodity);
                } else {
                    self.traders[idx].cargo.insert(commodity, remaining);
                }
                proof {
                    let s2 = command_step(reg, table, s, command)->Ok_0;
                    assert(goods_views(self.markets@) =~= s2.goods);
                    assert(trader_views(self.traders@) =~= s2.traders);
                    lemma_step_keeps_state_ok(reg, table, s, command);
                    assert forall|i: int| 0 <= i < self.spec_markets().len() && i < old(self).spec_markets().len()
                        implies (#[trigger] self.spec_markets()[i]).system == old(self).spec_markets()[i].system
                        && self.spec_markets()[i].pricing == old(self).spec_markets()[i].pricing by {}
                }
                Ok(())
            },
        }
    }
}

} // verus!

verus! {

impl<F> World<F> {
    /// Whether applying `command` keeps every quantity within its type.
    fn fits(&self, tt: &TravelTimes, command: Command) -> (r: bool)
        requires
            self.wf(),
            travel_ok(self.reg(), tt.table()),
        ensures
            r == command_fits(self.reg(), tt.table(), self.state(), command),
    {
        let ghost reg = self.reg();
        let ghost s = self.state();
        let ghost table = tt.table();
        match command {
            Command::Spawn { ship, at, .. } => {
                if ship.index() < self.registry.ship_count() && at.index() < self.registry.system_count() {
                    self.next_trader_id < u64::MAX
                } else {
                    true
                }
            },
            Command::Despawn { .. } => true,
            Command::Jump { player, trader, dest } => {
                let idx = match self.owned_trader_index(trader, player) {
                    Ok(i) => i,
                    Err(_) => return true,
                };
                let sys = match self.docked_system(idx) {
                    Ok(x) => x,
                    Err(_) => return true,
                };
                proof {
                    assert(s.traders[idx as int] == self.traders@[idx as int]@);
                    assert(trader_ok(reg, s.traders[idx as int]));
                }
                if dest.index() < self.registry.system_count() && self.connected(sys, dest) {
                    let ship = self.traders[idx].ship;
                    proof {
                        assert(table[ship.0 as int][sys.0 as int].len() == reg.system_list().len());
                    }
                    let travel = tt.ticks[ship.index()][sys.index()][dest.index()];
                    (self.tick.0 as u128) + (travel as u128) <= u64::MAX as u128
                } else {
                    true
                }
            },
            Command::Buy { player, trader, commodity, qty } => {
                let idx = match self.owned_trader_index(trader, player) {
                    Ok(i) => i,
                    Err(_) => return true,
                };
                let sys = match self.docked_system(idx) {
                    Ok(x) => x,
                    Err(_) => return true,
                };
                proof {
                    assert(s.traders[idx as int] == self.traders@[idx as int]@);
                    assert(trader_ok(reg, s.traders[idx as int]));
                    assert(s.goods[sys.0 as int] == self.markets@[sys.0 as int].goods@);
                    assert(goods_ok(reg, s.goods[sys.0 as int]));
                }
                let si = sys.index();
                let price = match self.markets[si].price(commodity) {
                    Some(p) => p,
                    None => return true,
                };
                if qty == 0 || self.markets[si].stock(commodity) < qty {
                    return true;
                }
                proof {
                    assert((price as int) * (qty as int) <= 0x7fff_ffff_ffff_ffff * 0xffff_ffff) by (nonlinear_arith)
                        requires
                            1 <= price <= 0x7fff_ffff_ffff_ffff,
                            qty <= 0xffff_ffff,
                    ;
                    assert((price as int) * (qty as int) >= 0) by (nonlinear_arith)
                        requires
                            1 <= price,
                    ;
                }
                let cost: i128 = (price as i128) * (qty as i128);
                proof {
                    assert(cost == price * qty);
                }
                if cost > i64::MAX as i128 {
                    return false;
                }
                if (self.traders[idx].capital as i128) < cost {
                    return true;
                }
                let unit_mass = self.registry.commodity(commodity).unit_mass;
                let capacity = self.registry.ship(self.traders[idx].ship).cargo_capacity;
                let used = self.hold_mass(idx);
                if used > u32::MAX as u128 {
                    return false;
                }
                proof {
                    assert((qty as int) * (unit_mass as int) <= 0xffff_ffff * 0xffff_ffff) by (nonlinear_arith)
                        requires
                            qty <= 0xffff_ffff,
                            unit_mass <= 0xffff_ffff,
                    ;
                }
                let total: u128 = used + (qty as u128) * (unit_mass as u128);
                if total > u32::MAX as u128 {
                    return false;
                }
                if total > capacity as u128 {
                    return true;
                }
                let have: u32 = match self.traders[idx].cargo.get(commodity) {
                    Some(q) => *q,
                    None => 0,
                };
                (have as u64) + (qty as u64) <= u32::MAX as u64
            },
            Command::Sell { player, trader, commodity, qty } => {
                let idx = match self.owned_trader_index(trader, player) {
                    Ok(i) => i,
                    Err(_) => return true,
                };
                let sys = match self.docked_system(idx) {
                    Ok(x) => x,
                    Err(_) => return true,
                };
                proof {
                    assert(s.traders[idx as int] == self.traders@[idx as int]@);
                    assert(trader_ok(reg, s.traders[idx as int]));
                    assert(s.goods[sys.0 as int] == self.markets@[sys.0 as int].goods@);
                    assert(goods_ok(reg, s.goods[sys.0 as int]));
                }
                let si = sys.index();
                let have: u32 = match self.traders[idx].cargo.get(commodity) {
                    Some(q) => *q,
                    None => 0,
                };
                let price = match self.markets[si].price(commodity) {
                    Some(p) => p,
                    None => return true,
                };
                if qty == 0 || have < qty {
                    return true;
                }
                proof {
                    assert((price as int) * (qty as int) <= 0x7fff_ffff_ffff_ffff * 0xffff_ffff) by (nonlinear_arith)
                        requires
                            1 <= price <= 0x7fff_ffff_ffff_ffff,
                            qty <= 0xffff_ffff,
                    ;
                    assert((price as int) * (qty as int) >= 0) by (nonlinear_arith)
                        requires
                            1 <= price,
                    ;
                }
                let proceeds: i128 = (price as i128) * (qty as i128);
                proof {
                    assert(proceeds == price * qty);
                }
                proceeds <= i64::MAX as i128 && (self.traders[idx].capital as i128) + proceeds <= i64::MAX as i128
            },
        }
    }

    /// Drain and apply the queued player commands, in submission order.
    /// Rejected commands (invalid input) are counted and their errors kept in
    /// `last_command_errors`, not fatal. Returns `Err(k)` when command `k` would
    /// take a quantity out of its type; the phase stops there.
    pub fn command_phase(&mut self, tt: &TravelTimes) -> (r: Result<(), usize>)
        requires
            old(self).wf(),
            travel_ok(old(self).reg(), tt.table()),
            old(self).spec_commands_applied() + old(self).spec_commands().len() <= u64::MAX,
            old(self).spec_commands_rejected() + old(self).spec_commands().len() <= u64::MAX,
        ensures
            final(self).wf(),
            final(self).same_config(old(self)),
            final(self).spec_markets().len() == old(self).spec_markets().len(),
            final(self).spec_commands() == Seq::<Command>::empty(),
            final(self).spec_events() == old(self).spec_events(),
            final(self).spec_piracy_stats() == old(self).spec_piracy_stats(),
            ({
                let p = command_phase_spec(old(self).reg(), tt.table(), old(self).state(), old(self).spec_commands());
                &&& final(self).state() == p.state
                &&& final(self).spec_last_errors() == p.errors
                &&& final(self).spec_commands_applied() == old(self).spec_commands_applied() + p.applied
                &&& final(self).spec_commands_rejected() == old(self).spec_commands_rejected() + p.errors.len()
                &&& r == (match p.halted {
                    None => Ok::<(), usize>(()),
                    Some(k) => Err::<(), usize>(k as usize),
                })
            }),
    {
        let ghost reg = self.reg();
        let ghost table = tt.table();
        let ghost s0 = self.state();
        let ghost a0 = self.commands_applied;
        let ghost j0 = self.commands_rejected;
        self.last_errors = Vec::new();
        let mut commands: Vec<Command> = Vec::new();
        std::mem::swap(&mut commands, &mut self.commands);
        let ghost cmds = commands@;
        let n = commands.len();
        let mut i: usize = 0;
        assert(cmds.take(0) =~= Seq::<Command>::empty());
        assert(self.spec_last_errors() =~= Seq::<CommandError>::empty());
        while i < n
            invariant
                n == cmds.len(),
                cmds == commands@,
                i <= n,
                self.wf(),
                travel_ok(self.reg(), table),
                table == tt.table(),
                reg == self.reg(),
                self.same_config(old(self)),
                self.spec_markets().len() == old(self).spec_markets().len(),
                self.spec_commands() == Seq::<Command>::empty(),
                self.spec_events() == old(self).spec_events(),
                self.spec_piracy_stats() == old(self).spec_piracy_stats(),
                a0 == old(self).spec_commands_applied(),
                j0 == old(self).spec_commands_rejected(),
                s0 == old(self).state(),
                cmds == old(self).spec_commands(),
                a0 + n <= u64::MAX,
                j0 + n <= u64::MAX,
                command_phase_spec(reg, table, s0, cmds.take(i as int)).halted is None,
                self.state() == command_phase_spec(reg, table, s0, cmds.take(i as int)).state,
                self.spec_last_errors() == command_phase_spec(reg, table, s0, cmds.take(i as int)).errors,
                self.spec_commands_applied() == a0 + command_phase_spec(reg, table, s0, cmds.take(i as int)).applied,
                self.spec_commands_rejected() == j0 + command_phase_spec(reg, table, s0, cmds.take(i as int)).errors.len(),
                command_phase_spec(reg, table, s0, cmds.take(i as int)).applied
                    + command_phase_spec(reg, table, s0, cmds.take(i as int)).errors.len() == i,
            decreases n - i,
        {
            let command = commands[i];
            proof {
                assert(cmds.take(i + 1).drop_last() =~= cmds.take(i as int));
                assert(cmds.take(i + 1).last() == command);
            }
            if !self.fits(tt, command) {
                proof {
                    lemma_phase_halted_prefix(reg, table, s0, cmds, i + 1);
                }
                return Err(i);
            }
            match self.apply_command(tt, command) {
                Ok(()) => {
                    self.commands_applied = self.commands_applied + 1;
                },
                Err(e) => {
                    self.commands_rejected = self.commands_rejected + 1;
                    self.last_errors.push(e);
                },
            }
            i = i + 1;
        }
        assert(cmds.take(n as int) =~= cmds);
        Ok(())
    }
}

/// Once a phase halts on a prefix, the whole phase halts there.
pub proof fn lemma_phase_halted_prefix<F>(
    reg: Registry<F>,
    tt: Seq<Seq<Seq<u64>>>,
    s: WorldState,
    cmds: Seq<Command>,
    k: int,
)
    requires
        0 <= k <= cmds.len(),
        command_phase_spec(reg, tt, s, cmds.take(k)).halted is Some,
    ensures
        command_phase_spec(reg, tt, s, cmds) == command_phase_spec(reg, tt, s, cmds.take(k)),
    decreases cmds.len() - k,
{
    if k == cmds.len() {
        assert(cmds.take(k) =~= cmds);
    } else {
        assert(cmds.take(k + 1).drop_last() =~= cmds.take(k));
        lemma_phase_halted_prefix(reg, tt, s, cmds, k + 1);
    }
}

} // verus!

verus! {

/// The content of a [`WorldError`].
pub enum WorldErrorView {
    UnknownShip(Seq<char>),
    MissingIndustryCommodity { system: Seq<char>, commodity: Seq<char> },
    NoSystems,
}

impl View for WorldError {
    type V = WorldErrorView;

    open spec fn view(&self) -> WorldErrorView {
        match self {
            WorldError::UnknownShip(s) => WorldErrorView::UnknownShip(s@),
            WorldError::MissingIndustryCommodity { system, commodity } => WorldErrorView::MissingIndustryCommodity {
                system: system@,
                commodity: commodity@,
            },
            WorldError::NoSystems => WorldErrorView::NoSystems,
        }
    }
}

/// The goods a market starts with: each stocked commodity at its authored
/// quantity, which is also its equilibrium, priced at its base price (the price
/// at equilibrium), floored at 1. A commodity listed twice keeps its last entry.
pub open spec fn initial_goods<F>(reg: Registry<F>, stock: Seq<(CommodityId, Quantity)>) -> Map<CommodityId, MarketGood>
    decreases stock.len(),
{
    if stock.len() == 0 {
        Map::empty()
    } else {
        let (c, q) = stock.last();
        let base = reg.commodity_defs()[c.0 as int].base_price;
        initial_goods(reg, stock.drop_last()).insert(
            c,
            MarketGood { stock: q, equilibrium: q, price: if base < 1 { 1 } else { base } },
        )
    }
}

/// The commodities a recipe touches, inputs first.
pub open spec fn recipe_commodities<F>(r: ResolvedRecipe<F>) -> Seq<CommodityId> {
    (r.inputs@ + r.outputs@).map_values(|x: (CommodityId, Quantity)| x.0)
}

/// The first commodity of `cs` that `goods` does not trade.
pub open spec fn first_untraded(goods: Map<CommodityId, MarketGood>, cs: Seq<CommodityId>) -> Option<CommodityId>
    decreases cs.len(),
{
    if cs.len() == 0 {
        None
    } else {
        match first_untraded(goods, cs.drop_last()) {
            Some(c) => Some(c),
            None => if goods.contains_key(cs.last()) {
                None
            } else {
                Some(cs.last())
            },
        }
    }
}

/// The first commodity, over a system's industries in order, that its market
/// does not trade.
pub open spec fn industry_gap<F>(reg: Registry<F>, goods: Map<CommodityId, MarketGood>, inds: Seq<RecipeId>) -> Option<CommodityId>
    decreases inds.len(),
{
    if inds.len() == 0 {
        None
    } else {
        match industry_gap(reg, goods, inds.drop_last()) {
            Some(c) => Some(c),
            None => first_untraded(goods, recipe_commodities(reg.recipe_list()[inds.last().0 as int])),
        }
    }
}

/// The first system (in order) whose industries use a commodity its market does
/// not trade, with that commodity.
pub open spec fn first_gap<F>(reg: Registry<F>, n: int) -> Option<(SystemId, CommodityId)>
    decreases n,
{
    if n <= 0 {
        None
    } else {
        match first_gap(reg, n - 1) {
            Some(x) => Some(x),
            None => {
                let s = reg.system_list()[n - 1];
                match industry_gap(reg, initial_goods(reg, s.initial_stock@), s.industries@) {
                    Some(c) => Some((s.id, c)),
                    None => None,
                }
            },
        }
    }
}

/// Whether a scenario ship name is defined.
pub open spec fn ship_known<F>(reg: Registry<F>, name: Seq<char>) -> bool {
    reg.ship_names().contains(name)
}

/// The error building a world from `reg` and `sc` raises, if any: no systems;
/// else the first industry commodity a market does not trade; else the first
/// unknown ship among the traders' (only when traders are spawned), the
/// pirates', the navy's and the escorts'.
pub open spec fn world_error<F>(reg: Registry<F>, sc: ScenarioDef<F>) -> Option<WorldErrorView> {
    if reg.system_list().len() == 0 {
        Some(WorldErrorView::NoSystems)
    } else if first_gap(reg, reg.system_list().len() as int) is Some {
        let (s, c) = first_gap(reg, reg.system_list().len() as int)->Some_0;
        Some(
            WorldErrorView::MissingIndustryCommodity {
                system: reg.system_names()[s.0 as int],
                commodity: reg.commodity_names()[c.0 as int],
            },
        )
    } else if sc.traders.count > 0 && !ship_known(reg, sc.traders.ship@) {
        Some(WorldErrorView::UnknownShip(sc.traders.ship@))
    } else if sc.piracy is Some && !ship_known(reg, sc.piracy->Some_0.pirate_ship@) {
        Some(WorldErrorView::UnknownShip(sc.piracy->Some_0.pirate_ship@))
    } else if sc.navy is Some && !ship_known(reg, sc.navy->Some_0.ship@) {
        Some(WorldErrorView::UnknownShip(sc.navy->Some_0.ship@))
    } else if sc.escort is Some && !ship_known(reg, sc.escort->Some_0.ship@) {
        Some(WorldErrorView::UnknownShip(sc.escort->Some_0.ship@))
    } else {
        None
    }
}

/// `id` is a handle of the ship named `name`.
pub open spec fn ship_named<F>(reg: Registry<F>, id: ShipId, name: Seq<char>) -> bool {
    id.0 < reg.ship_names().len() && reg.ship_names()[id.0 as int] == name
}

/// `n`, or 1 when `n` is 0.
pub open spec fn at_least_one_u32(n: u32) -> u32 {
    if n == 0 {
        1
    } else {
        n
    }
}

/// `n`, or 1 when `n` is 0.
pub open spec fn at_least_one_u64(n: u64) -> u64 {
    if n == 0 {
        1
    } else {
        n
    }
}

} // verus!

verus! {

/// An untraded commodity in a prefix is the first one of the whole list.
pub proof fn lemma_first_untraded_prefix(g: Map<CommodityId, MarketGood>, cs: Seq<CommodityId>, k: int)
    requires
        0 <= k <= cs.len(),
        first_untraded(g, cs.take(k)) is Some,
    ensures
        first_untraded(g, cs) == first_untraded(g, cs.take(k)),
    decreases cs.len() - k,
{
    if k == cs.len() {
        assert(cs.take(k) =~= cs);
    } else {
        assert(cs.take(k + 1).drop_last() =~= cs.take(k));
        lemma_first_untraded_prefix(g, cs, k + 1);
    }
}

/// An industry gap in a prefix is the gap of the whole list.
pub proof fn lemma_industry_gap_prefix<F>(reg: Registry<F>, g: Map<CommodityId, MarketGood>, inds: Seq<RecipeId>, k: int)
    requires
        0 <= k <= inds.len(),
        industry_gap(reg, g, inds.take(k)) is Some,
    ensures
        industry_gap(reg, g, inds) == industry_gap(reg, g, inds.take(k)),
    decreases inds.len() - k,
{
    if k == inds.len() {
        assert(inds.take(k) =~= inds);
    } else {
        assert(inds.take(k + 1).drop_last() =~= inds.take(k));
        lemma_industry_gap_prefix(reg, g, inds, k + 1);
    }
}

/// A gap among the first `k` systems is the first gap among more systems.
pub proof fn lemma_first_gap_prefix<F>(reg: Registry<F>, k: int, n: int)
    requires
        0 <= k <= n,
        first_gap(reg, k) is Some,
    ensures
        first_gap(reg, n) == first_gap(reg, k),
    decreases n - k,
{
    if k < n {
        lemma_first_gap_prefix(reg, k, n - 1);
    }
}

/// Initial goods only hold stocked commodities, each with a positive price.
pub proof fn lemma_initial_goods_ok<F>(reg: Registry<F>, stock: Seq<(CommodityId, Quantity)>)
    requires
        reg.fully_connected(),
        crate::registry::amounts_in(stock, reg.commodity_names().len()),
    ensures
        goods_ok(reg, initial_goods(reg, stock)),
    decreases stock.len(),
{
    if stock.len() > 0 {
        assert(crate::registry::amounts_in(stock.drop_last(), reg.commodity_names().len())) by {
            assert forall|j: int| 0 <= j < stock.drop_last().len() implies (#[trigger] stock.drop_last()[j]).0.0
                < reg.commodity_names().len() by {
                assert(stock.drop_last()[j] == stock[j]);
            }
        }
        lemma_initial_goods_ok(reg, stock.drop_last());
        assert(stock.last() == stock[stock.len() - 1]);
    }
}

/// The first commodity a recipe touches that `goods` does not trade.
fn recipe_gap<F>(goods: &CommodityMap<MarketGood>, recipe: &ResolvedRecipe<F>) -> (r: Option<CommodityId>)
    ensures
        r == first_untraded(goods@, recipe_commodities(*recipe)),
{
    let ghost cs = recipe_commodities(*recipe);
    let ni = recipe.inputs.len();
    let no = recipe.outputs.len();
    assert(cs.len() == ni + no);
    let mut k: usize = 0;
    assert(cs.take(0) =~= Seq::<CommodityId>::empty());
    while k < ni
        invariant
            ni == recipe.inputs@.len(),
            no == recipe.outputs@.len(),
            cs == recipe_commodities(*recipe),
            cs.len() == ni + no,
            k <= ni,
            first_untraded(goods@, cs.take(k as int)) is None,
        decreases ni - k,
    {
        let c = recipe.inputs[k].0;
        proof {
            assert(cs[k as int] == c);
            assert(cs.take(k + 1).drop_last() =~= cs.take(k as int));
        }
        if !goods.contains_key(c) {
            proof {
                lemma_first_untraded_prefix(goods@, cs, k + 1);
            }
            return Some(c);
        }
        k = k + 1;
    }
    let mut j: usize = 0;
    while j < no
        invariant
            ni == recipe.inputs@.len(),
            no == recipe.outputs@.len(),
            cs == recipe_commodities(*recipe),
            cs.len() == ni + no,
            j <= no,
            first_untraded(goods@, cs.take(ni + j)) is None,
        decreases no - j,
    {
        let c = recipe.outputs[j].0;
        proof {
            assert(cs[ni + j] == c);
            assert(cs.take(ni + j + 1).drop_last() =~= cs.take(ni + j));
        }
        if !goods.contains_key(c) {
            proof {
                lemma_first_untraded_prefix(goods@, cs, ni + j + 1);
            }
            return Some(c);
        }
        j = j + 1;
    }
    assert(cs.take(ni + no) =~= cs);
    None
}

} // verus!

verus! {

/// What a freshly built world holds.
pub open spec fn world_built<F>(
    w: World<F>,
    reg: Registry<F>,
    sc: ScenarioDef<F>,
    placements: Seq<SystemId>,
    pricing: Map<Seq<char>, PricingStrategy>,
) -> bool {
    &&& w.wf()
    &&& w.reg() == reg
    &&& w.spec_tick() == Tick(0)
    &&& w.spec_commands() == Seq::<Command>::empty()
    &&& w.spec_commands_applied() == 0
    &&& w.spec_commands_rejected() == 0
    &&& w.spec_last_errors() == Seq::<CommandError>::empty()
    &&& w.spec_events() == Seq::<SimEvent>::empty()
    &&& w.spec_piracy_stats() == (PiracyStats {
        ambushes: 0,
        traders_lost: 0,
        pirates_destroyed: 0,
        bounties_paid: 0,
        pirates_suppressed: 0,
        navy_lost: 0,
    })
    &&& w.spec_pirates() == Seq::<Patrol<F>>::empty()
    &&& w.spec_navy_fleet() == Seq::<Patrol<F>>::empty()
    &&& w.spec_markets().len() == reg.system_list().len()
    &&& forall|i: int|
        0 <= i < reg.system_list().len() ==> {
            let m = #[trigger] w.spec_markets()[i];
            let s = reg.system_list()[i];
            &&& m.system == s.id
            &&& m.pricing == pricing[s.pricing@]
            &&& m.goods@ == initial_goods(reg, s.initial_stock@)
        }
    &&& w.spec_traders().len() == sc.traders.count
    &&& w.spec_next_trader_id() == sc.traders.count
    &&& forall|k: int|
        0 <= k < sc.traders.count ==> {
            let t = (#[trigger] w.spec_traders()[k])@;
            &&& t.id == TraderId(k as u64)
            &&& ship_named(reg, t.ship, sc.traders.ship@)
            &&& t.owner == Owner::Npc
            &&& t.capital == sc.traders.starting_capital
            &&& t.location == TraderLocation::Docked(placements[k])
            &&& t.cargo == Map::<CommodityId, Quantity>::empty()
        }
    &&& match sc.piracy {
        None => w.spec_piracy() is None,
        Some(cfg) => w.spec_piracy() matches Some(p) && {
            &&& ship_named(reg, p.pirate_ship, cfg.pirate_ship@)
            &&& p.base_ambush_chance == cfg.base_ambush_chance
            &&& p.max_pirates == at_least_one_u32(cfg.max_pirates)
            &&& p.respawn_delay == cfg.respawn_delay
            &&& p.fleet_size == cfg.fleet_size
            &&& p.bounty == cfg.bounty
            &&& p.reinforce_interval == at_least_one_u64(cfg.reinforce_interval)
        },
    }
    &&& match sc.navy {
        None => w.spec_navy() is None,
        Some(cfg) => w.spec_navy() matches Some(n) && {
            &&& ship_named(reg, n.navy_ship, cfg.ship@)
            &&& n.fleet_size == cfg.fleet_size
            &&& n.reinforce_interval == at_least_one_u64(cfg.reinforce_interval)
        },
    }
    &&& match sc.escort {
        None => w.spec_escort() is None,
        Some(cfg) => w.spec_escort() matches Some(e) && ship_named(reg, e.escort_ship, cfg.ship@) && e.count == cfg.count,
    }
    &&& w.spec_risk_aversion() == sc.risk_aversion
}

/// `Arc::clone`: std documents that it makes another pointer to the same
/// allocation, so the new handle shares the same value.
#[verifier::external_body]
fn share<T>(a: &Arc<T>) -> (r: Arc<T>)
    ensures
        *r == **a,
{
    Arc::clone(a)
}

/// The value an `Arc` shares.
pub open spec fn shared_value<T>(a: &Arc<T>) -> T {
    **a
}

/// The handle of a scenario ship, or the unknown name as the error.
fn scenario_ship<F>(reg: &Registry<F>, name: &String) -> (r: Result<ShipId, WorldError>)
    ensures
        r is Err <==> !ship_known(*reg, name@),
        r matches Ok(id) ==> ship_named(*reg, id, name@),
        r matches Err(e) ==> e@ == WorldErrorView::UnknownShip(name@),
{
    match reg.ship_id(name.as_str()) {
        Some(id) => Ok(id),
        None => Err(WorldError::UnknownShip(name.clone())),
    }
}

impl<F: Copy> World<F> {
    /// Build a world from linked content and a scenario.
    ///
    /// Each system's market trades exactly its `initial_stock`, priced at
    /// equilibrium; every commodity an industry touches must be traded there.
    /// NPC traders are docked at `placements` (one per trader, drawn by the host
    /// from the seeded random stream), with ids `0, 1, ...`.
    /// The pirate and navy fleets start empty; the host spawns them with
    /// [`add_patrol`](Self::add_patrol) at systems it draws.
    pub fn new(
        registry: Arc<Registry<F>>,
        scenario: &ScenarioDef<F>,
        placements: &Vec<SystemId>,
        pricing: &NamedRegistry<PricingStrategy>,
    ) -> (r: Result<World<F>, WorldError>)
        requires
            registry.fully_connected(),
            forall|i: int|
                0 <= i < registry.system_list().len() ==> pricing@.contains_key(
                    (#[trigger] registry.system_list()[i]).pricing@,
                ),
            scenario.traders.count > 0 ==> placements@.len() == scenario.traders.count,
            scenario.traders.count > 0 ==> forall|k: int|
                0 <= k < placements@.len() ==> (#[trigger] placements@[k]).0 < registry.system_list().len(),
        ensures
            r is Err <==> world_error(*registry, *scenario) is Some,
            r matches Err(e) ==> world_error(*registry, *scenario) == Some(e@),
            r matches Ok(w) ==> world_built(w, *registry, *scenario, placements@, pricing@),
    {
        let ghost reg = shared_value(&registry);
        let nsys = registry.system_count();
        if nsys == 0 {
            return Err(WorldError::NoSystems);
        }

        // --- markets ---
        let mut markets: Vec<Market> = Vec::new();
        let systems = registry.systems();
        let mut i: usize = 0;
        while i < nsys
            invariant
                nsys == reg.system_list().len(),
                systems@ == reg.system_list(),
                reg == *registry,
                reg.fully_connected(),
                forall|k: int| 0 <= k < reg.system_list().len() ==> pricing@.contains_key(
                    (#[trigger] reg.system_list()[k]).pricing@,
                ),
                i <= nsys,
                first_gap(reg, i as int) is None,
                markets@.len() == i,
                forall|k: int|
                    0 <= k < i ==> {
                        let m = #[trigger] markets@[k];
                        let s = reg.system_list()[k];
                        &&& m.system == s.id
                        &&& m.pricing == pricing@[s.pricing@]
                        &&& m.goods@ == initial_goods(reg, s.initial_stock@)
                    },
            decreases nsys - i,
        {
            let sys = &systems[i];
            proof {
                assert(reg.system_list()[i as int] == *sys);
            }
            let strategy = match pricing.resolve(sys.pricing.as_str()) {
                Ok(s) => *s,
                Err(_) => {
                    assert(false);
                    PricingStrategy::SupplyDemandV1
                },
            };
            let mut goods: CommodityMap<MarketGood> = CommodityMap::new();
            let stock = &sys.initial_stock;
            let ns = stock.len();
            let mut j: usize = 0;
            assert(stock@.take(0) =~= Seq::<(CommodityId, Quantity)>::empty());
            while j < ns
                invariant
                    ns == stock@.len(),
                    stock@ == reg.system_list()[i as int].initial_stock@,
                    reg == *registry,
                    reg.fully_connected(),
                    i < reg.system_list().len(),
                    j <= ns,
                    goods@ == initial_goods(reg, stock@.take(j as int)),
                decreases ns - j,
            {
                let (c, q) = stock[j];
                proof {
                    assert(reg.fully_connected());
                    let s = reg.system_list()[i as int];
                    assert(crate::registry::amounts_in(s.initial_stock@, reg.commodity_names().len()));
                    assert(stock@[j as int].0.0 < reg.commodity_names().len());
                    assert(stock@.take(j + 1).drop_last() =~= stock@.take(j as int));
                }
                let base = registry.commodity(c).base_price;
                let price = if base < 1 {
                    1
                } else {
                    base
                };
                goods.insert(c, MarketGood { stock: q, equilibrium: q, price });
                j = j + 1;
            }
            assert(stock@.take(ns as int) =~= stock@);

            // Every commodity an industry touches must be tradeable here, or the
            // production phase would silently drop output / never run.
            let inds = &sys.industries;
            let ni = inds.len();
            let mut k: usize = 0;
            assert(inds@.take(0) =~= Seq::<RecipeId>::empty());
            while k < ni
                invariant
                    ni == inds@.len(),
                    inds@ == reg.system_list()[i as int].industries@,
                    reg == *registry,
                    reg.fully_connected(),
                    i < reg.system_list().len(),
                    k <= ni,
                    industry_gap(reg, goods@, inds@.take(k as int)) is None,
                    first_gap(reg, i as int) is None,
                    goods@ == initial_goods(reg, reg.system_list()[i as int].initial_stock@),
                    *sys == reg.system_list()[i as int],
                    nsys == reg.system_list().len(),
                decreases ni - k,
            {
                let rid = inds[k];
                proof {
                    let s = reg.system_list()[i as int];
                    assert(s.industries@[k as int] == rid);
                    assert(inds@.take(k + 1).drop_last() =~= inds@.take(k as int));
                }
                let recipe = registry.recipe(rid);
                match recipe_gap(&goods, recipe) {
                    Some(c) => {
                        proof {
                            lemma_industry_gap_prefix(reg, goods@, inds@, k + 1);
                            assert(first_gap(reg, i + 1) == Some((sys.id, c)));
                            lemma_first_gap_prefix(reg, i + 1, nsys as int);
                            let r = reg.recipe_list()[rid.0 as int];
                            assert(recipe_commodities(r).contains(c)) by {
                                lemma_first_untraded_in(goods@, recipe_commodities(r));
                            }
                            let kk = choose|kk: int| 0 <= kk < recipe_commodities(r).len() && recipe_commodities(r)[kk] == c;
                            if kk < r.inputs@.len() {
                                assert(recipe_commodities(r)[kk] == r.inputs@[kk].0);
                                assert(crate::registry::amounts_in(r.inputs@, reg.commodity_names().len()));
                            } else {
                                assert(recipe_commodities(r)[kk] == r.outputs@[kk - r.inputs@.len()].0);
                                assert(crate::registry::amounts_in(r.outputs@, reg.commodity_names().len()));
                            }
                        }
                        let system = registry.system_name(sys.id).to_owned();
                        let commodity = registry.commodity_name(c).to_owned();
                        return Err(WorldError::MissingIndustryCommodity { system, commodity });
                    },
                    None => {},
                }
                k = k + 1;
            }
            assert(inds@.take(ni as int) =~= inds@);
            markets.push(Market { system: sys.id, pricing: strategy, goods });
            i = i + 1;
        }

        // --- traders ---
        let count = scenario.traders.count;
        let mut traders: Vec<Trader> = Vec::new();
        let mut next_trader_id: u64 = 0;
        if count > 0 {
            // Only resolve the ship when traders are actually spawned, so a
            // zero-trader probe needs no ship.
            let ship = match scenario_ship(&registry, &scenario.traders.ship) {
                Ok(s) => s,
                Err(e) => return Err(e),
            };
            let mut k: u32 = 0;
            while k < count
                invariant
                    count == scenario.traders.count,
                    placements@.len() == count,
                    k <= count,
                    next_trader_id == k,
                    traders@.len() == k,
                    ship_named(reg, ship, scenario.traders.ship@),
                    forall|x: int|
                        0 <= x < k ==> {
                            let t = (#[trigger] traders@[x])@;
                            &&& t.id == TraderId(x as u64)
                            &&& t.ship == ship
                            &&& t.owner == Owner::Npc
                            &&& t.capital == scenario.traders.starting_capital
                            &&& t.location == TraderLocation::Docked(placements@[x])
                            &&& t.cargo == Map::<CommodityId, Quantity>::empty()
                        },
                decreases count - k,
            {
                let at = placements[k as usize];
                traders.push(Trader::new(TraderId(next_trader_id), ship, scenario.traders.starting_capital, at));
                next_trader_id = next_trader_id + 1;
                k = k + 1;
            }
        }

        // --- piracy ---
        let piracy = match &scenario.piracy {
            None => None,
            Some(cfg) => {
                let pirate_ship = match scenario_ship(&registry, &cfg.pirate_ship) {
                    Ok(s) => s,
                    Err(e) => return Err(e),
                };
                Some(
                    PiracyRuntime {
                        pirate_ship,
                        base_ambush_chance: cfg.base_ambush_chance,
                        max_pirates: if cfg.max_pirates == 0 {
                            1
                        } else {
                            cfg.max_pirates
                        },
                        respawn_delay: cfg.respawn_delay,
                        fleet_size: cfg.fleet_size,
                        bounty: cfg.bounty,
                        reinforce_interval: if cfg.reinforce_interval == 0 {
                            1
                        } else {
                            cfg.reinforce_interval
                        },
                    },
                )
            },
        };

        // --- navy ---
        let navy_runtime = match &scenario.navy {
            None => None,
            Some(cfg) => {
                let navy_ship = match scenario_ship(&registry, &cfg.ship) {
                    Ok(s) => s,
                    Err(e) => return Err(e),
                };
                Some(
                    NavyRuntime {
                        navy_ship,
                        fleet_size: cfg.fleet_size,
                        reinforce_interval: if cfg.reinforce_interval == 0 {
                            1
                        } else {
                            cfg.reinforce_interval
                        },
                    },
                )
            },
        };

        // --- escorts ---
        let escort = match &scenario.escort {
            None => None,
            Some(cfg) => {
                let escort_ship = match scenario_ship(&registry, &cfg.ship) {
                    Ok(s) => s,
                    Err(e) => return Err(e),
                };
                Some(EscortRuntime { escort_ship, count: cfg.count })
            },
        };

        let w = World {
            registry,
            tick: Tick(0),
            markets,
            traders,
            piracy,
            piracy_stats: PiracyStats::default(),
            pirates: Vec::new(),
            navy_runtime,
            navy: Vec::new(),
            escort,
            risk_aversion: scenario.risk_aversion,
            commands: Vec::new(),
            commands_applied: 0,
            commands_rejected: 0,
            last_errors: Vec::new(),
            next_trader_id,
            events: Vec::new(),
        };
        proof {
            assert(w.state().goods.len() == reg.system_list().len());
            assert forall|k: int| 0 <= k < w.state().goods.len() implies goods_ok(reg, #[trigger] w.state().goods[k]) by {
                let s = reg.system_list()[k];
                assert(crate::registry::amounts_in(s.initial_stock@, reg.commodity_names().len()));
                lemma_initial_goods_ok(reg, s.initial_stock@);
                assert(w.state().goods[k] == w.spec_markets()[k].goods@);
            }
            assert forall|k: int| 0 <= k < w.state().traders.len() implies trader_ok(reg, #[trigger] w.state().traders[k]) by {
                assert(w.state().traders[k] == w.spec_traders()[k]@);
            }
            assert(ids_ok(w.state().traders, w.spec_next_trader_id())) by {
                assert forall|a: int| 0 <= a < w.state().traders.len() implies (#[trigger] w.state().traders[a]).id.0 == a by {
                    assert(w.state().traders[a] == w.spec_traders()[a]@);
                }
            }
        }
        Ok(w)
    }
}

/// An untraded commodity is one of the listed commodities.
pub proof fn lemma_first_untraded_in(g: Map<CommodityId, MarketGood>, cs: Seq<CommodityId>)
    requires
        first_untraded(g, cs) is Some,
    ensures
        cs.contains(first_untraded(g, cs)->Some_0),
        !g.contains_key(first_untraded(g, cs)->Some_0),
    decreases cs.len(),
{
    if first_untraded(g, cs.drop_last()) is Some {
        lemma_first_untraded_in(g, cs.drop_last());
        let c = first_untraded(g, cs.drop_last())->Some_0;
        let k = choose|k: int| 0 <= k < cs.drop_last().len() && cs.drop_last()[k] == c;
        assert(cs[k] == c);
    } else {
        assert(cs[cs.len() - 1] == cs.last());
    }
}

} // verus!

verus! {

impl<F> World<F> {
    /// Only the goods of markets changed; everything else is the same.
    pub open spec fn only_goods_changed(&self, old: &World<F>) -> bool {
        &&& self.same_config(old)
        &&& self.same_records(old)
        &&& self.spec_markets().len() == old.spec_markets().len()
        &&& self.spec_tick() == old.spec_tick()
        &&& self.spec_traders() == old.spec_traders()
        &&& self.spec_next_trader_id() == old.spec_next_trader_id()
    }

    /// Price phase: every market eases each good's price toward its target.
    /// `targets[i][k]` is the target price (computed by the market's pricing
    /// strategy from current stock) of the `k`-th good of market `i`.
    pub fn apply_price_targets(&mut self, targets: &Vec<Vec<Money>>)
        requires
            old(self).wf(),
            targets@.len() == old(self).spec_markets().len(),
            forall|i: int|
                0 <= i < targets@.len() ==> (#[trigger] targets@[i])@.len() == old(self).spec_markets()[i].goods.spec_entries().len(),
            forall|i: int, k: int|
                0 <= i < targets@.len() && 0 <= k < targets@[i]@.len() ==> i64::MIN <= (#[trigger] targets@[i]@[k])
                    - old(self).spec_markets()[i].goods.spec_entries()[k].1.price <= i64::MAX,
        ensures
            final(self).wf(),
            final(self).only_goods_changed(old(self)),
            forall|i: int|
                0 <= i < targets@.len() ==> (#[trigger] final(self).spec_markets()[i]).goods.spec_entries() == crate::market::repriced(
                    old(self).spec_markets()[i].goods.spec_entries(),
                    targets@[i]@,
                ),
    {
        let ghost reg = self.reg();
        let n = self.markets.len();
        let mut i: usize = 0;
        while i < n
            invariant
                n == self.markets@.len(),
                n == targets@.len(),
                i <= n,
                old(self).wf(),
                reg == old(self).reg(),
                reg == self.reg(),
                self.wf(),
                self.only_goods_changed(old(self)),
                forall|k: int| i <= k < n ==> (#[trigger] self.markets@[k]) == old(self).spec_markets()[k],
                forall|k: int|
                    0 <= k < i ==> (#[trigger] self.markets@[k]).goods.spec_entries() == crate::market::repriced(
                        old(self).spec_markets()[k].goods.spec_entries(),
                        targets@[k]@,
                    ),
                forall|a: int|
                    0 <= a < targets@.len() ==> (#[trigger] targets@[a])@.len() == old(self).spec_markets()[a].goods.spec_entries().len(),
                forall|a: int, k: int|
                    0 <= a < targets@.len() && 0 <= k < targets@[a]@.len() ==> i64::MIN <= (#[trigger] targets@[a]@[k])
                        - old(self).spec_markets()[a].goods.spec_entries()[k].1.price <= i64::MAX,
            decreases n - i,
        {
            let ghost before = self.markets@[i as int];
            let ghost pre_goods = self.state().goods;
            proof {
                assert forall|k: int| 0 <= k < targets@[i as int]@.len() implies i64::MIN <= (#[trigger] targets@[i as int]@[k])
                    - before.goods.spec_entries()[k].1.price <= i64::MAX by {}
            }
            self.markets[i].reprice(&targets[i]);
            proof {
                let m = self.markets@[i as int];
                assert(goods_ok(reg, before.goods@)) by {
                    assert(old(self).state().goods[i as int] == old(self).spec_markets()[i as int].goods@);
                    assert(goods_ok(reg, old(self).state().goods[i as int]));
                }
                assert(goods_ok(reg, m.goods@));
                assert forall|k: int| 0 <= k < self.state().goods.len() implies goods_ok(reg, #[trigger] self.state().goods[k]) by {
                    assert(self.state().goods[k] == self.markets@[k].goods@);
                    if k != i {
                        assert(pre_goods[k] == self.markets@[k].goods@);
                        assert(goods_ok(reg, pre_goods[k]));
                    }
                }
            }
            i = i + 1;
        }
    }

    /// Production: run industry `j` of system `sys` up to `count` times on that
    /// system's market (the host derives `count` from the recipe's nominal
    /// rate and its price-elastic response). Returns how many applications ran.
    pub fn run_industry(&mut self, sys: usize, j: usize, count: u32) -> (applied: u32)
        requires
            old(self).wf(),
            sys < old(self).spec_markets().len(),
            j < old(self).reg().system_list()[sys as int].industries@.len(),
        ensures
            final(self).wf(),
            final(self).only_goods_changed(old(self)),
            ({
                let r = old(self).reg().recipe_list()[old(self).reg().system_list()[sys as int].industries@[j as int].0 as int];
                (final(self).spec_markets()[sys as int].goods@, applied as nat) == crate::production::apply_n(
                    old(self).spec_markets()[sys as int].goods@,
                    r.inputs@,
                    r.outputs@,
                    count as nat,
                )
            }),
            forall|k: int| 0 <= k < final(self).spec_markets().len() && k != sys ==> #[trigger] final(self).spec_markets()[k] == old(self).spec_markets()[k],
    {
        let ghost reg = self.reg();
        proof {
            let s = reg.system_list()[sys as int];
            assert(reg.fully_connected());
            assert(s.industries@[j as int].0 < reg.recipe_names().len());
        }
        let rid = {
            let systems = self.registry.systems();
            systems[sys].industries[j]
        };
        let ghost before = self.markets@[sys as int];
        let applied = crate::production::apply_recipe(&mut self.markets[sys], self.registry.recipe(rid), count);
        proof {
            let r = reg.recipe_list()[rid.0 as int];
            crate::production::lemma_apply_n_keeps(before.goods@, r.inputs@, r.outputs@, count as nat);
            assert(goods_ok(reg, before.goods@)) by {
                assert(old(self).state().goods[sys as int] == before.goods@);
            }
            assert forall|k: int| 0 <= k < self.state().goods.len() implies goods_ok(reg, #[trigger] self.state().goods[k]) by {
                if k != sys {
                    assert(self.state().goods[k] == old(self).state().goods[k]);
                } else {
                    let g = self.state().goods[k];
                    assert forall|c: CommodityId| #[trigger] g.contains_key(c) implies c.0 < reg.commodity_defs().len() && g[c].price >= 1 by {
                        assert(before.goods@.contains_key(c));
                    }
                }
            }
        }
        applied
    }

    /// The command tallies stay (the piracy tallies may change).
    pub open spec fn same_tallies_but_piracy(&self, other: &World<F>) -> bool {
        &&& self.spec_commands() == other.spec_commands()
        &&& self.spec_commands_applied() == other.spec_commands_applied()
        &&& self.spec_commands_rejected() == other.spec_commands_rejected()
        &&& self.spec_last_errors() == other.spec_last_errors()
    }

    /// The command and piracy tallies stay.
    pub open spec fn same_tallies(&self, other: &World<F>) -> bool {
        &&& self.spec_commands() == other.spec_commands()
        &&& self.spec_commands_applied() == other.spec_commands_applied()
        &&& self.spec_commands_rejected() == other.spec_commands_rejected()
        &&& self.spec_last_errors() == other.spec_last_errors()
        &&& self.spec_piracy_stats() == other.spec_piracy_stats()
    }

    /// Record a simulation event at the current tick, dropping the oldest once
    /// the log holds `EVENT_CAP` events.
    pub fn log_event(&mut self, category: EventCategory, message: String)
        requires
            old(self).wf(),
        ensures
            final(self).wf(),
            final(self).state() == old(self).state(),
            final(self).same_config(old(self)),
            final(self).spec_markets() == old(self).spec_markets(),
            final(self).spec_traders() == old(self).spec_traders(),
            final(self).spec_piracy_stats() == old(self).spec_piracy_stats(),
            final(self).spec_commands() == old(self).spec_commands(),
            final(self).spec_commands_applied() == old(self).spec_commands_applied(),
            final(self).spec_commands_rejected() == old(self).spec_commands_rejected(),
            final(self).spec_last_errors() == old(self).spec_last_errors(),
            ({
                let e = SimEvent { tick: old(self).spec_tick(), category, message };
                let pushed = old(self).spec_events().push(e);
                final(self).spec_events() == if pushed.len() > EVENT_CAP {
                    pushed.drop_first()
                } else {
                    pushed
                }
            }),
    {
        self.events.push(SimEvent { tick: self.tick, category, message });
        if self.events.len() > EVENT_CAP {
            self.events.remove(0);
        }
        assert(self.events@ =~= (if old(self).spec_events().push(SimEvent { tick: old(self).spec_tick(), category, message }).len() > EVENT_CAP {
            old(self).spec_events().push(SimEvent { tick: old(self).spec_tick(), category, message }).drop_first()
        } else {
            old(self).spec_events().push(SimEvent { tick: old(self).spec_tick(), category, message })
        }));
    }

    /// Advance the clock by one tick.
    pub fn advance_tick(&mut self)
        requires
            old(self).wf(),
            old(self).spec_tick().0 < u64::MAX,
        ensures
            final(self).wf(),
            final(self).spec_tick() == Tick((old(self).spec_tick().0 + 1) as u64),
            final(self).same_config(old(self)),
            final(self).same_records(old(self)),
            final(self).spec_markets() == old(self).spec_markets(),
            final(self).spec_traders() == old(self).spec_traders(),
            final(self).spec_next_trader_id() == old(self).spec_next_trader_id(),
    {
        self.tick = self.tick.next();
    }
}

} // verus!

verus! {

/// The tick, category and text of each event.
pub open spec fn event_views(es: Seq<SimEvent>) -> Seq<(Tick, EventCategory, Seq<char>)> {
    es.map_values(|e: SimEvent| (e.tick, e.category, e.message@))
}

/// Recording an event and then viewing the log is viewing it and then
/// recording the event's view.
pub proof fn lemma_event_views_with(es: Seq<SimEvent>, e: SimEvent)
    ensures
        event_views(with_event(es, e)) == with_event(event_views(es), (e.tick, e.category, e.message@)),
{
    assert(event_views(es.push(e)) =~= event_views(es).push((e.tick, e.category, e.message@)));
    if es.push(e).len() > EVENT_CAP {
        assert(event_views(es.push(e).drop_first()) =~= event_views(es.push(e)).drop_first());
    }
}

/// The log after recording `e`: appended, and the oldest dropped once the log
/// would exceed `EVENT_CAP`.
pub open spec fn with_event<T>(es: Seq<T>, e: T) -> Seq<T> {
    let pushed = es.push(e);
    if pushed.len() > EVENT_CAP {
        pushed.drop_first()
    } else {
        pushed
    }
}

/// Credits a sale of `entries` brings at the prices of `goods` (goods the
/// market does not trade bring nothing).
pub open spec fn sale_proceeds(goods: Map<CommodityId, MarketGood>, entries: Seq<(CommodityId, Quantity)>) -> int
    decreases entries.len(),
{
    if entries.len() == 0 {
        0
    } else {
        let (c, q) = entries.last();
        sale_proceeds(goods, entries.drop_last()) + if goods.contains_key(c) {
            q * goods[c].price
        } else {
            0
        }
    }
}

/// The entries of `entries` that `goods` does not trade.
pub open spec fn unsold(goods: Map<CommodityId, MarketGood>, entries: Seq<(CommodityId, Quantity)>) -> Map<CommodityId, Quantity>
    decreases entries.len(),
{
    if entries.len() == 0 {
        Map::empty()
    } else {
        let (c, q) = entries.last();
        if goods.contains_key(c) {
            unsold(goods, entries.drop_last())
        } else {
            unsold(goods, entries.drop_last()).insert(c, q)
        }
    }
}

/// Proceeds never decrease as more entries are sold, given positive prices.
pub proof fn lemma_proceeds_prefix(goods: Map<CommodityId, MarketGood>, entries: Seq<(CommodityId, Quantity)>, k: int)
    requires
        0 <= k <= entries.len(),
        forall|c: CommodityId| #[trigger] goods.contains_key(c) ==> goods[c].price >= 1,
    ensures
        0 <= sale_proceeds(goods, entries.take(k)) <= sale_proceeds(goods, entries),
    decreases entries.len() - k,
{
    if k == entries.len() {
        assert(entries.take(k) =~= entries);
        lemma_proceeds_nonneg(goods, entries);
    } else {
        lemma_proceeds_prefix(goods, entries, k + 1);
        assert(entries.take(k + 1).drop_last() =~= entries.take(k));
        let (c, q) = entries[k];
        if goods.contains_key(c) {
            assert(q * goods[c].price >= 0) by (nonlinear_arith)
                requires
                    goods[c].price >= 1,
            ;
        }
        lemma_proceeds_nonneg(goods, entries.take(k));
    }
}

/// Proceeds are never negative, given positive prices.
pub proof fn lemma_proceeds_nonneg(goods: Map<CommodityId, MarketGood>, entries: Seq<(CommodityId, Quantity)>)
    requires
        forall|c: CommodityId| #[trigger] goods.contains_key(c) ==> goods[c].price >= 1,
    ensures
        sale_proceeds(goods, entries) >= 0,
    decreases entries.len(),
{
    if entries.len() > 0 {
        lemma_proceeds_nonneg(goods, entries.drop_last());
        let (c, q) = entries.last();
        if goods.contains_key(c) {
            assert(q * goods[c].price >= 0) by (nonlinear_arith)
                requires
                    goods[c].price >= 1,
            ;
        }
    }
}

/// The keys of the unsold map are keys of the entries.
pub proof fn lemma_unsold_keys(goods: Map<CommodityId, MarketGood>, entries: Seq<(CommodityId, Quantity)>)
    ensures
        forall|c: CommodityId| #[trigger] unsold(goods, entries).contains_key(c) ==> !goods.contains_key(c)
            && exists|j: int| 0 <= j < entries.len() && (#[trigger] entries[j]).0 == c,
    decreases entries.len(),
{
    if entries.len() > 0 {
        lemma_unsold_keys(goods, entries.drop_last());
        assert forall|c: CommodityId| #[trigger] unsold(goods, entries).contains_key(c) implies !goods.contains_key(c)
            && exists|j: int| 0 <= j < entries.len() && (#[trigger] entries[j]).0 == c by {
            if unsold(goods, entries.drop_last()).contains_key(c) {
                let j = choose|j: int| 0 <= j < entries.drop_last().len() && (#[trigger] entries.drop_last()[j]).0 == c;
                assert(entries[j].0 == c);
            } else {
                assert(entries[entries.len() - 1].0 == c);
            }
        }
    }
}

impl<F> World<F> {
    /// Only trader `t` and the command-invisible bookkeeping it carries changed.
    pub open spec fn only_trader_changed(&self, old: &World<F>, t: int) -> bool {
        &&& self.same_config(old)
        &&& self.same_records(old)
        &&& self.spec_markets() == old.spec_markets()
        &&& self.spec_tick() == old.spec_tick()
        &&& self.spec_next_trader_id() == old.spec_next_trader_id()
        &&& self.spec_traders().len() == old.spec_traders().len()
        &&& forall|k: int| 0 <= k < self.spec_traders().len() && k != t ==> #[trigger] self.spec_traders()[k] == old.spec_traders()[k]
        &&& self.spec_traders()[t].id == old.spec_traders()[t].id
        &&& self.spec_traders()[t].ship == old.spec_traders()[t].ship
        &&& self.spec_traders()[t].owner == old.spec_traders()[t].owner
    }

    /// Whether destroyed trader `t` is due to respawn this tick.
    pub fn respawn_due(&self, t: usize) -> (r: bool)
        requires
            t < self.spec_traders().len(),
        ensures
            r == (self.spec_traders()[t as int].location matches TraderLocation::Destroyed { respawn }
                && self.spec_tick().0 >= respawn.0),
    {
        match self.traders[t].location {
            TraderLocation::Destroyed { respawn } => self.tick.0 >= respawn.0,
            _ => false,
        }
    }

    /// Respawn destroyed trader `t`, docked at `at` (drawn by the host from the
    /// seeded random stream).
    pub fn respawn_at(&mut self, t: usize, at: SystemId)
        requires
            old(self).wf(),
            t < old(self).spec_traders().len(),
            at.0 < old(self).reg().system_list().len(),
        ensures
            final(self).wf(),
            final(self).same_config(old(self)),
            final(self).same_tallies(old(self)),
            final(self).spec_markets() == old(self).spec_markets(),
            final(self).spec_tick() == old(self).spec_tick(),
            final(self).spec_next_trader_id() == old(self).spec_next_trader_id(),
            final(self).spec_traders().len() == old(self).spec_traders().len(),
            forall|k: int| 0 <= k < final(self).spec_traders().len() && k != t ==> #[trigger] final(self).spec_traders()[k] == old(self).spec_traders()[k],
            final(self).spec_traders()[t as int]@ == (TraderView { location: TraderLocation::Docked(at), ..old(self).spec_traders()[t as int]@ }),
            event_views(final(self).spec_events()) == with_event(
                event_views(old(self).spec_events()),
                (
                    old(self).spec_tick(),
                    EventCategory::System,
                    crate::messages::respawn_text(
                        old(self).spec_traders()[t as int].id.0,
                        old(self).reg().system_list()[at.0 as int].name@,
                    ),
                ),
            ),
    {
        self.traders[t].location = TraderLocation::Docked(at);
        proof {
            assert(trader_ok(self.reg(), old(self).state().traders[t as int]));
            self.lemma_trader_update_ok(old(self), t as int);
        }
        let tid = self.traders[t].id.0;
        let msg = crate::messages::respawn_message(tid, self.registry.system(at).name.as_str());
        let ghost e = SimEvent { tick: self.spec_tick(), category: EventCategory::System, message: msg };
        self.log_event(EventCategory::System, msg);
        proof {
            lemma_event_views_with(old(self).spec_events(), e);
        }
    }

    /// Resolve an arrival: a trader in transit whose arrival tick has come
    /// docks at its destination. Returns the system the trader is docked at
    /// afterwards, if any.
    pub fn resolve_arrival(&mut self, t: usize) -> (r: Option<SystemId>)
        requires
            old(self).wf(),
            t < old(self).spec_traders().len(),
        ensures
            final(self).wf(),
            final(self).only_trader_changed(old(self), t as int),
            match old(self).spec_traders()[t as int].location {
                TraderLocation::InTransit { dest, arrival, .. } => if old(self).spec_tick().0 >= arrival.0 {
                    r == Some(dest) && final(self).spec_traders()[t as int]@ == (TraderView {
                        location: TraderLocation::Docked(dest),
                        ..old(self).spec_traders()[t as int]@
                    })
                } else {
                    r is None && final(self).spec_traders() == old(self).spec_traders()
                },
                TraderLocation::Docked(s) => r == Some(s) && final(self).spec_traders() == old(self).spec_traders(),
                TraderLocation::Destroyed { .. } => r is None && final(self).spec_traders() == old(self).spec_traders(),
            },
    {
        match self.traders[t].location {
            TraderLocation::InTransit { dest, arrival, .. } => {
                if self.tick.0 >= arrival.0 {
                    self.traders[t].location = TraderLocation::Docked(dest);
                    proof {
                        assert(trader_ok(self.reg(), old(self).state().traders[t as int]));
                        self.lemma_trader_update_ok(old(self), t as int);
                    }
                    Some(dest)
                } else {
                    None
                }
            },
            TraderLocation::Docked(s) => Some(s),
            TraderLocation::Destroyed { .. } => None,
        }
    }

    /// Depart docked trader `t` for `dest`, arriving `travel` ticks from now.
    pub fn depart(&mut self, t: usize, dest: SystemId, travel: u64)
        requires
            old(self).wf(),
            t < old(self).spec_traders().len(),
            old(self).spec_traders()[t as int].location is Docked,
            dest.0 < old(self).reg().system_list().len(),
            old(self).spec_tick().0 + travel <= u64::MAX,
        ensures
            final(self).wf(),
            final(self).only_trader_changed(old(self), t as int),
            final(self).spec_traders()[t as int]@ == (TraderView {
                location: TraderLocation::InTransit {
                    origin: old(self).spec_traders()[t as int].location->Docked_0,
                    dest,
                    departure: old(self).spec_tick(),
                    arrival: Tick((old(self).spec_tick().0 + travel) as u64),
                },
                ..old(self).spec_traders()[t as int]@
            }),
    {
        let sys = match self.traders[t].location {
            TraderLocation::Docked(s) => s,
            _ => {
                assert(false);
                SystemId(0)
            },
        };
        let now = self.tick;
        self.traders[t].location = TraderLocation::InTransit { origin: sys, dest, departure: now, arrival: Tick(now.0 + travel) };
        proof {
            assert(trader_ok(self.reg(), old(self).state().traders[t as int]));
            self.lemma_trader_update_ok(old(self), t as int);
        }
    }

    /// A change confined to trader `t` that keeps its handles valid keeps the
    /// world consistent.
    proof fn lemma_trader_update_ok(&self, old: &World<F>, t: int)
        requires
            old.wf(),
            0 <= t < old.spec_traders().len(),
            self.reg() == old.reg(),
            self.spec_markets() == old.spec_markets(),
            self.spec_next_trader_id() == old.spec_next_trader_id(),
            self.spec_traders().len() == old.spec_traders().len(),
            self.spec_events() == old.spec_events(),
            forall|k: int| 0 <= k < self.spec_traders().len() && k != t ==> #[trigger] self.spec_traders()[k] == old.spec_traders()[k],
            self.spec_traders()[t].id == old.spec_traders()[t].id,
            trader_ok(self.reg(), self.spec_traders()[t]@),
        ensures
            self.wf(),
    {
        let ts = self.state().traders;
        let os = old.state().traders;
        assert forall|k: int| 0 <= k < ts.len() implies trader_ok(self.reg(), #[trigger] ts[k]) by {
            if k != t {
                assert(ts[k] == os[k]);
            }
        }
        assert forall|a: int, b: int| 0 <= a < ts.len() && 0 <= b < ts.len() && a != b
            implies (#[trigger] ts[a]).id != (#[trigger] ts[b]).id by {
            assert(ts[a].id == os[a].id);
            assert(ts[b].id == os[b].id);
        }
        assert forall|a: int| 0 <= a < ts.len() implies (#[trigger] ts[a]).id.0 < self.spec_next_trader_id() by {
            assert(ts[a].id == os[a].id);
        }
        assert(self.state().goods == old.state().goods);
    }
}

} // verus!

verus! {

impl<F> World<F> {
    /// Sell every unit of trader `t`'s cargo into the market it is docked at,
    /// crediting the trader. Goods the market does not trade are retained.
    pub fn sell_all(&mut self, t: usize)
        requires
            old(self).wf(),
            t < old(self).spec_traders().len(),
            old(self).spec_traders()[t as int].location is Docked,
            ({
                let tr = old(self).spec_traders()[t as int];
                let g = old(self).spec_markets()[tr.location->Docked_0.0 as int].goods@;
                &&& tr.capital + sale_proceeds(g, tr.cargo.spec_entries()) <= i64::MAX
                &&& forall|j: int|
                    0 <= j < tr.cargo.spec_entries().len() && g.contains_key(tr.cargo.spec_entries()[j].0)
                        ==> (#[trigger] tr.cargo.spec_entries()[j]).1 * g[tr.cargo.spec_entries()[j].0].price <= i64::MAX
            }),
        ensures
            final(self).wf(),
            final(self).same_config(old(self)),
            final(self).same_records(old(self)),
            final(self).spec_tick() == old(self).spec_tick(),
            final(self).spec_next_trader_id() == old(self).spec_next_trader_id(),
            final(self).spec_markets().len() == old(self).spec_markets().len(),
            final(self).spec_traders().len() == old(self).spec_traders().len(),
            forall|k: int| 0 <= k < final(self).spec_traders().len() && k != t ==> #[trigger] final(self).spec_traders()[k] == old(self).spec_traders()[k],
            ({
                let tr = old(self).spec_traders()[t as int];
                let sys = tr.location->Docked_0.0 as int;
                let g = old(self).spec_markets()[sys].goods@;
                let es = tr.cargo.spec_entries();
                &&& final(self).spec_traders()[t as int]@ == (TraderView {
                    capital: (tr.capital + sale_proceeds(g, es)) as i64,
                    cargo: unsold(g, es),
                    ..tr@
                })
                &&& final(self).spec_markets()[sys].goods@ == crate::production::add_outputs(g, es)
                &&& forall|k: int| 0 <= k < final(self).spec_markets().len() && k != sys ==> #[trigger] final(self).spec_markets()[k] == old(self).spec_markets()[k]
            }),
    {
        let ghost reg = self.reg();
        let sys = match self.traders[t].location {
            TraderLocation::Docked(s) => s,
            _ => {
                assert(false);
                SystemId(0)
            },
        };
        let cargo_ref = &self.traders[t].cargo;
        proof {
            assert(trader_ok(reg, old(self).state().traders[t as int]));
            use_type_invariant(cargo_ref);
            cargo_ref.lemma_entries();
        }
        let si = sys.index();
        let ghost g0 = self.markets@[si as int].goods@;
        let ghost es = self.traders@[t as int].cargo.spec_entries();
        let ghost cap0 = self.traders@[t as int].capital;
        proof {
            assert(goods_ok(reg, old(self).state().goods[si as int]));
            assert(old(self).state().goods[si as int] == g0);
        }
        // Take a copy of the hold's entries.
        let mut entries: Vec<(CommodityId, Quantity)> = Vec::new();
        let n = self.traders[t].cargo.len();
        let mut i: usize = 0;
        while i < n
            invariant
                n == es.len(),
                es == self.traders@[t as int].cargo.spec_entries(),
                t < self.traders@.len(),
                i <= n,
                entries@ == es.take(i as int),
            decreases n - i,
        {
            let c = self.traders[t].cargo.key_at(i);
            let q = *self.traders[t].cargo.value_at(i);
            entries.push((c, q));
            proof {
                assert(entries@ =~= es.take(i + 1));
            }
            i = i + 1;
        }
        assert(es.take(n as int) =~= es);
        let mut leftover: CommodityMap<Quantity> = CommodityMap::new();
        let mut capital: Money = self.traders[t].capital;
        let mut k: usize = 0;
        assert(es.take(0) =~= Seq::<(CommodityId, Quantity)>::empty());
        while k < n
            invariant
                n == es.len(),
                entries@ == es,
                k <= n,
                si < self.markets@.len(),
                self.markets@.len() == old(self).spec_markets().len(),
                forall|x: int| 0 <= x < self.markets@.len() && x != si ==> #[trigger] self.markets@[x] == old(self).spec_markets()[x],
                self.markets@[si as int].system == old(self).spec_markets()[si as int].system,
                self.markets@[si as int].pricing == old(self).spec_markets()[si as int].pricing,
                self.markets@[si as int].goods@ == crate::production::add_outputs(g0, es.take(k as int)),
                capital == cap0 + sale_proceeds(g0, es.take(k as int)),
                leftover@ == unsold(g0, es.take(k as int)),
                forall|c: CommodityId| #[trigger] g0.contains_key(c) ==> g0[c].price >= 1,
                cap0 + sale_proceeds(g0, es) <= i64::MAX,
                forall|j: int|
                    0 <= j < es.len() && g0.contains_key(es[j].0) ==> (#[trigger] es[j]).1 * g0[es[j].0].price <= i64::MAX,
                self.traders@ == old(self).spec_traders(),
                self.spec_next_trader_id() == old(self).spec_next_trader_id(),
                self.spec_tick() == old(self).spec_tick(),
                self.same_records(old(self)),
                self.reg() == old(self).reg(),
                self.spec_piracy() == old(self).spec_piracy(),
                self.spec_navy() == old(self).spec_navy(),
                self.spec_escort() == old(self).spec_escort(),
                self.spec_risk_aversion() == old(self).spec_risk_aversion(),
                self.spec_pirates() == old(self).spec_pirates(),
                self.spec_navy_fleet() == old(self).spec_navy_fleet(),
            decreases n - k,
        {
            let (c, q) = entries[k];
            proof {
                assert(es.take(k + 1).drop_last() =~= es.take(k as int));
                crate::production::lemma_add_outputs_keeps(g0, es.take(k as int));
                lemma_proceeds_prefix(g0, es, k + 1);
                lemma_proceeds_nonneg(g0, es.take(k as int));
            }
            match self.markets[si].price(c) {
                Some(price) => {
                    proof {
                        assert(g0.contains_key(c));
                        assert(price == g0[c].price);
                        assert(q * price >= 0) by (nonlinear_arith)
                            requires
                                price >= 1,
                        ;
                    }
                    self.markets[si].add(c, q);
                    capital = capital + (q as i64) * price;
                },
                None => {
                    leftover.insert(c, q);
                },
            }
            k = k + 1;
        }
        assert(es.take(n as int) =~= es);
        self.traders[t].capital = capital;
        self.traders[t].cargo = leftover;
        proof {
            crate::production::lemma_add_outputs_keeps(g0, es);
            lemma_unsold_keys(g0, es);
            let ts = self.state().traders;
            assert(trader_ok(reg, ts[t as int])) by {
                assert forall|c: CommodityId| #[trigger] ts[t as int].cargo.contains_key(c) implies c.0 < reg.commodity_defs().len() by {
                    let j = choose|j: int| 0 <= j < es.len() && (#[trigger] es[j]).0 == c;
                    assert(old(self).state().traders[t as int].cargo.contains_key(c));
                }
            }
            assert forall|x: int| 0 <= x < self.state().goods.len() implies goods_ok(reg, #[trigger] self.state().goods[x]) by {
                assert(self.state().goods[x] == self.markets@[x].goods@);
                assert(old(self).state().goods[x] == old(self).spec_markets()[x].goods@);
                if x != si {
                    assert(goods_ok(reg, old(self).state().goods[x]));
                } else {
                    let g = self.state().goods[x];
                    assert forall|c: CommodityId| #[trigger] g.contains_key(c) implies c.0 < reg.commodity_defs().len() && g[c].price >= 1 by {
                        assert(g0.contains_key(c));
                    }
                }
            }
            assert forall|a: int| 0 <= a < ts.len() implies trader_ok(reg, #[trigger] ts[a]) by {
                if a != t {
                    assert(ts[a] == old(self).state().traders[a]);
                }
            }
            let os = old(self).state().traders;
            assert forall|a: int, b: int| 0 <= a < ts.len() && 0 <= b < ts.len() && a != b
                implies (#[trigger] ts[a]).id != (#[trigger] ts[b]).id by {
                assert(ts[a].id == os[a].id);
                assert(ts[b].id == os[b].id);
            }
            assert(ids_ok(os, old(self).spec_next_trader_id()));
            assert(self.spec_next_trader_id() == old(self).spec_next_trader_id());
            assert forall|a: int| 0 <= a < ts.len() implies (#[trigger] ts[a]).id.0 < self.spec_next_trader_id() by {
                assert(ts[a].id == os[a].id);
                assert(os[a].id.0 < old(self).spec_next_trader_id());
            }
            assert forall|x: int| 0 <= x < self.spec_markets().len() && x < old(self).spec_markets().len()
                implies (#[trigger] self.spec_markets()[x]).system == old(self).spec_markets()[x].system
                && self.spec_markets()[x].pricing == old(self).spec_markets()[x].pricing by {}
        }
    }
}

} // verus!

verus! {

impl<F> World<F> {
    /// Execute a chosen trade: buy `plan.qty` of `plan.commodity` at the
    /// market trader `t` is docked at, paying `plan.unit_cost` per unit, and
    /// depart toward `plan.dest`, arriving `travel` ticks from now.
    pub fn execute_trade(&mut self, t: usize, plan: crate::trader::TradePlan, travel: u64)
        requires
            old(self).wf(),
            t < old(self).spec_traders().len(),
            old(self).spec_traders()[t as int].location is Docked,
            ({
                let tr = old(self).spec_traders()[t as int]@;
                let g = old(self).spec_markets()[tr.location->Docked_0.0 as int].goods@;
                &&& g.contains_key(plan.commodity)
                &&& g[plan.commodity].stock >= plan.qty
                &&& plan.dest.0 < old(self).reg().system_list().len()
                &&& i64::MIN <= plan.qty * plan.unit_cost <= i64::MAX
                &&& i64::MIN <= tr.capital - plan.qty * plan.unit_cost <= i64::MAX
                &&& held(tr.cargo, plan.commodity) + plan.qty <= u32::MAX
                &&& old(self).spec_tick().0 + travel <= u64::MAX
            }),
        ensures
            final(self).wf(),
            final(self).same_config(old(self)),
            final(self).same_records(old(self)),
            final(self).spec_tick() == old(self).spec_tick(),
            final(self).spec_next_trader_id() == old(self).spec_next_trader_id(),
            final(self).spec_markets().len() == old(self).spec_markets().len(),
            final(self).spec_traders().len() == old(self).spec_traders().len(),
            forall|k: int| 0 <= k < final(self).spec_traders().len() && k != t ==> #[trigger] final(self).spec_traders()[k] == old(self).spec_traders()[k],
            ({
                let tr = old(self).spec_traders()[t as int]@;
                let sys = tr.location->Docked_0;
                let g = old(self).spec_markets()[sys.0 as int].goods@;
                let c = plan.commodity;
                &&& final(self).spec_markets()[sys.0 as int].goods@ == g.insert(
                    c,
                    MarketGood { stock: (g[c].stock - plan.qty) as u32, ..g[c] },
                )
                &&& forall|k: int| 0 <= k < final(self).spec_markets().len() && k != sys.0 ==> #[trigger] final(self).spec_markets()[k] == old(self).spec_markets()[k]
                &&& final(self).spec_traders()[t as int]@ == (TraderView {
                    capital: (tr.capital - plan.qty * plan.unit_cost) as i64,
                    cargo: tr.cargo.insert(c, (held(tr.cargo, c) + plan.qty) as u32),
                    location: TraderLocation::InTransit {
                        origin: sys,
                        dest: plan.dest,
                        departure: old(self).spec_tick(),
                        arrival: Tick((old(self).spec_tick().0 + travel) as u64),
                    },
                    ..tr
                })
            }),
    {
        let ghost reg = self.reg();
        let sys = match self.traders[t].location {
            TraderLocation::Docked(s) => s,
            _ => {
                assert(false);
                SystemId(0)
            },
        };
        let si = sys.index();
        proof {
            assert(trader_ok(reg, old(self).state().traders[t as int]));
            assert(old(self).state().goods[si as int] == old(self).spec_markets()[si as int].goods@);
            assert(goods_ok(reg, old(self).state().goods[si as int]));
        }
        let c = plan.commodity;
        let have: u32 = match self.traders[t].cargo.get(c) {
            Some(q) => *q,
            None => 0,
        };
        // Buy: draw stock from here (raising its price next repricing).
        self.markets[si].try_remove(c, plan.qty);
        let cost: Money = (plan.qty as i64) * plan.unit_cost;
        self.traders[t].capital = self.traders[t].capital - cost;
        self.traders[t].cargo.insert(c, have + plan.qty);
        let now = self.tick;
        self.traders[t].location = TraderLocation::InTransit {
            origin: sys,
            dest: plan.dest,
            departure: now,
            arrival: Tick(now.0 + travel),
        };
        proof {
            let ts = self.state().traders;
            let os = old(self).state().traders;
            assert(trader_ok(reg, ts[t as int])) by {
                assert forall|x: CommodityId| #[trigger] ts[t as int].cargo.contains_key(x) implies x.0 < reg.commodity_defs().len() by {
                    if x != c {
                        assert(os[t as int].cargo.contains_key(x));
                    } else {
                        assert(old(self).state().goods[si as int].contains_key(c));
                    }
                }
            }
            assert forall|x: int| 0 <= x < self.state().goods.len() implies goods_ok(reg, #[trigger] self.state().goods[x]) by {
                assert(self.state().goods[x] == self.markets@[x].goods@);
                assert(old(self).state().goods[x] == old(self).spec_markets()[x].goods@);
                assert(goods_ok(reg, old(self).state().goods[x]));
                if x == si {
                    let g = self.state().goods[x];
                    assert forall|y: CommodityId| #[trigger] g.contains_key(y) implies y.0 < reg.commodity_defs().len() && g[y].price >= 1 by {
                        assert(old(self).state().goods[x].contains_key(y));
                    }
                }
            }
            assert forall|a: int| 0 <= a < ts.len() implies trader_ok(reg, #[trigger] ts[a]) by {
                if a != t {
                    assert(ts[a] == os[a]);
                }
            }
            assert(ids_ok(os, old(self).spec_next_trader_id()));
            assert forall|a: int, b: int| 0 <= a < ts.len() && 0 <= b < ts.len() && a != b
                implies (#[trigger] ts[a]).id != (#[trigger] ts[b]).id by {
                assert(ts[a].id == os[a].id);
                assert(ts[b].id == os[b].id);
            }
            assert forall|a: int| 0 <= a < ts.len() implies (#[trigger] ts[a]).id.0 < self.spec_next_trader_id() by {
                assert(ts[a].id == os[a].id);
                assert(os[a].id.0 < old(self).spec_next_trader_id());
            }
            assert forall|x: int| 0 <= x < self.spec_markets().len() && x < old(self).spec_markets().len()
                implies (#[trigger] self.spec_markets()[x]).system == old(self).spec_markets()[x].system
                && self.spec_markets()[x].pricing == old(self).spec_markets()[x].pricing by {}
        }
    }

    /// The outcome of an ambush of trader `t` near `dest`, fought by `engaged`
    /// pirates, is settled from `old` into `self`: the ambush is counted, with
    /// the navy defenders lost and the pirates killed; a surviving trader
    /// collects the bounty per kill, a lost one forfeits its cargo and is
    /// destroyed until the respawn delay has passed; and the outcome is logged.
    /// The fleets are not part of this.
    pub open spec fn ambush_settled(
        &self,
        old: &World<F>,
        t: int,
        dest: SystemId,
        engaged: u64,
        survived: bool,
        kills: u64,
        navy_lost: u64,
    ) -> bool {
        let st = old.spec_piracy_stats();
        let p = old.spec_piracy()->Some_0;
        let tr = old.spec_traders()[t]@;
        let reward = p.bounty * kills;
        let system = old.reg().system_list()[dest.0 as int].name@;
        &&& self.wf()
        &&& self.same_setup(old)
        &&& self.spec_commands() == old.spec_commands()
        &&& self.spec_commands_applied() == old.spec_commands_applied()
        &&& self.spec_commands_rejected() == old.spec_commands_rejected()
        &&& self.spec_last_errors() == old.spec_last_errors()
        &&& self.spec_markets() == old.spec_markets()
        &&& self.spec_tick() == old.spec_tick()
        &&& self.spec_next_trader_id() == old.spec_next_trader_id()
        &&& self.spec_traders().len() == old.spec_traders().len()
        &&& forall|k: int| 0 <= k < self.spec_traders().len() && k != t ==> #[trigger] self.spec_traders()[k] == old.spec_traders()[k]
        &&& if survived {
            &&& self.spec_piracy_stats() == (PiracyStats {
                ambushes: (st.ambushes + 1) as u64,
                navy_lost: (st.navy_lost + navy_lost) as u64,
                pirates_destroyed: (st.pirates_destroyed + kills) as u64,
                bounties_paid: (st.bounties_paid + reward) as i64,
                ..st
            })
            &&& self.spec_traders()[t]@ == (TraderView { capital: (tr.capital + reward) as i64, ..tr })
            &&& event_views(self.spec_events()) == with_event(
                event_views(old.spec_events()),
                (old.spec_tick(), EventCategory::Combat, crate::messages::ambush_won_text(system, tr.id.0, engaged, kills, reward as i64)),
            )
        } else {
            &&& self.spec_piracy_stats() == (PiracyStats {
                ambushes: (st.ambushes + 1) as u64,
                navy_lost: (st.navy_lost + navy_lost) as u64,
                pirates_destroyed: (st.pirates_destroyed + kills) as u64,
                traders_lost: (st.traders_lost + 1) as u64,
                ..st
            })
            &&& self.spec_traders()[t]@ == (TraderView {
                cargo: Map::<CommodityId, Quantity>::empty(),
                location: TraderLocation::Destroyed {
                    respawn: Tick((old.spec_tick().0 + p.respawn_delay) as u64),
                },
                ..tr
            })
            &&& event_views(self.spec_events()) == with_event(
                event_views(old.spec_events()),
                (old.spec_tick(), EventCategory::Piracy, crate::messages::ambush_lost_text(system, tr.id.0)),
            )
        }
    }

    /// What settling an ambush asks: piracy is on, the destination is a
    /// system, and the tallies, bounty and respawn tick fit their types.
    pub open spec fn ambush_settleable(&self, t: int, dest: SystemId, survived: bool, kills: u64, navy_lost: u64) -> bool {
        let st = self.spec_piracy_stats();
        let p = self.spec_piracy()->Some_0;
        let tr = self.spec_traders()[t];
        &&& self.wf()
        &&& 0 <= t < self.spec_traders().len()
        &&& self.spec_piracy() is Some
        &&& dest.0 < self.reg().system_list().len()
        &&& kills <= u32::MAX
        &&& st.ambushes < u64::MAX
        &&& st.navy_lost + navy_lost <= u64::MAX
        &&& st.pirates_destroyed + kills <= u64::MAX
        &&& survived ==> {
            &&& i64::MIN <= p.bounty * kills <= i64::MAX
            &&& i64::MIN <= tr.capital + p.bounty * kills <= i64::MAX
            &&& i64::MIN <= st.bounties_paid + p.bounty * kills <= i64::MAX
        }
        &&& !survived ==> {
            &&& st.traders_lost < u64::MAX
            &&& self.spec_tick().0 + p.respawn_delay <= u64::MAX
        }
    }

    /// Settle an ambush of trader `t` near `dest` after the battle, in which
    /// `engaged` pirates fought: see [`ambush_settled`](Self::ambush_settled).
    pub fn settle_ambush(&mut self, t: usize, dest: SystemId, engaged: u64, survived: bool, kills: u64, navy_lost: u64)
        requires
            old(self).ambush_settleable(t as int, dest, survived, kills, navy_lost),
        ensures
            final(self).ambush_settled(old(self), t as int, dest, engaged, survived, kills, navy_lost),
            final(self).spec_pirates() == old(self).spec_pirates(),
            final(self).spec_navy_fleet() == old(self).spec_navy_fleet(),
    {
        let (bounty, respawn_delay) = match &self.piracy {
            Some(p) => (p.bounty, p.respawn_delay),
            None => {
                assert(false);
                (0, 0)
            },
        };
        self.piracy_stats.ambushes = self.piracy_stats.ambushes + 1;
        self.piracy_stats.navy_lost = self.piracy_stats.navy_lost + navy_lost;
        self.piracy_stats.pirates_destroyed = self.piracy_stats.pirates_destroyed + kills;
        if survived {
            let reward = bounty * (kills as i64);
            self.traders[t].capital = self.traders[t].capital + reward;
            self.piracy_stats.bounties_paid = self.piracy_stats.bounties_paid + reward;
        } else {
            self.piracy_stats.traders_lost = self.piracy_stats.traders_lost + 1;
            // The shipment is lost to the void.
            self.traders[t].cargo.clear();
            self.traders[t].location = TraderLocation::Destroyed { respawn: Tick(self.tick.0 + respawn_delay) };
        }
        proof {
            assert(old(self).wf());
            assert(old(self).state().traders[t as int] == old(self).spec_traders()[t as int]@);
            assert(trader_ok(self.reg(), old(self).state().traders[t as int]));
            let nt = self.spec_traders()[t as int]@;
            let ot = old(self).spec_traders()[t as int]@;
            assert(nt.ship == ot.ship);
            if survived {
                assert(nt.cargo == ot.cargo && nt.location == ot.location);
            } else {
                assert(nt.cargo == Map::<CommodityId, Quantity>::empty());
            }
            assert(trader_ok(self.reg(), nt));
            self.lemma_trader_update_ok(old(self), t as int);
        }
        let tid = self.traders[t].id.0;
        let msg = if survived {
            let reward = bounty * (kills as i64);
            crate::messages::ambush_won_message(self.registry.system(dest).name.as_str(), tid, engaged, kills, reward)
        } else {
            crate::messages::ambush_lost_message(self.registry.system(dest).name.as_str(), tid)
        };
        let category = if survived { EventCategory::Combat } else { EventCategory::Piracy };
        let ghost e = SimEvent { tick: self.spec_tick(), category, message: msg };
        self.log_event(category, msg);
        proof {
            lemma_event_views_with(old(self).spec_events(), e);
        }
    }

    /// Tally a navy patrol battle: navy ships lost and pirates suppressed.
    pub fn record_navy_battle(&mut self, navy_lost: u64, suppressed: u64)
        requires
            old(self).spec_piracy_stats().navy_lost + navy_lost <= u64::MAX,
            old(self).spec_piracy_stats().pirates_suppressed + suppressed <= u64::MAX,
        ensures
            final(self).spec_piracy_stats() == (PiracyStats {
                navy_lost: (old(self).spec_piracy_stats().navy_lost + navy_lost) as u64,
                pirates_suppressed: (old(self).spec_piracy_stats().pirates_suppressed + suppressed) as u64,
                ..old(self).spec_piracy_stats()
            }),
            final(self).state() == old(self).state(),
            final(self).wf() == old(self).wf(),
            final(self).same_config(old(self)),
            final(self).spec_markets() == old(self).spec_markets(),
            final(self).spec_traders() == old(self).spec_traders(),
            final(self).spec_events() == old(self).spec_events(),
            final(self).spec_commands() == old(self).spec_commands(),
            final(self).spec_last_errors() == old(self).spec_last_errors(),
    {
        self.piracy_stats.navy_lost = self.piracy_stats.navy_lost + navy_lost;
        self.piracy_stats.pirates_suppressed = self.piracy_stats.pirates_suppressed + suppressed;
    }
}

} // verus!

verus! {

/// The trailing events of `es` recorded at `tick`, oldest first.
pub open spec fn trailing_at(es: Seq<SimEvent>, tick: Tick) -> Seq<SimEvent>
    decreases es.len(),
{
    if es.len() == 0 || es.last().tick != tick {
        Seq::empty()
    } else {
        trailing_at(es.drop_last(), tick).push(es.last())
    }
}

impl<F> World<F> {
    /// The events recorded at `tick` at the end of the log, oldest first: after
    /// a tick, exactly that tick's events (the per-tick event stream hosts
    /// broadcast).
    #[verifier::rlimit(30)]
    pub fn trailing_events(&self, tick: Tick) -> (r: Vec<SimEvent>)
        ensures
            r@ == trailing_at(self.spec_events(), tick),
    {
        let ghost es = self.events@;
        let n = self.events.len();
        // Find where the trailing run of `tick` events starts.
        let mut start: usize = n;
        assert(es.take(n as int) =~= es);
        assert(es.subrange(n as int, n as int) =~= Seq::<SimEvent>::empty());
        assert(trailing_at(es, tick) =~= trailing_at(es.take(n as int), tick) + es.subrange(n as int, n as int));
        while start > 0 && self.events[start - 1].tick.0 == tick.0
            invariant
                n == es.len(),
                es == self.events@,
                start <= n,
                trailing_at(es, tick) == trailing_at(es.take(start as int), tick) + es.subrange(start as int, n as int),
            decreases start,
        {
            proof {
                let p = es.take(start as int);
                assert(p.drop_last() =~= es.take(start - 1));
                assert(p.last() == es[start - 1]);
                assert(es.subrange(start - 1, n as int) =~= seq![es[start - 1]] + es.subrange(start as int, n as int));
                assert(trailing_at(p, tick) =~= trailing_at(es.take(start - 1), tick).push(es[start - 1]));
                assert(trailing_at(p, tick) + es.subrange(start as int, n as int) =~= trailing_at(es.take(start - 1), tick)
                    + es.subrange(start - 1, n as int));
            }
            start = start - 1;
        }
        proof {
            if start > 0 {
                let p = es.take(start as int);
                assert(p.last() == es[start - 1]);
                assert(trailing_at(p, tick) =~= Seq::<SimEvent>::empty());
            } else {
                assert(es.take(0) =~= Seq::<SimEvent>::empty());
            }
        }
        let mut out: Vec<SimEvent> = Vec::new();
        let mut i: usize = start;
        while i < n
            invariant
                n == es.len(),
                es == self.events@,
                start <= i <= n,
                out@ == es.subrange(start as int, i as int),
            decreases n - i,
        {
            out.push(self.events[i].clone());
            proof {
                assert(out@ =~= es.subrange(start as int, i + 1));
            }
            i = i + 1;
        }
        assert(trailing_at(es, tick) =~= es.subrange(start as int, n as int));
        out
    }
}

} // verus!

verus! {

/// A patrol whose arrival tick has come docks at its destination.
pub open spec fn patrol_arrived<F>(p: Patrol<F>, now: Tick) -> Patrol<F> {
    match p.location {
        PatrolLocation::InTransit { dest, arrival, .. } => if now.0 >= arrival.0 {
            Patrol { location: PatrolLocation::Docked(dest), ..p }
        } else {
            p
        },
        _ => p,
    }
}

/// The live patrols of `s`, in order.
pub open spec fn live<F>(s: Seq<Patrol<F>>) -> Seq<Patrol<F>>
    decreases s.len(),
{
    if s.len() == 0 {
        Seq::empty()
    } else {
        live(s.drop_last()) + if s.last().alive() {
            seq![s.last()]
        } else {
            Seq::<Patrol<F>>::empty()
        }
    }
}

/// `fleet` after a battle: the patrol at `idx[k]` takes the hull and shield
/// of outcome `out[k]`.
pub open spec fn written_back<F>(fleet: Seq<Patrol<F>>, idx: Seq<usize>, out: Seq<(i32, F, bool)>) -> Seq<Patrol<F>>
    decreases idx.len(),
{
    if idx.len() == 0 || out.len() == 0 {
        fleet
    } else {
        let f = written_back(fleet, idx.drop_last(), out.drop_last());
        let i = idx.last() as int;
        if 0 <= i < f.len() {
            f.update(i, Patrol { hull: out.last().0, shield: out.last().1, ..f[i] })
        } else {
            f
        }
    }
}

/// How many battle outcomes are deaths.
pub open spec fn dead_count<F>(out: Seq<(i32, F, bool)>) -> nat
    decreases out.len(),
{
    if out.len() == 0 {
        0
    } else {
        dead_count(out.drop_last()) + if out.last().2 {
            0nat
        } else {
            1nat
        }
    }
}

/// The pirates that spring an ambush at `dest`: the first `max` live ones
/// docked there.
pub open spec fn engaged_at<F>(pirates: Seq<Patrol<F>>, dest: SystemId, max: u32) -> Seq<usize> {
    let d = docked_indices(pirates, dest);
    if d.len() <= max {
        d
    } else {
        d.take(max as int)
    }
}

/// Writing back keeps a fleet's length.
proof fn lemma_written_back_len<F>(fleet: Seq<Patrol<F>>, idx: Seq<usize>, out: Seq<(i32, F, bool)>)
    ensures
        written_back(fleet, idx, out).len() == fleet.len(),
    decreases idx.len(),
{
    if idx.len() > 0 && out.len() > 0 {
        lemma_written_back_len(fleet, idx.drop_last(), out.drop_last());
    }
}

/// The dead count never exceeds the number of outcomes.
proof fn lemma_dead_count_bound<F>(out: Seq<(i32, F, bool)>)
    ensures
        dead_count(out) <= out.len(),
    decreases out.len(),
{
    if out.len() > 0 {
        lemma_dead_count_bound(out.drop_last());
    }
}

/// Write battle outcomes back into `fleet`; returns the number of deaths.
fn write_back<F: Copy>(fleet: &mut Vec<Patrol<F>>, idx: &Vec<usize>, out: &[(i32, F, bool)]) -> (dead: u64)
    requires
        idx@.len() == out@.len(),
        forall|k: int| 0 <= k < idx@.len() ==> (#[trigger] idx@[k]) < old(fleet)@.len(),
    ensures
        final(fleet)@ == written_back(old(fleet)@, idx@, out@),
        dead == dead_count(out@),
{
    let n = idx.len();
    let mut dead: u64 = 0;
    let mut k: usize = 0;
    proof {
        assert(idx@.take(0) =~= Seq::<usize>::empty());
        assert(out@.take(0) =~= Seq::<(i32, F, bool)>::empty());
    }
    while k < n
        invariant
            n == idx@.len(),
            n == out@.len(),
            k <= n,
            forall|j: int| 0 <= j < idx@.len() ==> (#[trigger] idx@[j]) < old(fleet)@.len(),
            fleet@ == written_back(old(fleet)@, idx@.take(k as int), out@.take(k as int)),
            dead == dead_count(out@.take(k as int)),
            dead <= k,
        decreases n - k,
    {
        proof {
            lemma_written_back_len(old(fleet)@, idx@.take(k as int), out@.take(k as int));
            assert(idx@.take(k + 1).drop_last() =~= idx@.take(k as int));
            assert(out@.take(k + 1).drop_last() =~= out@.take(k as int));
            assert(idx@.take(k + 1).last() == idx@[k as int]);
            assert(out@.take(k + 1).last() == out@[k as int]);
        }
        let i = idx[k];
        let (hull, shield, alive) = out[k];
        let p = fleet[i];
        fleet.set(i, Patrol { hull, shield, ..p });
        if !alive {
            dead = dead + 1;
        }
        k = k + 1;
    }
    proof {
        assert(idx@.take(n as int) =~= idx@);
        assert(out@.take(n as int) =~= out@);
    }
    dead
}

impl<F: Copy> World<F> {
    /// Only the fleets may differ from `old`.
    pub open spec fn only_fleets_changed(&self, old: &World<F>) -> bool {
        &&& self.same_setup(old)
        &&& self.same_records(old)
        &&& self.spec_markets() == old.spec_markets()
        &&& self.spec_traders() == old.spec_traders()
        &&& self.spec_tick() == old.spec_tick()
        &&& self.spec_next_trader_id() == old.spec_next_trader_id()
    }

    /// The navy fleet when `navy`, else the pirate fleet.
    pub open spec fn fleet(&self, navy: bool) -> Seq<Patrol<F>> {
        if navy {
            self.spec_navy_fleet()
        } else {
            self.spec_pirates()
        }
    }

    /// Add a patrol to the navy (`navy`) or pirate fleet: a spawn or a
    /// reinforcement, at a system the host drew.
    pub fn add_patrol(&mut self, navy: bool, p: Patrol<F>)
        requires
            old(self).wf(),
        ensures
            final(self).wf(),
            final(self).only_fleets_changed(old(self)),
            final(self).fleet(navy) == old(self).fleet(navy).push(p),
            final(self).fleet(!navy) == old(self).fleet(!navy),
    {
        if navy {
            self.navy.push(p);
        } else {
            self.pirates.push(p);
        }
    }

    /// Dock every patrol of a fleet whose arrival tick has come.
    pub fn settle_patrol_arrivals(&mut self, navy: bool)
        requires
            old(self).wf(),
        ensures
            final(self).wf(),
            final(self).only_fleets_changed(old(self)),
            final(self).fleet(navy) == old(self).fleet(navy).map_values(|p: Patrol<F>| patrol_arrived(p, old(self).spec_tick())),
            final(self).fleet(!navy) == old(self).fleet(!navy),
    {
        let mut fleet: Vec<Patrol<F>> = Vec::new();
        if navy {
            std::mem::swap(&mut fleet, &mut self.navy);
        } else {
            std::mem::swap(&mut fleet, &mut self.pirates);
        }
        let ghost f0 = fleet@;
        let now = self.tick;
        let n = fleet.len();
        let mut i: usize = 0;
        while i < n
            invariant
                n == fleet@.len(),
                n == f0.len(),
                i <= n,
                forall|k: int| 0 <= k < i ==> #[trigger] fleet@[k] == patrol_arrived(f0[k], now),
                forall|k: int| i <= k < n ==> #[trigger] fleet@[k] == f0[k],
            decreases n - i,
        {
            let p = fleet[i];
            match p.location {
                PatrolLocation::InTransit { dest, arrival, .. } => {
                    if now.0 >= arrival.0 {
                        fleet.set(i, Patrol { location: PatrolLocation::Docked(dest), ..p });
                    }
                },
                _ => {},
            }
            i = i + 1;
        }
        assert(fleet@ =~= f0.map_values(|p: Patrol<F>| patrol_arrived(p, now)));
        if navy {
            std::mem::swap(&mut fleet, &mut self.navy);
        } else {
            std::mem::swap(&mut fleet, &mut self.pirates);
        }
    }

    /// Set a patrol's shield (after the host regenerates it).
    pub fn set_patrol_shield(&mut self, navy: bool, i: usize, shield: F)
        requires
            old(self).wf(),
            i < old(self).fleet(navy).len(),
        ensures
            final(self).wf(),
            final(self).only_fleets_changed(old(self)),
            final(self).fleet(navy) == old(self).fleet(navy).update(i as int, Patrol { shield, ..old(self).fleet(navy)[i as int] }),
            final(self).fleet(!navy) == old(self).fleet(!navy),
    {
        if navy {
            let p = self.navy[i];
            self.navy.set(i, Patrol { shield, ..p });
        } else {
            let p = self.pirates[i];
            self.pirates.set(i, Patrol { shield, ..p });
        }
    }

    /// Send docked patrol `i` toward `dest`, arriving `travel` ticks from now.
    pub fn patrol_depart(&mut self, navy: bool, i: usize, dest: SystemId, travel: u64)
        requires
            old(self).wf(),
            i < old(self).fleet(navy).len(),
            old(self).fleet(navy)[i as int].location is Docked,
            old(self).spec_tick().0 + travel <= u64::MAX,
        ensures
            final(self).wf(),
            final(self).only_fleets_changed(old(self)),
            final(self).fleet(navy) == old(self).fleet(navy).update(
                i as int,
                Patrol {
                    location: PatrolLocation::InTransit {
                        origin: old(self).fleet(navy)[i as int].location->Docked_0,
                        dest,
                        departure: old(self).spec_tick(),
                        arrival: Tick((old(self).spec_tick().0 + travel) as u64),
                    },
                    ..old(self).fleet(navy)[i as int]
                },
            ),
            final(self).fleet(!navy) == old(self).fleet(!navy),
    {
        let now = self.tick;
        let p = if navy { self.navy[i] } else { self.pirates[i] };
        let origin = match p.location {
            PatrolLocation::Docked(s) => s,
            _ => {
                assert(false);
                dest
            },
        };
        let q = Patrol {
            location: PatrolLocation::InTransit { origin, dest, departure: now, arrival: Tick(now.0 + travel) },
            ..p
        };
        if navy {
            self.navy.set(i, q);
        } else {
            self.pirates.set(i, q);
        }
    }

    /// Remove dead patrols from both fleets, keeping the order of the rest.
    pub fn cull_dead(&mut self)
        requires
            old(self).wf(),
        ensures
            final(self).wf(),
            final(self).only_fleets_changed(old(self)),
            final(self).spec_pirates() == live(old(self).spec_pirates()),
            final(self).spec_navy_fleet() == live(old(self).spec_navy_fleet()),
    {
        let mut pirates: Vec<Patrol<F>> = Vec::new();
        std::mem::swap(&mut pirates, &mut self.pirates);
        let kept = keep_live(&pirates);
        self.pirates = kept;
        let mut navy: Vec<Patrol<F>> = Vec::new();
        std::mem::swap(&mut navy, &mut self.navy);
        let kept = keep_live(&navy);
        self.navy = kept;
    }

    /// The pirates that spring an ambush at `dest`: the first `max_pirates`
    /// live pirates docked there, in fleet order.
    pub fn engaged_pirates(&self, dest: SystemId) -> (r: Vec<usize>)
        requires
            self.spec_piracy() is Some,
        ensures
            r@ == engaged_at(self.spec_pirates(), dest, self.spec_piracy()->Some_0.max_pirates),
    {
        let max = match &self.piracy {
            Some(p) => p.max_pirates,
            None => 0,
        };
        let all = indices_docked_at(self.pirates.as_slice(), dest);
        let take: usize = if all.len() <= max as usize { all.len() } else { max as usize };
        let mut out: Vec<usize> = Vec::new();
        let mut k: usize = 0;
        while k < take
            invariant
                take <= all@.len(),
                k <= take,
                out@ == all@.take(k as int),
            decreases take - k,
        {
            out.push(all[k]);
            proof {
                assert(out@ =~= all@.take(k + 1));
            }
            k = k + 1;
        }
        proof {
            if all@.len() <= max {
                assert(all@.take(take as int) =~= all@);
            }
        }
        out
    }

    /// A navy patrol battle at `sys` against the pirates docked there, fought
    /// by the host: `navy_after[k]` and `pirates_after[k]` are the hull, shield
    /// and survival of the `k`-th live navy ship and pirate docked at `sys`.
    /// With either side absent nothing happens. Otherwise the damage is written
    /// back, the navy ships lost and pirates suppressed are tallied, and, if
    /// anyone died, the engagement is logged. Dead patrols stay in their fleets
    /// until [`cull_dead`](Self::cull_dead).
    pub fn navy_battle(&mut self, sys: SystemId, navy_after: &[(i32, F, bool)], pirates_after: &[(i32, F, bool)])
        requires
            old(self).wf(),
            sys.0 < old(self).reg().system_list().len(),
            old(self).spec_navy_fleet().len() <= usize::MAX,
            old(self).spec_pirates().len() <= usize::MAX,
            navy_after@.len() == docked_indices(old(self).spec_navy_fleet(), sys).len(),
            pirates_after@.len() == docked_indices(old(self).spec_pirates(), sys).len(),
            old(self).spec_piracy_stats().navy_lost + navy_after@.len() <= u64::MAX,
            old(self).spec_piracy_stats().pirates_suppressed + pirates_after@.len() <= u64::MAX,
        ensures
            final(self).wf(),
            ({
                let nd = docked_indices(old(self).spec_navy_fleet(), sys);
                let pd = docked_indices(old(self).spec_pirates(), sys);
                let lost = dead_count(navy_after@);
                let killed = dead_count(pirates_after@);
                let st = old(self).spec_piracy_stats();
                if nd.len() == 0 || pd.len() == 0 {
                    *final(self) == *old(self)
                } else {
                    &&& final(self).same_setup(old(self))
                    &&& final(self).same_tallies_but_piracy(old(self))
                    &&& final(self).spec_markets() == old(self).spec_markets()
                    &&& final(self).spec_traders() == old(self).spec_traders()
                    &&& final(self).spec_tick() == old(self).spec_tick()
                    &&& final(self).spec_next_trader_id() == old(self).spec_next_trader_id()
                    &&& final(self).spec_navy_fleet() == written_back(old(self).spec_navy_fleet(), nd, navy_after@)
                    &&& final(self).spec_pirates() == written_back(old(self).spec_pirates(), pd, pirates_after@)
                    &&& final(self).spec_piracy_stats() == (PiracyStats {
                        navy_lost: (st.navy_lost + lost) as u64,
                        pirates_suppressed: (st.pirates_suppressed + killed) as u64,
                        ..st
                    })
                    &&& if killed > 0 || lost > 0 {
                        event_views(final(self).spec_events()) == with_event(
                            event_views(old(self).spec_events()),
                            (
                                old(self).spec_tick(),
                                EventCategory::Navy,
                                crate::messages::navy_engaged_text(
                                    old(self).reg().system_list()[sys.0 as int].name@,
                                    killed as u64,
                                ) + if lost > 0 {
                                    crate::messages::frigates_lost_text(lost as u64)
                                } else {
                                    Seq::<char>::empty()
                                },
                            ),
                        )
                    } else {
                        final(self).spec_events() == old(self).spec_events()
                    }
                }
            }),
    {
        let nd = indices_docked_at(self.navy.as_slice(), sys);
        let pd = indices_docked_at(self.pirates.as_slice(), sys);
        if nd.len() == 0 || pd.len() == 0 {
            return;
        }
        proof {
            lemma_docked_indices(self.spec_navy_fleet(), sys);
            lemma_docked_indices(self.spec_pirates(), sys);
            lemma_dead_count_bound(navy_after@);
            lemma_dead_count_bound(pirates_after@);
        }
        let lost = write_back(&mut self.navy, &nd, navy_after);
        let killed = write_back(&mut self.pirates, &pd, pirates_after);
        self.piracy_stats.navy_lost = self.piracy_stats.navy_lost + lost;
        self.piracy_stats.pirates_suppressed = self.piracy_stats.pirates_suppressed + killed;
        if killed > 0 || lost > 0 {
            let mut msg = crate::messages::navy_engaged_message(self.registry.system(sys).name.as_str(), killed);
            if lost > 0 {
                let tail = crate::messages::frigates_lost_message(lost);
                msg.append(tail.as_str());
            }
            let ghost e = SimEvent { tick: self.spec_tick(), category: EventCategory::Navy, message: msg };
            let ghost before = self.spec_events();
            self.log_event(EventCategory::Navy, msg);
            proof {
                lemma_event_views_with(before, e);
            }
        }
    }

    /// An ambush of trader `t` at `dest`, fought by the host: the engaged
    /// pirates (see [`engaged_pirates`](Self::engaged_pirates)) against the
    /// trader, its escorts and the live navy ships docked at `dest`.
    /// `pirates_after[k]` and `navy_after[k]` are the hull, shield and survival
    /// of the `k`-th engaged pirate and navy defender; `survived` is whether the
    /// trader's own ship lived. With no pirate engaged nothing happens.
    /// Otherwise the damage is written back and the ambush settled (see
    /// [`ambush_settled`](Self::ambush_settled)) with the pirates and navy
    /// ships that died.
    pub fn resolve_ambush(
        &mut self,
        t: usize,
        dest: SystemId,
        navy_after: &[(i32, F, bool)],
        pirates_after: &[(i32, F, bool)],
        survived: bool,
    )
        requires
            old(self).wf(),
            t < old(self).spec_traders().len(),
            old(self).spec_piracy() is Some,
            dest.0 < old(self).reg().system_list().len(),
            old(self).spec_navy_fleet().len() <= usize::MAX,
            old(self).spec_pirates().len() <= usize::MAX,
            ({
                let eng = engaged_at(old(self).spec_pirates(), dest, old(self).spec_piracy()->Some_0.max_pirates);
                eng.len() > 0 ==> {
                    &&& pirates_after@.len() == eng.len()
                    &&& navy_after@.len() == docked_indices(old(self).spec_navy_fleet(), dest).len()
                    &&& old(self).ambush_settleable(
                        t as int,
                        dest,
                        survived,
                        dead_count(pirates_after@) as u64,
                        dead_count(navy_after@) as u64,
                    )
                }
            }),
        ensures
            ({
                let eng = engaged_at(old(self).spec_pirates(), dest, old(self).spec_piracy()->Some_0.max_pirates);
                let nd = docked_indices(old(self).spec_navy_fleet(), dest);
                if eng.len() == 0 {
                    *final(self) == *old(self)
                } else {
                    &&& final(self).ambush_settled(
                        old(self),
                        t as int,
                        dest,
                        eng.len() as u64,
                        survived,
                        dead_count(pirates_after@) as u64,
                        dead_count(navy_after@) as u64,
                    )
                    &&& final(self).spec_pirates() == written_back(old(self).spec_pirates(), eng, pirates_after@)
                    &&& final(self).spec_navy_fleet() == written_back(old(self).spec_navy_fleet(), nd, navy_after@)
                }
            }),
    {
        let eng = self.engaged_pirates(dest);
        if eng.len() == 0 {
            return;
        }
        let nd = indices_docked_at(self.navy.as_slice(), dest);
        proof {
            lemma_docked_indices(self.spec_navy_fleet(), dest);
            lemma_docked_indices(self.spec_pirates(), dest);
            let d = docked_indices(self.spec_pirates(), dest);
            assert forall|k: int| 0 <= k < eng@.len() implies (#[trigger] eng@[k]) < self.spec_pirates().len() by {
                assert(eng@[k] == d[k]);
            }
        }
        let navy_lost = write_back(&mut self.navy, &nd, navy_after);
        let kills = write_back(&mut self.pirates, &eng, pirates_after);
        let ghost mid = *self;
        proof {
            assert(mid.ambush_settleable(t as int, dest, survived, kills, navy_lost));
        }
        self.settle_ambush(t, dest, eng.len() as u64, survived, kills, navy_lost);
    }
}

/// The live patrols of `fleet`, in order.
fn keep_live<F: Copy>(fleet: &Vec<Patrol<F>>) -> (r: Vec<Patrol<F>>)
    ensures
        r@ == live(fleet@),
{
    let n = fleet.len();
    let mut out: Vec<Patrol<F>> = Vec::new();
    let mut i: usize = 0;
    assert(fleet@.take(0) =~= Seq::<Patrol<F>>::empty());
    while i < n
        invariant
            n == fleet@.len(),
            i <= n,
            out@ == live(fleet@.take(i as int)),
        decreases n - i,
    {
        proof {
            assert(fleet@.take(i + 1).drop_last() =~= fleet@.take(i as int));
            assert(fleet@.take(i + 1).last() == fleet@[i as int]);
        }
        let p = fleet[i];
        if p.is_alive() {
            out.push(p);
        }
        proof {
            assert(out@ =~= live(fleet@.take(i + 1)));
        }
        i = i + 1;
    }
    assert(fleet@.take(n as int) =~= fleet@);
    out
}

} // verus!
