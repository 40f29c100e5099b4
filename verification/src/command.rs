//! The command pipeline: the multiplayer-ready entry point for player actions.
//!
//! Every action a player takes is a [`Command`] queued on the economy and
//! applied, validated, at a tick boundary. Commands never mutate the world
//! directly, so they can be ordered, replayed, and rejected.

use vstd::prelude::*;

use crate::ids::{CommodityId, ShipId, SystemId};
use crate::trader::TraderId;
use crate::{Money, Quantity};

verus! {

/// Identifies a player. Player 0 is a perfectly good single-player convention.
#[derive(Debug, Clone, Copy, PartialEq, Eq, Structural, Hash)]
pub struct PlayerId(pub u32);

/// Who controls an agent. NPC agents run the built-in AI; player-owned agents act
/// only on commands.
#[derive(Debug, Clone, Copy, PartialEq, Eq, Structural)]
pub enum Owner {
    Npc,
    Player(PlayerId),
}

impl Default for Owner {
    fn default() -> (r: Self)
        ensures
            r == Owner::Npc,
    {
        Owner::Npc
    }
}

/// A player-issued action. Operands are resolved handles; traders are
/// addressed by a stable [`TraderId`].
#[derive(Debug, Clone, Copy, PartialEq, Eq, Structural)]
pub enum Command {
    /// Bring a new player-owned trader into the galaxy. Its id is assigned by the
    /// world and observed in the resulting state.
    Spawn { player: PlayerId, ship: ShipId, at: SystemId, capital: Money },
    /// Retire a player trader, removing it from the galaxy.
    Despawn { player: PlayerId, trader: TraderId },
    /// Order a docked player trader to jump to a connected system.
    Jump { player: PlayerId, trader: TraderId, dest: SystemId },
    /// Buy `qty` of a commodity at the trader's current market.
    Buy { player: PlayerId, trader: TraderId, commodity: CommodityId, qty: Quantity },
    /// Sell `qty` of a commodity from the hold at the trader's current market.
    Sell { player: PlayerId, trader: TraderId, commodity: CommodityId, qty: Quantity },
}

impl Command {
    /// The issuing player.
    pub open spec fn spec_player(&self) -> PlayerId {
        match *self {
            Command::Spawn { player, .. } => player,
            Command::Despawn { player, .. } => player,
            Command::Jump { player, .. } => player,
            Command::Buy { player, .. } => player,
            Command::Sell { player, .. } => player,
        }
    }

    /// The player that issued the command (for authorization).
    pub fn player(&self) -> (r: PlayerId)
        ensures
            r == self.spec_player(),
    {
        match *self {
            Command::Spawn { player, .. } => player,
            Command::Despawn { player, .. } => player,
            Command::Jump { player, .. } => player,
            Command::Buy { player, .. } => player,
            Command::Sell { player, .. } => player,
        }
    }
}

/// Why a command was rejected. Rejection is normal (input is untrusted), never
/// fatal: the command is dropped and counted.
#[derive(Debug, Clone, Copy, PartialEq, Eq, Structural)]
pub enum CommandError {
    UnknownShip,
    InvalidSystem,
    UnknownTrader,
    NotOwner,
    NotDocked,
    Unreachable,
    UnknownGood,
    InsufficientFunds,
    InsufficientStock,
    InsufficientCargo,
    OverCapacity,
    ZeroQuantity,
}

impl CommandError {
    /// The human-readable description of a rejection.
    pub open spec fn spec_message(self) -> Seq<char> {
        match self {
            CommandError::UnknownShip => "unknown ship id"@,
            CommandError::InvalidSystem => "unknown or invalid system id"@,
            CommandError::UnknownTrader => "no such trader"@,
            CommandError::NotOwner => "trader is not owned by this player"@,
            CommandError::NotDocked => "trader is not docked"@,
            CommandError::Unreachable => "destination is not reachable in one jump"@,
            CommandError::UnknownGood => "this market does not trade that commodity"@,
            CommandError::InsufficientFunds => "not enough capital"@,
            CommandError::InsufficientStock => "not enough stock on the market"@,
            CommandError::InsufficientCargo => "not enough of that good in the hold"@,
            CommandError::OverCapacity => "would exceed cargo capacity"@,
            CommandError::ZeroQuantity => "quantity must be positive"@,
        }
    }

    /// The human-readable description of a rejection (what `Display` shows).
    pub fn message(&self) -> (r: &'static str)
        ensures
            r@ == self.spec_message(),
    {
        match self {
            CommandError::UnknownShip => "unknown ship id",
            CommandError::InvalidSystem => "unknown or invalid system id",
            CommandError::UnknownTrader => "no such trader",
            CommandError::NotOwner => "trader is not owned by this player",
            CommandError::NotDocked => "trader is not docked",
            CommandError::Unreachable => "destination is not reachable in one jump",
            CommandError::UnknownGood => "this market does not trade that commodity",
            CommandError::InsufficientFunds => "not enough capital",
            CommandError::InsufficientStock => "not enough stock on the market",
            CommandError::InsufficientCargo => "not enough of that good in the hold",
            CommandError::OverCapacity => "would exceed cargo capacity",
            CommandError::ZeroQuantity => "quantity must be positive",
        }
    }
}

} // verus!
