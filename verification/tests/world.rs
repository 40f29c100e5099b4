use std::sync::Arc;

use drift::command::{Command, CommandError, Owner, PlayerId};
use drift::data::{
    CommodityAmount, CommodityDef, EscortConfig, MergedContent, NavyConfig, PiracyConfig, ProductionRecipe, ScenarioDef,
    ShipDef, SystemDef, TraderSpawn,
};
use drift::event::EventCategory;
use drift::ids::{CommodityId, ShipId, SystemId};
use drift::mods::Manifest;
use drift::patrol::{indices_docked_at, Patrol, PatrolLocation};
use drift::pricing::builtin_pricing;
use drift::registry::{asymmetric_connections, link, LoadError, Registry};
use drift::session::pricing_names;
use drift::time::Tick;
use drift::trader::{TradePlan, TraderId, TraderLocation};
use drift::turn::{best_reposition, TraderTurn};
use drift::world::{TravelTimes, World, WorldError, EVENT_CAP};

fn amount(c: &str, qty: u32) -> CommodityAmount {
    CommodityAmount { commodity: c.to_string(), qty }
}

fn commodity(id: &str, base_price: i64, unit_mass: u32) -> CommodityDef<f64> {
    CommodityDef {
        id: id.to_string(),
        name: id.to_string(),
        base_price,
        unit_mass,
        elasticity: 1.0,
        category: "raw".to_string(),
    }
}

fn system(id: &str, connections: &[&str], stock: Vec<CommodityAmount>, industries: &[&str]) -> SystemDef<f64> {
    SystemDef {
        id: id.to_string(),
        name: id.to_string(),
        position: [0.0, 0.0],
        industries: industries.iter().map(|s| s.to_string()).collect(),
        connections: connections.iter().map(|s| s.to_string()).collect(),
        initial_stock: stock,
        pricing: "supply_demand_v1".to_string(),
        danger: 0.0,
    }
}

fn ship(id: &str, cargo_capacity: u32) -> ShipDef<f64> {
    ShipDef {
        id: id.to_string(),
        name: id.to_string(),
        cargo_capacity,
        jump_speed: 1.0,
        hull: 100,
        max_speed: 1.0,
        combat: None,
    }
}

fn content() -> MergedContent<f64> {
    MergedContent {
        commodities: vec![commodity("core:food", 10, 1), commodity("core:ore", 0, 2)],
        recipes: vec![ProductionRecipe {
            id: "core:farm".to_string(),
            inputs: vec![],
            outputs: vec![amount("core:food", 5)],
            rate: 2,
            elasticity: 0.0,
        }],
        systems: vec![
            system("core:lave", &["core:diso"], vec![amount("core:food", 100), amount("core:ore", 40)], &["core:farm"]),
            system("core:diso", &["core:lave"], vec![amount("core:food", 20)], &[]),
        ],
        ships: vec![ship("core:cobra", 30)],
    }
}

fn known() -> Vec<String> {
    pricing_names()
}

fn scenario(count: u32) -> ScenarioDef<f64> {
    ScenarioDef {
        name: "test".to_string(),
        seed: 1,
        ticks: 10,
        traders: TraderSpawn { count, ship: "core:cobra".to_string(), starting_capital: 1000 },
        piracy: None,
        risk_aversion: 0.0,
        escort: None,
        navy: None,
    }
}

fn registry() -> Arc<Registry<f64>> {
    Arc::new(link(content(), &known()).unwrap())
}

fn world(count: u32) -> World<f64> {
    let placements: Vec<SystemId> = (0..count).map(|k| SystemId(k % 2)).collect();
    World::new(registry(), &scenario(count), &placements, &builtin_pricing()).unwrap()
}

fn travel() -> TravelTimes {
    TravelTimes { ticks: vec![vec![vec![0, 3], vec![3, 0]]] }
}

fn run(w: &mut World<f64>, cmds: &[Command]) -> Result<(), usize> {
    for c in cmds {
        w.queue_command(*c);
    }
    w.command_phase(&travel())
}

const P: PlayerId = PlayerId(0);

#[test]
fn link_resolves_every_reference() {
    let reg = link(content(), &known()).unwrap();
    assert_eq!(reg.commodity_count(), 2);
    assert_eq!(reg.commodity_id("core:ore"), Some(CommodityId(1)));
    assert_eq!(reg.commodity_name(CommodityId(0)), "core:food");
    assert_eq!(reg.commodity_name(CommodityId(9)), "?");
    assert_eq!(reg.system_id("core:diso"), Some(SystemId(1)));
    assert_eq!(reg.system(SystemId(0)).connections, vec![SystemId(1)]);
    assert_eq!(reg.system(SystemId(0)).initial_stock, vec![(CommodityId(0), 100), (CommodityId(1), 40)]);
    assert_eq!(reg.ship_id("core:cobra"), Some(ShipId(0)));
    assert_eq!(reg.ship_id("core:python"), None);
    assert_eq!(reg.recipe_count(), 1);
    let farm = reg.recipe(reg.recipe_id("core:farm").unwrap());
    assert_eq!(farm.outputs, vec![(CommodityId(0), 5)]);
    assert_eq!(reg.system(SystemId(0)).industries.len(), 1);
    let names: Vec<(CommodityId, String)> = reg.commodities().iter().map(|(c, d)| (*c, d.id.clone())).collect();
    assert_eq!(names, vec![(CommodityId(0), "core:food".to_string()), (CommodityId(1), "core:ore".to_string())]);
    assert_eq!(reg.recipe_name(farm.id), "core:farm");
    assert_eq!(reg.system_name(SystemId(1)), "core:diso");
    assert_eq!(reg.system_name(SystemId(7)), "?");
    assert_eq!(reg.ship(ShipId(0)).cargo_capacity, 30);
    assert_eq!(reg.ship_count(), 1);
    assert_eq!(reg.system_count(), 2);
}

#[test]
fn duplicate_ids_share_one_handle() {
    let mut c = content();
    c.commodities.push(commodity("core:food", 99, 1));
    let reg = link(c, &known()).unwrap();
    assert_eq!(reg.commodity_id("core:food"), Some(CommodityId(0)));
    assert_eq!(reg.commodity_count(), 3);
    assert_eq!(reg.commodity_name(CommodityId(2)), "?");
    // Handles follow first occurrence.
    let mut c = content();
    c.commodities.push(commodity("core:food", 99, 1));
    c.commodities.push(commodity("core:spice", 50, 1));
    let reg = link(c, &known()).unwrap();
    assert_eq!(reg.commodity_id("core:spice"), Some(CommodityId(2)));
}

#[test]
fn dangling_recipe_commodity_is_reported() {
    let mut c = content();
    c.recipes[0].outputs.push(amount("core:spice", 1));
    assert_eq!(
        link(c, &known()).unwrap_err(),
        LoadError::DanglingRef {
            kind: "recipe/system",
            referrer: "core:farm".to_string(),
            target_kind: "commodity",
            target: "core:spice".to_string(),
        }
    );
}

#[test]
fn dangling_connection_is_reported() {
    let mut c = content();
    c.systems[1].connections.push("core:zaonce".to_string());
    assert_eq!(
        link(c, &known()).unwrap_err(),
        LoadError::DanglingRef {
            kind: "system",
            referrer: "core:diso".to_string(),
            target_kind: "system",
            target: "core:zaonce".to_string(),
        }
    );
}

#[test]
fn dangling_industry_is_reported_before_connections() {
    let mut c = content();
    c.systems[0].industries.push("core:mine".to_string());
    c.systems[0].connections.push("core:zaonce".to_string());
    assert_eq!(
        link(c, &known()).unwrap_err(),
        LoadError::DanglingRef {
            kind: "system",
            referrer: "core:lave".to_string(),
            target_kind: "recipe",
            target: "core:mine".to_string(),
        }
    );
}

#[test]
fn dangling_stock_is_reported() {
    let mut c = content();
    c.systems[1].initial_stock.push(amount("core:gold", 3));
    assert_eq!(
        link(c, &known()).unwrap_err(),
        LoadError::DanglingRef {
            kind: "recipe/system",
            referrer: "core:diso".to_string(),
            target_kind: "commodity",
            target: "core:gold".to_string(),
        }
    );
}

#[test]
fn unknown_pricing_is_reported() {
    let mut c = content();
    c.systems[1].pricing = "auction_v9".to_string();
    assert_eq!(
        link(c, &known()).unwrap_err(),
        LoadError::UnknownPricing { system: "core:diso".to_string(), strategy: "auction_v9".to_string() }
    );
    assert!(link(content(), &[]).is_err());
}

#[test]
fn one_way_jumps_are_found() {
    let mut c = content();
    c.systems[1].connections.clear();
    let reg = link(c, &known()).unwrap();
    assert_eq!(asymmetric_connections(reg.systems()), vec![(0, 1)]);
    let reg = link(content(), &known()).unwrap();
    assert!(asymmetric_connections(reg.systems()).is_empty());
}

#[test]
fn new_world_prices_markets_at_base() {
    let w = world(2);
    assert_eq!(w.tick_count(), Tick(0));
    let lave = &w.markets()[0];
    assert_eq!(lave.stock(CommodityId(0)), 100);
    assert_eq!(lave.price(CommodityId(0)), Some(10));
    // A base price below one credit is floored.
    assert_eq!(lave.price(CommodityId(1)), Some(1));
    assert_eq!(w.markets()[1].price(CommodityId(1)), None);
    assert_eq!(w.traders().len(), 2);
    assert_eq!(w.traders()[1].id, TraderId(1));
    assert_eq!(w.traders()[1].location, TraderLocation::Docked(SystemId(1)));
    assert_eq!(w.traders()[0].owner, Owner::Npc);
    assert_eq!(w.traders()[0].capital, 1000);
    assert!(w.events().is_empty());
    assert_eq!(w.commands_applied(), 0);
    let shared = w.registry_arc();
    assert_eq!(shared.system_count(), w.registry().system_count());
}

#[test]
fn world_errors_are_reported() {
    let reg = registry();
    let mut sc = scenario(1);
    sc.traders.ship = "core:python".to_string();
    let placements = vec![SystemId(0)];
    assert_eq!(
        World::new(reg.clone(), &sc, &placements, &builtin_pricing()).err(),
        Some(WorldError::UnknownShip("core:python".to_string()))
    );
    let mut c = content();
    c.systems[1].industries.push("core:farm".to_string());
    c.systems[1].initial_stock.clear();
    let reg2 = Arc::new(link(c, &known()).unwrap());
    assert_eq!(
        World::new(reg2, &scenario(0), &Vec::new(), &builtin_pricing()).err(),
        Some(WorldError::MissingIndustryCommodity { system: "core:diso".to_string(), commodity: "core:food".to_string() })
    );
    let empty = MergedContent { commodities: vec![], recipes: vec![], systems: vec![], ships: vec![] };
    let reg3 = Arc::new(link(empty, &known()).unwrap());
    assert_eq!(World::new(reg3, &scenario(0), &Vec::new(), &builtin_pricing()).err(), Some(WorldError::NoSystems));
}

#[test]
fn scenario_runtime_settings_are_resolved() {
    let mut sc = scenario(0);
    sc.piracy = Some(PiracyConfig {
        pirate_ship: "core:cobra".to_string(),
        base_ambush_chance: 0.1,
        max_pirates: 0,
        respawn_delay: 5,
        fleet_size: 3,
        bounty: 250,
        reinforce_interval: 0,
    });
    sc.navy = Some(NavyConfig { ship: "core:cobra".to_string(), fleet_size: 2, reinforce_interval: 7 });
    sc.escort = Some(EscortConfig { ship: "core:cobra".to_string(), count: 1 });
    let w = World::new(registry(), &sc, &Vec::new(), &builtin_pricing()).unwrap();
    let p = w.piracy().unwrap();
    assert_eq!(p.max_pirates, 1);
    assert_eq!(p.reinforce_interval, 1);
    assert_eq!(p.bounty, 250);
    assert_eq!(w.navy_runtime().unwrap().reinforce_interval, 7);
    assert_eq!(w.escort().unwrap().count, 1);
    sc.escort = Some(EscortConfig { ship: "core:viper".to_string(), count: 1 });
    assert_eq!(
        World::new(registry(), &sc, &Vec::new(), &builtin_pricing()).err(),
        Some(WorldError::UnknownShip("core:viper".to_string()))
    );
}

#[test]
fn spawned_trader_buys_jumps_and_sells() {
    let mut w = world(1);
    assert_eq!(run(&mut w, &[Command::Spawn { player: P, ship: ShipId(0), at: SystemId(0), capital: 500 }]), Ok(()));
    let t = w.traders()[1].id;
    assert_eq!(t, TraderId(1));
    assert!(w.traders()[1].is_player());
    assert_eq!(
        run(&mut w, &[Command::Buy { player: P, trader: t, commodity: CommodityId(0), qty: 10 }]),
        Ok(())
    );
    assert_eq!(w.traders()[1].capital, 400);
    assert_eq!(w.traders()[1].cargo.get(CommodityId(0)), Some(&10));
    assert_eq!(w.markets()[0].stock(CommodityId(0)), 90);
    // Units and value at the market price are conserved by the purchase.
    assert_eq!(w.markets()[0].stock(CommodityId(0)) + 10, 100);
    assert_eq!(w.traders()[1].capital + 10 * 10, 500);
    assert_eq!(run(&mut w, &[Command::Jump { player: P, trader: t, dest: SystemId(1) }]), Ok(()));
    assert_eq!(
        w.traders()[1].location,
        TraderLocation::InTransit { origin: SystemId(0), dest: SystemId(1), departure: Tick(0), arrival: Tick(3) }
    );
    assert_eq!(w.commands_applied(), 3);
    assert_eq!(w.commands_rejected(), 0);
}

#[test]
fn each_rejection_has_its_error() {
    let mut w = world(1);
    run(&mut w, &[Command::Spawn { player: P, ship: ShipId(0), at: SystemId(0), capital: 500 }]).unwrap();
    let t = TraderId(1);
    let cmds = [
        Command::Spawn { player: P, ship: ShipId(9), at: SystemId(0), capital: 1 },
        Command::Spawn { player: P, ship: ShipId(0), at: SystemId(9), capital: 1 },
        Command::Despawn { player: P, trader: TraderId(77) },
        Command::Despawn { player: P, trader: TraderId(0) },
        Command::Buy { player: P, trader: t, commodity: CommodityId(0), qty: 0 },
        Command::Buy { player: P, trader: t, commodity: CommodityId(7), qty: 1 },
        Command::Buy { player: P, trader: t, commodity: CommodityId(0), qty: 101 },
        Command::Buy { player: P, trader: t, commodity: CommodityId(0), qty: 51 },
        Command::Buy { player: P, trader: t, commodity: CommodityId(1), qty: 16 },
        Command::Sell { player: P, trader: t, commodity: CommodityId(0), qty: 1 },
        Command::Jump { player: P, trader: t, dest: SystemId(5) },
        Command::Jump { player: P, trader: t, dest: SystemId(0) },
    ];
    run(&mut w, &cmds).unwrap();
    assert_eq!(
        w.last_command_errors().to_vec(),
        vec![
            CommandError::UnknownShip,
            CommandError::InvalidSystem,
            CommandError::UnknownTrader,
            CommandError::NotOwner,
            CommandError::ZeroQuantity,
            CommandError::UnknownGood,
            CommandError::InsufficientStock,
            CommandError::InsufficientFunds,
            CommandError::OverCapacity,
            CommandError::InsufficientCargo,
            CommandError::InvalidSystem,
            CommandError::Unreachable,
        ]
    );
    assert_eq!(w.commands_rejected(), 12);
    assert_eq!(w.commands_applied(), 1);
    // Nothing changed.
    assert_eq!(w.traders()[1].capital, 500);
    assert_eq!(w.markets()[0].stock(CommodityId(0)), 100);
    run(&mut w, &[Command::Jump { player: P, trader: t, dest: SystemId(1) }]).unwrap();
    run(&mut w, &[Command::Buy { player: P, trader: t, commodity: CommodityId(0), qty: 1 }]).unwrap();
    assert_eq!(w.last_command_errors().to_vec(), vec![CommandError::NotDocked]);
    assert_eq!(CommandError::NotDocked.message(), "trader is not docked");
}

#[test]
fn selling_what_was_bought_restores_everything() {
    let mut w = world(0);
    run(&mut w, &[Command::Spawn { player: P, ship: ShipId(0), at: SystemId(0), capital: 500 }]).unwrap();
    let t = TraderId(0);
    run(
        &mut w,
        &[
            Command::Buy { player: P, trader: t, commodity: CommodityId(0), qty: 7 },
            Command::Sell { player: P, trader: t, commodity: CommodityId(0), qty: 7 },
        ],
    )
    .unwrap();
    assert_eq!(w.traders()[0].capital, 500);
    assert!(w.traders()[0].cargo.is_empty());
    assert_eq!(w.markets()[0].stock(CommodityId(0)), 100);
}

#[test]
fn despawned_ids_are_never_reused() {
    let mut w = world(0);
    let spawn = Command::Spawn { player: P, ship: ShipId(0), at: SystemId(0), capital: 1 };
    run(&mut w, &[spawn, spawn]).unwrap();
    run(&mut w, &[Command::Despawn { player: P, trader: TraderId(1) }]).unwrap();
    run(&mut w, &[spawn]).unwrap();
    let ids: Vec<TraderId> = w.traders().iter().map(|t| t.id).collect();
    assert_eq!(ids, vec![TraderId(0), TraderId(2)]);
    run(&mut w, &[Command::Despawn { player: P, trader: TraderId(1) }]).unwrap();
    assert_eq!(w.last_command_errors().to_vec(), vec![CommandError::UnknownTrader]);
}

#[test]
fn other_players_cannot_command_a_trader() {
    let mut w = world(0);
    run(&mut w, &[Command::Spawn { player: P, ship: ShipId(0), at: SystemId(0), capital: 1 }]).unwrap();
    run(&mut w, &[Command::Despawn { player: PlayerId(1), trader: TraderId(0) }]).unwrap();
    assert_eq!(w.last_command_errors().to_vec(), vec![CommandError::NotOwner]);
    assert_eq!(w.traders().len(), 1);
}

#[test]
fn industry_runs_and_prices_ease() {
    let mut w = world(0);
    let applied = w.run_industry(0, 0, 2);
    assert_eq!(applied, 2);
    assert_eq!(w.markets()[0].stock(CommodityId(0)), 110);
    w.apply_price_targets(&vec![vec![20, 1], vec![5]]);
    assert_eq!(w.markets()[0].price(CommodityId(0)), Some(12));
    assert_eq!(w.markets()[1].price(CommodityId(0)), Some(9));
}

#[test]
fn trades_move_goods_and_credits() {
    let mut w = world(1);
    let plan = TradePlan {
        commodity: CommodityId(0),
        dest: SystemId(1),
        qty: 20,
        unit_cost: 10,
        profit: 100,
        score: 100,
    };
    w.execute_trade(0, plan, 3);
    assert_eq!(w.markets()[0].stock(CommodityId(0)), 80);
    assert_eq!(w.traders()[0].capital, 800);
    assert_eq!(w.traders()[0].cargo_units(), 20);
    assert_eq!(w.resolve_arrival(0), None);
    for _ in 0..3 {
        w.advance_tick();
    }
    assert_eq!(w.resolve_arrival(0), Some(SystemId(1)));
    w.sell_all(0);
    assert_eq!(w.traders()[0].capital, 1000);
    assert!(w.traders()[0].cargo.is_empty());
    assert_eq!(w.markets()[1].stock(CommodityId(0)), 40);
}

#[test]
fn ambush_outcomes_are_settled() {
    let mut sc = scenario(2);
    sc.piracy = Some(PiracyConfig {
        pirate_ship: "core:cobra".to_string(),
        base_ambush_chance: 0.5,
        max_pirates: 4,
        respawn_delay: 10,
        fleet_size: 2,
        bounty: 100,
        reinforce_interval: 5,
    });
    let placements = vec![SystemId(0), SystemId(0)];
    let mut w = World::new(registry(), &sc, &placements, &builtin_pricing()).unwrap();
    w.settle_ambush(0, SystemId(1), 3, true, 2, 1);
    assert_eq!(w.traders()[0].capital, 1200);
    w.settle_ambush(1, SystemId(1), 1, false, 0, 0);
    assert_eq!(w.traders()[1].location, TraderLocation::Destroyed { respawn: Tick(10) });
    let st = w.piracy_stats();
    assert_eq!((st.ambushes, st.traders_lost, st.pirates_destroyed, st.bounties_paid, st.navy_lost), (2, 1, 2, 200, 1));
    w.record_navy_battle(1, 3);
    assert_eq!(w.piracy_stats().pirates_suppressed, 3);
    assert!(!w.respawn_due(1));
    for _ in 0..10 {
        w.advance_tick();
    }
    assert!(w.respawn_due(1));
    w.respawn_at(1, SystemId(1));
    assert_eq!(w.traders()[1].location, TraderLocation::Docked(SystemId(1)));
    let log: Vec<(EventCategory, String)> = w.events().iter().map(|e| (e.category, e.message.clone())).collect();
    assert_eq!(
        log,
        vec![
            (EventCategory::Combat, "Ambush near core:diso: trader #0 beat 3 pirate(s), killed 2 (+200cr)".to_string()),
            (EventCategory::Piracy, "Ambush near core:diso: trader #1 destroyed, cargo lost".to_string()),
            (EventCategory::System, "Trader #1 respawned at core:diso".to_string()),
        ]
    );
    assert_eq!(w.events()[2].tick, Tick(10));
}

#[test]
fn events_of_the_latest_tick_are_read_back() {
    let mut w = world(0);
    w.log_event(EventCategory::System, "boot".to_string());
    w.advance_tick();
    w.log_event(EventCategory::Combat, "a".to_string());
    w.log_event(EventCategory::Navy, "b".to_string());
    let latest = w.trailing_events(Tick(1));
    let msgs: Vec<&str> = latest.iter().map(|e| e.message.as_str()).collect();
    assert_eq!(msgs, vec!["a", "b"]);
    assert!(w.trailing_events(Tick(0)).is_empty());
    assert_eq!(w.events().len(), 3);
}

#[test]
fn the_event_log_is_bounded() {
    let mut w = world(0);
    for k in 0..(EVENT_CAP + 5) {
        w.log_event(EventCategory::System, format!("e{}", k));
    }
    assert_eq!(w.events().len(), EVENT_CAP);
    assert_eq!(w.events()[0].message, "e5");
    // Dropping old events keeps the latest tick's events whole.
    w.advance_tick();
    for k in 0..3 {
        w.log_event(EventCategory::Combat, format!("late{}", k));
    }
    assert_eq!(w.events().len(), EVENT_CAP);
    let late: Vec<String> = w.trailing_events(Tick(1)).iter().map(|e| e.message.clone()).collect();
    assert_eq!(late, vec!["late0".to_string(), "late1".to_string(), "late2".to_string()]);
}

#[test]
fn manifest_overrides_are_explicit() {
    let m = Manifest {
        id: "extra".to_string(),
        name: "Extra".to_string(),
        version: "0.1.0".to_string(),
        dependencies: vec!["core".to_string()],
        overrides: vec!["core:food".to_string()],
    };
    assert!(m.overrides("core:food"));
    assert!(!m.overrides("core:ore"));
}

#[test]
fn pricing_names_lists_the_builtin() {
    assert_eq!(pricing_names(), vec!["supply_demand_v1".to_string()]);
    let reg = builtin_pricing();
    assert_eq!(reg.names(), vec!["supply_demand_v1"]);
    assert_eq!(reg.resolve("nope"), Err(drift::hook::UnknownStrategy("nope".to_string())));
}

#[test]
fn a_trader_turn_docks_sells_and_seeks_routes() {
    let mut w = world(1);
    assert_eq!(w.trader_turn(0), TraderTurn::SeekRoute(SystemId(0)));
    let plan = TradePlan { commodity: CommodityId(0), dest: SystemId(1), qty: 5, unit_cost: 10, profit: 0, score: 0 };
    w.execute_trade(0, plan, 2);
    assert_eq!(w.trader_turn(0), TraderTurn::InTransit);
    w.advance_tick();
    w.advance_tick();
    assert_eq!(w.trader_turn(0), TraderTurn::Sold(SystemId(1)));
    assert_eq!(w.traders()[0].capital, 1000);
    assert_eq!(w.traders()[0].location, TraderLocation::Docked(SystemId(1)));
    assert_eq!(w.markets()[1].stock(CommodityId(0)), 25);
    assert_eq!(w.trader_turn(0), TraderTurn::SeekRoute(SystemId(1)));
}

#[test]
fn player_and_destroyed_traders_take_no_autonomous_turn() {
    let mut sc = scenario(1);
    sc.piracy = Some(PiracyConfig {
        pirate_ship: "core:cobra".to_string(),
        base_ambush_chance: 0.5,
        max_pirates: 4,
        respawn_delay: 2,
        fleet_size: 2,
        bounty: 100,
        reinforce_interval: 5,
    });
    let mut w = World::new(registry(), &sc, &vec![SystemId(0)], &builtin_pricing()).unwrap();
    run(&mut w, &[Command::Spawn { player: P, ship: ShipId(0), at: SystemId(1), capital: 5 }]).unwrap();
    assert_eq!(w.trader_turn(1), TraderTurn::PlayerDocked(SystemId(1)));
    w.settle_ambush(0, SystemId(0), 1, false, 0, 0);
    assert_eq!(w.trader_turn(0), TraderTurn::Destroyed { due: false });
    w.advance_tick();
    w.advance_tick();
    assert_eq!(w.trader_turn(0), TraderTurn::Destroyed { due: true });
}

#[test]
fn deadheading_prefers_the_best_onward_trade() {
    let onward = vec![
        (SystemId(1), Some(5)),
        (SystemId(2), Some(9)),
        (SystemId(3), None),
        (SystemId(0), Some(9)),
    ];
    assert_eq!(best_reposition(&onward), Some(SystemId(0)));
    assert_eq!(best_reposition(&[(SystemId(4), None)]), None);
    assert_eq!(best_reposition(&[]), None);
}

#[test]
fn only_laden_traders_in_transit_are_exposed() {
    let mut w = world(2);
    assert_eq!(w.ambush_exposure(0), None);
    let plan = TradePlan { commodity: CommodityId(0), dest: SystemId(1), qty: 1, unit_cost: 10, profit: 0, score: 0 };
    w.execute_trade(0, plan, 4);
    assert_eq!(w.ambush_exposure(0), Some(SystemId(1)));
    w.depart(1, SystemId(0), 4);
    assert_eq!(w.ambush_exposure(1), None);
}

#[test]
fn a_wealthy_player_with_cargo_still_takes_turns() {
    let mut w = world(0);
    let rich = i64::MAX - 5;
    run(&mut w, &[Command::Spawn { player: P, ship: ShipId(0), at: SystemId(0), capital: rich }]).unwrap();
    let t = TraderId(0);
    run(&mut w, &[Command::Buy { player: P, trader: t, commodity: CommodityId(0), qty: 1 }]).unwrap();
    run(&mut w, &[Command::Jump { player: P, trader: t, dest: SystemId(1) }]).unwrap();
    assert_eq!(w.trader_turn(0), TraderTurn::InTransit);
    for _ in 0..3 {
        w.advance_tick();
    }
    assert_eq!(w.trader_turn(0), TraderTurn::PlayerDocked(SystemId(1)));
    assert_eq!(w.traders()[0].capital, rich - 10);
    assert_eq!(w.traders()[0].cargo.get(CommodityId(0)), Some(&1));
    assert_eq!(w.markets()[1].stock(CommodityId(0)), 20);
}

#[test]
fn a_despawned_id_never_resolves_again() {
    let mut w = world(0);
    let spawn = Command::Spawn { player: P, ship: ShipId(0), at: SystemId(0), capital: 100 };
    run(&mut w, &[spawn]).unwrap();
    run(&mut w, &[Command::Despawn { player: P, trader: TraderId(0) }]).unwrap();
    run(&mut w, &[spawn, spawn]).unwrap();
    let stale = TraderId(0);
    run(
        &mut w,
        &[
            Command::Despawn { player: P, trader: stale },
            Command::Jump { player: P, trader: stale, dest: SystemId(1) },
            Command::Buy { player: P, trader: stale, commodity: CommodityId(0), qty: 1 },
            Command::Sell { player: P, trader: stale, commodity: CommodityId(0), qty: 1 },
        ],
    )
    .unwrap();
    assert_eq!(w.last_command_errors().to_vec(), vec![CommandError::UnknownTrader; 4]);
}

fn piracy_world(max_pirates: u32) -> World<f64> {
    let mut sc = scenario(1);
    sc.piracy = Some(PiracyConfig {
        pirate_ship: "core:cobra".to_string(),
        base_ambush_chance: 0.5,
        max_pirates,
        respawn_delay: 5,
        fleet_size: 3,
        bounty: 100,
        reinforce_interval: 5,
    });
    sc.navy = Some(NavyConfig { ship: "core:cobra".to_string(), fleet_size: 2, reinforce_interval: 7 });
    World::new(registry(), &sc, &vec![SystemId(0)], &builtin_pricing()).unwrap()
}

#[test]
fn a_new_world_has_no_fleets_until_the_host_spawns_them() {
    let mut w = piracy_world(2);
    assert!(w.pirates().is_empty());
    assert!(w.navy().is_empty());
    w.add_patrol(false, Patrol::new(ShipId(0), 50, 4.0, SystemId(1)));
    w.add_patrol(true, Patrol::new(ShipId(0), 80, 6.0, SystemId(0)));
    assert_eq!(w.pirates().len(), 1);
    assert_eq!(w.navy()[0].hull, 80);
    assert_eq!(w.pirates()[0].docked_at(), Some(SystemId(1)));
}

#[test]
fn patrols_roam_and_arrive() {
    let mut w = piracy_world(2);
    w.add_patrol(false, Patrol::new(ShipId(0), 50, 4.0, SystemId(1)));
    w.patrol_depart(false, 0, SystemId(0), 2);
    assert_eq!(
        w.pirates()[0].location,
        PatrolLocation::InTransit { origin: SystemId(1), dest: SystemId(0), departure: Tick(0), arrival: Tick(2) }
    );
    w.advance_tick();
    w.settle_patrol_arrivals(false);
    assert_eq!(w.pirates()[0].docked_at(), None);
    w.advance_tick();
    w.settle_patrol_arrivals(false);
    assert_eq!(w.pirates()[0].docked_at(), Some(SystemId(0)));
    w.set_patrol_shield(false, 0, 9.5);
    assert_eq!(w.pirates()[0].shield, 9.5);
}

#[test]
fn docked_indices_list_live_patrols_in_order() {
    let fleet = vec![
        Patrol::new(ShipId(0), 10, 0.0, SystemId(1)),
        Patrol::new(ShipId(0), 0, 0.0, SystemId(1)),
        Patrol::new(ShipId(0), 10, 0.0, SystemId(0)),
        Patrol::new(ShipId(0), 3, 0.0, SystemId(1)),
    ];
    assert_eq!(indices_docked_at(&fleet, SystemId(1)), vec![0, 3]);
    assert_eq!(indices_docked_at(&fleet, SystemId(5)), Vec::<usize>::new());
}

#[test]
fn the_navy_thins_the_pirates_it_finds() {
    let mut w = piracy_world(2);
    w.add_patrol(false, Patrol::new(ShipId(0), 50, 4.0, SystemId(1)));
    w.add_patrol(false, Patrol::new(ShipId(0), 50, 4.0, SystemId(1)));
    w.add_patrol(true, Patrol::new(ShipId(0), 80, 6.0, SystemId(1)));
    // No pirates at system 0: nothing happens.
    w.navy_battle(SystemId(0), &[], &[]);
    assert!(w.events().is_empty());
    w.navy_battle(SystemId(1), &[(0, 0.0, false)], &[(0, 0.0, false), (20, 1.0, true)]);
    assert_eq!(w.pirates()[1].hull, 20);
    assert_eq!(w.navy()[0].hull, 0);
    let st = w.piracy_stats();
    assert_eq!((st.navy_lost, st.pirates_suppressed), (1, 1));
    assert_eq!(w.events()[0].message, "Navy engaged pirates at core:diso: 1 destroyed, 1 frigate(s) lost");
    assert_eq!(w.events()[0].category, EventCategory::Navy);
    w.cull_dead();
    assert_eq!(w.pirates().len(), 1);
    assert!(w.navy().is_empty());
}

#[test]
fn an_ambush_writes_back_damage_and_settles() {
    let mut w = piracy_world(2);
    for _ in 0..3 {
        w.add_patrol(false, Patrol::new(ShipId(0), 50, 4.0, SystemId(1)));
    }
    w.add_patrol(true, Patrol::new(ShipId(0), 80, 6.0, SystemId(1)));
    assert_eq!(w.engaged_pirates(SystemId(1)), vec![0, 1]);
    assert_eq!(w.engaged_pirates(SystemId(0)), Vec::<usize>::new());
    // No pirates where the trader goes: nothing happens.
    w.resolve_ambush(0, SystemId(0), &[], &[], true);
    assert_eq!(w.piracy_stats().ambushes, 0);
    w.resolve_ambush(0, SystemId(1), &[(70, 0.0, true)], &[(0, 0.0, false), (12, 0.5, true)], true);
    assert_eq!(w.pirates()[0].hull, 0);
    assert_eq!(w.pirates()[1].hull, 12);
    assert_eq!(w.pirates()[2].hull, 50);
    assert_eq!(w.navy()[0].hull, 70);
    assert_eq!(w.traders()[0].capital, 1100);
    let st = w.piracy_stats();
    assert_eq!((st.ambushes, st.pirates_destroyed, st.navy_lost, st.bounties_paid), (1, 1, 0, 100));
    assert_eq!(w.events()[0].message, "Ambush near core:diso: trader #0 beat 2 pirate(s), killed 1 (+100cr)");
}
