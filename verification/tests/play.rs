use drift::data::{CommodityDef, MergedContent, ShipDef, SystemDef};
use drift::play::{parse_action, Action};
use drift::registry::{link, Registry};
use drift::session::pricing_names;

fn commodity(id: &str, name: &str) -> CommodityDef<f64> {
    CommodityDef {
        id: id.to_string(),
        name: name.to_string(),
        base_price: 10,
        unit_mass: 1,
        elasticity: 0.0,
        category: "raw".to_string(),
    }
}

fn system(id: &str, name: &str, connections: &[&str]) -> SystemDef<f64> {
    SystemDef {
        id: id.to_string(),
        name: name.to_string(),
        position: [0.0, 0.0],
        industries: vec![],
        connections: connections.iter().map(|s| s.to_string()).collect(),
        initial_stock: vec![],
        pricing: "supply_demand_v1".to_string(),
        danger: 0.0,
    }
}

fn reg() -> Registry<f64> {
    let content = MergedContent {
        commodities: vec![commodity("core:ore", "Ore"), commodity("core:food", "Food"), commodity("mod:spice", "Spice")],
        recipes: vec![],
        systems: vec![system("core:lave", "Lave", &["core:leesti"]), system("core:leesti", "Leesti", &["core:lave"])],
        ships: vec![ShipDef {
            id: "core:cobra_mk3".to_string(),
            name: "Cobra Mk III".to_string(),
            cargo_capacity: 20,
            jump_speed: 1.0,
            hull: 100,
            max_speed: 1.0,
            combat: None,
        }],
    };
    link(content, &pricing_names()).unwrap()
}

#[test]
fn parses_actions_and_resolves_names() {
    let r = reg();
    let food = r.commodity_id("core:food").unwrap();
    let leesti = r.system_id("core:leesti").unwrap();
    assert_eq!(parse_action("buy food 10", &r), Ok(Action::Buy(food, 10)));
    assert_eq!(parse_action("b Food 3", &r), Ok(Action::Buy(food, 3)));
    assert_eq!(parse_action("sell core:food 5", &r), Ok(Action::Sell(food, 5)));
    assert_eq!(parse_action("jump leesti", &r), Ok(Action::Jump(leesti)));
    assert_eq!(parse_action("wait 4", &r), Ok(Action::Wait(4)));
    assert_eq!(parse_action("wait", &r), Ok(Action::Wait(1)));
    assert_eq!(parse_action("s", &r), Ok(Action::Status));
    assert_eq!(parse_action("map", &r), Ok(Action::ShowMap));
    assert_eq!(parse_action("quit", &r), Ok(Action::Quit));
    // Errors:
    assert!(parse_action("buy nope 1", &r).is_err());
    assert!(parse_action("buy food xx", &r).is_err());
    assert!(parse_action("buy food", &r).is_err());
    assert!(parse_action("frobnicate", &r).is_err());
}

#[test]
fn verbs_ignore_case_and_spacing() {
    let r = reg();
    let ore = r.commodity_id("core:ore").unwrap();
    assert_eq!(parse_action("  BUY\tore   +7 \n", &r), Ok(Action::Buy(ore, 7)));
    assert_eq!(parse_action("Sell ORE 1", &r), Ok(Action::Sell(ore, 1)));
    assert_eq!(parse_action("LOOK", &r), Ok(Action::Status));
    assert_eq!(parse_action("l", &r), Ok(Action::Status));
    assert_eq!(parse_action("?", &r), Ok(Action::Help));
    assert_eq!(parse_action("H", &r), Ok(Action::Help));
    assert_eq!(parse_action("exit now", &r), Ok(Action::Quit));
    assert_eq!(parse_action("w 12 extra", &r), Ok(Action::Wait(12)));
    assert_eq!(parse_action("J\u{3000}LAVE", &r), Ok(Action::Jump(r.system_id("core:lave").unwrap())));
}

#[test]
fn names_resolve_by_id_short_id_or_display_name() {
    let r = reg();
    let spice = r.commodity_id("mod:spice").unwrap();
    assert_eq!(parse_action("buy mod:spice 1", &r), Ok(Action::Buy(spice, 1)));
    assert_eq!(parse_action("buy SPICE 1", &r), Ok(Action::Buy(spice, 1)));
    // Only the `core:` namespace may be left out.
    assert_eq!(parse_action("buy mod 1", &r), Err("no such commodity `mod`".to_string()));
    assert_eq!(parse_action("jump core:leesti", &r), Ok(Action::Jump(r.system_id("core:leesti").unwrap())));
}

#[test]
fn errors_say_what_is_wrong() {
    let r = reg();
    assert_eq!(parse_action("   ", &r), Err("type a command (try `help`)".to_string()));
    assert_eq!(parse_action("buy food", &r), Err("usage: buy <commodity> <qty>".to_string()));
    assert_eq!(parse_action("sell food 1 2", &r), Err("usage: sell <commodity> <qty>".to_string()));
    assert_eq!(parse_action("buy nope 1", &r), Err("no such commodity `nope`".to_string()));
    assert_eq!(parse_action("buy food xx", &r), Err("`xx` is not a number".to_string()));
    assert_eq!(parse_action("buy food -3", &r), Err("`-3` is not a number".to_string()));
    assert_eq!(parse_action("buy food 4294967296", &r), Err("`4294967296` is not a number".to_string()));
    assert_eq!(parse_action("buy food 4294967295", &r), Ok(Action::Buy(r.commodity_id("core:food").unwrap(), u32::MAX)));
    assert_eq!(parse_action("buy food +", &r), Err("`+` is not a number".to_string()));
    // Quantities are positive.
    assert_eq!(parse_action("buy food 0", &r), Err("`0` is not a number".to_string()));
    assert_eq!(parse_action("sell ore +0", &r), Err("`+0` is not a number".to_string()));
    assert_eq!(parse_action("wait 0", &r), Err("`0` is not a number".to_string()));
    assert_eq!(parse_action("jump", &r), Err("usage: jump <system>".to_string()));
    assert_eq!(parse_action("jump diso", &r), Err("no such system `diso`".to_string()));
    assert_eq!(parse_action("wait soon", &r), Err("`soon` is not a number".to_string()));
    assert_eq!(parse_action("Frobnicate", &r), Err("unknown command `frobnicate` (try `help`)".to_string()));
}
