use drift::idmap::CommodityMap;
use drift::ids::{CommodityId, RecipeId, SystemId};
use drift::market::{Market, MarketGood};
use drift::pricing::{smoothed, PricingStrategy};
use drift::production::{apply_recipe, response_signal, run_recipe, ResolvedRecipe};
use drift::trader::{best_trade, trade_options, TradePlan};

fn good(stock: u32) -> MarketGood {
    MarketGood { stock, equilibrium: 100, price: 100 }
}

fn market(goods: &[(u32, u32)]) -> Market {
    let mut m = CommodityMap::new();
    for (c, stock) in goods {
        m.insert(CommodityId(*c), good(*stock));
    }
    Market { system: SystemId(0), pricing: PricingStrategy::SupplyDemandV1, goods: m }
}

fn recipe(inputs: Vec<(CommodityId, u32)>, outputs: Vec<(CommodityId, u32)>, rate: u32, elasticity: f64) -> ResolvedRecipe<f64> {
    ResolvedRecipe { id: RecipeId(0), inputs, outputs, rate, elasticity }
}

fn market_with(system: u32, goods: &[(u32, u32, i64)]) -> Market {
    // goods: (commodity, stock, price)
    let mut m = CommodityMap::new();
    for &(c, stock, price) in goods {
        m.insert(CommodityId(c), MarketGood { stock, equilibrium: 100, price });
    }
    Market { system: SystemId(system), pricing: PricingStrategy::SupplyDemandV1, goods: m }
}

/// The risk-neutral choice: the best of every feasible trade, with unit mass 1.
fn pick_trade(here: &Market, neighbors: &[&Market], capital: i64, capacity: u32) -> Option<TradePlan> {
    let masses = vec![1u32; 16];
    best_trade(&trade_options(here, neighbors, capital, capacity, &masses))
}

#[test]
fn raw_producer_adds_output() {
    let mut m = market(&[(0, 0)]);
    let r = recipe(vec![], vec![(CommodityId(0), 5)], 3, 0.0);
    run_recipe(&mut m, &r);
    assert_eq!(m.stock(CommodityId(0)), 15); // 5 * rate 3
}

#[test]
fn refiner_consumes_inputs_and_produces_outputs() {
    let mut m = market(&[(0, 10), (1, 0)]);
    let r = recipe(vec![(CommodityId(0), 2)], vec![(CommodityId(1), 1)], 3, 0.0);
    run_recipe(&mut m, &r);
    assert_eq!(m.stock(CommodityId(0)), 10 - 6, "consumed 2*3 ore");
    assert_eq!(m.stock(CommodityId(1)), 3, "produced 1*3 alloys");
}

#[test]
fn halts_when_inputs_insufficient() {
    let mut m = market(&[(0, 2), (1, 0)]);
    let r = recipe(vec![(CommodityId(0), 2)], vec![(CommodityId(1), 1)], 5, 0.0);
    run_recipe(&mut m, &r);
    assert_eq!(m.stock(CommodityId(0)), 0, "all available ore consumed");
    assert_eq!(m.stock(CommodityId(1)), 1, "only one application ran");
}

#[test]
fn consumer_recipe_drains_stock() {
    let mut m = market(&[(0, 10)]);
    let r = recipe(vec![(CommodityId(0), 2)], vec![], 3, 0.0);
    run_recipe(&mut m, &r);
    assert_eq!(m.stock(CommodityId(0)), 4, "consumed 2*3, produced nothing");
}

#[test]
fn response_signal_prefers_input_demand_side() {
    let producer = recipe(vec![], vec![(CommodityId(7), 1)], 1, 0.5);
    assert_eq!(response_signal(&producer), Some((CommodityId(7), true)));
    let refiner = recipe(vec![(CommodityId(3), 2)], vec![(CommodityId(4), 1)], 1, 0.5);
    assert_eq!(response_signal(&refiner), Some((CommodityId(3), false)));
    let consumer = recipe(vec![(CommodityId(3), 1)], vec![], 1, 0.5);
    assert_eq!(response_signal(&consumer), Some((CommodityId(3), false)));
}

#[test]
fn response_signal_is_none_without_lines() {
    let idle = recipe(vec![], vec![], 1, 0.5);
    assert_eq!(response_signal(&idle), None);
}

#[test]
fn apply_recipe_respects_count_and_starvation() {
    let mut m = market(&[(0, 4), (1, 0)]);
    let r = recipe(vec![(CommodityId(0), 2)], vec![(CommodityId(1), 1)], 10, 0.0);
    let applied = apply_recipe(&mut m, &r, 5);
    assert_eq!(applied, 2);
    assert_eq!(m.stock(CommodityId(1)), 2);
}

#[test]
fn apply_recipe_runs_exactly_count_when_stocked() {
    let mut m = market(&[(0, 100), (1, 0)]);
    let r = recipe(vec![(CommodityId(0), 2)], vec![(CommodityId(1), 3)], 10, 0.0);
    assert_eq!(apply_recipe(&mut m, &r, 4), 4);
    assert_eq!(m.stock(CommodityId(0)), 92);
    assert_eq!(m.stock(CommodityId(1)), 12);
    // Prices are untouched by production.
    assert_eq!(m.price(CommodityId(0)), Some(100));
}

#[test]
fn outputs_into_untraded_goods_are_dropped() {
    let mut m = market(&[(0, 0)]);
    let r = recipe(vec![], vec![(CommodityId(5), 4)], 2, 0.0);
    run_recipe(&mut m, &r);
    assert_eq!(m.stock(CommodityId(5)), 0);
    assert!(!m.has(CommodityId(5)));
}

#[test]
fn picks_positive_spread_route() {
    let here = market_with(0, &[(0, 100, 50)]);
    let there = market_with(1, &[(0, 100, 90)]);
    let plan = pick_trade(&here, &[&there], 10_000, 100).unwrap();
    assert_eq!(plan.commodity, CommodityId(0));
    assert_eq!(plan.dest, SystemId(1));
    assert_eq!(plan.unit_cost, 50);
    assert!(plan.qty > 0);
}

#[test]
fn no_trade_when_no_positive_spread() {
    let here = market_with(0, &[(0, 100, 90)]);
    let there = market_with(1, &[(0, 100, 50)]);
    assert!(pick_trade(&here, &[&there], 10_000, 100).is_none());
}

#[test]
fn quantity_bounded_by_capital_hold_and_stock() {
    let here = market_with(0, &[(0, 5, 50)]);
    let there = market_with(1, &[(0, 100, 200)]);
    let plan = pick_trade(&here, &[&there], 1000, 100).unwrap();
    assert_eq!(plan.qty, 5);
}

#[test]
fn prefers_higher_total_profit() {
    let here = market_with(0, &[(0, 100, 50), (1, 5, 10)]);
    let there = market_with(1, &[(0, 100, 60), (1, 100, 50)]);
    let plan = pick_trade(&here, &[&there], 100_000, 1000).unwrap();
    assert_eq!(plan.commodity, CommodityId(0));
}

#[test]
fn trade_quantity_bounded_by_capital_and_hold() {
    // Capital buys 20 at 50 each; the hold takes 100 / mass 4 = 25.
    let here = market_with(0, &[(0, 100, 50)]);
    let there = market_with(1, &[(0, 100, 80)]);
    let masses = vec![4u32];
    let plans = trade_options(&here, &[&there], 1000, 100, &masses);
    assert_eq!(plans.len(), 1);
    assert_eq!(plans[0].qty, 20);
    assert_eq!(plans[0].profit, 600);
    assert_eq!(plans[0].score, 600);
    let by_hold = trade_options(&here, &[&there], 100_000, 100, &masses);
    assert_eq!(by_hold[0].qty, 25);
}

#[test]
fn trade_options_list_goods_then_neighbours() {
    let here = market_with(0, &[(0, 10, 10), (2, 10, 10)]);
    let a = market_with(1, &[(0, 10, 20), (2, 10, 5)]);
    let b = market_with(2, &[(0, 10, 15), (2, 10, 30)]);
    let masses = vec![1u32; 3];
    let plans = trade_options(&here, &[&a, &b], 1000, 1000, &masses);
    let keys: Vec<(u32, u32)> = plans.iter().map(|p| (p.commodity.0, p.dest.0)).collect();
    assert_eq!(keys, vec![(0, 1), (0, 2), (2, 2)]);
    // Best: good 2 to system 2 (spread 20 * 10 = 200).
    let best = best_trade(&plans).unwrap();
    assert_eq!((best.commodity, best.dest, best.profit), (CommodityId(2), SystemId(2), 200));
}

#[test]
fn best_trade_breaks_ties_by_commodity_then_destination() {
    let p = |c: u32, d: u32, score: i64| TradePlan {
        commodity: CommodityId(c),
        dest: SystemId(d),
        qty: 1,
        unit_cost: 1,
        profit: score,
        score,
    };
    let plans = vec![p(3, 1, 50), p(1, 4, 50), p(1, 2, 50), p(0, 0, 10)];
    let best = best_trade(&plans).unwrap();
    assert_eq!((best.commodity, best.dest), (CommodityId(1), SystemId(2)));
    assert!(best_trade(&Vec::new()).is_none());
}

#[test]
fn broke_trader_finds_no_trade() {
    let here = market_with(0, &[(0, 100, 50)]);
    let there = market_with(1, &[(0, 100, 90)]);
    assert!(pick_trade(&here, &[&there], 0, 100).is_none());
    assert!(pick_trade(&here, &[&there], 49, 100).is_none());
}

#[test]
fn try_remove_is_all_or_nothing() {
    let mut m = market(&[(0, 5)]);
    assert!(!m.try_remove(CommodityId(0), 6));
    assert_eq!(m.stock(CommodityId(0)), 5);
    assert!(m.try_remove(CommodityId(0), 5));
    assert_eq!(m.stock(CommodityId(0)), 0);
    assert!(!m.try_remove(CommodityId(9), 1));
}

#[test]
fn remove_then_add_restores_stock() {
    let mut m = market(&[(0, 40)]);
    assert!(m.try_remove(CommodityId(0), 15));
    m.add(CommodityId(0), 15);
    assert_eq!(m.stock(CommodityId(0)), 40);
    assert_eq!(m.price(CommodityId(0)), Some(100));
}

#[test]
fn add_saturates_and_ignores_untraded_goods() {
    let mut m = market(&[(0, u32::MAX - 1)]);
    m.add(CommodityId(0), 10);
    assert_eq!(m.stock(CommodityId(0)), u32::MAX);
    m.add(CommodityId(3), 10);
    assert!(!m.has(CommodityId(3)));
    assert_eq!(m.price(CommodityId(3)), None);
}

#[test]
fn reprice_eases_toward_targets() {
    let mut m = market(&[(0, 1), (1, 1)]);
    m.reprice(&vec![200, 50]);
    assert_eq!(m.price(CommodityId(0)), Some(120));
    assert_eq!(m.price(CommodityId(1)), Some(90));
    assert_eq!(m.stock(CommodityId(0)), 1);
}

#[test]
fn smoothing_closes_a_fifth_of_the_gap() {
    assert_eq!(smoothed(100, 200), 120);
    assert_eq!(smoothed(100, 50), 90);
    assert_eq!(smoothed(100, 100), 100);
    assert_eq!(smoothed(100, 103), 101); // 0.6 rounds up
    assert_eq!(smoothed(100, 102), 100); // 0.4 rounds down
    assert_eq!(smoothed(100, 97), 99); // -0.6 rounds to -1
    assert_eq!(smoothed(100, 98), 100); // -0.4 rounds to 0
    assert_eq!(smoothed(1, -100), 1); // floored at 1
}

#[test]
fn smoothing_settles_next_to_the_target() {
    // Each step moves toward 10 and never past it; the last two credits of
    // gap round away, so the price settles at 12.
    let mut p = 1000;
    for _ in 0..100 {
        let next = smoothed(p, 10);
        assert!(10 <= next && next <= p);
        p = next;
    }
    assert_eq!(p, 12);
}

#[test]
fn a_recipe_changes_stock_by_its_lines_per_run() {
    // A good that is both taken (2) and given (5) gains 3 per run.
    let mut m = market(&[(0, 10), (1, 7)]);
    let r = recipe(vec![(CommodityId(0), 2), (CommodityId(1), 1)], vec![(CommodityId(0), 5)], 3, 0.0);
    let k = apply_recipe(&mut m, &r, 3);
    assert_eq!(k, 3);
    assert_eq!(m.stock(CommodityId(0)), 10 + 3 * (5 - 2));
    assert_eq!(m.stock(CommodityId(1)), 7 - 3);
}
