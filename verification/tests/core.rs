use drift::ids::{CommodityId, Interner};
use drift::pricing::{builtin_pricing, PricingStrategy};
use drift::step::SimContext;
use drift::time::Tick;

#[test]
fn intern_is_stable_and_bidirectional() {
    let mut it = Interner::new();
    let a = it.intern("core:food");
    let b = it.intern("core:ore");
    let a2 = it.intern("core:food");
    assert_eq!(a, a2, "re-interning yields the same id");
    assert_ne!(a, b);
    assert_eq!(it.name(a), Some("core:food"));
    assert_eq!(it.name(b), Some("core:ore"));
    assert_eq!(it.len(), 2);
}

#[test]
fn get_does_not_insert() {
    let mut it = Interner::new();
    it.intern("core:food");
    assert_eq!(it.get("core:missing"), None);
    assert_eq!(it.len(), 1, "get must not create new ids");
}

#[test]
fn typed_id_index_roundtrip() {
    let id = CommodityId::from(7);
    assert_eq!(id.index(), 7);
    assert_eq!(id, CommodityId(7));
}

#[test]
fn ticks_advance() {
    let t = Tick(0);
    assert_eq!(t.get(), 0);
    assert_eq!(t.next().get(), 1);
    assert_eq!(t.next().next(), Tick(2));
}

#[test]
fn registry_resolves_builtin() {
    let reg = builtin_pricing();
    assert!(reg.contains("supply_demand_v1"));
    assert_eq!(reg.resolve("supply_demand_v1"), Ok(&PricingStrategy::SupplyDemandV1));
}

#[test]
fn sim_context_lends_the_random_stream() {
    let mut stream: u64 = 5;
    {
        let ctx = SimContext::new(Tick(3), &mut stream);
        assert_eq!(ctx.tick, Tick(3));
        assert_eq!(*ctx.rng, 5);
        *ctx.rng = 9;
    }
    assert_eq!(stream, 9);
}

#[test]
fn interner_lists_names_in_id_order() {
    let mut it = Interner::new();
    assert!(it.is_empty());
    it.intern("core:b");
    it.intern("core:a");
    it.intern("core:b");
    assert_eq!(it.iter(), vec![(0, "core:b"), (1, "core:a")]);
    assert_eq!(it.get("core:a"), Some(1));
    assert_eq!(it.name(2), None);
    assert!(!it.is_empty());
}

#[test]
fn interning_again_changes_nothing() {
    let mut it = Interner::new();
    let a = it.intern("core:food");
    it.intern("core:ore");
    let before = it.iter().into_iter().map(|(i, n)| (i, n.to_string())).collect::<Vec<_>>();
    assert_eq!(it.intern("core:food"), a);
    let after = it.iter().into_iter().map(|(i, n)| (i, n.to_string())).collect::<Vec<_>>();
    assert_eq!(before, after);
    assert_eq!(it.get("core:food"), Some(a));
    assert_eq!(it.name(a), Some("core:food"));
}
