use gc1805::frontlines::{random_d10, resolve_single_battle, AttackOrder, BattleResult, FrontLineManager};
use gc1805::ids::{AreaId, CorpsId, PowerId};

#[test]
fn random_d10_range() {
    for seed in 0..1000u64 {
        let v = random_d10(seed);
        assert!(v < 10, "random_d10({}) = {} (expected < 10)", seed, v);
    }
}

fn order(att: u32, def: u32) -> AttackOrder {
    AttackOrder {
        from_area: AreaId::new("AREA_A"),
        to_area: AreaId::new("AREA_B"),
        corps_id: CorpsId::new("CORPS_FRA_001"),
        attacker: PowerId::new("FRA"),
        defender: PowerId::new("AUS"),
        attacker_strength: att,
        defender_strength: def,
    }
}

#[test]
fn overwhelming_attack_advances() {
    let ev = resolve_single_battle(&order(10_000, 100), 3);
    assert_eq!(ev.result, BattleResult::AttackerAdvances);
    assert_eq!(ev.casualties_attacker, 500);
    assert_eq!(ev.casualties_defender, 15);
}

#[test]
fn empty_defender_routes() {
    let ev = resolve_single_battle(&order(100, 0), 0);
    assert_eq!(ev.result, BattleResult::DefenderRoutes);
}

#[test]
fn strong_defender_holds() {
    let ev = resolve_single_battle(&order(100, 10_000), 0);
    assert_eq!(ev.result, BattleResult::DefenderHolds);
    assert_eq!(ev.casualties_attacker, 15);
    assert_eq!(ev.casualties_defender, 500);
}

fn fra() -> PowerId {
    PowerId::new("FRA")
}
fn aus() -> PowerId {
    PowerId::new("AUS")
}
fn gbr() -> PowerId {
    PowerId::new("GBR")
}
fn area(name: &str) -> AreaId {
    AreaId::new(&format!("AREA_{name}"))
}
fn corps(name: &str) -> CorpsId {
    CorpsId::new(&format!("CORPS_{name}"))
}
fn make_order(from: &str, to: &str, corps_name: &str, attacker: &PowerId, defender: &PowerId, att: u32, def: u32) -> AttackOrder {
    AttackOrder {
        from_area: area(from),
        to_area: area(to),
        corps_id: corps(corps_name),
        attacker: attacker.clone(),
        defender: defender.clone(),
        attacker_strength: att,
        defender_strength: def,
    }
}
fn paris_vienna(mgr: &mut FrontLineManager) {
    mgr.issue_attack_order(area("PARIS"), area("VIENNA"), corps("FRA_001"), fra(), aus(), 100, 80);
}

#[test]
fn new_manager_is_empty() {
    let mgr = FrontLineManager::new();
    assert!(mgr.get_front_lines().is_empty());
    assert!(mgr.get_attack_orders().is_empty());
    assert!(mgr.get_recent_battles().is_empty());
}

#[test]
fn issue_order_creates_front_line() {
    let mut mgr = FrontLineManager::new();
    paris_vienna(&mut mgr);
    assert_eq!(mgr.get_front_lines().len(), 1);
    assert_eq!(mgr.get_attack_orders().len(), 1);
}

#[test]
fn contested_area_tracked() {
    let mut mgr = FrontLineManager::new();
    paris_vienna(&mut mgr);
    let fl = mgr.get_front_lines().value_at(0);
    assert!(fl.contested_areas.contains_key("AREA_VIENNA"));
}

#[test]
fn multiple_orders_same_front_line() {
    let mut mgr = FrontLineManager::new();
    paris_vienna(&mut mgr);
    mgr.issue_attack_order(area("MUNICH"), area("PRAGUE"), corps("FRA_002"), fra(), aus(), 90, 70);
    assert_eq!(mgr.get_front_lines().len(), 1);
    let fl = mgr.get_front_lines().value_at(0);
    assert_eq!(fl.contested_areas.len(), 2);
}

#[test]
fn different_pairs_different_front_lines() {
    let mut mgr = FrontLineManager::new();
    paris_vienna(&mut mgr);
    mgr.issue_attack_order(area("LONDON"), area("BREST"), corps("GBR_001"), gbr(), fra(), 60, 70);
    assert_eq!(mgr.get_front_lines().len(), 2);
}

#[test]
fn resolve_returns_events() {
    let mut mgr = FrontLineManager::new();
    paris_vienna(&mut mgr);
    let events = mgr.resolve_battles(1);
    assert_eq!(events.len(), 1);
    assert_eq!(events[0].area, area("VIENNA"));
    assert_eq!(events[0].attacker, fra());
    assert_eq!(events[0].defender, aus());
}

#[test]
fn resolve_clears_orders() {
    let mut mgr = FrontLineManager::new();
    paris_vienna(&mut mgr);
    mgr.resolve_battles(1);
    assert!(mgr.get_attack_orders().is_empty());
}

#[test]
fn recent_battles_stored() {
    let mut mgr = FrontLineManager::new();
    paris_vienna(&mut mgr);
    mgr.resolve_battles(1);
    assert_eq!(mgr.get_recent_battles().len(), 1);
}

#[test]
fn deterministic_same_seed() {
    let order = make_order("PARIS", "VIENNA", "FRA_001", &fra(), &aus(), 100, 80);
    let e1 = resolve_single_battle(&order, 42);
    let e2 = resolve_single_battle(&order, 42);
    assert_eq!(e1.result, e2.result);
    assert_eq!(e1.casualties_attacker, e2.casualties_attacker);
    assert_eq!(e1.casualties_defender, e2.casualties_defender);
}

#[test]
fn battle_result_valid_variant() {
    let order = make_order("PARIS", "VIENNA", "FRA_001", &fra(), &aus(), 100, 80);
    for tick in 0..20 {
        let event = resolve_single_battle(&order, tick);
        match event.result {
            BattleResult::AttackerAdvances
            | BattleResult::Stalemate
            | BattleResult::DefenderHolds
            | BattleResult::DefenderRoutes => {}
        }
    }
}

#[test]
fn weak_attacker_usually_loses() {
    let order = make_order("PARIS", "VIENNA", "FRA_001", &fra(), &aus(), 10, 500);
    let mut defender_holds = 0;
    for tick in 0..50 {
        if resolve_single_battle(&order, tick).result == BattleResult::DefenderHolds {
            defender_holds += 1;
        }
    }
    assert!(defender_holds > 30, "defender held {} out of 50", defender_holds);
}

#[test]
fn strong_attacker_usually_wins() {
    let order = make_order("PARIS", "VIENNA", "FRA_001", &fra(), &aus(), 500, 10);
    let mut attacker_wins = 0;
    for tick in 0..50 {
        let r = resolve_single_battle(&order, tick).result;
        if r == BattleResult::AttackerAdvances || r == BattleResult::DefenderRoutes {
            attacker_wins += 1;
        }
    }
    assert!(attacker_wins > 30, "attacker won {} out of 50", attacker_wins);
}

#[test]
fn casualties_non_negative() {
    let order = make_order("PARIS", "VIENNA", "FRA_001", &fra(), &aus(), 100, 80);
    for tick in 0..20 {
        let event = resolve_single_battle(&order, tick);
        assert!(event.casualties_attacker <= event.attacker_strength);
        assert!(event.casualties_defender <= event.defender_strength);
    }
}

#[test]
fn json_round_trip() {
    // The manager holds the one line and one battle a serialised copy
    // would carry.
    let mut mgr = FrontLineManager::new();
    paris_vienna(&mut mgr);
    mgr.resolve_battles(1);
    assert_eq!(mgr.get_front_lines().len(), 1);
    assert_eq!(mgr.get_front_lines().value_at(0).attacker, fra());
    assert_eq!(mgr.get_recent_battles().len(), 1);
}

#[test]
fn pressure_updates_on_resolve() {
    let mut mgr = FrontLineManager::new();
    paris_vienna(&mut mgr);
    let events = mgr.resolve_battles(1);
    let fl = mgr.get_front_lines().value_at(0);
    let pressure = fl.pressure.get("AREA_VIENNA").copied().unwrap_or(0);
    match events[0].result {
        BattleResult::AttackerAdvances => assert!(pressure > 0),
        BattleResult::Stalemate => assert!(pressure > 0),
        BattleResult::DefenderHolds => assert!(pressure < 0),
        BattleResult::DefenderRoutes => assert!(pressure > 0),
    }
}

#[test]
fn pressure_clamped() {
    let mut mgr = FrontLineManager::new();
    for tick in 0..20u64 {
        mgr.issue_attack_order(area("PARIS"), area("VIENNA"), corps("FRA_001"), fra(), aus(), 500, 10);
        mgr.resolve_battles(tick);
    }
    let lines = mgr.get_front_lines();
    for i in 0..lines.len() {
        let fl = lines.value_at(i);
        for j in 0..fl.pressure.len() {
            let p = *fl.pressure.value_at(j);
            assert!(p >= -100 && p <= 100, "pressure out of range: {}", p);
        }
    }
}

#[test]
fn front_line_id_format() {
    let mut mgr = FrontLineManager::new();
    paris_vienna(&mut mgr);
    let fl = mgr.get_front_lines().value_at(0);
    assert!(fl.id.as_str().starts_with("FRONT_"));
    assert!(fl.id.as_str().contains("FRA"));
    assert!(fl.id.as_str().contains("AUS"));
    assert_eq!(fl.id.as_str(), "FRONT_FRA_AUS");
}

#[test]
fn attacker_advance_lifts_contest() {
    let mut mgr = FrontLineManager::new();
    mgr.issue_attack_order(area("PARIS"), area("VIENNA"), corps("FRA_001"), fra(), aus(), 5000, 100);
    let events = mgr.resolve_battles(3);
    assert_eq!(events[0].result, BattleResult::AttackerAdvances);
    let fl = mgr.get_front_lines().value_at(0);
    assert!(!fl.contested_areas.contains_key("AREA_VIENNA"));
    assert_eq!(fl.pressure.get("AREA_VIENNA").copied(), Some(30));
}
