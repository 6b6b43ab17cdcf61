use gc1805::economy::{apply_economic_order, resolve_economic_phase, validate_economic_order};
use gc1805::events::Event;
use gc1805::ids::{AreaId, CorpsId, LeaderId, PowerId};
use gc1805::orders::{BuildCorpsOrder, Order, SetTaxPolicyOrder, SubsidyOrder};
use gc1805::scenario::{
    Area, Corps, CorpsComposition, DiplomaticPairKey, DiplomaticState, Features, GameDate,
    MovementRules, Owner, PendingSubsidy, PowerSetup, PowerSlot, PowerState, ProductionItem,
    ProductionKind, ReplacementItem, Scenario, TaxPolicy, Terrain,
};
use gc1805::strmap::StrMap;
use gc1805::tables::{EconomyTable, Maybe, PlaceholderMarker};

fn power<'a>(s: &'a Scenario, id: &PowerId) -> &'a PowerState {
    s.power_state.get(id.as_str()).unwrap()
}

fn edit_power(s: &mut Scenario, id: &PowerId, f: impl FnOnce(&mut PowerState)) {
    let mut p = *s.power_state.get(id.as_str()).unwrap();
    f(&mut p);
    s.power_state.insert(id.0.clone(), p);
}

fn edit_area(s: &mut Scenario, id: &AreaId, f: impl FnOnce(&mut Area)) {
    let mut a = s.areas.get(id.as_str()).unwrap().duplicate();
    f(&mut a);
    s.areas.insert(id.0.clone(), a);
}

// ── Fixtures ─────────────────────────────────────────────────────

fn fra() -> PowerId {
    PowerId::new("FRA")
}
fn gbr() -> PowerId {
    PowerId::new("GBR")
}
fn area_paris() -> AreaId {
    AreaId::new("AREA_PARIS")
}

fn corps_fra_001() -> CorpsId {
    CorpsId::new("CORPS_FRA_001")
}

fn minimal_scenario() -> Scenario {
    let mut powers = StrMap::new();
    powers.insert(
        fra().0,
        PowerSetup {
            display_name: "France".to_string(),
            house: "Bonaparte".to_string(),
            ruler: LeaderId::new("LEADER_NAPOLEON"),
            capital: area_paris(),
            starting_treasury: 100,
            starting_manpower: 50,
            starting_pp: 0,
            max_corps: 10,
            max_depots: 3,
            mobilization_areas: vec![],
            color_hex: "#2a3a6a".to_string(),
        },
    );

    let mut areas = StrMap::new();
    areas.insert(
        area_paris().0,
        Area {
            display_name: "Paris".to_string(),
            owner: Owner::Power(PowerSlot { power: fra() }),
            terrain: Terrain::Urban,
            fort_level: 2,
            money_yield: Maybe::Value(10),
            manpower_yield: Maybe::Placeholder(PlaceholderMarker::new()),
            capital_of: Some(fra()),
            port: false,
            blockaded: false,
            map_x: 0,
            map_y: 0,
        },
    );

    let mut corps = StrMap::new();
    corps.insert(
        corps_fra_001().0,
        Corps {
            display_name: "I Corps".to_string(),
            owner: fra(),
            area: area_paris(),
            infantry_sp: 4,
            cavalry_sp: 1,
            artillery_sp: 1,
            morale_q4: 9000,
            supplied: true,
            leader: None,
        },
    );

    let mut power_state = StrMap::new();
    power_state.insert(
        fra().0,
        PowerState {
            treasury: 100,
            manpower: 50,
            prestige: 0,
            tax_policy: TaxPolicy::Standard,
        },
    );

    Scenario {
        schema_version: 1,
        rules_version: 0,
        scenario_id: "test".to_string(),
        name: "Test".to_string(),
        start: GameDate::new(1805, 4),
        end: GameDate::new(1815, 12),
        unplayable_in_release: true,
        features: Features::default(),
        movement_rules: MovementRules::default(),
        current_turn: 0,
        power_state,
        production_queue: vec![],
        replacement_queue: vec![],
        subsidy_queue: vec![],
        powers,
        minors: StrMap::new(),
        leaders: StrMap::new(),
        areas,
        sea_zones: StrMap::new(),
        corps,
        fleets: StrMap::new(),
        diplomacy: StrMap::new(),
        adjacency: vec![],
        coast_links: vec![],
        sea_adjacency: vec![],
    }
}

fn standard_tables() -> EconomyTable {
    EconomyTable {
        schema_version: 1,
        corps_maintenance_per_sp: Maybe::Value(2),
        fleet_maintenance_per_ship: Maybe::Value(5),
        tax_policy_multiplier_low_q4: Maybe::Value(8_000),
        tax_policy_multiplier_standard_q4: Maybe::Value(10_000),
        tax_policy_multiplier_heavy_q4: Maybe::Value(12_000),
        corps_build_cost_money: Maybe::Value(50),
        corps_build_cost_manpower: Maybe::Value(10),
        corps_production_lag_turns: Maybe::Value(3),
        corps_minimum_sp: Maybe::Placeholder(PlaceholderMarker::new()),
        new_corps_morale_q4: Maybe::Value(8_000),
        fleet_build_cost_money: Maybe::Value(80),
        fleet_production_lag_turns: Maybe::Value(2),
        depot_build_cost: Maybe::Placeholder(PlaceholderMarker::new()),
        max_depots_default: Maybe::Placeholder(PlaceholderMarker::new()),
        manpower_recovery_q12: Maybe::Placeholder(PlaceholderMarker::new()),
        manpower_recovery_lag_turns: Maybe::Placeholder(PlaceholderMarker::new()),
    }
}

// ── Income tests ─────────────────────────────────────────────────

/// 1. income_basic: yield=10, standard multiplier → treasury 100→110
#[test]
fn income_basic() {
    let mut s = minimal_scenario();
    let t = standard_tables();
    let events = resolve_economic_phase(&mut s, &t);
    assert_eq!(power(&s, &fra()).treasury, 110 - 12); // income 10, maintenance 6sp*2=12 → 98
                                                          // But let's check the IncomePaid event specifically
    let income_ev = events
        .iter()
        .find(|e| matches!(e, Event::IncomePaid { .. }));
    assert!(income_ev.is_some());
    if let Some(Event::IncomePaid { gross, net, .. }) = income_ev {
        assert_eq!(*gross, 10);
        assert_eq!(*net, 10); // 10 * 10000 / 10000
    }
}

/// 2. income_low_tax: Low policy → net=8
#[test]
fn income_low_tax() {
    let mut s = minimal_scenario();
    edit_power(&mut s, &fra(), |p| p.tax_policy = TaxPolicy::Low);
    let t = standard_tables();
    let events = resolve_economic_phase(&mut s, &t);
    let income_ev = events
        .iter()
        .find(|e| matches!(e, Event::IncomePaid { .. }));
    if let Some(Event::IncomePaid {
        gross,
        net,
        tax_policy,
        ..
    }) = income_ev
    {
        assert_eq!(*gross, 10);
        assert_eq!(*net, 8); // 10 * 8000 / 10000 = 8
        assert_eq!(*tax_policy, TaxPolicy::Low);
    } else {
        panic!("no IncomePaid event");
    }
}

/// 3. income_heavy_tax: Heavy policy → net=12
#[test]
fn income_heavy_tax() {
    let mut s = minimal_scenario();
    edit_power(&mut s, &fra(), |p| p.tax_policy = TaxPolicy::Heavy);
    let t = standard_tables();
    let events = resolve_economic_phase(&mut s, &t);
    let income_ev = events
        .iter()
        .find(|e| matches!(e, Event::IncomePaid { .. }));
    if let Some(Event::IncomePaid {
        gross,
        net,
        tax_policy,
        ..
    }) = income_ev
    {
        assert_eq!(*gross, 10);
        assert_eq!(*net, 12);
        assert_eq!(*tax_policy, TaxPolicy::Heavy);
    } else {
        panic!("no IncomePaid event");
    }
}

/// 4. income_blockaded_excluded: blockaded=true → net=0
#[test]
fn income_blockaded_excluded() {
    let mut s = minimal_scenario();
    edit_area(&mut s, &area_paris(), |a| a.blockaded = true);
    let t = standard_tables();
    let events = resolve_economic_phase(&mut s, &t);
    let income_ev = events
        .iter()
        .find(|e| matches!(e, Event::IncomePaid { .. }));
    if let Some(Event::IncomePaid { gross, net, .. }) = income_ev {
        assert_eq!(*gross, 0);
        assert_eq!(*net, 0);
    } else {
        panic!("no IncomePaid event");
    }
}

/// 5. income_placeholder_multiplier: all multipliers Placeholder → net==gross
#[test]
fn income_placeholder_multiplier() {
    let mut s = minimal_scenario();
    let mut t = standard_tables();
    t.tax_policy_multiplier_low_q4 = Maybe::Placeholder(PlaceholderMarker::new());
    t.tax_policy_multiplier_standard_q4 = Maybe::Placeholder(PlaceholderMarker::new());
    t.tax_policy_multiplier_heavy_q4 = Maybe::Placeholder(PlaceholderMarker::new());
    let events = resolve_economic_phase(&mut s, &t);
    let income_ev = events
        .iter()
        .find(|e| matches!(e, Event::IncomePaid { .. }));
    if let Some(Event::IncomePaid { gross, net, .. }) = income_ev {
        assert_eq!(gross, net); // identity: net == gross == 10
        assert_eq!(*gross, 10);
    } else {
        panic!("no IncomePaid event");
    }
}

/// 6. income_placeholder_yield: yield Placeholder → net=0
#[test]
fn income_placeholder_yield() {
    let mut s = minimal_scenario();
    edit_area(&mut s, &area_paris(), |a| a.money_yield = Maybe::Placeholder(PlaceholderMarker::new()));
    let t = standard_tables();
    let events = resolve_economic_phase(&mut s, &t);
    let income_ev = events
        .iter()
        .find(|e| matches!(e, Event::IncomePaid { .. }));
    if let Some(Event::IncomePaid { gross, net, .. }) = income_ev {
        assert_eq!(*gross, 0);
        assert_eq!(*net, 0);
    } else {
        panic!("no IncomePaid event");
    }
}

// ── Maintenance tests ────────────────────────────────────────────

/// 7. maintenance_corps_deducted: 6sp * 2 = 12 deducted.
///
/// Starting=100, income net=10 (std mult), maintenance=(4+1+1)*2=12 → treasury=98.
#[test]
fn maintenance_corps_deducted() {
    let mut s = minimal_scenario();
    let t = standard_tables();
    let events = resolve_economic_phase(&mut s, &t);
    // income: 10 (standard), maintenance: (4+1+1)*2=12
    // 100 + 10 - 12 = 98
    assert_eq!(power(&s, &fra()).treasury, 98);
    let maint_ev = events
        .iter()
        .find(|e| matches!(e, Event::MaintenancePaid { .. }));
    if let Some(Event::MaintenancePaid {
        corps_cost,
        fleet_cost,
        ..
    }) = maint_ev
    {
        assert_eq!(*corps_cost, 12);
        assert_eq!(*fleet_cost, 0);
    } else {
        panic!("no MaintenancePaid event");
    }
}

/// 8. maintenance_deficit_clamped: treasury=5, corps cost=12 → treasury=0, TreasuryInDeficit
#[test]
fn maintenance_deficit_clamped() {
    let mut s = minimal_scenario();
    // Zero income (blockaded) to isolate
    edit_area(&mut s, &area_paris(), |a| a.blockaded = true);
    edit_power(&mut s, &fra(), |p| p.treasury = 5);
    let t = standard_tables();
    let events = resolve_economic_phase(&mut s, &t);
    // income=0, maintenance=12 but treasury=5 → clamp to 0, deficit=12
    assert_eq!(power(&s, &fra()).treasury, 0);
    let deficit_ev = events
        .iter()
        .find(|e| matches!(e, Event::TreasuryInDeficit { .. }));
    assert!(deficit_ev.is_some(), "expected TreasuryInDeficit event");
    if let Some(Event::TreasuryInDeficit { shortfall, .. }) = deficit_ev {
        assert_eq!(*shortfall, 7); // treasury=5, cost=12, shortfall=12-5=7
    }
}

/// 9. maintenance_placeholder_skipped: rates Placeholder → no MaintenancePaid
#[test]
fn maintenance_placeholder_skipped() {
    let mut s = minimal_scenario();
    let mut t = standard_tables();
    t.corps_maintenance_per_sp = Maybe::Placeholder(PlaceholderMarker::new());
    t.fleet_maintenance_per_ship = Maybe::Placeholder(PlaceholderMarker::new());
    let events = resolve_economic_phase(&mut s, &t);
    let maint_ev = events
        .iter()
        .find(|e| matches!(e, Event::MaintenancePaid { .. }));
    assert!(
        maint_ev.is_none(),
        "should not emit MaintenancePaid with placeholder rates"
    );
    // treasury after: 100 + 10 income = 110
    assert_eq!(power(&s, &fra()).treasury, 110);
}

// ── Replacement tests ────────────────────────────────────────────

/// 10. replacements_arrive: item eta_turn=0, manpower 50→55
#[test]
fn replacements_arrive() {
    let mut s = minimal_scenario();
    s.replacement_queue.push(ReplacementItem {
        owner: fra(),
        sp_amount: 5,
        eta_turn: 0,
    });
    let t = standard_tables();
    resolve_economic_phase(&mut s, &t);
    assert_eq!(power(&s, &fra()).manpower, 55);
    assert!(s.replacement_queue.is_empty());
}

/// 11. replacements_future_stays: eta_turn=1, queue unchanged
#[test]
fn replacements_future_stays() {
    let mut s = minimal_scenario();
    s.replacement_queue.push(ReplacementItem {
        owner: fra(),
        sp_amount: 5,
        eta_turn: 1,
    });
    let t = standard_tables();
    resolve_economic_phase(&mut s, &t);
    assert_eq!(power(&s, &fra()).manpower, 50); // unchanged
    assert_eq!(s.replacement_queue.len(), 1);
}

/// 12. replacements_multiple: two items eta_turn=0, both processed
#[test]
fn replacements_multiple() {
    let mut s = minimal_scenario();
    s.replacement_queue.push(ReplacementItem {
        owner: fra(),
        sp_amount: 3,
        eta_turn: 0,
    });
    s.replacement_queue.push(ReplacementItem {
        owner: fra(),
        sp_amount: 7,
        eta_turn: 0,
    });
    let t = standard_tables();
    let events = resolve_economic_phase(&mut s, &t);
    assert_eq!(power(&s, &fra()).manpower, 60);
    let arrivals: Vec<_> = events
        .iter()
        .filter(|e| matches!(e, Event::ReplacementsArrived { .. }))
        .collect();
    assert_eq!(arrivals.len(), 2);
}

// ── Production tests ─────────────────────────────────────────────

/// 13. production_corps_spawned: item kind=Corps eta_turn=0 → corps.len() increases
#[test]
fn production_corps_spawned() {
    let mut s = minimal_scenario();
    s.production_queue.push(ProductionItem {
        owner: fra(),
        area: area_paris(),
        kind: ProductionKind::Corps,
        eta_turn: 0,
        corps_composition: None,
    });
    let initial_count = s.corps.len();
    let t = standard_tables();
    let events = resolve_economic_phase(&mut s, &t);
    assert_eq!(s.corps.len(), initial_count + 1);
    assert!(events.iter().any(|e| matches!(
        e,
        Event::UnitProduced {
            unit_kind: ProductionKind::Corps,
            ..
        }
    )));
}

/// 14. production_fleet_spawned: kind=Fleet eta_turn=0 → fleets.len() increases
#[test]
fn production_fleet_spawned() {
    let mut s = minimal_scenario();
    s.production_queue.push(ProductionItem {
        owner: fra(),
        area: area_paris(),
        kind: ProductionKind::Fleet,
        eta_turn: 0,
        corps_composition: None,
    });
    let initial_count = s.fleets.len();
    let t = standard_tables();
    let events = resolve_economic_phase(&mut s, &t);
    assert_eq!(s.fleets.len(), initial_count + 1);
    assert!(events.iter().any(|e| matches!(
        e,
        Event::UnitProduced {
            unit_kind: ProductionKind::Fleet,
            ..
        }
    )));
}

/// 15. production_future_stays: eta_turn=5, queue unchanged
#[test]
fn production_future_stays() {
    let mut s = minimal_scenario();
    s.production_queue.push(ProductionItem {
        owner: fra(),
        area: area_paris(),
        kind: ProductionKind::Corps,
        eta_turn: 5,
        corps_composition: None,
    });
    let t = standard_tables();
    resolve_economic_phase(&mut s, &t);
    assert_eq!(s.production_queue.len(), 1);
}

// ── Subsidy tests ────────────────────────────────────────────────

/// 16. subsidy_transfer: PendingSubsidy FRA→GBR amt=20
#[test]
fn subsidy_transfer() {
    let mut s = minimal_scenario();
    // Add GBR
    s.power_state.insert(
        gbr().0,
        PowerState {
            treasury: 50,
            manpower: 30,
            prestige: 0,
            tax_policy: TaxPolicy::Standard,
        },
    );
    // Zero income for GBR (no areas), so we isolate the subsidy effect
    s.subsidy_queue.push(PendingSubsidy {
        from: fra(),
        to: gbr(),
        amount: 20,
    });
    // To isolate FRA's subsidy change, use blockaded + placeholder maintenance
    let mut t = standard_tables();
    t.corps_maintenance_per_sp = Maybe::Placeholder(PlaceholderMarker::new());
    t.fleet_maintenance_per_ship = Maybe::Placeholder(PlaceholderMarker::new());
    t.tax_policy_multiplier_standard_q4 = Maybe::Placeholder(PlaceholderMarker::new());
    // Now: FRA income=0 (placeholder mult → identity, gross=10, net=10 actually)
    // Hmm, let me just check relative changes:
    let fra_before = power(&s, &fra()).treasury;
    let gbr_before = power(&s, &gbr()).treasury;
    resolve_economic_phase(&mut s, &t);
    // FRA gets +10 income, -20 subsidy
    let fra_after = power(&s, &fra()).treasury;
    let gbr_after = power(&s, &gbr()).treasury;
    // The subsidy was 20
    assert_eq!(fra_after, fra_before + 10 - 20); // income 10 (placeholder mult = identity), minus 20 subsidy
    assert_eq!(gbr_after, gbr_before + 20); // GBR: no areas owned, +20 subsidy
    assert!(s.subsidy_queue.is_empty());
}

// ── apply_economic_order tests ───────────────────────────────────

/// 17. tax_policy_change: SetTaxPolicy Heavy
#[test]
fn tax_policy_change() {
    let mut s = minimal_scenario();
    let t = standard_tables();
    let order = Order::SetTaxPolicy(SetTaxPolicyOrder {
        submitter: fra(),
        policy: TaxPolicy::Heavy,
    });
    apply_economic_order(&mut s, &t, &order);
    assert_eq!(power(&s, &fra()).tax_policy, TaxPolicy::Heavy);
}

// ── validate_economic_order tests ────────────────────────────────

/// 18. build_corps_validate_ok: at capital, treasury=100, manpower=50: Ok
#[test]
fn build_corps_validate_ok() {
    let s = minimal_scenario();
    let t = standard_tables();
    let order = Order::BuildCorps(BuildCorpsOrder {
        submitter: fra(),
        area: area_paris(), // capital
        composition: CorpsComposition {
            infantry_sp: 4,
            cavalry_sp: 1,
            artillery_sp: 1,
        },
    });
    assert!(validate_economic_order(&s, &t, &order).is_ok());
}

/// 19. build_corps_validate_broke: treasury=10, cost=50: Err
#[test]
fn build_corps_validate_broke() {
    let mut s = minimal_scenario();
    edit_power(&mut s, &fra(), |p| p.treasury = 10);
    let t = standard_tables();
    let order = Order::BuildCorps(BuildCorpsOrder {
        submitter: fra(),
        area: area_paris(),
        composition: CorpsComposition {
            infantry_sp: 4,
            cavalry_sp: 1,
            artillery_sp: 1,
        },
    });
    assert!(validate_economic_order(&s, &t, &order).is_err());
}

/// 20. subsidy_validate_rejected_war: FRA-GBR at WAR → Err
#[test]
fn subsidy_validate_rejected_war() {
    let mut s = minimal_scenario();
    s.power_state.insert(
        gbr().0,
        PowerState {
            treasury: 50,
            manpower: 30,
            prestige: 0,
            tax_policy: TaxPolicy::Standard,
        },
    );
    s.diplomacy
        .insert(DiplomaticPairKey::new(fra(), gbr()).text(), DiplomaticState::War);
    let t = standard_tables();
    let order = Order::Subsidize(SubsidyOrder {
        submitter: fra(),
        recipient: gbr(),
        amount: 20,
    });
    assert!(validate_economic_order(&s, &t, &order).is_err());
}

/// 21. subsidy_validate_rejected_broke: treasury=5, amount=100 → Err
#[test]
fn subsidy_validate_rejected_broke() {
    let mut s = minimal_scenario();
    edit_power(&mut s, &fra(), |p| p.treasury = 5);
    s.power_state.insert(
        gbr().0,
        PowerState {
            treasury: 50,
            manpower: 30,
            prestige: 0,
            tax_policy: TaxPolicy::Standard,
        },
    );
    let t = standard_tables();
    let order = Order::Subsidize(SubsidyOrder {
        submitter: fra(),
        recipient: gbr(),
        amount: 100,
    });
    assert!(validate_economic_order(&s, &t, &order).is_err());
}

/// 22. determinism: clone scenario, run resolve_economic_phase on both → equal events
#[test]
fn determinism() {
    let mut s1 = minimal_scenario();
    let mut s2 = minimal_scenario();
    let t = standard_tables();
    let events1 = resolve_economic_phase(&mut s1, &t);
    let events2 = resolve_economic_phase(&mut s2, &t);
    assert_eq!(events1.len(), events2.len());
    for (e1, e2) in events1.iter().zip(events2.iter()) {
        assert_eq!(e1, e2);
    }
    // Also check final treasury state
    assert_eq!(
        power(&s1, &fra()).treasury,
        power(&s2, &fra()).treasury
    );
}

#[test]
fn produced_corps_gets_a_deterministic_id() {
    let mut s = minimal_scenario();
    s.production_queue.push(ProductionItem {
        owner: fra(),
        area: area_paris(),
        kind: ProductionKind::Corps,
        eta_turn: 0,
        corps_composition: None,
    });
    let t = standard_tables();
    resolve_economic_phase(&mut s, &t);
    let c = s.corps.get("CORPS_FRA_T0_PARIS").unwrap();
    assert_eq!(c.display_name, "New Corps (FRA)");
    assert_eq!((c.infantry_sp, c.cavalry_sp, c.artillery_sp), (4, 1, 1));
    assert_eq!(c.morale_q4, 8_000);
}

#[test]
fn economic_order_messages() {
    let mut s = minimal_scenario();
    let t = standard_tables();
    let order = Order::Subsidize(SubsidyOrder { submitter: fra(), recipient: fra(), amount: 5 });
    assert_eq!(validate_economic_order(&s, &t, &order), Err("cannot subsidize yourself".to_string()));
    let order = Order::Subsidize(SubsidyOrder { submitter: fra(), recipient: gbr(), amount: 0 });
    assert_eq!(
        validate_economic_order(&s, &t, &order),
        Err("subsidy amount must be positive, got 0".to_string())
    );
    let build = Order::BuildCorps(BuildCorpsOrder {
        submitter: fra(),
        area: area_paris(),
        composition: CorpsComposition { infantry_sp: 4, cavalry_sp: 1, artillery_sp: 1 },
    });
    edit_power(&mut s, &fra(), |p| p.treasury = 10);
    assert_eq!(
        validate_economic_order(&s, &t, &build),
        Err("`FRA` cannot afford corps build: treasury=10 cost=50".to_string())
    );
    edit_power(&mut s, &fra(), |p| p.treasury = 100);
    match apply_economic_order(&mut s, &t, &build) {
        Event::OrderRejected(r) => {
            assert_eq!(r.reason_code, "BUILD_CORPS_QUEUED");
            assert_eq!(r.message, "Corps build queued for FRA at AREA_PARIS, ETA turn 3");
        }
        _ => panic!("expected a queued notice"),
    }
    assert_eq!(power(&s, &fra()).treasury, 50);
    assert_eq!(power(&s, &fra()).manpower, 40);
    assert_eq!(s.production_queue.len(), 1);
}
