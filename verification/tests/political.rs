use gc1805::events::Event;
use gc1805::ids::{AreaId, LeaderId, MinorId, PowerId};
use gc1805::political::{apply_pp_delta, check_abdication, check_revolts, resolve_political_phase};
use gc1805::scenario::{
    Area, GameDate, MinorSlot, Owner, PowerSetup, PowerSlot, PowerState, Scenario, TaxPolicy,
    Terrain,
};
use gc1805::strmap::StrMap;
use gc1805::tables::{Maybe, PpModifiersTable};

fn fra() -> PowerId {
    PowerId::new("FRA")
}
fn gbr() -> PowerId {
    PowerId::new("GBR")
}
fn rus() -> PowerId {
    PowerId::new("RUS")
}
fn area_paris() -> AreaId {
    AreaId::new("AREA_PARIS")
}
fn area_lyon() -> AreaId {
    AreaId::new("AREA_LYON")
}
fn area_london() -> AreaId {
    AreaId::new("AREA_LONDON")
}

fn prestige(s: &Scenario, p: &PowerId) -> i32 {
    s.power_state.get(p.as_str()).unwrap().prestige
}

fn set_prestige(s: &mut Scenario, p: &PowerId, v: i32) {
    let mut ps = *s.power_state.get(p.as_str()).unwrap();
    ps.prestige = v;
    s.power_state.insert(p.0.clone(), ps);
}

fn edit_area(s: &mut Scenario, a: &AreaId, f: impl FnOnce(&mut Area)) {
    let mut area = s.areas.get(a.as_str()).unwrap().duplicate();
    f(&mut area);
    s.areas.insert(a.0.clone(), area);
}

fn state(treasury: i64, manpower: i32, prestige: i32) -> PowerState {
    PowerState { treasury, manpower, prestige, tax_policy: TaxPolicy::Standard }
}

fn minimal_scenario() -> Scenario {
    let mut powers = StrMap::new();
    powers.insert(
        "FRA".to_string(),
        PowerSetup {
            display_name: "France".to_string(),
            house: "Bonaparte".to_string(),
            ruler: LeaderId::new("LEADER_NAPOLEON"),
            capital: area_paris(),
            starting_treasury: 100,
            starting_manpower: 50,
            starting_pp: 0,
            max_corps: 10,
            max_depots: 3,
            mobilization_areas: vec![],
            color_hex: "#2a3a6a".to_string(),
        },
    );
    let mut areas = StrMap::new();
    areas.insert(
        "AREA_PARIS".to_string(),
        Area {
            display_name: "Paris".to_string(),
            owner: Owner::Power(PowerSlot { power: fra() }),
            terrain: Terrain::Urban,
            fort_level: 2,
            money_yield: Maybe::Value(10),
            manpower_yield: Maybe::Value(5),
            capital_of: Some(fra()),
            port: false,
            blockaded: false,
            map_x: 0,
            map_y: 0,
        },
    );
    let mut power_state = StrMap::new();
    power_state.insert("FRA".to_string(), state(100, 50, 0));
    Scenario {
        schema_version: 1,
        rules_version: 0,
        scenario_id: "test".to_string(),
        name: "Test".to_string(),
        start: GameDate::new(1805, 4),
        end: GameDate::new(1815, 12),
        unplayable_in_release: true,
        features: Default::default(),
        movement_rules: Default::default(),
        current_turn: 0,
        power_state,
        production_queue: vec![],
        replacement_queue: vec![],
        subsidy_queue: vec![],
        powers,
        minors: StrMap::new(),
        leaders: StrMap::new(),
        areas,
        sea_zones: StrMap::new(),
        corps: StrMap::new(),
        fleets: StrMap::new(),
        diplomacy: StrMap::new(),
        adjacency: vec![],
        coast_links: vec![],
        sea_adjacency: vec![],
    }
}

fn empty_pp_tables() -> PpModifiersTable {
    PpModifiersTable { schema_version: 1, events: StrMap::new() }
}

fn pp_tables_with(key: &str, value: Maybe<i32>) -> PpModifiersTable {
    let mut events = StrMap::new();
    events.insert(key.to_owned(), value);
    PpModifiersTable { schema_version: 1, events }
}

fn lyon() -> Area {
    Area {
        display_name: "Lyon".to_string(),
        owner: Owner::Power(PowerSlot { power: fra() }),
        terrain: Terrain::Open,
        fort_level: 0,
        money_yield: Maybe::Value(5),
        manpower_yield: Maybe::Value(3),
        capital_of: None,
        port: false,
        blockaded: false,
        map_x: 10,
        map_y: 10,
    }
}

fn awarded(ev: &Event) -> Option<(PowerId, i32, String)> {
    match ev {
        Event::PrestigeAwarded { power, delta, reason } => Some((power.clone(), *delta, reason.clone())),
        _ => None,
    }
}

#[test]
fn pp_delta_positive() {
    let mut s = minimal_scenario();
    let ev = apply_pp_delta(&mut s, &fra(), 10, "battle_won", &empty_pp_tables());
    assert_eq!(prestige(&s, &fra()), 10);
    assert!(matches!(ev, Event::PrestigeAwarded { delta: 10, .. }));
}

#[test]
fn pp_delta_negative() {
    let mut s = minimal_scenario();
    let ev = apply_pp_delta(&mut s, &fra(), -5, "battle_lost", &empty_pp_tables());
    assert_eq!(prestige(&s, &fra()), -5);
    assert!(matches!(ev, Event::PrestigeAwarded { delta: -5, .. }));
}

#[test]
fn pp_delta_table_override() {
    let mut s = minimal_scenario();
    let t = pp_tables_with("battle_won", Maybe::Value(20));
    let ev = apply_pp_delta(&mut s, &fra(), 5, "battle_won", &t);
    assert_eq!(prestige(&s, &fra()), 20);
    assert!(matches!(ev, Event::PrestigeAwarded { delta: 20, .. }));
}

#[test]
fn pp_delta_table_placeholder_uses_passed() {
    let mut s = minimal_scenario();
    let t = pp_tables_with("battle_won", Maybe::placeholder());
    let ev = apply_pp_delta(&mut s, &fra(), 5, "battle_won", &t);
    assert_eq!(prestige(&s, &fra()), 5);
    assert!(matches!(ev, Event::PrestigeAwarded { delta: 5, .. }));
}

#[test]
fn pp_delta_table_key_missing() {
    let mut s = minimal_scenario();
    let t = pp_tables_with("some_other_event", Maybe::Value(99));
    apply_pp_delta(&mut s, &fra(), 3, "battle_won", &t);
    assert_eq!(prestige(&s, &fra()), 3);
}

#[test]
fn pp_delta_zero() {
    let mut s = minimal_scenario();
    apply_pp_delta(&mut s, &fra(), 0, "nothing", &empty_pp_tables());
    assert_eq!(prestige(&s, &fra()), 0);
}

#[test]
fn pp_delta_cumulative() {
    let mut s = minimal_scenario();
    let t = empty_pp_tables();
    apply_pp_delta(&mut s, &fra(), 10, "win", &t);
    apply_pp_delta(&mut s, &fra(), -3, "loss", &t);
    assert_eq!(prestige(&s, &fra()), 7);
}

#[test]
fn pp_delta_unknown_power() {
    let mut s = minimal_scenario();
    let ev = apply_pp_delta(&mut s, &gbr(), 10, "test", &empty_pp_tables());
    assert!(matches!(ev, Event::PrestigeAwarded { delta: 10, .. }));
    assert!(s.power_state.get("GBR").is_none());
}

#[test]
fn pp_delta_reason_preserved() {
    let mut s = minimal_scenario();
    let ev = apply_pp_delta(&mut s, &fra(), 1, "capital_captured", &empty_pp_tables());
    assert_eq!(awarded(&ev).unwrap().2, "capital_captured");
}

#[test]
fn revolt_none_when_positive_prestige() {
    let s = minimal_scenario();
    assert!(check_revolts(&s).is_empty());
}

#[test]
fn revolt_triggered_negative_prestige() {
    let mut s = minimal_scenario();
    set_prestige(&mut s, &fra(), -1);
    let events = check_revolts(&s);
    assert_eq!(events.len(), 1);
    assert!(matches!(
        &events[0],
        Event::RevoltTriggered { area, owner } if *area == area_paris() && *owner == fra()
    ));
}

#[test]
fn revolt_none_zero_manpower() {
    let mut s = minimal_scenario();
    set_prestige(&mut s, &fra(), -10);
    edit_area(&mut s, &area_paris(), |a| a.manpower_yield = Maybe::Value(0));
    assert!(check_revolts(&s).is_empty());
}

#[test]
fn revolt_none_placeholder_manpower() {
    let mut s = minimal_scenario();
    set_prestige(&mut s, &fra(), -10);
    edit_area(&mut s, &area_paris(), |a| a.manpower_yield = Maybe::placeholder());
    assert!(check_revolts(&s).is_empty());
}

#[test]
fn revolt_multiple_areas() {
    let mut s = minimal_scenario();
    s.areas.insert("AREA_LYON".to_string(), lyon());
    set_prestige(&mut s, &fra(), -1);
    let events = check_revolts(&s);
    assert_eq!(events.len(), 2);
    assert!(matches!(&events[0], Event::RevoltTriggered { area, .. } if *area == area_lyon()));
    assert!(matches!(&events[1], Event::RevoltTriggered { area, .. } if *area == area_paris()));
}

#[test]
fn revolt_deterministic_order() {
    let mut s = minimal_scenario();
    s.areas.insert("AREA_LYON".to_string(), lyon());
    set_prestige(&mut s, &fra(), -5);
    let events1 = check_revolts(&s);
    let events2 = check_revolts(&s);
    assert_eq!(events1, events2);
}

#[test]
fn revolt_none_unowned_area() {
    let mut s = minimal_scenario();
    edit_area(&mut s, &area_paris(), |a| a.owner = Owner::Unowned);
    set_prestige(&mut s, &fra(), -10);
    assert!(check_revolts(&s).is_empty());
}

#[test]
fn abdication_none_above_threshold() {
    let mut s = minimal_scenario();
    set_prestige(&mut s, &fra(), -50);
    assert!(check_abdication(&s).is_empty());
}

#[test]
fn abdication_triggered_below_threshold() {
    let mut s = minimal_scenario();
    set_prestige(&mut s, &fra(), -51);
    let events = check_abdication(&s);
    assert_eq!(events.len(), 1);
    assert!(matches!(&events[0], Event::AbdicationForced { power } if *power == fra()));
}

#[test]
fn abdication_multiple_powers() {
    let mut s = minimal_scenario();
    s.power_state.insert("GBR".to_string(), state(50, 30, -100));
    set_prestige(&mut s, &fra(), -60);
    let events = check_abdication(&s);
    assert_eq!(events.len(), 2);
    assert!(matches!(&events[0], Event::AbdicationForced { power } if *power == fra()));
    assert!(matches!(&events[1], Event::AbdicationForced { power } if *power == gbr()));
}

#[test]
fn abdication_boundary_exact_minus_50() {
    let mut s = minimal_scenario();
    set_prestige(&mut s, &fra(), -50);
    assert!(check_abdication(&s).is_empty());
}

#[test]
fn resolve_clean_scenario() {
    let mut s = minimal_scenario();
    let events = resolve_political_phase(&mut s, &empty_pp_tables());
    assert!(events.is_empty());
}

#[test]
fn resolve_revolt_and_abdication() {
    let mut s = minimal_scenario();
    set_prestige(&mut s, &fra(), -60);
    let events = resolve_political_phase(&mut s, &empty_pp_tables());
    let revolt_count = events.iter().filter(|e| matches!(e, Event::RevoltTriggered { .. })).count();
    let abdication_count = events.iter().filter(|e| matches!(e, Event::AbdicationForced { .. })).count();
    assert_eq!(revolt_count, 1);
    assert_eq!(abdication_count, 1);
}

#[test]
fn resolve_revolt_before_abdication_order() {
    let mut s = minimal_scenario();
    set_prestige(&mut s, &fra(), -60);
    let events = resolve_political_phase(&mut s, &empty_pp_tables());
    assert!(events.len() >= 2);
    assert!(matches!(&events[0], Event::RevoltTriggered { .. }));
    assert!(matches!(events.last().unwrap(), Event::AbdicationForced { .. }));
}

#[test]
fn resolve_determinism() {
    let mut s1 = minimal_scenario();
    set_prestige(&mut s1, &fra(), -60);
    let mut s2 = s1.clone();
    let t = empty_pp_tables();
    let events1 = resolve_political_phase(&mut s1, &t);
    let events2 = resolve_political_phase(&mut s2, &t);
    assert_eq!(events1, events2);
}

#[test]
fn resolve_multi_power_selective() {
    let mut s = minimal_scenario();
    s.power_state.insert("GBR".to_string(), state(50, 30, 10));
    s.areas.insert(
        "AREA_LONDON".to_string(),
        Area {
            display_name: "London".to_string(),
            owner: Owner::Power(PowerSlot { power: gbr() }),
            terrain: Terrain::Urban,
            fort_level: 3,
            money_yield: Maybe::Value(15),
            manpower_yield: Maybe::Value(4),
            capital_of: Some(gbr()),
            port: true,
            blockaded: false,
            map_x: 100,
            map_y: 100,
        },
    );
    set_prestige(&mut s, &fra(), -5);
    let events = resolve_political_phase(&mut s, &empty_pp_tables());
    assert_eq!(events.len(), 1);
    assert!(matches!(&events[0], Event::RevoltTriggered { owner, .. } if *owner == fra()));
    let _ = area_london();
}

#[test]
fn pp_delta_table_override_negative() {
    let mut s = minimal_scenario();
    let t = pp_tables_with("disaster", Maybe::Value(-30));
    apply_pp_delta(&mut s, &fra(), -5, "disaster", &t);
    assert_eq!(prestige(&s, &fra()), -30);
}

#[test]
fn abdication_selective_among_three() {
    let mut s = minimal_scenario();
    s.power_state.insert("GBR".to_string(), state(50, 30, -51));
    s.power_state.insert("RUS".to_string(), state(80, 60, 5));
    let events = check_abdication(&s);
    assert_eq!(events.len(), 1);
    assert!(matches!(&events[0], Event::AbdicationForced { power } if *power == gbr()));
    let _ = rus();
}

#[test]
fn pp_delta_event_power_correct() {
    let mut s = minimal_scenario();
    s.power_state.insert("GBR".to_string(), state(50, 30, 0));
    let ev = apply_pp_delta(&mut s, &gbr(), 7, "test", &empty_pp_tables());
    let (power, delta, _) = awarded(&ev).unwrap();
    assert_eq!(power, gbr());
    assert_eq!(delta, 7);
}

#[test]
fn revolt_none_minor_owned() {
    let mut s = minimal_scenario();
    edit_area(&mut s, &area_paris(), |a| {
        a.owner = Owner::Minor(MinorSlot { minor: MinorId::new("MINOR_BAVARIA") })
    });
    set_prestige(&mut s, &fra(), -10);
    assert!(check_revolts(&s).is_empty());
}

#[test]
fn pp_delta_large_values() {
    let mut s = minimal_scenario();
    apply_pp_delta(&mut s, &fra(), i32::MAX / 2, "huge_win", &empty_pp_tables());
    assert_eq!(prestige(&s, &fra()), i32::MAX / 2);
}
