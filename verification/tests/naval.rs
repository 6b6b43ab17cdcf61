use gc1805::events::Event;
use gc1805::ids::{AreaId, CorpsId, FleetId, LeaderId, PowerId, SeaZoneId};
use gc1805::naval::{
    naval_ratio_bucket, resolve_disembark, resolve_embark, resolve_fleet_move,
    resolve_naval_battle, validate_disembark, validate_embark, validate_fleet_move, SeaGraph,
};
use gc1805::naval_types::NavalOutcome;
use gc1805::orders::{DisembarkOrder, EmbarkOrder, MoveFleetOrder, NavalAttackOrder};
use gc1805::scenario::{
    Area, CoastLink, Corps, DiplomaticPairKey, DiplomaticState, Features, Fleet, GameDate,
    Leader, MovementRules, Owner, PowerSetup, PowerSlot, Scenario, SeaAdjacency, SeaZone,
    Terrain,
};
use gc1805::strmap::StrMap;
use gc1805::tables::{Maybe, NavalCombatTable, NavalResult, PlaceholderMarker};

fn zone(s: &str) -> SeaZoneId {
    SeaZoneId::new(s)
}

fn fleet<'a>(s: &'a Scenario, id: &str) -> &'a Fleet {
    s.fleets.get(id).unwrap()
}

fn edit_fleet(s: &mut Scenario, id: &str, f: impl FnOnce(&mut Fleet)) {
    let mut fl = s.fleets.get(id).unwrap().duplicate();
    f(&mut fl);
    s.fleets.insert(id.to_string(), fl);
}

fn edit_corps(s: &mut Scenario, id: &str, f: impl FnOnce(&mut Corps)) {
    let mut c = s.corps.get(id).unwrap().duplicate();
    f(&mut c);
    s.corps.insert(id.to_string(), c);
}

fn area(name: &str, owner: &str, terrain: Terrain, fort: u8, port: bool, xy: i32) -> Area {
    Area {
        display_name: name.to_string(),
        owner: Owner::Power(PowerSlot { power: PowerId::new(owner) }),
        terrain,
        fort_level: fort,
        money_yield: Maybe::Value(0),
        manpower_yield: Maybe::Value(0),
        capital_of: None,
        port,
        blockaded: false,
        map_x: xy,
        map_y: xy,
    }
}

fn power(name: &str, house: &str, capital: &str, color: &str) -> PowerSetup {
    PowerSetup {
        display_name: name.to_string(),
        house: house.to_string(),
        ruler: LeaderId::new("LEADER_N"),
        capital: AreaId::new(capital),
        starting_treasury: 0,
        starting_manpower: 0,
        starting_pp: 0,
        max_corps: 10,
        max_depots: 5,
        mobilization_areas: vec![AreaId::new(capital)],
        color_hex: color.to_string(),
    }
}

fn sea(name: &str, x: i32) -> SeaZone {
    SeaZone { display_name: name.to_string(), map_x: x, map_y: 0 }
}

fn corps(name: &str, owner: &str, at: &str, inf: i32, cav: i32, art: i32) -> Corps {
    Corps {
        display_name: name.to_string(),
        owner: PowerId::new(owner),
        area: AreaId::new(at),
        infantry_sp: inf,
        cavalry_sp: cav,
        artillery_sp: art,
        morale_q4: 8000,
        supplied: true,
        leader: None,
    }
}

fn naval_fleet(name: &str, owner: &str, sol: i32, frig: i32, trans: i32) -> Fleet {
    Fleet {
        display_name: name.to_string(),
        owner: PowerId::new(owner),
        at_port: None,
        at_sea: Some(zone("SEA_ENGLISH_CHANNEL")),
        ships_of_the_line: sol,
        frigates: frig,
        transports: trans,
        morale_q4: 7000,
        admiral: None,
        embarked_corps: Vec::new(),
    }
}

fn naval_scenario() -> Scenario {
    let mut leaders = StrMap::new();
    leaders.insert(
        "LEADER_N".to_string(),
        Leader {
            display_name: "Napoleon".to_string(),
            strategic: 5,
            tactical: 5,
            initiative: 6,
            army_commander: true,
            born: GameDate::new(1769, 8),
        },
    );
    let mut powers = StrMap::new();
    powers.insert("FRA".to_string(), power("France", "Bonaparte", "AREA_PARIS", "#0000ff"));
    powers.insert("GBR".to_string(), power("Britain", "Hanover", "AREA_LONDON", "#ff0000"));

    let mut areas = StrMap::new();
    areas.insert("AREA_PARIS".to_string(), area("Paris", "FRA", Terrain::Open, 0, true, 0));
    areas.insert("AREA_LONDON".to_string(), area("London", "GBR", Terrain::Urban, 1, true, 1));
    areas.insert("AREA_BREST".to_string(), area("Brest", "FRA", Terrain::Open, 0, true, 2));
    areas.insert("AREA_INLAND".to_string(), area("Inland", "FRA", Terrain::Open, 0, false, 3));

    let mut sea_zones = StrMap::new();
    sea_zones.insert("SEA_ENGLISH_CHANNEL".to_string(), sea("English Channel", 0));
    sea_zones.insert("SEA_NORTH_SEA".to_string(), sea("North Sea", 1));
    sea_zones.insert("SEA_IRISH_SEA".to_string(), sea("Irish Sea", 2));
    sea_zones.insert("SEA_BALTIC".to_string(), sea("Baltic", 3));

    let mut all_corps = StrMap::new();
    all_corps.insert("CORPS_FRA_001".to_string(), corps("I Corps", "FRA", "AREA_PARIS", 8, 2, 1));
    all_corps.insert(
        "CORPS_GBR_001".to_string(),
        corps("British Corps", "GBR", "AREA_LONDON", 6, 1, 1),
    );

    let mut fleets = StrMap::new();
    fleets.insert("FLEET_FRA_001".to_string(), naval_fleet("French Fleet", "FRA", 6, 2, 1));
    fleets.insert("FLEET_GBR_001".to_string(), naval_fleet("British Fleet", "GBR", 4, 1, 0));

    let mut diplomacy = StrMap::new();
    diplomacy.insert(
        DiplomaticPairKey::new(PowerId::new("FRA"), PowerId::new("GBR")).text(),
        DiplomaticState::War,
    );

    Scenario {
        schema_version: 1,
        rules_version: 0,
        scenario_id: "naval".to_string(),
        name: "naval".to_string(),
        start: GameDate::new(1805, 4),
        end: GameDate::new(1805, 5),
        unplayable_in_release: true,
        features: Features::default(),
        movement_rules: MovementRules::default(),
        current_turn: 0,
        power_state: StrMap::new(),
        production_queue: Vec::new(),
        replacement_queue: Vec::new(),
        subsidy_queue: Vec::new(),
        powers,
        minors: StrMap::new(),
        leaders,
        areas,
        sea_zones,
        corps: all_corps,
        fleets,
        diplomacy,
        adjacency: Vec::new(),
        coast_links: vec![
            CoastLink { area: AreaId::new("AREA_PARIS"), sea: zone("SEA_ENGLISH_CHANNEL") },
            CoastLink { area: AreaId::new("AREA_LONDON"), sea: zone("SEA_NORTH_SEA") },
            CoastLink { area: AreaId::new("AREA_BREST"), sea: zone("SEA_NORTH_SEA") },
        ],
        sea_adjacency: vec![
            SeaAdjacency { from: zone("SEA_ENGLISH_CHANNEL"), to: zone("SEA_NORTH_SEA") },
            SeaAdjacency { from: zone("SEA_NORTH_SEA"), to: zone("SEA_IRISH_SEA") },
        ],
    }
}

fn naval_tables(cell: impl Fn() -> Maybe<NavalResult>) -> NavalCombatTable {
    let mut results = StrMap::new();
    for bucket in ["1:2", "1:1", "2:1"] {
        results.insert(bucket.to_string(), vec![cell(), cell(), cell(), cell(), cell(), cell()]);
    }
    NavalCombatTable {
        schema_version: 1,
        ratio_buckets: vec!["1:2".to_string(), "1:1".to_string(), "2:1".to_string()],
        die_faces: 6,
        results,
    }
}

fn placeholder_naval_tables() -> NavalCombatTable {
    naval_tables(|| Maybe::Placeholder(PlaceholderMarker::new()))
}

fn value_naval_tables() -> NavalCombatTable {
    naval_tables(|| {
        Maybe::Value(NavalResult { attacker_ship_loss: 1, defender_ship_loss: 2, disengage: false })
    })
}

fn move_order(submitter: &str, fleet: &str, destination: &str) -> MoveFleetOrder {
    MoveFleetOrder {
        submitter: PowerId::new(submitter),
        fleet: FleetId::new(fleet),
        destination: zone(destination),
    }
}

fn attack_order(target: &str) -> NavalAttackOrder {
    NavalAttackOrder {
        submitter: PowerId::new("FRA"),
        fleet: FleetId::new("FLEET_FRA_001"),
        target_zone: zone(target),
    }
}

fn embark_order(corps: &str) -> EmbarkOrder {
    EmbarkOrder {
        submitter: PowerId::new("FRA"),
        fleet: FleetId::new("FLEET_FRA_001"),
        corps: CorpsId::new(corps),
    }
}

fn disembark_order(target: &str) -> DisembarkOrder {
    DisembarkOrder {
        submitter: PowerId::new("FRA"),
        fleet: FleetId::new("FLEET_FRA_001"),
        corps: CorpsId::new("CORPS_FRA_001"),
        target_area: AreaId::new(target),
    }
}

fn rejection_code(e: &Event) -> Option<String> {
    match e {
        Event::OrderRejected(r) => Some(r.reason_code.clone()),
        _ => None,
    }
}

#[test]
fn sea_graph_adjacency() {
    let scenario = naval_scenario();
    let graph = SeaGraph::new(&scenario);
    assert_eq!(graph.adjacent_zones(&zone("SEA_ENGLISH_CHANNEL")), vec![zone("SEA_NORTH_SEA")]);
}

#[test]
fn sea_graph_shortest_path() {
    let scenario = naval_scenario();
    let graph = SeaGraph::new(&scenario);
    assert_eq!(
        graph.shortest_path_hops(&zone("SEA_ENGLISH_CHANNEL"), &zone("SEA_IRISH_SEA")),
        Some(2)
    );
}

#[test]
fn sea_graph_no_path() {
    let scenario = naval_scenario();
    let graph = SeaGraph::new(&scenario);
    assert_eq!(graph.shortest_path_hops(&zone("SEA_ENGLISH_CHANNEL"), &zone("SEA_BALTIC")), None);
}

#[test]
fn sea_graph_multiple_zones() {
    let scenario = naval_scenario();
    let graph = SeaGraph::new(&scenario);
    assert_eq!(graph.adjacent_zones(&zone("SEA_NORTH_SEA")).len(), 2);
}

#[test]
fn sea_graph_same_zone_zero_hops() {
    let scenario = naval_scenario();
    let graph = SeaGraph::new(&scenario);
    assert_eq!(
        graph.shortest_path_hops(&zone("SEA_ENGLISH_CHANNEL"), &zone("SEA_ENGLISH_CHANNEL")),
        Some(0)
    );
}

#[test]
fn sea_graph_unknown_zone_has_no_neighbours() {
    let scenario = naval_scenario();
    let graph = SeaGraph::new(&scenario);
    assert!(graph.adjacent_zones(&zone("SEA_NOWHERE")).is_empty());
    assert_eq!(graph.shortest_path_hops(&zone("SEA_NOWHERE"), &zone("SEA_NOWHERE")), None);
}

#[test]
fn validate_fleet_move_ok() {
    let scenario = naval_scenario();
    let graph = SeaGraph::new(&scenario);
    let order = move_order("FRA", "FLEET_FRA_001", "SEA_NORTH_SEA");
    assert!(validate_fleet_move(&scenario, &graph, &order).is_ok());
}

#[test]
fn validate_fleet_move_not_owner() {
    let scenario = naval_scenario();
    let graph = SeaGraph::new(&scenario);
    let order = move_order("GBR", "FLEET_FRA_001", "SEA_NORTH_SEA");
    assert!(validate_fleet_move(&scenario, &graph, &order).is_err());
}

#[test]
fn validate_fleet_move_no_path() {
    let scenario = naval_scenario();
    let graph = SeaGraph::new(&scenario);
    let order = move_order("FRA", "FLEET_FRA_001", "SEA_BALTIC");
    assert!(validate_fleet_move(&scenario, &graph, &order).is_err());
}

#[test]
fn validate_fleet_move_requires_at_sea() {
    let mut scenario = naval_scenario();
    let graph = SeaGraph::new(&scenario);
    edit_fleet(&mut scenario, "FLEET_FRA_001", |f| {
        f.at_port = Some(AreaId::new("AREA_PARIS"));
        f.at_sea = None;
    });
    let order = move_order("FRA", "FLEET_FRA_001", "SEA_NORTH_SEA");
    assert!(validate_fleet_move(&scenario, &graph, &order).is_err());
}

#[test]
fn validate_fleet_move_messages() {
    let scenario = naval_scenario();
    let graph = SeaGraph::new(&scenario);
    assert_eq!(
        validate_fleet_move(&scenario, &graph, &move_order("FRA", "FLEET_X", "SEA_NORTH_SEA")),
        Err("unknown fleet `FLEET_X`".to_string())
    );
    assert_eq!(
        validate_fleet_move(&scenario, &graph, &move_order("GBR", "FLEET_FRA_001", "SEA_NORTH_SEA")),
        Err("fleet `FLEET_FRA_001` is owned by `FRA`, not `GBR`".to_string())
    );
    assert_eq!(
        validate_fleet_move(&scenario, &graph, &move_order("FRA", "FLEET_FRA_001", "SEA_X")),
        Err("unknown destination sea zone `SEA_X`".to_string())
    );
    assert_eq!(
        validate_fleet_move(&scenario, &graph, &move_order("FRA", "FLEET_FRA_001", "SEA_BALTIC")),
        Err("no sea path from `SEA_ENGLISH_CHANNEL` to `SEA_BALTIC`".to_string())
    );
}

#[test]
fn resolve_fleet_move_updates_zone() {
    let mut scenario = naval_scenario();
    let graph = SeaGraph::new(&scenario);
    let order = move_order("FRA", "FLEET_FRA_001", "SEA_NORTH_SEA");
    let _ = resolve_fleet_move(&mut scenario, &graph, &order);
    assert_eq!(fleet(&scenario, "FLEET_FRA_001").at_sea, Some(zone("SEA_NORTH_SEA")));
}

#[test]
fn resolve_fleet_move_emits_event() {
    let mut scenario = naval_scenario();
    let graph = SeaGraph::new(&scenario);
    let order = move_order("FRA", "FLEET_FRA_001", "SEA_NORTH_SEA");
    let events = resolve_fleet_move(&mut scenario, &graph, &order);
    assert!(matches!(
        events.first(),
        Some(Event::FleetMoved { fleet, from, to })
        if fleet == &FleetId::new("FLEET_FRA_001")
            && from == &zone("SEA_ENGLISH_CHANNEL")
            && to == &zone("SEA_NORTH_SEA")
    ));
}

#[test]
fn resolve_fleet_move_blockade() {
    let mut scenario = naval_scenario();
    let graph = SeaGraph::new(&scenario);
    let order = move_order("FRA", "FLEET_FRA_001", "SEA_NORTH_SEA");
    let events = resolve_fleet_move(&mut scenario, &graph, &order);
    assert!(events.iter().any(|event| matches!(
        event,
        Event::BlockadeEstablished { fleet, sea_zone }
            if fleet == &FleetId::new("FLEET_FRA_001")
                && sea_zone == &zone("SEA_NORTH_SEA")
    )));
    assert!(scenario.areas.get("AREA_LONDON").unwrap().blockaded);
    assert!(!scenario.areas.get("AREA_BREST").unwrap().blockaded);
    assert_eq!(events.len(), 2);
}

#[test]
fn blockade_not_emitted_when_only_friendly_port_adjacent() {
    let mut scenario = naval_scenario();
    scenario.coast_links.retain(|link| link.area.as_str() != "AREA_LONDON");
    let graph = SeaGraph::new(&scenario);
    let order = move_order("FRA", "FLEET_FRA_001", "SEA_NORTH_SEA");
    let events = resolve_fleet_move(&mut scenario, &graph, &order);
    assert!(!events.iter().any(|event| matches!(event, Event::BlockadeEstablished { .. })));
}

#[test]
fn blockade_emitted_when_enemy_port_adjacent() {
    let mut scenario = naval_scenario();
    let graph = SeaGraph::new(&scenario);
    let order = move_order("GBR", "FLEET_GBR_001", "SEA_NORTH_SEA");
    let events = resolve_fleet_move(&mut scenario, &graph, &order);
    assert!(events.iter().any(|event| matches!(event, Event::BlockadeEstablished { .. })));
    assert!(scenario.areas.get("AREA_BREST").unwrap().blockaded);
}

#[test]
fn naval_battle_placeholder_rejection() {
    let mut scenario = naval_scenario();
    let order = attack_order("SEA_ENGLISH_CHANNEL");
    let events = resolve_naval_battle(&mut scenario, &placeholder_naval_tables(), 0, &order);
    assert_eq!(rejection_code(&events[0]), Some("NAVAL_TABLE_PLACEHOLDER".to_string()));
}

#[test]
fn naval_battle_value_resolves() {
    let mut scenario = naval_scenario();
    let order = attack_order("SEA_ENGLISH_CHANNEL");
    let events = resolve_naval_battle(&mut scenario, &value_naval_tables(), 0, &order);
    assert!(matches!(events[0], Event::NavalBattleResolved { .. }));
}

#[test]
fn ships_lost_applied() {
    let mut scenario = naval_scenario();
    let before = fleet(&scenario, "FLEET_GBR_001").ships_of_the_line;
    let order = attack_order("SEA_ENGLISH_CHANNEL");
    let _ = resolve_naval_battle(&mut scenario, &value_naval_tables(), 0, &order);
    assert!(fleet(&scenario, "FLEET_GBR_001").ships_of_the_line < before);
}

#[test]
fn ratio_2_1() {
    assert_eq!(naval_ratio_bucket(8, 4), "2:1");
}

#[test]
fn ratio_1_1() {
    assert_eq!(naval_ratio_bucket(5, 4), "1:1");
}

#[test]
fn ratio_1_2() {
    assert_eq!(naval_ratio_bucket(3, 5), "1:2");
}

#[test]
fn ratio_no_defender_is_2_1() {
    assert_eq!(naval_ratio_bucket(0, 0), "2:1");
}

#[test]
fn deterministic_seed() {
    let mut scenario_a = naval_scenario();
    let mut scenario_b = naval_scenario();
    let order = attack_order("SEA_ENGLISH_CHANNEL");
    let events_a = resolve_naval_battle(&mut scenario_a, &value_naval_tables(), 3, &order);
    let events_b = resolve_naval_battle(&mut scenario_b, &value_naval_tables(), 3, &order);
    assert_eq!(events_a, events_b);
}

#[test]
fn naval_battle_requires_enemy_present() {
    let mut scenario = naval_scenario();
    edit_fleet(&mut scenario, "FLEET_GBR_001", |f| f.at_sea = Some(zone("SEA_NORTH_SEA")));
    let order = attack_order("SEA_ENGLISH_CHANNEL");
    let events = resolve_naval_battle(&mut scenario, &value_naval_tables(), 0, &order);
    assert_eq!(rejection_code(&events[0]), Some("NO_NAVAL_DEFENDER".to_string()));
}

#[test]
fn naval_battle_requires_attacker_in_target_zone() {
    let mut scenario = naval_scenario();
    let order = attack_order("SEA_NORTH_SEA");
    let events = resolve_naval_battle(&mut scenario, &value_naval_tables(), 0, &order);
    assert_eq!(rejection_code(&events[0]), Some("FLEET_NOT_IN_TARGET_ZONE".to_string()));
}

#[test]
fn naval_battle_defender_sunk_outcome() {
    let mut scenario = naval_scenario();
    edit_fleet(&mut scenario, "FLEET_GBR_001", |f| {
        f.ships_of_the_line = 1;
        f.frigates = 0;
    });
    let mut tables = value_naval_tables();
    let i = tables.results.find("2:1").unwrap();
    let mut row = tables.results.value_at(i).clone();
    row[0] = Maybe::Value(NavalResult { attacker_ship_loss: 0, defender_ship_loss: 4, disengage: false });
    tables.results.set_value_at(i, row);
    let order = attack_order("SEA_ENGLISH_CHANNEL");
    let events = resolve_naval_battle(&mut scenario, &tables, 0, &order);
    assert!(matches!(
        &events[0],
        Event::NavalBattleResolved { outcome, .. } if *outcome == NavalOutcome::DefenderSunk
    ));
}

#[test]
fn validate_embark_ok() {
    let scenario = naval_scenario();
    assert!(validate_embark(&scenario, &embark_order("CORPS_FRA_001")).is_ok());
}

#[test]
fn validate_embark_no_port() {
    let mut scenario = naval_scenario();
    edit_corps(&mut scenario, "CORPS_FRA_001", |c| c.area = AreaId::new("AREA_INLAND"));
    assert!(validate_embark(&scenario, &embark_order("CORPS_FRA_001")).is_err());
}

#[test]
fn validate_embark_fleet_not_in_zone() {
    let mut scenario = naval_scenario();
    edit_fleet(&mut scenario, "FLEET_FRA_001", |f| f.at_sea = Some(zone("SEA_NORTH_SEA")));
    assert!(validate_embark(&scenario, &embark_order("CORPS_FRA_001")).is_err());
}

#[test]
fn validate_embark_messages() {
    let mut scenario = naval_scenario();
    assert_eq!(
        validate_embark(&scenario, &embark_order("CORPS_GBR_001")),
        Err("corps `CORPS_GBR_001` is owned by `GBR`, not `FRA`".to_string())
    );
    edit_fleet(&mut scenario, "FLEET_FRA_001", |f| f.at_sea = Some(zone("SEA_NORTH_SEA")));
    assert_eq!(
        validate_embark(&scenario, &embark_order("CORPS_FRA_001")),
        Err("area `AREA_PARIS` has no coast link to fleet zone `SEA_NORTH_SEA`".to_string())
    );
    edit_fleet(&mut scenario, "FLEET_FRA_001", |f| {
        f.at_sea = Some(zone("SEA_ENGLISH_CHANNEL"));
        f.embarked_corps = vec![CorpsId::new("CORPS_FRA_001")];
    });
    assert_eq!(
        validate_embark(&scenario, &embark_order("CORPS_FRA_001")),
        Err("corps `CORPS_FRA_001` already embarked".to_string())
    );
}

#[test]
fn resolve_embark_marks_corps() {
    let mut scenario = naval_scenario();
    let _ = resolve_embark(&mut scenario, &embark_order("CORPS_FRA_001"));
    assert!(fleet(&scenario, "FLEET_FRA_001")
        .embarked_corps
        .contains(&CorpsId::new("CORPS_FRA_001")));
}

#[test]
fn resolve_embark_event() {
    let mut scenario = naval_scenario();
    let event = resolve_embark(&mut scenario, &embark_order("CORPS_FRA_001"));
    assert!(matches!(
        event,
        Event::CorpsEmbarked { corps, fleet, area }
            if corps == CorpsId::new("CORPS_FRA_001")
                && fleet == FleetId::new("FLEET_FRA_001")
                && area == AreaId::new("AREA_PARIS")
    ));
}

#[test]
fn embarked_corps_sorted_deterministically() {
    let mut scenario = naval_scenario();
    edit_fleet(&mut scenario, "FLEET_FRA_001", |f| {
        f.embarked_corps = vec![CorpsId::new("CORPS_ZZZ")]
    });
    scenario.corps.insert(
        "CORPS_AAA".to_string(),
        Corps {
            display_name: "AAA".to_string(),
            owner: PowerId::new("FRA"),
            area: AreaId::new("AREA_PARIS"),
            infantry_sp: 1,
            cavalry_sp: 0,
            artillery_sp: 0,
            morale_q4: 5000,
            supplied: true,
            leader: None,
        },
    );
    let _ = resolve_embark(&mut scenario, &embark_order("CORPS_AAA"));
    assert_eq!(
        fleet(&scenario, "FLEET_FRA_001").embarked_corps,
        vec![CorpsId::new("CORPS_AAA"), CorpsId::new("CORPS_ZZZ")]
    );
}

#[test]
fn embark_sorts_an_unsorted_list() {
    let mut scenario = naval_scenario();
    edit_fleet(&mut scenario, "FLEET_FRA_001", |f| {
        f.embarked_corps =
            vec![CorpsId::new("CORPS_M"), CorpsId::new("CORPS_B"), CorpsId::new("CORPS_Z")]
    });
    let _ = resolve_embark(&mut scenario, &embark_order("CORPS_FRA_001"));
    assert_eq!(
        fleet(&scenario, "FLEET_FRA_001").embarked_corps,
        vec![
            CorpsId::new("CORPS_B"),
            CorpsId::new("CORPS_FRA_001"),
            CorpsId::new("CORPS_M"),
            CorpsId::new("CORPS_Z"),
        ]
    );
}

fn disembark_ready() -> Scenario {
    let mut scenario = naval_scenario();
    edit_fleet(&mut scenario, "FLEET_FRA_001", |f| {
        f.at_sea = Some(zone("SEA_NORTH_SEA"));
        f.embarked_corps = vec![CorpsId::new("CORPS_FRA_001")];
    });
    scenario
}

#[test]
fn validate_disembark_ok() {
    let scenario = disembark_ready();
    assert!(validate_disembark(&scenario, &disembark_order("AREA_BREST")).is_ok());
}

#[test]
fn validate_disembark_not_embarked() {
    let scenario = naval_scenario();
    assert!(validate_disembark(&scenario, &disembark_order("AREA_PARIS")).is_err());
}

#[test]
fn validate_disembark_requires_port() {
    let mut scenario = naval_scenario();
    edit_fleet(&mut scenario, "FLEET_FRA_001", |f| {
        f.embarked_corps = vec![CorpsId::new("CORPS_FRA_001")]
    });
    assert!(validate_disembark(&scenario, &disembark_order("AREA_INLAND")).is_err());
}

#[test]
fn validate_disembark_messages() {
    let scenario = disembark_ready();
    assert_eq!(
        validate_disembark(&scenario, &disembark_order("AREA_PARIS")),
        Err("target area `AREA_PARIS` has no coast link to fleet zone `SEA_NORTH_SEA`".to_string())
    );
    assert_eq!(
        validate_disembark(&scenario, &disembark_order("AREA_INLAND")),
        Err("area `AREA_INLAND` is not a port".to_string())
    );
    assert_eq!(
        validate_disembark(&naval_scenario(), &disembark_order("AREA_PARIS")),
        Err("corps `CORPS_FRA_001` is not embarked on fleet `FLEET_FRA_001`".to_string())
    );
}

#[test]
fn resolve_disembark_moves_corps() {
    let mut scenario = disembark_ready();
    let _ = resolve_disembark(&mut scenario, &disembark_order("AREA_BREST"));
    assert_eq!(scenario.corps.get("CORPS_FRA_001").unwrap().area, AreaId::new("AREA_BREST"));
}

#[test]
fn resolve_disembark_event() {
    let mut scenario = disembark_ready();
    let event = resolve_disembark(&mut scenario, &disembark_order("AREA_BREST"));
    assert!(matches!(
        event,
        Event::CorpsDisembarked { corps, fleet, area }
            if corps == CorpsId::new("CORPS_FRA_001")
                && fleet == FleetId::new("FLEET_FRA_001")
                && area == AreaId::new("AREA_BREST")
    ));
}

#[test]
fn disembark_removes_embarked_marker() {
    let mut scenario = disembark_ready();
    let _ = resolve_disembark(&mut scenario, &disembark_order("AREA_BREST"));
    assert!(fleet(&scenario, "FLEET_FRA_001").embarked_corps.is_empty());
}

#[test]
fn embark_then_disembark_restores_list() {
    let mut scenario = naval_scenario();
    edit_fleet(&mut scenario, "FLEET_FRA_001", |f| {
        f.embarked_corps = vec![CorpsId::new("CORPS_B")]
    });
    let _ = resolve_embark(&mut scenario, &embark_order("CORPS_FRA_001"));
    let _ = resolve_disembark(&mut scenario, &disembark_order("AREA_BREST"));
    assert_eq!(fleet(&scenario, "FLEET_FRA_001").embarked_corps, vec![CorpsId::new("CORPS_B")]);
}

#[test]
fn fleet_at_port_vs_sea_zone() {
    let mut scenario = naval_scenario();
    edit_fleet(&mut scenario, "FLEET_FRA_001", |f| {
        f.at_port = Some(AreaId::new("AREA_PARIS"));
        f.at_sea = None;
    });
    let f = fleet(&scenario, "FLEET_FRA_001");
    assert_eq!(f.at_port, Some(AreaId::new("AREA_PARIS")));
    assert_eq!(f.at_sea, None);
}
