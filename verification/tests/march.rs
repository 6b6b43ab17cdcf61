use gc1805::events::Event;
use gc1805::ids::{AreaId, LeaderId, PowerId};
use gc1805::march::march_to_capitals;
use gc1805::scenario::{
    Area, AreaAdjacency, Corps, Features, GameDate, Leader, MovementRules, Owner, PowerSetup,
    PowerSlot, Scenario, Terrain, SCHEMA_VERSION,
};
use gc1805::strmap::StrMap;
use gc1805::tables::Maybe;

fn fixture() -> Scenario {
    let mut s = Scenario {
        schema_version: SCHEMA_VERSION,
        rules_version: 0,
        scenario_id: "mv".to_string(),
        name: "mv".to_string(),
        start: GameDate::new(1805, 4),
        end: GameDate::new(1805, 5),
        unplayable_in_release: true,
        features: Features::default(),
        movement_rules: MovementRules {
            max_corps_per_area: Maybe::Value(2),
            movement_hops_per_turn: Maybe::Value(2),
            forced_march_extra_hops: Maybe::Value(1),
            forced_march_morale_loss_q4: Maybe::Value(500),
        },
        current_turn: 0,
        power_state: StrMap::new(),
        production_queue: Vec::new(),
        replacement_queue: Vec::new(),
        subsidy_queue: Vec::new(),
        powers: StrMap::new(),
        minors: StrMap::new(),
        leaders: StrMap::new(),
        areas: StrMap::new(),
        sea_zones: StrMap::new(),
        corps: StrMap::new(),
        fleets: StrMap::new(),
        diplomacy: StrMap::new(),
        adjacency: Vec::new(),
        coast_links: Vec::new(),
        sea_adjacency: Vec::new(),
    };
    s.leaders.insert(
        "LEADER_N".to_string(),
        Leader {
            display_name: "N".to_string(),
            strategic: 5,
            tactical: 5,
            initiative: 9,
            army_commander: true,
            born: GameDate::new(1769, 8),
        },
    );
    for n in ["AREA_A", "AREA_B", "AREA_C", "AREA_D"] {
        s.areas.insert(
            n.to_string(),
            Area {
                display_name: n.to_string(),
                owner: Owner::Power(PowerSlot { power: PowerId::new("FRA") }),
                terrain: Terrain::Open,
                fort_level: 0,
                money_yield: Maybe::Value(0),
                manpower_yield: Maybe::Value(0),
                capital_of: None,
                port: false,
                blockaded: false,
                map_x: 0,
                map_y: 0,
            },
        );
    }
    for (a, b) in [("AREA_A", "AREA_B"), ("AREA_B", "AREA_C"), ("AREA_C", "AREA_D")] {
        s.adjacency.push(AreaAdjacency { from: AreaId::new(a), to: AreaId::new(b), cost: Maybe::Value(1) });
        s.adjacency.push(AreaAdjacency { from: AreaId::new(b), to: AreaId::new(a), cost: Maybe::Value(1) });
    }
    s.powers.insert(
        "FRA".to_string(),
        PowerSetup {
            display_name: "France".to_string(),
            house: "B".to_string(),
            ruler: LeaderId::new("LEADER_N"),
            capital: AreaId::new("AREA_A"),
            starting_treasury: 0,
            starting_manpower: 0,
            starting_pp: 0,
            max_corps: 12,
            max_depots: 8,
            mobilization_areas: vec![],
            color_hex: "#000".to_string(),
        },
    );
    s.corps.insert(
        "CORPS_FRA_001".to_string(),
        Corps {
            display_name: "I.".to_string(),
            owner: PowerId::new("FRA"),
            area: AreaId::new("AREA_A"),
            infantry_sp: 22,
            cavalry_sp: 4,
            artillery_sp: 6,
            morale_q4: 9500,
            supplied: true,
            leader: Some(LeaderId::new("LEADER_N")),
        },
    );
    s
}

fn corps(owner: &str, at: &str) -> Corps {
    Corps {
        display_name: "c".to_string(),
        owner: PowerId::new(owner),
        area: AreaId::new(at),
        infantry_sp: 10,
        cavalry_sp: 0,
        artillery_sp: 0,
        morale_q4: 9000,
        supplied: true,
        leader: None,
    }
}

fn area_of(s: &Scenario, id: &str) -> String {
    s.corps.get(id).unwrap().area.as_str().to_string()
}

#[test]
fn distant_corps_marches_one_budget_towards_capital() {
    let mut s = fixture();
    s.corps.insert("CORPS_FRA_002".to_string(), corps("FRA", "AREA_D"));
    let (ev, who) = march_to_capitals(&mut s);
    assert_eq!(who.len(), ev.len());
    assert_eq!(ev.len(), 2);
    // CORPS_FRA_001 is already in the capital: a hold is recorded.
    match &ev[0] {
        Event::MovementResolved(m) => {
            assert_eq!(m.corps.as_str(), "CORPS_FRA_001");
            assert_eq!(m.hops, 0);
            assert_eq!(m.to, AreaId::new("AREA_A"));
        }
        other => panic!("unexpected {other:?}"),
    }
    // CORPS_FRA_002 goes two hops along D-C-B-A and stops in AREA_B.
    match &ev[1] {
        Event::MovementResolved(m) => {
            assert_eq!(m.corps.as_str(), "CORPS_FRA_002");
            assert_eq!(m.hops, 2);
            assert_eq!(m.to, AreaId::new("AREA_B"));
        }
        other => panic!("unexpected {other:?}"),
    }
    assert_eq!(area_of(&s, "CORPS_FRA_001"), "AREA_A");
    assert_eq!(area_of(&s, "CORPS_FRA_002"), "AREA_B");
}

#[test]
fn corps_without_listed_power_or_path_stays() {
    let mut s = fixture();
    s.corps.insert("CORPS_PRU_001".to_string(), corps("PRU", "AREA_C"));
    s.areas.insert(
        "AREA_ISLAND".to_string(),
        Area {
            display_name: "island".to_string(),
            owner: Owner::Power(PowerSlot { power: PowerId::new("FRA") }),
            terrain: Terrain::Open,
            fort_level: 0,
            money_yield: Maybe::Value(0),
            manpower_yield: Maybe::Value(0),
            capital_of: None,
            port: false,
            blockaded: false,
            map_x: 0,
            map_y: 0,
        },
    );
    s.corps.insert("CORPS_FRA_009".to_string(), corps("FRA", "AREA_ISLAND"));
    let (ev, who) = march_to_capitals(&mut s);
    assert_eq!(who.len(), ev.len());
    assert_eq!(ev.len(), 1);
    assert_eq!(area_of(&s, "CORPS_PRU_001"), "AREA_C");
    assert_eq!(area_of(&s, "CORPS_FRA_009"), "AREA_ISLAND");
}

#[test]
fn full_capital_rejects_the_march() {
    let mut s = fixture();
    s.movement_rules.max_corps_per_area = Maybe::Value(1);
    s.corps.insert("CORPS_FRA_002".to_string(), corps("FRA", "AREA_B"));
    let (ev, who) = march_to_capitals(&mut s);
    assert_eq!(who.len(), ev.len());
    assert_eq!(ev.len(), 2);
    match &ev[1] {
        Event::OrderRejected(r) => assert_eq!(r.reason_code, "STACKING_LIMIT"),
        other => panic!("unexpected {other:?}"),
    }
    assert_eq!(area_of(&s, "CORPS_FRA_002"), "AREA_B");
}

#[test]
fn placeholder_budget_rejects_the_march() {
    let mut s = fixture();
    s.movement_rules.movement_hops_per_turn = Maybe::placeholder();
    s.corps.insert("CORPS_FRA_002".to_string(), corps("FRA", "AREA_D"));
    let (ev, who) = march_to_capitals(&mut s);
    assert_eq!(who.len(), ev.len());
    match &ev[1] {
        Event::OrderRejected(r) => assert_eq!(r.reason_code, "PLACEHOLDER_RULE"),
        other => panic!("unexpected {other:?}"),
    }
    assert_eq!(area_of(&s, "CORPS_FRA_002"), "AREA_D");
}

#[test]
fn each_event_names_its_corps() {
    let mut s = fixture();
    s.movement_rules.max_corps_per_area = Maybe::Value(1);
    s.corps.insert("CORPS_FRA_002".to_string(), corps("FRA", "AREA_B"));
    s.corps.insert("CORPS_PRU_001".to_string(), corps("PRU", "AREA_C"));
    let (ev, who) = march_to_capitals(&mut s);
    let names: Vec<&str> = who.iter().map(|c| c.as_str()).collect();
    assert_eq!(names, vec!["CORPS_FRA_001", "CORPS_FRA_002"]);
    assert!(matches!(ev[1], Event::OrderRejected(_)));
}
