use gc1805::events::Event;
use gc1805::ids::{AreaId, CorpsId, LeaderId, PowerId};
use gc1805::movement::{resolve_order, validate_or_reject, validate_order, MovementPlan, MovementRejection};
use gc1805::orders::{ForcedMarchOrder, HoldOrder, InterceptionOrder, MoveOrder, Order};
use gc1805::scenario::{
    Area, AreaAdjacency, Corps, Features, GameDate, Leader, MovementRules, Owner, PowerSetup,
    PowerSlot, Scenario, Terrain, SCHEMA_VERSION,
};
use gc1805::strmap::StrMap;
use gc1805::tables::Maybe;

fn fixture() -> Scenario {
    let mut s = Scenario {
        schema_version: SCHEMA_VERSION,
        rules_version: 0,
        scenario_id: "mv".to_string(),
        name: "mv".to_string(),
        start: GameDate::new(1805, 4),
        end: GameDate::new(1805, 5),
        unplayable_in_release: true,
        features: Features::default(),
        movement_rules: MovementRules {
            max_corps_per_area: Maybe::Value(2),
            movement_hops_per_turn: Maybe::Value(2),
            forced_march_extra_hops: Maybe::Value(1),
            forced_march_morale_loss_q4: Maybe::Value(500),
        },
        current_turn: 0,
        power_state: StrMap::new(),
        production_queue: Vec::new(),
        replacement_queue: Vec::new(),
        subsidy_queue: Vec::new(),
        powers: StrMap::new(),
        minors: StrMap::new(),
        leaders: StrMap::new(),
        areas: StrMap::new(),
        sea_zones: StrMap::new(),
        corps: StrMap::new(),
        fleets: StrMap::new(),
        diplomacy: StrMap::new(),
        adjacency: Vec::new(),
        coast_links: Vec::new(),
        sea_adjacency: Vec::new(),
    };
    s.leaders.insert(
        "LEADER_N".to_string(),
        Leader {
            display_name: "N".to_string(),
            strategic: 5,
            tactical: 5,
            initiative: 9,
            army_commander: true,
            born: GameDate::new(1769, 8),
        },
    );
    for n in ["AREA_A", "AREA_B", "AREA_C", "AREA_D"] {
        s.areas.insert(
            n.to_string(),
            Area {
                display_name: n.to_string(),
                owner: Owner::Power(PowerSlot { power: PowerId::new("FRA") }),
                terrain: Terrain::Open,
                fort_level: 0,
                money_yield: Maybe::Value(0),
                manpower_yield: Maybe::Value(0),
                capital_of: None,
                port: false,
                blockaded: false,
                map_x: 0,
                map_y: 0,
            },
        );
    }
    for (a, b) in [("AREA_A", "AREA_B"), ("AREA_B", "AREA_C"), ("AREA_C", "AREA_D")] {
        s.adjacency.push(AreaAdjacency { from: AreaId::new(a), to: AreaId::new(b), cost: Maybe::Value(1) });
        s.adjacency.push(AreaAdjacency { from: AreaId::new(b), to: AreaId::new(a), cost: Maybe::Value(1) });
    }
    s.powers.insert(
        "FRA".to_string(),
        PowerSetup {
            display_name: "France".to_string(),
            house: "B".to_string(),
            ruler: LeaderId::new("LEADER_N"),
            capital: AreaId::new("AREA_A"),
            starting_treasury: 0,
            starting_manpower: 0,
            starting_pp: 0,
            max_corps: 12,
            max_depots: 8,
            mobilization_areas: vec![],
            color_hex: "#000".to_string(),
        },
    );
    s.corps.insert(
        "CORPS_FRA_001".to_string(),
        Corps {
            display_name: "I.".to_string(),
            owner: PowerId::new("FRA"),
            area: AreaId::new("AREA_A"),
            infantry_sp: 22,
            cavalry_sp: 4,
            artillery_sp: 6,
            morale_q4: 9500,
            supplied: true,
            leader: Some(LeaderId::new("LEADER_N")),
        },
    );
    s
}

fn move_order(corps: &str, to: &str) -> Order {
    Order::Move(MoveOrder { submitter: PowerId::new("FRA"), corps: CorpsId::new(corps), to: AreaId::new(to) })
}

#[test]
fn case_v01_move_within_budget_validates() {
    let s = fixture();
    let plan = validate_order(&s, &move_order("CORPS_FRA_001", "AREA_C")).unwrap();
    assert!(matches!(plan, MovementPlan::Move { hops: 2, .. }));
}

#[test]
fn case_v02_move_over_budget_rejected() {
    let s = fixture();
    let r = validate_order(&s, &move_order("CORPS_FRA_001", "AREA_D"));
    assert!(matches!(r, Err(MovementRejection::OverBudget { hops: 3, budget: 2 })));
}

#[test]
fn case_v03_unknown_corps() {
    let s = fixture();
    let r = validate_order(&s, &move_order("CORPS_FRA_999", "AREA_B"));
    assert!(matches!(r, Err(MovementRejection::UnknownCorps(_))));
}

#[test]
fn case_v04_unknown_area() {
    let s = fixture();
    let r = validate_order(&s, &move_order("CORPS_FRA_001", "AREA_Z"));
    assert!(matches!(r, Err(MovementRejection::UnknownArea(_))));
}

#[test]
fn case_v05_not_owner() {
    let s = fixture();
    let bad = Order::Move(MoveOrder {
        submitter: PowerId::new("AUS"),
        corps: CorpsId::new("CORPS_FRA_001"),
        to: AreaId::new("AREA_B"),
    });
    let r = validate_order(&s, &bad);
    assert!(matches!(r, Err(MovementRejection::NotOwner { .. })));
}

#[test]
fn case_v06_forced_march_extends_budget_by_one() {
    let s = fixture();
    let order = Order::ForcedMarch(ForcedMarchOrder {
        submitter: PowerId::new("FRA"),
        corps: CorpsId::new("CORPS_FRA_001"),
        to: AreaId::new("AREA_D"),
    });
    let plan = validate_order(&s, &order).unwrap();
    assert!(matches!(plan, MovementPlan::ForcedMarch { hops: 3, .. }));
}

#[test]
fn case_v07_stacking_limit_rejects() {
    let mut s = fixture();
    for (n, leader) in [("CORPS_FRA_002", "LEADER_N"), ("CORPS_FRA_003", "LEADER_N")] {
        s.corps.insert(
            n.to_string(),
            Corps {
                display_name: n.to_string(),
                owner: PowerId::new("FRA"),
                area: AreaId::new("AREA_B"),
                infantry_sp: 1,
                cavalry_sp: 0,
                artillery_sp: 0,
                morale_q4: 5000,
                supplied: true,
                leader: Some(LeaderId::new(leader)),
            },
        );
    }
    let r = validate_order(&s, &move_order("CORPS_FRA_001", "AREA_B"));
    assert!(matches!(r, Err(MovementRejection::StackingLimit { limit: 2 })));
}

#[test]
fn case_v08_interception_validates_structurally() {
    let s = fixture();
    let order = Order::Interception(InterceptionOrder {
        submitter: PowerId::new("FRA"),
        corps: CorpsId::new("CORPS_FRA_001"),
        target_area: AreaId::new("AREA_C"),
        condition: "any".to_string(),
    });
    let plan = validate_order(&s, &order).unwrap();
    assert!(matches!(plan, MovementPlan::InterceptionQueued { .. }));
}

#[test]
fn case_r01_move_relocates_corps_in_state() {
    let mut s = fixture();
    let order = move_order("CORPS_FRA_001", "AREA_C");
    let plan = validate_order(&s, &order).unwrap();
    let _ev = resolve_order(&mut s, &order, plan);
    assert_eq!(s.corps.get("CORPS_FRA_001").unwrap().area, AreaId::new("AREA_C"));
}

#[test]
fn case_r02_move_emits_event_with_path() {
    let mut s = fixture();
    let order = move_order("CORPS_FRA_001", "AREA_C");
    let plan = validate_order(&s, &order).unwrap();
    let ev = resolve_order(&mut s, &order, plan);
    match ev {
        Event::MovementResolved(m) => {
            assert_eq!(m.path.len(), 3);
            assert_eq!(m.hops, 2);
        }
        _ => panic!("wrong event"),
    }
}

#[test]
fn case_r03_forced_march_drops_morale_by_table_value() {
    let mut s = fixture();
    let before = s.corps.get("CORPS_FRA_001").unwrap().morale_q4;
    let order = Order::ForcedMarch(ForcedMarchOrder {
        submitter: PowerId::new("FRA"),
        corps: CorpsId::new("CORPS_FRA_001"),
        to: AreaId::new("AREA_D"),
    });
    let plan = validate_order(&s, &order).unwrap();
    let _ev = resolve_order(&mut s, &order, plan);
    let after = s.corps.get("CORPS_FRA_001").unwrap().morale_q4;
    assert_eq!(before - after, 500);
}

#[test]
fn case_r04_hold_emits_zero_hops() {
    let mut s = fixture();
    let order = Order::Hold(HoldOrder { submitter: PowerId::new("FRA"), corps: CorpsId::new("CORPS_FRA_001") });
    let plan = validate_order(&s, &order).unwrap();
    let ev = resolve_order(&mut s, &order, plan);
    match ev {
        Event::MovementResolved(m) => assert_eq!(m.hops, 0),
        _ => panic!("wrong event"),
    }
}

#[test]
fn placeholder_budget_is_rejected_with_its_name() {
    let mut s = fixture();
    s.movement_rules.movement_hops_per_turn = Maybe::placeholder();
    let r = validate_order(&s, &move_order("CORPS_FRA_001", "AREA_B"));
    assert_eq!(r, Err(MovementRejection::PlaceholderRule("movement_hops_per_turn")));
}

#[test]
fn unreachable_destination_is_rejected() {
    let mut s = fixture();
    let a = s.areas.get("AREA_A").unwrap().duplicate();
    s.areas.insert("AREA_ISLAND".to_string(), a);
    let r = validate_order(&s, &move_order("CORPS_FRA_001", "AREA_ISLAND"));
    assert_eq!(r, Err(MovementRejection::Unreachable("AREA_ISLAND".to_string())));
}

#[test]
fn rejection_becomes_order_rejected_event() {
    let s = fixture();
    let r = validate_or_reject(&s, &move_order("CORPS_FRA_001", "AREA_D"));
    match r {
        Err(Event::OrderRejected(o)) => {
            assert_eq!(o.reason_code, "OVER_BUDGET");
            assert_eq!(o.message, "destination exceeds movement budget: 3 hops > 2");
        }
        _ => panic!("expected a rejection"),
    }
}

#[test]
fn forced_march_morale_floors_at_zero() {
    let mut s = fixture();
    s.movement_rules.forced_march_morale_loss_q4 = Maybe::Value(20_000);
    let order = Order::ForcedMarch(ForcedMarchOrder {
        submitter: PowerId::new("FRA"),
        corps: CorpsId::new("CORPS_FRA_001"),
        to: AreaId::new("AREA_B"),
    });
    let plan = validate_order(&s, &order).unwrap();
    let ev = resolve_order(&mut s, &order, plan);
    assert_eq!(s.corps.get("CORPS_FRA_001").unwrap().morale_q4, 0);
    match ev {
        Event::ForcedMarchResolved(f) => assert_eq!(f.morale_loss_q4, 20_000),
        _ => panic!("wrong event"),
    }
}
