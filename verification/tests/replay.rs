use gc1805::canonical::{canonical_hash, JsonNumber, JsonValue};
use gc1805::events::{Event, MovementResolved, OrderRejected};
use gc1805::ids::{AreaId, CorpsId, LeaderId, PowerId};
use gc1805::replay::{
    append_events, check_turn_hash, create_replay, seek_fits_check, seek_to_turn, ReplayFile, TurnHash,
    REPLAY_SCHEMA_VERSION,
};
use gc1805::scenario::{
    Area, Corps, Features, GameDate, Leader, MovementRules, Owner, PowerSetup, PowerSlot,
    PowerState, Scenario, TaxPolicy, Terrain,
};
use gc1805::strmap::StrMap;
use gc1805::tables::Maybe;

fn power(name: &str, house: &str, ruler: &str, capital: &str, treasury: i64, mp: i32, pp: i32, color: &str) -> PowerSetup {
    PowerSetup {
        display_name: name.to_string(),
        house: house.to_string(),
        ruler: LeaderId::new(ruler),
        capital: AreaId::new(capital),
        starting_treasury: treasury,
        starting_manpower: mp,
        starting_pp: pp,
        max_corps: 10,
        max_depots: 5,
        mobilization_areas: vec![AreaId::new(capital)],
        color_hex: color.to_string(),
    }
}

fn area(name: &str, terrain: Terrain, fort: u8, money: i32, men: i32, capital: bool, x: i32, y: i32) -> Area {
    Area {
        display_name: name.to_string(),
        owner: Owner::Power(PowerSlot { power: PowerId::new("FRA") }),
        terrain,
        fort_level: fort,
        money_yield: Maybe::Value(money),
        manpower_yield: Maybe::Value(men),
        capital_of: if capital { Some(PowerId::new("FRA")) } else { None },
        port: false,
        blockaded: false,
        map_x: x,
        map_y: y,
    }
}

fn test_scenario() -> Scenario {
    let mut power_state = StrMap::new();
    power_state.insert(
        "FRA".to_string(),
        PowerState { treasury: 10, manpower: 5, prestige: 3, tax_policy: TaxPolicy::Standard },
    );
    power_state.insert(
        "AUS".to_string(),
        PowerState { treasury: 7, manpower: 4, prestige: 2, tax_policy: TaxPolicy::Low },
    );
    let mut powers = StrMap::new();
    powers.insert(
        "FRA".to_string(),
        power("France", "Bonaparte", "LEADER_NAPOLEON", "AREA_PARIS", 10, 5, 3, "#123456"),
    );
    powers.insert(
        "AUS".to_string(),
        power("Austria", "Habsburg", "LEADER_FRANCIS", "AREA_LYON", 7, 4, 2, "#654321"),
    );
    let mut leaders = StrMap::new();
    leaders.insert(
        "LEADER_NAPOLEON".to_string(),
        Leader {
            display_name: "Napoleon".to_string(),
            strategic: 6,
            tactical: 6,
            initiative: 6,
            army_commander: true,
            born: GameDate::new(1769, 8),
        },
    );
    leaders.insert(
        "LEADER_FRANCIS".to_string(),
        Leader {
            display_name: "Francis".to_string(),
            strategic: 2,
            tactical: 1,
            initiative: 1,
            army_commander: true,
            born: GameDate::new(1768, 2),
        },
    );
    let mut areas = StrMap::new();
    areas.insert("AREA_PARIS".to_string(), area("Paris", Terrain::Urban, 2, 5, 2, true, 100, 100));
    areas.insert("AREA_LYON".to_string(), area("Lyon", Terrain::Open, 0, 3, 1, false, 120, 130));
    let mut corps = StrMap::new();
    corps.insert(
        "CORPS_FRA_001".to_string(),
        Corps {
            display_name: "I Corps".to_string(),
            owner: PowerId::new("FRA"),
            area: AreaId::new("AREA_PARIS"),
            infantry_sp: 5,
            cavalry_sp: 1,
            artillery_sp: 1,
            morale_q4: 8000,
            supplied: true,
            leader: Some(LeaderId::new("LEADER_NAPOLEON")),
        },
    );
    Scenario {
        schema_version: 1,
        rules_version: 1,
        scenario_id: "replay_test".to_string(),
        name: "Replay Test".to_string(),
        start: GameDate::new(1805, 4),
        end: GameDate::new(1815, 12),
        unplayable_in_release: false,
        features: Features::default(),
        movement_rules: MovementRules::default(),
        current_turn: 0,
        power_state,
        production_queue: Vec::new(),
        replacement_queue: Vec::new(),
        subsidy_queue: Vec::new(),
        powers,
        minors: StrMap::new(),
        leaders,
        areas,
        sea_zones: StrMap::new(),
        corps,
        fleets: StrMap::new(),
        diplomacy: StrMap::new(),
        adjacency: Vec::new(),
        coast_links: Vec::new(),
        sea_adjacency: Vec::new(),
    }
}

/// A stand-in for the JSON form of the scenario after a turn.
fn state_json(turn: i64, treasury: i64) -> JsonValue {
    JsonValue::Object(vec![
        ("current_turn".to_string(), JsonValue::Number(JsonNumber::Int(turn))),
        ("treasury".to_string(), JsonValue::Number(JsonNumber::Int(treasury))),
    ])
}

fn movement_event(from: &str, to: &str) -> Event {
    Event::MovementResolved(MovementResolved {
        corps: CorpsId::new("CORPS_FRA_001"),
        from: AreaId::new(from),
        to: AreaId::new(to),
        hops: 1,
        path: vec![AreaId::new(from), AreaId::new(to)],
    })
}

fn completed_turn(turn: u32) -> Event {
    Event::TurnCompleted { turn, state_hash: String::new() }
}

fn income(net: i64) -> Event {
    Event::IncomePaid { power: PowerId::new("FRA"), gross: 10, net, tax_policy: TaxPolicy::Standard }
}

fn treasury(s: &Scenario) -> i64 {
    s.power_state.get("FRA").unwrap().treasury
}

fn corps_area(s: &Scenario) -> String {
    s.corps.get("CORPS_FRA_001").unwrap().area.0.clone()
}

fn new_replay() -> ReplayFile {
    create_replay("game-1", test_scenario())
}

#[test]
fn create_replay_empty_events() {
    let replay = new_replay();
    assert_eq!(replay.schema_version, REPLAY_SCHEMA_VERSION);
    assert_eq!(replay.game_id, "game-1");
    assert!(replay.events.is_empty());
    assert!(replay.turn_hashes.is_empty());
}

#[test]
fn append_events_grows_event_list() {
    let mut replay = new_replay();
    append_events(&mut replay, vec![completed_turn(0)], 1, &state_json(1, 10));
    assert_eq!(replay.events.len(), 1);
}

#[test]
fn append_events_records_hash() {
    let mut replay = new_replay();
    let after = state_json(1, 10);
    append_events(&mut replay, vec![completed_turn(0)], 1, &after);
    assert_eq!(replay.turn_hashes.len(), 1);
    assert_eq!(replay.turn_hashes[0].turn, 1);
    assert_eq!(replay.turn_hashes[0].hash, canonical_hash(&after).unwrap());
}

#[test]
fn seek_to_turn_zero_is_initial() {
    let replay = new_replay();
    let sought = seek_to_turn(&replay, 0).unwrap();
    assert_eq!(treasury(&sought), 10);
    assert_eq!(corps_area(&sought), "AREA_PARIS");
    assert_eq!(sought.current_turn, 0);
}

#[test]
fn seek_to_turn_applies_income_event() {
    let mut replay = new_replay();
    append_events(&mut replay, vec![income(8), completed_turn(0)], 1, &state_json(1, 18));
    let sought = seek_to_turn(&replay, 1).unwrap();
    assert_eq!(treasury(&sought), 18);
    assert_eq!(sought.current_turn, 1);
}

#[test]
fn seek_to_turn_applies_movement_event() {
    let mut replay = new_replay();
    append_events(
        &mut replay,
        vec![movement_event("AREA_PARIS", "AREA_LYON"), completed_turn(0)],
        1,
        &state_json(1, 10),
    );
    let sought = seek_to_turn(&replay, 1).unwrap();
    assert_eq!(corps_area(&sought), "AREA_LYON");
}

#[test]
fn seek_to_turn_unknown_turn_returns_err() {
    let replay = new_replay();
    let err = seek_to_turn(&replay, 2).unwrap_err();
    assert!(err.contains("unknown replay turn 2"));
}

#[test]
fn turn_hashes_count_matches_turns() {
    let mut replay = new_replay();
    append_events(&mut replay, vec![completed_turn(0)], 1, &state_json(1, 10));
    append_events(&mut replay, vec![completed_turn(1)], 2, &state_json(2, 10));
    assert_eq!(replay.turn_hashes.len(), 2);
}

#[test]
fn seek_intermediate_turn() {
    let mut replay = new_replay();
    append_events(&mut replay, vec![income(8), completed_turn(0)], 1, &state_json(1, 18));
    append_events(
        &mut replay,
        vec![movement_event("AREA_PARIS", "AREA_LYON"), completed_turn(1)],
        2,
        &state_json(2, 18),
    );
    let sought = seek_to_turn(&replay, 1).unwrap();
    assert_eq!(sought.current_turn, 1);
    assert_eq!(corps_area(&sought), "AREA_PARIS");
    assert_eq!(treasury(&sought), 18);
    let later = seek_to_turn(&replay, 2).unwrap();
    assert_eq!(later.current_turn, 2);
    assert_eq!(corps_area(&later), "AREA_LYON");
}

#[test]
fn replay_deterministic() {
    let mut replay = new_replay();
    append_events(&mut replay, vec![income(8), completed_turn(0)], 1, &state_json(1, 18));
    let a = seek_to_turn(&replay, 1).unwrap();
    let b = seek_to_turn(&replay, 1).unwrap();
    assert_eq!(treasury(&a), treasury(&b));
    assert_eq!(corps_area(&a), corps_area(&b));
    assert_eq!(a.current_turn, b.current_turn);
}

#[test]
fn seek_applies_maintenance_and_deficit() {
    let mut replay = new_replay();
    append_events(
        &mut replay,
        vec![
            Event::MaintenancePaid { power: PowerId::new("FRA"), corps_cost: 6, fleet_cost: 7 },
            Event::TreasuryInDeficit { power: PowerId::new("FRA"), shortfall: 3 },
            completed_turn(0),
        ],
        1,
        &state_json(1, 0),
    );
    let sought = seek_to_turn(&replay, 1).unwrap();
    assert_eq!(treasury(&sought), 0);
}

#[test]
fn seek_skips_unhandled_events() {
    let mut replay = new_replay();
    append_events(
        &mut replay,
        vec![
            Event::OrderRejected(OrderRejected {
                reason_code: "X".to_string(),
                message: "ignored".to_string(),
            }),
            completed_turn(0),
        ],
        1,
        &state_json(1, 10),
    );
    assert!(seek_to_turn(&replay, 1).is_ok());
}

#[test]
fn seek_requires_turn_completed_marker() {
    let mut replay = new_replay();
    append_events(&mut replay, vec![income(8)], 1, &state_json(1, 18));
    let err = seek_to_turn(&replay, 1).unwrap_err();
    assert!(err.contains("missing TurnCompleted marker"));
    assert_eq!(err, "replay ended before reaching turn 1; missing TurnCompleted marker");
}

#[test]
fn seek_reports_missing_power_state() {
    let mut replay = new_replay();
    append_events(
        &mut replay,
        vec![
            Event::IncomePaid {
                power: PowerId::new("RUS"),
                gross: 1,
                net: 1,
                tax_policy: TaxPolicy::Standard,
            },
            completed_turn(0),
        ],
        1,
        &state_json(1, 10),
    );
    assert_eq!(seek_to_turn(&replay, 1).unwrap_err(), "missing power state for RUS");
}

#[test]
fn turn_hash_check_messages() {
    let th = TurnHash { turn: 3, hash: "abc".to_string() };
    assert!(check_turn_hash(&th, "abc").is_ok());
    assert_eq!(
        check_turn_hash(&th, "def").unwrap_err(),
        "integrity check failed at turn 3: expected abc, got def"
    );
}

#[test]
fn seek_to_turn_keeps_everything_it_does_not_replay() {
    let mut replay = new_replay();
    append_events(&mut replay, vec![income(8), completed_turn(0)], 1, &state_json(1, 18));
    let init = &replay.initial_scenario;
    let sought = seek_to_turn(&replay, 1).unwrap();
    assert_eq!(sought.name, init.name);
    assert_eq!(sought.scenario_id, init.scenario_id);
    assert_eq!(sought.adjacency.len(), init.adjacency.len());
    assert_eq!(sought.areas.len(), init.areas.len());
    assert_eq!(sought.powers.len(), init.powers.len());
    assert_eq!(sought.leaders.len(), init.leaders.len());
    assert_eq!(sought.diplomacy.len(), init.diplomacy.len());
}

#[test]
fn seek_fits_check_spots_an_overflowing_treasury() {
    let mut replay = new_replay();
    append_events(&mut replay, vec![income(8), completed_turn(0)], 1, &state_json(1, 18));
    assert!(seek_fits_check(&replay, 1));
    let mut big = new_replay();
    append_events(&mut big, vec![income(i64::MAX), completed_turn(0)], 1, &state_json(1, 0));
    assert!(!seek_fits_check(&big, 1));
    // Events after the marker of the turn sought are not replayed.
    let mut later = new_replay();
    append_events(&mut later, vec![completed_turn(0), income(i64::MAX)], 1, &state_json(1, 0));
    assert!(seek_fits_check(&later, 1));
}
