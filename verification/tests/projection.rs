use gc1805::ids::{AreaId, FleetId, LeaderId, PowerId};
use gc1805::projection::project;
use gc1805::scenario::{
    Area, Corps, DiplomaticPairKey, DiplomaticState, Features, Fleet, GameDate, Leader,
    MovementRules, Owner, PowerSetup, PowerSlot, PowerState, Scenario, TaxPolicy, Terrain,
};
use gc1805::strmap::StrMap;
use gc1805::tables::Maybe;

fn area(name: &str, owner: &str, x: i32) -> Area {
    Area {
        display_name: name.to_string(),
        owner: Owner::Power(PowerSlot { power: PowerId::new(owner) }),
        terrain: Terrain::Open,
        fort_level: 0,
        money_yield: Maybe::Value(0),
        manpower_yield: Maybe::Value(0),
        capital_of: Some(PowerId::new(owner)),
        port: false,
        blockaded: false,
        map_x: x,
        map_y: 0,
    }
}

fn setup(name: &str, house: &str, ruler: &str, capital: &str, corps: u8, depots: u8, color: &str) -> PowerSetup {
    PowerSetup {
        display_name: name.to_string(),
        house: house.to_string(),
        ruler: LeaderId::new(ruler),
        capital: AreaId::new(capital),
        starting_treasury: 0,
        starting_manpower: 0,
        starting_pp: 0,
        max_corps: corps,
        max_depots: depots,
        mobilization_areas: vec![],
        color_hex: color.to_string(),
    }
}

fn corps(name: &str, owner: &str, at: &str, inf: i32, cav: i32, art: i32, morale: i32, leader: &str) -> Corps {
    Corps {
        display_name: name.to_string(),
        owner: PowerId::new(owner),
        area: AreaId::new(at),
        infantry_sp: inf,
        cavalry_sp: cav,
        artillery_sp: art,
        morale_q4: morale,
        supplied: true,
        leader: Some(LeaderId::new(leader)),
    }
}

fn fixture() -> Scenario {
    let mut leaders = StrMap::new();
    leaders.insert(
        "LEADER_N".to_string(),
        Leader { display_name: "N".to_string(), strategic: 5, tactical: 5, initiative: 9, army_commander: true, born: GameDate::new(1769, 8) },
    );
    leaders.insert(
        "LEADER_F".to_string(),
        Leader { display_name: "F".to_string(), strategic: 3, tactical: 3, initiative: 5, army_commander: false, born: GameDate::new(1768, 1) },
    );
    let mut areas = StrMap::new();
    areas.insert("AREA_A".to_string(), area("A", "FRA", 0));
    areas.insert("AREA_B".to_string(), area("B", "AUS", 1));
    let mut powers = StrMap::new();
    powers.insert("FRA".to_string(), setup("France", "B", "LEADER_N", "AREA_A", 12, 8, "#000"));
    powers.insert("AUS".to_string(), setup("Austria", "H", "LEADER_F", "AREA_B", 8, 6, "#888"));
    let mut all = StrMap::new();
    all.insert("CORPS_FRA_001".to_string(), corps("I.", "FRA", "AREA_A", 22, 4, 6, 9500, "LEADER_N"));
    all.insert("CORPS_AUS_001".to_string(), corps("Charles", "AUS", "AREA_B", 17, 3, 4, 8000, "LEADER_F"));
    Scenario {
        schema_version: 1,
        rules_version: 0,
        scenario_id: "fixture".to_string(),
        name: "Two-Power Fixture".to_string(),
        start: GameDate::new(1805, 4),
        end: GameDate::new(1805, 12),
        unplayable_in_release: true,
        features: Features::default(),
        movement_rules: MovementRules::default(),
        current_turn: 0,
        power_state: StrMap::new(),
        production_queue: Vec::new(),
        replacement_queue: Vec::new(),
        subsidy_queue: Vec::new(),
        powers,
        minors: StrMap::new(),
        leaders,
        areas,
        sea_zones: StrMap::new(),
        corps: all,
        fleets: StrMap::new(),
        diplomacy: StrMap::new(),
        adjacency: Vec::new(),
        coast_links: Vec::new(),
        sea_adjacency: Vec::new(),
    }
}

fn move_corps(s: &mut Scenario, id: &str, to: &str) {
    let mut c = s.corps.get(id).unwrap().duplicate();
    c.area = AreaId::new(to);
    s.corps.insert(id.to_string(), c);
}

fn relate(s: &mut Scenario, a: &str, b: &str, st: DiplomaticState) {
    s.diplomacy.insert(DiplomaticPairKey::new(PowerId::new(a), PowerId::new(b)).text(), st);
}

fn add_britain(s: &mut Scenario) {
    s.powers.insert("GBR".to_string(), setup("Britain", "Hanover", "LEADER_F", "AREA_B", 4, 4, "#822"));
}

#[test]
fn case_01_owner_sees_own_corps() {
    let s = fixture();
    let p = project(&s, &PowerId::new("FRA"));
    assert!(p.view.corps.contains_key("CORPS_FRA_001"));
}

#[test]
fn case_02_owner_does_not_see_enemy_corps_in_enemy_area() {
    let s = fixture();
    let p = project(&s, &PowerId::new("FRA"));
    assert!(!p.view.corps.contains_key("CORPS_AUS_001"));
}

#[test]
fn case_03_enemy_corps_in_my_area_revealed() {
    let mut s = fixture();
    move_corps(&mut s, "CORPS_AUS_001", "AREA_A");
    let p = project(&s, &PowerId::new("FRA"));
    assert!(p.view.corps.contains_key("CORPS_AUS_001"));
}

#[test]
fn case_04_diplomacy_war_is_public() {
    let mut s = fixture();
    relate(&mut s, "AUS", "FRA", DiplomaticState::War);
    add_britain(&mut s);
    let p = project(&s, &PowerId::new("GBR"));
    assert_eq!(p.view.diplomacy.len(), 1);
}

#[test]
fn case_05_friendly_pair_not_visible_to_third_party() {
    let mut s = fixture();
    relate(&mut s, "AUS", "FRA", DiplomaticState::Friendly);
    add_britain(&mut s);
    let p = project(&s, &PowerId::new("GBR"));
    assert_eq!(p.view.diplomacy.len(), 0);
}

#[test]
fn case_06_owner_sees_own_diplomacy_pair() {
    let mut s = fixture();
    relate(&mut s, "AUS", "FRA", DiplomaticState::Friendly);
    let p = project(&s, &PowerId::new("FRA"));
    assert_eq!(p.view.diplomacy.len(), 1);
}

#[test]
fn case_07_areas_always_visible() {
    let s = fixture();
    let p = project(&s, &PowerId::new("FRA"));
    assert_eq!(p.view.areas.len(), s.areas.len());
}

#[test]
fn case_08_powers_always_visible() {
    let s = fixture();
    let p = project(&s, &PowerId::new("FRA"));
    assert_eq!(p.view.powers.len(), s.powers.len());
}

#[test]
fn case_09_double_projection_is_idempotent() {
    let mut s = fixture();
    relate(&mut s, "AUS", "FRA", DiplomaticState::Friendly);
    relate(&mut s, "AUS", "GBR", DiplomaticState::Friendly);
    let p1 = project(&s, &PowerId::new("FRA")).view;
    let p2 = project(&p1, &PowerId::new("FRA")).view;
    assert_eq!(p1.diplomacy, p2.diplomacy);
    assert_eq!(p1.corps.len(), p2.corps.len());
    for i in 0..p1.corps.len() {
        assert_eq!(p1.corps.key_at(i), p2.corps.key_at(i));
    }
    assert_eq!(p1.fleets.len(), p2.fleets.len());
}

#[test]
fn case_10_fleet_in_friendly_port_visible() {
    let mut s = fixture();
    s.fleets.insert(
        "FLEET_AUS_001".to_string(),
        Fleet {
            display_name: "Adriatic".to_string(),
            owner: PowerId::new("AUS"),
            at_port: Some(AreaId::new("AREA_A")),
            at_sea: None,
            ships_of_the_line: 6,
            frigates: 4,
            transports: 0,
            morale_q4: 8000,
            admiral: None,
            embarked_corps: Vec::new(),
        },
    );
    let p = project(&s, &PowerId::new("FRA"));
    assert!(p.view.fleets.contains_key("FLEET_AUS_001"));
    let _ = FleetId::new("FLEET_AUS_001");
}

#[test]
fn case_11_corps_owned_by_viewer_in_enemy_area_visible_to_self() {
    let mut s = fixture();
    move_corps(&mut s, "CORPS_FRA_001", "AREA_B");
    let p = project(&s, &PowerId::new("FRA"));
    assert!(p.view.corps.contains_key("CORPS_FRA_001"));
}

#[test]
fn projection_keeps_every_unfiltered_part() {
    let mut s = fixture();
    s.current_turn = 7;
    s.power_state.insert(
        "FRA".to_string(),
        PowerState { treasury: 120, manpower: 30, prestige: 5, tax_policy: TaxPolicy::Heavy },
    );
    let p = project(&s, &PowerId::new("AUS"));
    assert_eq!(p.view.current_turn, 7);
    assert_eq!(p.view.scenario_id, s.scenario_id);
    assert_eq!(p.view.power_state.len(), 1);
    let st = p.view.power_state.get("FRA").unwrap();
    assert_eq!(st.treasury, 120);
    assert_eq!(st.tax_policy, TaxPolicy::Heavy);
    assert_eq!(p.view.powers.len(), s.powers.len());
    assert_eq!(p.view.powers.get("FRA").unwrap().capital, AreaId::new("AREA_A"));
    assert_eq!(p.view.leaders.len(), s.leaders.len());
    assert_eq!(p.view.adjacency.len(), s.adjacency.len());
}
