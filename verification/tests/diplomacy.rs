use gc1805::diplomacy::{
    get_diplomatic_state, resolve_diplomatic_phase, set_diplomatic_state, validate_diplomatic_order,
    allied_partners, prestige_delta,
};
use gc1805::events::Event;
use gc1805::ids::{AreaId, LeaderId, PowerId};
use gc1805::orders::{BreakAllianceOrder, DeclareWarOrder, FormAllianceOrder, Order, ProposePeaceOrder};
use gc1805::scenario::{
    Area, DiplomaticPairKey, DiplomaticState, GameDate, Leader, Owner, PowerSetup, PowerSlot, PowerState,
    Scenario, TaxPolicy, Terrain,
};
use gc1805::strmap::StrMap;
use gc1805::tables::{Maybe, PlaceholderMarker, PpModifiersTable};

fn pid(s: &str) -> PowerId {
    PowerId::new(s)
}

fn power_setup(name: &str, ruler: &str, capital: &str, starting_pp: i32) -> PowerSetup {
    PowerSetup {
        display_name: name.to_string(),
        house: format!("House {name}"),
        ruler: LeaderId::new(ruler),
        capital: AreaId::new(capital),
        starting_treasury: 100,
        starting_manpower: 20,
        starting_pp,
        max_corps: 10,
        max_depots: 5,
        mobilization_areas: vec![AreaId::new(capital)],
        color_hex: "#000000".to_string(),
    }
}

fn power_state_with_prestige(prestige: i32) -> PowerState {
    PowerState { treasury: 100, manpower: 20, prestige, tax_policy: TaxPolicy::Standard }
}

fn leader(name: &str) -> Leader {
    Leader {
        display_name: name.to_string(),
        strategic: 3,
        tactical: 3,
        initiative: 3,
        army_commander: true,
        born: GameDate::new(1760, 1),
    }
}

fn capital_area(name: &str, power: &str) -> Area {
    Area {
        display_name: name.to_string(),
        owner: Owner::Power(PowerSlot { power: pid(power) }),
        terrain: Terrain::Urban,
        fort_level: 2,
        money_yield: Maybe::Placeholder(PlaceholderMarker::new()),
        manpower_yield: Maybe::Placeholder(PlaceholderMarker::new()),
        capital_of: Some(pid(power)),
        port: false,
        blockaded: false,
        map_x: 0,
        map_y: 0,
    }
}

fn key(a: &str, b: &str) -> String {
    DiplomaticPairKey::new(pid(a), pid(b)).text()
}

fn diplo_scenario() -> Scenario {
    let mut powers = StrMap::new();
    powers.insert("FRA".to_string(), power_setup("France", "LEADER_FRA", "AREA_PARIS", 10));
    powers.insert("GBR".to_string(), power_setup("Britain", "LEADER_GBR", "AREA_LONDON", 8));
    powers.insert("AUS".to_string(), power_setup("Austria", "LEADER_AUS", "AREA_VIENNA", 7));
    let mut power_state = StrMap::new();
    power_state.insert("FRA".to_string(), power_state_with_prestige(10));
    power_state.insert("GBR".to_string(), power_state_with_prestige(8));
    power_state.insert("AUS".to_string(), power_state_with_prestige(7));
    let mut leaders = StrMap::new();
    leaders.insert("LEADER_FRA".to_string(), leader("French Ruler"));
    leaders.insert("LEADER_GBR".to_string(), leader("British Ruler"));
    leaders.insert("LEADER_AUS".to_string(), leader("Austrian Ruler"));
    let mut areas = StrMap::new();
    areas.insert("AREA_PARIS".to_string(), capital_area("Paris", "FRA"));
    areas.insert("AREA_LONDON".to_string(), capital_area("London", "GBR"));
    areas.insert("AREA_VIENNA".to_string(), capital_area("Vienna", "AUS"));
    let mut diplomacy = StrMap::new();
    diplomacy.insert(key("FRA", "GBR"), DiplomaticState::War);
    diplomacy.insert(key("FRA", "AUS"), DiplomaticState::Neutral);
    diplomacy.insert(key("GBR", "AUS"), DiplomaticState::Friendly);
    Scenario {
        schema_version: 1,
        rules_version: 0,
        scenario_id: "phase6_test".to_string(),
        name: "Diplomacy Test".to_string(),
        start: GameDate::new(1805, 4),
        end: GameDate::new(1815, 12),
        unplayable_in_release: true,
        features: Default::default(),
        movement_rules: Default::default(),
        current_turn: 0,
        power_state,
        production_queue: vec![],
        replacement_queue: vec![],
        subsidy_queue: vec![],
        powers,
        minors: StrMap::new(),
        leaders,
        areas,
        sea_zones: StrMap::new(),
        corps: StrMap::new(),
        fleets: StrMap::new(),
        diplomacy,
        adjacency: vec![],
        coast_links: vec![],
        sea_adjacency: vec![],
    }
}

fn pp_tables_placeholder() -> PpModifiersTable {
    let mut events = StrMap::new();
    events.insert("declare_war".to_string(), Maybe::Placeholder(PlaceholderMarker::new()));
    PpModifiersTable { schema_version: 1, events }
}

fn add_power(s: &mut Scenario, id: &str, name: &str, capital: &str, pp: i32) {
    s.powers.insert(id.to_string(), power_setup(name, &format!("LEADER_{id}"), capital, pp));
    s.power_state.insert(id.to_string(), power_state_with_prestige(pp));
    s.leaders.insert(format!("LEADER_{id}"), leader(&format!("{name} Ruler")));
    s.areas.insert(capital.to_string(), capital_area(name, id));
}

fn add_prussia(s: &mut Scenario) {
    add_power(s, "PRU", "Prussian", "AREA_BERLIN", 6);
}

fn war(a: &str, b: &str) -> Order {
    Order::DeclareWar(DeclareWarOrder { submitter: pid(a), target: pid(b) })
}

fn ally(a: &str, b: &str) -> Order {
    Order::FormAlliance(FormAllianceOrder { submitter: pid(a), target: pid(b) })
}

fn unally(a: &str, b: &str) -> Order {
    Order::BreakAlliance(BreakAllianceOrder { submitter: pid(a), target: pid(b) })
}

fn peace(a: &str, b: &str, terms: &str) -> Order {
    Order::ProposePeace(ProposePeaceOrder { submitter: pid(a), target: pid(b), terms: terms.to_string() })
}

fn state(s: &Scenario, a: &str, b: &str) -> DiplomaticState {
    get_diplomatic_state(s, &pid(a), &pid(b))
}

fn set(s: &mut Scenario, a: &str, b: &str, st: DiplomaticState) {
    set_diplomatic_state(s, &pid(a), &pid(b), st);
}

fn prestige(s: &Scenario, p: &str) -> i32 {
    s.power_state.get(p).unwrap().prestige
}

fn is_cascade(e: &Event) -> bool {
    matches!(e, Event::AllianceCascade { .. })
}

#[test]
fn get_state_war() {
    let s = diplo_scenario();
    assert_eq!(state(&s, "FRA", "GBR"), DiplomaticState::War);
}

#[test]
fn get_state_neutral_when_missing() {
    let s = diplo_scenario();
    assert_eq!(state(&s, "FRA", "PRU"), DiplomaticState::Neutral);
}

#[test]
fn get_state_symmetric() {
    let s = diplo_scenario();
    assert_eq!(state(&s, "FRA", "GBR"), state(&s, "GBR", "FRA"));
}

#[test]
fn validate_declare_war_ok() {
    let s = diplo_scenario();
    assert!(validate_diplomatic_order(&s, &war("AUS", "FRA")).is_ok());
}

#[test]
fn validate_declare_war_already_at_war() {
    let s = diplo_scenario();
    assert!(validate_diplomatic_order(&s, &war("FRA", "GBR")).is_err());
}

#[test]
fn validate_declare_war_self() {
    let s = diplo_scenario();
    assert!(validate_diplomatic_order(&s, &war("FRA", "FRA")).is_err());
}

#[test]
fn validate_peace_ok() {
    let s = diplo_scenario();
    assert!(validate_diplomatic_order(&s, &peace("FRA", "GBR", "status quo")).is_ok());
}

#[test]
fn validate_peace_not_at_war() {
    let s = diplo_scenario();
    assert!(validate_diplomatic_order(&s, &peace("GBR", "AUS", "white peace")).is_err());
}

#[test]
fn validate_form_alliance_ok() {
    let s = diplo_scenario();
    assert!(validate_diplomatic_order(&s, &ally("FRA", "AUS")).is_ok());
}

#[test]
fn validate_form_alliance_already_allied() {
    let mut s = diplo_scenario();
    set(&mut s, "FRA", "AUS", DiplomaticState::Allied);
    assert!(validate_diplomatic_order(&s, &ally("FRA", "AUS")).is_err());
}

#[test]
fn validate_form_alliance_at_war() {
    let s = diplo_scenario();
    assert!(validate_diplomatic_order(&s, &ally("FRA", "GBR")).is_err());
}

#[test]
fn validate_break_alliance_ok() {
    let mut s = diplo_scenario();
    set(&mut s, "FRA", "AUS", DiplomaticState::Allied);
    assert!(validate_diplomatic_order(&s, &unally("FRA", "AUS")).is_ok());
}

#[test]
fn validate_break_alliance_not_allied() {
    let s = diplo_scenario();
    assert!(validate_diplomatic_order(&s, &unally("FRA", "AUS")).is_err());
}

#[test]
fn resolve_declare_war_sets_state() {
    let mut s = diplo_scenario();
    let events = resolve_diplomatic_phase(&mut s, &pp_tables_placeholder(), &[war("AUS", "FRA")]);
    assert!(!events.is_empty());
    assert_eq!(state(&s, "AUS", "FRA"), DiplomaticState::War);
}

#[test]
fn resolve_declare_war_emits_event() {
    let mut s = diplo_scenario();
    let events = resolve_diplomatic_phase(&mut s, &pp_tables_placeholder(), &[war("AUS", "FRA")]);
    assert_eq!(events[0], Event::WarDeclared { by: pid("AUS"), against: pid("FRA") });
}

#[test]
fn resolve_declare_war_pp_change_placeholder_skipped() {
    let mut s = diplo_scenario();
    let starting_pp = prestige(&s, "AUS");
    let events = resolve_diplomatic_phase(&mut s, &pp_tables_placeholder(), &[war("AUS", "FRA")]);
    assert_eq!(prestige(&s, "AUS"), starting_pp);
    assert!(!events.iter().any(|event| matches!(event, Event::PrestigeChanged { .. })));
}

#[test]
fn resolve_declare_war_pp_change_value_applied() {
    let mut s = diplo_scenario();
    let mut table = StrMap::new();
    table.insert("declare_war".to_string(), Maybe::Value(-3));
    let tables = PpModifiersTable { schema_version: 1, events: table };
    let events = resolve_diplomatic_phase(&mut s, &tables, &[war("AUS", "FRA")]);
    assert_eq!(prestige(&s, "AUS"), 4);
    assert!(events.iter().any(|event| matches!(
        event,
        Event::PrestigeChanged { power, delta: -3, reason } if *power == pid("AUS") && reason == "declare_war"
    )));
}

#[test]
fn resolve_form_alliance_sets_state() {
    let mut s = diplo_scenario();
    resolve_diplomatic_phase(&mut s, &pp_tables_placeholder(), &[ally("FRA", "AUS")]);
    assert_eq!(state(&s, "FRA", "AUS"), DiplomaticState::Allied);
}

#[test]
fn resolve_form_alliance_emits_event() {
    let mut s = diplo_scenario();
    let events = resolve_diplomatic_phase(&mut s, &pp_tables_placeholder(), &[ally("FRA", "AUS")]);
    assert!(events.iter().any(|event| matches!(
        event,
        Event::AllianceFormed { power_a, power_b } if *power_a == pid("FRA") && *power_b == pid("AUS")
    )));
}

#[test]
fn resolve_break_alliance_sets_state() {
    let mut s = diplo_scenario();
    set(&mut s, "FRA", "AUS", DiplomaticState::Allied);
    resolve_diplomatic_phase(&mut s, &pp_tables_placeholder(), &[unally("FRA", "AUS")]);
    assert_eq!(state(&s, "FRA", "AUS"), DiplomaticState::Neutral);
}

#[test]
fn resolve_peace_proposed_emits_event() {
    let mut s = diplo_scenario();
    let events = resolve_diplomatic_phase(&mut s, &pp_tables_placeholder(), &[peace("FRA", "GBR", "status quo")]);
    assert!(events.iter().any(|event| matches!(
        event,
        Event::PeaceProposed { by, to } if *by == pid("FRA") && *to == pid("GBR")
    )));
}

#[test]
fn alliance_cascade_triggered() {
    let mut s = diplo_scenario();
    add_prussia(&mut s);
    set(&mut s, "FRA", "AUS", DiplomaticState::Allied);
    let events = resolve_diplomatic_phase(&mut s, &pp_tables_placeholder(), &[war("PRU", "FRA")]);
    assert_eq!(state(&s, "PRU", "AUS"), DiplomaticState::War);
    assert!(events.iter().any(|event| matches!(
        event,
        Event::AllianceCascade { new_belligerent, against, via_ally }
            if *new_belligerent == pid("AUS") && *against == pid("PRU") && *via_ally == pid("FRA")
    )));
}

#[test]
fn alliance_cascade_not_triggered_if_already_at_war() {
    let mut s = diplo_scenario();
    set(&mut s, "FRA", "AUS", DiplomaticState::Allied);
    set(&mut s, "GBR", "AUS", DiplomaticState::War);
    let events = resolve_diplomatic_phase(&mut s, &pp_tables_placeholder(), &[war("GBR", "FRA")]);
    assert!(!events.iter().any(is_cascade));
}

#[test]
fn alliance_cascade_not_triggered_if_no_alliance() {
    let mut s = diplo_scenario();
    let events = resolve_diplomatic_phase(&mut s, &pp_tables_placeholder(), &[war("AUS", "GBR")]);
    assert_eq!(state(&s, "AUS", "FRA"), DiplomaticState::Neutral);
    assert!(!events.iter().any(is_cascade));
}

#[test]
fn resolve_multiple_wars_deterministic_order() {
    let mut s = diplo_scenario();
    add_prussia(&mut s);
    let events = resolve_diplomatic_phase(&mut s, &pp_tables_placeholder(), &[war("PRU", "AUS"), war("AUS", "FRA")]);
    let war_events: Vec<(PowerId, PowerId)> = events
        .into_iter()
        .filter_map(|event| match event {
            Event::WarDeclared { by, against } => Some((by, against)),
            _ => None,
        })
        .collect();
    assert_eq!(war_events, vec![(pid("AUS"), pid("FRA")), (pid("PRU"), pid("AUS"))]);
}

#[test]
fn resolve_order_wars_before_alliances() {
    let mut s = diplo_scenario();
    let events = resolve_diplomatic_phase(&mut s, &pp_tables_placeholder(), &[ally("AUS", "FRA"), war("AUS", "FRA")]);
    assert!(matches!(events.first(), Some(Event::WarDeclared { .. })));
    assert_eq!(state(&s, "AUS", "FRA"), DiplomaticState::War);
}

#[test]
fn set_state_canonical_key() {
    let mut s = diplo_scenario();
    set(&mut s, "GBR", "FRA", DiplomaticState::Friendly);
    assert_eq!(state(&s, "FRA", "GBR"), DiplomaticState::Friendly);
    assert!(s.diplomacy.contains_key(DiplomaticPairKey::new(pid("FRA"), pid("GBR")).text().as_str()));
}

#[test]
fn resolve_empty_orders() {
    let mut s = diplo_scenario();
    let events = resolve_diplomatic_phase(&mut s, &pp_tables_placeholder(), &[]);
    assert!(events.is_empty());
}

#[test]
fn resolve_break_then_form_same_turn() {
    let mut s = diplo_scenario();
    set(&mut s, "FRA", "AUS", DiplomaticState::Allied);
    resolve_diplomatic_phase(&mut s, &pp_tables_placeholder(), &[ally("FRA", "AUS"), unally("FRA", "AUS")]);
    assert_eq!(state(&s, "FRA", "AUS"), DiplomaticState::Allied);
}

#[test]
fn resolve_declare_war_cascade_chain() {
    let mut s = diplo_scenario();
    add_prussia(&mut s);
    add_power(&mut s, "RUS", "Russia", "AREA_MOSCOW", 9);
    set(&mut s, "FRA", "AUS", DiplomaticState::Allied);
    set(&mut s, "AUS", "PRU", DiplomaticState::Allied);
    let events = resolve_diplomatic_phase(&mut s, &pp_tables_placeholder(), &[war("RUS", "FRA")]);
    assert_eq!(state(&s, "RUS", "AUS"), DiplomaticState::War);
    assert_eq!(state(&s, "RUS", "PRU"), DiplomaticState::War);
    assert!(events.iter().any(|event| matches!(
        event,
        Event::AllianceCascade { new_belligerent, against, via_ally }
            if *new_belligerent == pid("PRU") && *against == pid("RUS") && *via_ally == pid("AUS")
    )));
}

// Further cases.

#[test]
fn validate_declare_war_unknown_power_message() {
    let s = diplo_scenario();
    assert_eq!(validate_diplomatic_order(&s, &war("AUS", "SWE")), Err("unknown power `SWE`".to_string()));
    assert_eq!(validate_diplomatic_order(&s, &war("SWE", "AUS")), Err("unknown power `SWE`".to_string()));
}

#[test]
fn validate_messages_are_exact() {
    let mut s = diplo_scenario();
    assert_eq!(validate_diplomatic_order(&s, &war("FRA", "FRA")), Err("cannot declare war on self".to_string()));
    assert_eq!(validate_diplomatic_order(&s, &war("GBR", "FRA")), Err("powers are already at war".to_string()));
    assert_eq!(
        validate_diplomatic_order(&s, &peace("GBR", "AUS", "x")),
        Err("peace may only be proposed between powers currently at war".to_string())
    );
    assert_eq!(validate_diplomatic_order(&s, &ally("GBR", "FRA")), Err("powers at war cannot form an alliance".to_string()));
    assert_eq!(validate_diplomatic_order(&s, &unally("GBR", "AUS")), Err("powers are not currently allied".to_string()));
    set(&mut s, "FRA", "AUS", DiplomaticState::Allied);
    assert_eq!(validate_diplomatic_order(&s, &ally("AUS", "FRA")), Err("powers are already allied".to_string()));
}

#[test]
fn validate_rejects_non_diplomatic_order() {
    let s = diplo_scenario();
    let order = Order::SetTaxPolicy(gc1805::orders::SetTaxPolicyOrder { submitter: pid("FRA"), policy: TaxPolicy::Heavy });
    assert_eq!(validate_diplomatic_order(&s, &order), Err("not a diplomatic order".to_string()));
}

#[test]
fn set_then_get_both_orders() {
    let mut s = diplo_scenario();
    set(&mut s, "PRU", "AUS", DiplomaticState::Unfriendly);
    assert_eq!(state(&s, "AUS", "PRU"), DiplomaticState::Unfriendly);
    assert_eq!(state(&s, "PRU", "AUS"), DiplomaticState::Unfriendly);
}

#[test]
fn allied_partners_lists_allies_in_key_order() {
    let mut s = diplo_scenario();
    add_prussia(&mut s);
    set(&mut s, "FRA", "AUS", DiplomaticState::Allied);
    set(&mut s, "AUS", "PRU", DiplomaticState::Allied);
    assert_eq!(allied_partners(&s, &pid("AUS")), vec![pid("FRA"), pid("PRU")]);
    assert_eq!(allied_partners(&s, &pid("GBR")), Vec::<PowerId>::new());
}

#[test]
fn prestige_delta_reads_values_only() {
    let mut table = StrMap::new();
    table.insert("declare_war".to_string(), Maybe::Value(-2));
    table.insert("other".to_string(), Maybe::Placeholder(PlaceholderMarker::new()));
    let t = PpModifiersTable { schema_version: 1, events: table };
    assert_eq!(prestige_delta(&t, "declare_war"), Some(-2));
    assert_eq!(prestige_delta(&t, "other"), None);
    assert_eq!(prestige_delta(&t, "missing"), None);
}

#[test]
fn declared_war_announces_war_then_prestige_then_cascade() {
    let mut s = diplo_scenario();
    add_prussia(&mut s);
    set(&mut s, "FRA", "AUS", DiplomaticState::Allied);
    let mut table = StrMap::new();
    table.insert("declare_war".to_string(), Maybe::Value(-1));
    let tables = PpModifiersTable { schema_version: 1, events: table };
    let events = resolve_diplomatic_phase(&mut s, &tables, &[war("PRU", "FRA")]);
    assert_eq!(events.len(), 3);
    assert_eq!(events[0], Event::WarDeclared { by: pid("PRU"), against: pid("FRA") });
    assert_eq!(events[1], Event::PrestigeChanged { power: pid("PRU"), delta: -1, reason: "declare_war".to_string() });
    assert_eq!(
        events[2],
        Event::AllianceCascade { new_belligerent: pid("AUS"), against: pid("PRU"), via_ally: pid("FRA") }
    );
    assert_eq!(prestige(&s, "PRU"), 5);
}

#[test]
fn second_declaration_on_same_pair_is_skipped() {
    let mut s = diplo_scenario();
    let events = resolve_diplomatic_phase(&mut s, &pp_tables_placeholder(), &[war("AUS", "FRA"), war("FRA", "AUS")]);
    let wars = events.iter().filter(|e| matches!(e, Event::WarDeclared { .. })).count();
    assert_eq!(wars, 1);
}
