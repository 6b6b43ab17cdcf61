use gc1805::ai::{personality_from_map, str_hash, AiPersonality};
use gc1805::strmap::StrMap;

#[test]
fn str_hash_is_deterministic() {
    assert_eq!(str_hash("AREA_CAPITAL"), str_hash("AREA_CAPITAL"));
}

#[test]
fn str_hash_exact_values() {
    assert_eq!(str_hash(""), 0);
    assert_eq!(str_hash("a"), 97);
    assert_eq!(str_hash("ab"), 97 * 31 + 98);
}

#[test]
fn personality_from_map_uses_defaults() {
    let fields = StrMap::new();
    let personality = personality_from_map(&fields);
    assert_eq!(personality, AiPersonality::default());
}

#[test]
fn personality_from_map_overrides_present_fields() {
    let mut fields = StrMap::new();
    fields.insert("aggression".into(), 9);
    fields.insert("economic_priority".into(), 8);
    let personality = personality_from_map(&fields);
    assert_eq!(personality.aggression, 9);
    assert_eq!(personality.economic_priority, 8);
    assert_eq!(personality.defensiveness, 5);
}

// ── Order generation ──────────────────────────────────────────────

use gc1805::ai::{
    adjacent_areas, enemy_adjacent, generate_orders, has_enemy_corps, make_build_corps_order,
    make_declare_war_order, make_hold_order, make_move_order, AiContext,
};
use gc1805::ids::{AreaId, CorpsId, LeaderId, PowerId};
use gc1805::orders::Order;
use gc1805::scenario::{
    Area, AreaAdjacency, Corps, DiplomaticPairKey, DiplomaticState, Features, GameDate, Leader,
    MovementRules, Owner, PowerSetup, PowerSlot, PowerState, ProductionItem, ProductionKind,
    Scenario, TaxPolicy, Terrain,
};
use gc1805::tables::Maybe;

fn fra() -> PowerId {
    PowerId::new("FRA")
}

fn aus() -> PowerId {
    PowerId::new("AUS")
}

fn pru() -> PowerId {
    PowerId::new("PRU")
}

fn area(id: &str) -> AreaId {
    AreaId::new(id)
}

fn corps(id: &str) -> CorpsId {
    CorpsId::new(id)
}

fn leader(id: &str) -> LeaderId {
    LeaderId::new(id)
}

fn default_personality() -> AiPersonality {
    AiPersonality::default()
}

fn aggressive_personality() -> AiPersonality {
    AiPersonality { aggression: 8, ..AiPersonality::default() }
}

fn power_setup(name: &str, house: &str, ruler: &str, capital: &str, treasury: i64, color: &str) -> PowerSetup {
    PowerSetup {
        display_name: name.to_string(),
        house: house.to_string(),
        ruler: leader(ruler),
        capital: area(capital),
        starting_treasury: treasury,
        starting_manpower: 40,
        starting_pp: 0,
        max_corps: 12,
        max_depots: 8,
        mobilization_areas: vec![area(capital)],
        color_hex: color.to_string(),
    }
}

fn power_state(treasury: i64) -> PowerState {
    PowerState { treasury, manpower: 40, prestige: 0, tax_policy: TaxPolicy::Standard }
}

fn austrian_at_mid() -> Corps {
    Corps {
        display_name: "Austrian".to_string(),
        owner: aus(),
        area: area("AREA_MID"),
        infantry_sp: 4,
        cavalry_sp: 0,
        artillery_sp: 0,
        morale_q4: 8000,
        supplied: true,
        leader: None,
    }
}

fn adjacency(from: &str, to: &str) -> AreaAdjacency {
    AreaAdjacency { from: area(from), to: area(to), cost: Maybe::Value(1) }
}

fn edit_power_state(s: &mut Scenario, p: &PowerId, f: impl FnOnce(&mut PowerState)) {
    let mut ps = *s.power_state.get(p.as_str()).unwrap();
    f(&mut ps);
    s.power_state.insert(p.0.clone(), ps);
}

fn move_corps(s: &mut Scenario, id: &CorpsId, to: &str) {
    let mut c = s.corps.get(id.as_str()).unwrap().duplicate();
    c.area = area(to);
    s.corps.insert(id.0.clone(), c);
}

fn fixture() -> Scenario {
    let mut leaders = StrMap::new();
    leaders.insert(
        "LEADER_NAPOLEON".to_string(),
        Leader {
            display_name: "Napoleon".to_string(),
            strategic: 6,
            tactical: 6,
            initiative: 6,
            army_commander: true,
            born: GameDate::new(1769, 8),
        },
    );
    leaders.insert(
        "LEADER_CHARLES".to_string(),
        Leader {
            display_name: "Charles".to_string(),
            strategic: 5,
            tactical: 5,
            initiative: 5,
            army_commander: true,
            born: GameDate::new(1771, 9),
        },
    );

    let mut areas = StrMap::new();
    for area_id in [
        "AREA_CAPITAL",
        "AREA_MID",
        "AREA_FRONT",
        "AREA_ENEMY_BORDER",
        "AREA_TIE_A",
        "AREA_TIE_B",
        "AREA_ISOLATED",
    ] {
        areas.insert(
            area_id.to_string(),
            Area {
                display_name: area_id.to_string(),
                owner: Owner::Power(PowerSlot { power: fra() }),
                terrain: Terrain::Open,
                fort_level: 0,
                money_yield: Maybe::Value(1),
                manpower_yield: Maybe::Value(1),
                capital_of: if area_id == "AREA_CAPITAL" { Some(fra()) } else { None },
                port: false,
                blockaded: false,
                map_x: 0,
                map_y: 0,
            },
        );
    }

    let mut adj = Vec::new();
    for (from, to) in [
        ("AREA_CAPITAL", "AREA_MID"),
        ("AREA_MID", "AREA_FRONT"),
        ("AREA_FRONT", "AREA_ENEMY_BORDER"),
        ("AREA_FRONT", "AREA_TIE_A"),
        ("AREA_FRONT", "AREA_TIE_B"),
    ] {
        adj.push(adjacency(from, to));
        adj.push(adjacency(to, from));
    }

    let mut powers = StrMap::new();
    powers.insert(
        "FRA".to_string(),
        power_setup("France", "Bonaparte", "LEADER_NAPOLEON", "AREA_CAPITAL", 120, "#123456"),
    );
    powers.insert(
        "AUS".to_string(),
        power_setup("Austria", "Habsburg", "LEADER_CHARLES", "AREA_ENEMY_BORDER", 80, "#654321"),
    );
    powers.insert(
        "PRU".to_string(),
        power_setup("Prussia", "Hohenzollern", "LEADER_CHARLES", "AREA_ISOLATED", 80, "#abcdef"),
    );

    let mut ps = StrMap::new();
    ps.insert("FRA".to_string(), power_state(120));
    ps.insert("AUS".to_string(), power_state(80));
    ps.insert("PRU".to_string(), power_state(80));

    let mut all_corps = StrMap::new();
    all_corps.insert(
        "CORPS_FRA_001".to_string(),
        Corps {
            display_name: "I Corps".to_string(),
            owner: fra(),
            area: area("AREA_FRONT"),
            infantry_sp: 4,
            cavalry_sp: 1,
            artillery_sp: 1,
            morale_q4: 9000,
            supplied: true,
            leader: Some(leader("LEADER_NAPOLEON")),
        },
    );

    Scenario {
        schema_version: 1,
        rules_version: 0,
        scenario_id: "ai-test".to_string(),
        name: "AI Test".to_string(),
        start: GameDate::new(1805, 4),
        end: GameDate::new(1805, 5),
        unplayable_in_release: true,
        features: Features::default(),
        movement_rules: MovementRules {
            max_corps_per_area: Maybe::Value(3),
            movement_hops_per_turn: Maybe::Value(1),
            forced_march_extra_hops: Maybe::Value(1),
            forced_march_morale_loss_q4: Maybe::Value(500),
        },
        current_turn: 0,
        power_state: ps,
        production_queue: Vec::new(),
        replacement_queue: Vec::new(),
        subsidy_queue: Vec::new(),
        powers,
        minors: StrMap::new(),
        leaders,
        areas,
        sea_zones: StrMap::new(),
        corps: all_corps,
        fleets: StrMap::new(),
        diplomacy: StrMap::new(),
        adjacency: adj,
        coast_links: Vec::new(),
        sea_adjacency: Vec::new(),
    }
}

fn context(scenario: &Scenario) -> AiContext<'_> {
    AiContext { projected: scenario, power: fra(), personality: default_personality(), rng_seed: 7 }
}

fn set_relation(s: &mut Scenario, a: PowerId, b: PowerId, st: DiplomaticState) {
    s.diplomacy.insert(DiplomaticPairKey::new(a, b).text(), st);
}

#[test]
fn adjacent_areas_are_sorted_and_deduped() {
    let mut scenario = fixture();
    scenario.adjacency.push(adjacency("AREA_FRONT", "AREA_MID"));
    let areas = adjacent_areas(&scenario, &area("AREA_FRONT"));
    assert_eq!(areas[0], area("AREA_ENEMY_BORDER"));
    assert_eq!(areas[1], area("AREA_MID"));
    assert_eq!(areas.len(), 4);
}

#[test]
fn adjacent_areas_follow_links_either_way() {
    let mut scenario = fixture();
    scenario.adjacency.push(adjacency("AREA_ISOLATED", "AREA_CAPITAL"));
    let areas = adjacent_areas(&scenario, &area("AREA_CAPITAL"));
    assert_eq!(areas, vec![area("AREA_ISOLATED"), area("AREA_MID")]);
}

#[test]
fn detects_enemy_corps_in_area() {
    let mut scenario = fixture();
    scenario.corps.insert("CORPS_AUS_001".to_string(), austrian_at_mid());
    assert!(has_enemy_corps(&scenario, &area("AREA_MID"), &fra()));
    assert!(!has_enemy_corps(&scenario, &area("AREA_MID"), &aus()));
}

#[test]
fn detects_enemy_adjacent() {
    let mut scenario = fixture();
    scenario.corps.insert("CORPS_AUS_001".to_string(), austrian_at_mid());
    assert!(enemy_adjacent(&scenario, &area("AREA_FRONT"), &fra()));
    assert!(!enemy_adjacent(&scenario, &area("AREA_ISOLATED"), &fra()));
}

#[test]
fn hold_order_helper_builds_valid_hold() {
    let scenario = fixture();
    let order = make_hold_order(&fra(), &corps("CORPS_FRA_001"), &scenario).unwrap();
    assert!(matches!(order, Order::Hold(_)));
}

#[test]
fn hold_order_helper_rejects_foreign_corps() {
    let scenario = fixture();
    assert!(make_hold_order(&aus(), &corps("CORPS_FRA_001"), &scenario).is_none());
}

#[test]
fn move_order_helper_rejects_illegal_move() {
    let scenario = fixture();
    let order =
        make_move_order(&fra(), &corps("CORPS_FRA_001"), &area("AREA_CAPITAL"), &scenario);
    assert!(order.is_none());
}

#[test]
fn move_order_helper_accepts_legal_move() {
    let scenario = fixture();
    let order = make_move_order(&fra(), &corps("CORPS_FRA_001"), &area("AREA_MID"), &scenario);
    assert!(matches!(order, Some(Order::Move(_))));
}

#[test]
fn build_corps_helper_uses_existing_composition() {
    let scenario = fixture();
    let order = make_build_corps_order(&fra(), &area("AREA_CAPITAL"), &scenario).unwrap();
    match order {
        Order::BuildCorps(o) => {
            assert_eq!(o.composition.infantry_sp, 4);
            assert_eq!(o.composition.cavalry_sp, 1);
            assert_eq!(o.composition.artillery_sp, 1);
        }
        _ => panic!("expected build corps order"),
    }
}

#[test]
fn build_corps_helper_needs_a_corps_to_copy() {
    let scenario = fixture();
    assert!(make_build_corps_order(&pru(), &area("AREA_ISOLATED"), &scenario).is_none());
}

#[test]
fn declare_war_helper_rejects_self_target() {
    assert!(make_declare_war_order(&fra(), &fra()).is_none());
}

#[test]
fn declare_war_helper_builds_order() {
    let order = make_declare_war_order(&fra(), &aus()).unwrap();
    assert!(matches!(order, Order::DeclareWar(_)));
}

#[test]
fn generates_hold_when_enemy_adjacent() {
    let mut scenario = fixture();
    scenario.corps.insert("CORPS_AUS_001".to_string(), austrian_at_mid());
    let orders = generate_orders(&context(&scenario));
    assert!(matches!(orders.movement_orders[0], Order::Hold(_)));
}

#[test]
fn moves_toward_capital_when_safe() {
    let scenario = fixture();
    let orders = generate_orders(&context(&scenario));
    match &orders.movement_orders[0] {
        Order::Move(o) => assert_eq!(o.to, area("AREA_MID")),
        _ => panic!("expected move order"),
    }
}

#[test]
fn corps_at_capital_does_not_move() {
    let mut scenario = fixture();
    move_corps(&mut scenario, &corps("CORPS_FRA_001"), "AREA_CAPITAL");
    let orders = generate_orders(&context(&scenario));
    assert!(orders.movement_orders.is_empty());
}

#[test]
fn unreachable_neighbors_are_ignored() {
    let mut scenario = fixture();
    move_corps(&mut scenario, &corps("CORPS_FRA_001"), "AREA_ISOLATED");
    let orders = generate_orders(&context(&scenario));
    assert!(orders.movement_orders.is_empty());
}

#[test]
fn richer_ai_builds_corps_when_queue_empty() {
    let scenario = fixture();
    let orders = generate_orders(&context(&scenario));
    assert!(matches!(orders.economic_orders[0], Order::BuildCorps(_)));
}

#[test]
fn high_economic_priority_uses_lower_threshold() {
    let mut scenario = fixture();
    edit_power_state(&mut scenario, &fra(), |ps| ps.treasury = 60);
    let ctx = AiContext {
        projected: &scenario,
        power: fra(),
        personality: AiPersonality { economic_priority: 7, ..AiPersonality::default() },
        rng_seed: 7,
    };
    let orders = generate_orders(&ctx);
    assert_eq!(orders.economic_orders.len(), 1);
}

#[test]
fn normal_economic_priority_skips_at_sixty_treasury() {
    let mut scenario = fixture();
    edit_power_state(&mut scenario, &fra(), |ps| ps.treasury = 60);
    let orders = generate_orders(&context(&scenario));
    assert!(orders.economic_orders.is_empty());
}

#[test]
fn skips_build_when_poor() {
    let mut scenario = fixture();
    edit_power_state(&mut scenario, &fra(), |ps| ps.treasury = 20);
    let orders = generate_orders(&context(&scenario));
    assert!(orders.economic_orders.is_empty());
}

#[test]
fn skips_build_when_manpower_low() {
    let mut scenario = fixture();
    edit_power_state(&mut scenario, &fra(), |ps| ps.manpower = 20);
    let orders = generate_orders(&context(&scenario));
    assert!(orders.economic_orders.is_empty());
}

#[test]
fn skips_build_when_production_queue_non_empty() {
    let mut scenario = fixture();
    scenario.production_queue.push(ProductionItem {
        owner: fra(),
        area: area("AREA_CAPITAL"),
        kind: ProductionKind::Corps,
        eta_turn: 1,
        corps_composition: None,
    });
    let orders = generate_orders(&context(&scenario));
    assert!(orders.economic_orders.is_empty());
}

#[test]
fn aggressive_ai_declares_war_on_unfriendly_power() {
    let mut scenario = fixture();
    set_relation(&mut scenario, fra(), aus(), DiplomaticState::Unfriendly);
    let ctx = AiContext {
        projected: &scenario,
        power: fra(),
        personality: aggressive_personality(),
        rng_seed: 7,
    };
    let orders = generate_orders(&ctx);
    assert!(matches!(orders.diplomatic_orders[0], Order::DeclareWar(_)));
}

#[test]
fn non_aggressive_ai_skips_declare_war() {
    let mut scenario = fixture();
    set_relation(&mut scenario, fra(), aus(), DiplomaticState::Unfriendly);
    let orders = generate_orders(&context(&scenario));
    assert!(orders.diplomatic_orders.is_empty());
}

#[test]
fn ignores_unrelated_diplomatic_pairs() {
    let mut scenario = fixture();
    set_relation(&mut scenario, aus(), pru(), DiplomaticState::Unfriendly);
    let ctx = AiContext {
        projected: &scenario,
        power: fra(),
        personality: aggressive_personality(),
        rng_seed: 7,
    };
    let orders = generate_orders(&ctx);
    assert!(orders.diplomatic_orders.is_empty());
}

#[test]
fn declares_only_one_war_per_turn() {
    let mut scenario = fixture();
    set_relation(&mut scenario, fra(), aus(), DiplomaticState::Unfriendly);
    set_relation(&mut scenario, fra(), pru(), DiplomaticState::Unfriendly);
    let ctx = AiContext {
        projected: &scenario,
        power: fra(),
        personality: aggressive_personality(),
        rng_seed: 7,
    };
    let orders = generate_orders(&ctx);
    assert_eq!(orders.diplomatic_orders.len(), 1);
    match &orders.diplomatic_orders[0] {
        Order::DeclareWar(d) => assert_eq!(d.target, aus()),
        _ => panic!("expected a declaration of war"),
    }
}

#[test]
fn deterministic_for_same_seed() {
    let scenario = fixture();
    let ctx = context(&scenario);
    let a = generate_orders(&ctx);
    let b = generate_orders(&ctx);
    assert_eq!(a.movement_orders, b.movement_orders);
    assert_eq!(a.economic_orders, b.economic_orders);
    assert_eq!(a.diplomatic_orders, b.diplomatic_orders);
}

fn tie_scenario() -> Scenario {
    let mut scenario = fixture();
    move_corps(&mut scenario, &corps("CORPS_FRA_001"), "AREA_FRONT");
    scenario.adjacency.push(adjacency("AREA_TIE_A", "AREA_CAPITAL"));
    scenario.adjacency.push(adjacency("AREA_CAPITAL", "AREA_TIE_A"));
    scenario.adjacency.push(adjacency("AREA_TIE_B", "AREA_CAPITAL"));
    scenario.adjacency.push(adjacency("AREA_CAPITAL", "AREA_TIE_B"));
    scenario
}

fn first_move_target(scenario: &Scenario, seed: u64) -> AreaId {
    let orders = generate_orders(&AiContext {
        projected: scenario,
        power: fra(),
        personality: default_personality(),
        rng_seed: seed,
    });
    match &orders.movement_orders[0] {
        Order::Move(o) => o.to.clone(),
        _ => panic!("expected move"),
    }
}

#[test]
fn different_seed_changes_tie_break() {
    let scenario = tie_scenario();
    let first_a = first_move_target(&scenario, 1);
    let first_b = first_move_target(&scenario, 999);
    assert_ne!(first_a, first_b);
}

#[test]
fn tie_break_follows_hash_order() {
    let scenario = tie_scenario();
    let mut tied = vec!["AREA_MID", "AREA_TIE_A", "AREA_TIE_B"];
    tied.sort_by_key(|a| (str_hash(a), a.to_string()));
    for seed in 0..6u64 {
        assert_eq!(first_move_target(&scenario, seed), area(tied[(seed % 3) as usize]));
    }
}
