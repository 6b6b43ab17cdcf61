use gc1805::division::{BattleTactic, DivisionRegistry, DivisionTemplate, TemplateInput};
use gc1805::ids::{DivisionTemplateId, PowerId};

fn tpl(b: u8, c: u8, a: u8, t: BattleTactic) -> DivisionTemplate {
    DivisionTemplate {
        id: DivisionTemplateId::new("DIVTPL_X"),
        name: "X".into(),
        power: PowerId::new("FRA"),
        battalions: b,
        cavalry_squadrons: c,
        artillery_batteries: a,
        tactic: t,
    }
}

#[test]
fn column_stats() {
    let t = tpl(8, 3, 2, BattleTactic::Column);
    // base = 800 + 240 + 300 = 1340
    assert_eq!(t.attack_strength(), 1340 + 268);
    assert_eq!(t.defense_strength(), 1340 - 134);
    assert_eq!(t.movement_speed(), 3);
    assert_eq!(t.supply_consumption(), 110 + 50);
}

#[test]
fn square_is_slow_and_sturdy() {
    let t = tpl(2, 3, 6, BattleTactic::Square);
    // base = 200 + 240 + 900 = 1340; speed 3 - 2 + 1 - 1 = 1
    assert_eq!(t.attack_strength(), 1340 - 402);
    assert_eq!(t.defense_strength(), 1340 + 402);
    assert_eq!(t.movement_speed(), 1);
    let s = t.stats();
    assert_eq!(s.movement_speed, 1);
}

#[test]
fn custom_templates_are_numbered() {
    let mut reg = DivisionRegistry::new();
    let input = TemplateInput {
        name: "Guard".into(),
        power: "FRA".into(),
        battalions: 4,
        cavalry_squadrons: 1,
        artillery_batteries: 1,
        tactic: BattleTactic::Line,
    };
    let t = reg.create(input.clone());
    assert_eq!(t.id.as_str(), "DIVTPL_CUSTOM_100");
    let t2 = reg.create(input);
    assert_eq!(t2.id.as_str(), "DIVTPL_CUSTOM_101");
    assert_eq!(reg.templates.len(), 2);
    assert_eq!(reg.stats_of(&t.id).unwrap().attack_strength, 400 + 80 + 150);
    assert!(reg.stats_of(&DivisionTemplateId::new("DIVTPL_NONE")).is_none());
}

fn custom(name: &str, b: u8, c: u8, a: u8, t: BattleTactic) -> DivisionTemplate {
    DivisionTemplate {
        id: DivisionTemplateId::new("DIVTPL_TEST"),
        name: name.to_string(),
        power: PowerId::new("FRA"),
        battalions: b,
        cavalry_squadrons: c,
        artillery_batteries: a,
        tactic: t,
    }
}

#[test]
fn default_registry_has_five_templates() {
    let reg = DivisionRegistry::with_defaults();
    assert_eq!(reg.templates.len(), 5);
}

#[test]
fn french_corps_stats() {
    let reg = DivisionRegistry::with_defaults();
    let fra = reg.templates.get("DIVTPL_FRA_DEFAULT").unwrap();
    assert_eq!(fra.attack_strength(), 1608);
    assert_eq!(fra.defense_strength(), 1206);
    assert_eq!(fra.movement_speed(), 3);
    assert_eq!(fra.supply_consumption(), 160);
}

#[test]
fn british_division_line_tactic() {
    let reg = DivisionRegistry::with_defaults();
    let gbr = reg.templates.get("DIVTPL_GBR_DEFAULT").unwrap();
    assert_eq!(gbr.attack_strength(), 980);
    assert_eq!(gbr.defense_strength(), 980);
}

#[test]
fn square_tactic_modifiers() {
    let tpl = custom("Test", 10, 0, 0, BattleTactic::Square);
    assert_eq!(tpl.attack_strength(), 700);
    assert_eq!(tpl.defense_strength(), 1300);
    assert_eq!(tpl.movement_speed(), 2);
}

#[test]
fn skirmish_screen_modifiers() {
    let tpl = custom("Test", 10, 0, 0, BattleTactic::SkirmishScreen);
    assert_eq!(tpl.attack_strength(), 800);
    assert_eq!(tpl.defense_strength(), 1100);
}

#[test]
fn create_custom_template() {
    let mut reg = DivisionRegistry::with_defaults();
    let tpl = reg.create(TemplateInput {
        name: "Custom".to_string(),
        power: "FRA".to_string(),
        battalions: 5,
        cavalry_squadrons: 5,
        artillery_batteries: 1,
        tactic: BattleTactic::Column,
    });
    assert_eq!(tpl.id, DivisionTemplateId::new("DIVTPL_CUSTOM_100"));
    assert_eq!(reg.templates.len(), 6);
}

#[test]
fn stats_json_for_known_template() {
    let reg = DivisionRegistry::with_defaults();
    let stats = reg.stats_of(&DivisionTemplateId::new("DIVTPL_FRA_DEFAULT")).unwrap();
    assert_eq!(stats.attack_strength, 1608);
}

#[test]
fn stats_json_unknown_template_fails() {
    let reg = DivisionRegistry::with_defaults();
    assert!(reg.stats_of(&DivisionTemplateId::new("DIVTPL_NOPE")).is_none());
}

#[test]
fn cavalry_speed_bonus() {
    let tpl = custom("Cavalry", 1, 5, 0, BattleTactic::Line);
    assert_eq!(tpl.movement_speed(), 4);
}

#[test]
fn artillery_slows_movement() {
    let tpl = custom("Heavy Art", 5, 0, 9, BattleTactic::Line);
    assert_eq!(tpl.movement_speed(), 0);
}

#[test]
fn division_to_json_round_trip() {
    // Every default template is stored under its ID.
    let reg = DivisionRegistry::with_defaults();
    assert_eq!(reg.templates.len(), 5);
    assert_eq!(reg.templates.get("DIVTPL_PRU_DEFAULT").unwrap().name, "Prussian Corps");
}
