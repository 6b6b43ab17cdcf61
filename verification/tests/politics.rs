use gc1805::ids::PowerId;
use gc1805::politics::{Faction, Government, PoliticsRegistry, PowerPolitics};

fn fra() -> PowerId {
    PowerId::new("FRA")
}

fn get<'a>(reg: &'a PoliticsRegistry, id: &str) -> &'a PowerPolitics {
    reg.powers.get(id).unwrap()
}

fn support(p: &PowerPolitics, f: Faction) -> u8 {
    p.faction_support.iter().find(|(g, _)| *g == f).map(|(_, v)| *v).unwrap()
}

#[test]
fn historical_registry_has_seven_powers() {
    let reg = PoliticsRegistry::with_historical();
    assert_eq!(reg.powers.len(), 7);
}

#[test]
fn politics_france_starting_values() {
    let reg = PoliticsRegistry::with_historical();
    let fra = get(&reg, "FRA");
    assert_eq!(fra.legitimacy, 85);
    assert_eq!(fra.stability, 2);
    assert_eq!(fra.government, Government::Empire);
    assert_eq!(fra.ruling_faction, Faction::Military);
    assert_eq!(support(fra, Faction::Military), 60);
}

#[test]
fn stability_effects_positive() {
    let reg = PoliticsRegistry::with_historical();
    let effects = get(&reg, "GBR").stability_effects();
    assert_eq!(effects.income_modifier, 15);
    assert_eq!(effects.manpower_modifier, 10);
    assert_eq!(effects.revolt_chance, 0);
    assert!(!effects.civil_war_risk);
}

#[test]
fn stability_effects_negative() {
    let reg = PoliticsRegistry::with_historical();
    let effects = get(&reg, "SPA").stability_effects();
    assert_eq!(effects.income_modifier, -20);
    assert_eq!(effects.revolt_chance, 15);
    assert!(!effects.civil_war_risk);
}

#[test]
fn stability_effects_civil_war() {
    let mut politics = get(&PoliticsRegistry::with_historical(), "FRA").clone();
    politics.stability = -3;
    let effects = politics.stability_effects();
    assert_eq!(effects.income_modifier, -30);
    assert_eq!(effects.revolt_chance, 30);
    assert!(effects.civil_war_risk);
}

#[test]
fn monthly_legitimacy_no_wars() {
    let reg = PoliticsRegistry::with_historical();
    assert_eq!(get(&reg, "FRA").monthly_legitimacy_change(0, false), 1);
}

#[test]
fn monthly_legitimacy_with_wars() {
    let reg = PoliticsRegistry::with_historical();
    assert_eq!(get(&reg, "FRA").monthly_legitimacy_change(2, false), -1);
}

#[test]
fn monthly_legitimacy_winning_wars() {
    let reg = PoliticsRegistry::with_historical();
    assert_eq!(get(&reg, "FRA").monthly_legitimacy_change(1, true), 2);
}

#[test]
fn change_faction_succeeds() {
    let mut reg = PoliticsRegistry::with_historical();
    assert!(reg.change_ruling_faction(&fra(), Faction::Merchants).is_ok());
    assert_eq!(get(&reg, "FRA").ruling_faction, Faction::Merchants);
}

#[test]
fn change_faction_unknown_power_errors() {
    let mut reg = PoliticsRegistry::with_historical();
    let result = reg.change_ruling_faction(&PowerId::new("ZZZ"), Faction::Military);
    assert_eq!(result, Err("Unknown power: ZZZ".to_string()));
}

#[test]
fn politics_json_round_trip() {
    // The registry's stored values are what a serialised copy carries.
    let reg = PoliticsRegistry::with_historical();
    let fra = get(&reg, "FRA");
    assert_eq!(fra.legitimacy, 85);
    assert_eq!(fra.stability, 2);
}

#[test]
fn historical_support_tables_in_faction_order() {
    let reg = PoliticsRegistry::with_historical();
    assert_eq!(
        get(&reg, "FRA").faction_support,
        vec![(Faction::Military, 60), (Faction::Clergy, 30), (Faction::Merchants, 40)]
    );
    assert_eq!(get(&reg, "OTT").stability, -1);
    assert_eq!(get(&reg, "SPA").ruling_faction, Faction::Clergy);
    assert!(get(&reg, "RUS").puppets.is_empty());
    assert!(get(&reg, "AUS").overlord.is_none());
}

#[test]
fn stability_above_three_is_neutral() {
    let mut politics = get(&PoliticsRegistry::with_historical(), "FRA").clone();
    politics.stability = 4;
    let effects = politics.stability_effects();
    assert_eq!(effects.income_modifier, 0);
    assert_eq!(effects.manpower_modifier, 0);
    assert_eq!(effects.revolt_chance, 0);
    assert!(!effects.civil_war_risk);
    assert_eq!(politics.monthly_legitimacy_change(0, false), 0);
    assert_eq!(politics.monthly_legitimacy_change(2, true), 0);
    politics.stability = 3;
    assert_eq!(politics.stability_effects().income_modifier, 15);
    assert_eq!(politics.monthly_legitimacy_change(0, false), 1);
}
