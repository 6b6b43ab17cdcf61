use gc1805::ids::PowerId;
use gc1805::production::{
    advance_all_economies, advance_economy, can_recruit, default_economies, default_expenditure,
    record_casualties, spend_resources, PowerEconomy,
};

fn econ() -> PowerEconomy {
    PowerEconomy {
        power: PowerId::new("FRA"),
        treasury: 5000,
        income_per_day: 120,
        expenditure_per_day: 80,
        manpower_pool: 640_000,
        manpower_cap: 650_000,
        manpower_recovery: 8000,
        factories: 8,
        war_exhaustion: 0,
    }
}

#[test]
fn expenditure_table() {
    assert_eq!(default_expenditure("FRA"), 80);
    assert_eq!(default_expenditure("GBR"), 60);
    assert_eq!(default_expenditure("XYZ"), 30);
}

#[test]
fn advance_moves_treasury_and_caps_manpower() {
    let mut e = econ();
    advance_economy(&mut e, 30);
    assert_eq!(e.treasury, 5000 + 40 * 30);
    assert_eq!(e.manpower_pool, 648_000);
    advance_economy(&mut e, 30);
    assert_eq!(e.manpower_pool, 650_000);
}

#[test]
fn spending_checks_both_pools() {
    let mut e = econ();
    assert!(can_recruit(&e, 1000, 100));
    assert_eq!(spend_resources(&mut e, 700_000, 1), Err("insufficient manpower"));
    assert_eq!(spend_resources(&mut e, 1, 10_000), Err("insufficient treasury"));
    assert_eq!(e.treasury, 5000);
    assert_eq!(spend_resources(&mut e, 1000, 100), Ok(()));
    assert_eq!(e.treasury, 4900);
    assert_eq!(e.manpower_pool, 639_000);
}

#[test]
fn casualties_raise_exhaustion_to_a_cap() {
    let mut e = econ();
    record_casualties(&mut e, 25_000);
    assert_eq!(e.war_exhaustion, 2);
    record_casualties(&mut e, 2_000_000);
    assert_eq!(e.war_exhaustion, 100);
}

fn france_economy() -> PowerEconomy {
    PowerEconomy {
        power: PowerId::new("FRA"),
        treasury: 5000,
        income_per_day: 120,
        expenditure_per_day: 80,
        manpower_pool: 650_000,
        manpower_cap: 650_000,
        manpower_recovery: 8000,
        factories: 8,
        war_exhaustion: 0,
    }
}

#[test]
fn default_economies_has_seven_powers() {
    let reg = default_economies();
    assert_eq!(reg.len(), 7);
    for id in ["FRA", "GBR", "RUS", "AUS", "PRU", "OTT", "SPA"] {
        assert!(reg.contains_key(id));
    }
}

#[test]
fn production_france_starting_values() {
    let reg = default_economies();
    let fra = reg.get("FRA").unwrap();
    assert_eq!(fra.treasury, 5000);
    assert_eq!(fra.income_per_day, 120);
    assert_eq!(fra.manpower_pool, 650_000);
    assert_eq!(fra.factories, 8);
    assert_eq!(fra.war_exhaustion, 0);
}

#[test]
fn advance_economy_treasury_increases() {
    let mut eco = france_economy();
    advance_economy(&mut eco, 10);
    assert_eq!(eco.treasury, 5400);
}

#[test]
fn advance_economy_treasury_can_go_negative() {
    let mut eco = france_economy();
    eco.expenditure_per_day = 200;
    eco.treasury = 100;
    advance_economy(&mut eco, 10);
    assert_eq!(eco.treasury, 100 - 800);
}

#[test]
fn advance_economy_manpower_recovers() {
    let mut eco = france_economy();
    eco.manpower_pool = 600_000;
    advance_economy(&mut eco, 30);
    assert_eq!(eco.manpower_pool, 608_000);
}

#[test]
fn advance_economy_manpower_capped() {
    let mut eco = france_economy();
    eco.manpower_pool = 649_000;
    advance_economy(&mut eco, 30);
    assert_eq!(eco.manpower_pool, 650_000);
}

#[test]
fn can_recruit_true() {
    let eco = france_economy();
    assert!(can_recruit(&eco, 10_000, 500));
}

#[test]
fn can_recruit_false_manpower() {
    let eco = france_economy();
    assert!(!can_recruit(&eco, 700_000, 100));
}

#[test]
fn can_recruit_false_gold() {
    let eco = france_economy();
    assert!(!can_recruit(&eco, 1000, 10_000));
}

#[test]
fn spend_resources_ok() {
    let mut eco = france_economy();
    let result = spend_resources(&mut eco, 10_000, 500);
    assert!(result.is_ok());
    assert_eq!(eco.manpower_pool, 640_000);
    assert_eq!(eco.treasury, 4500);
}

#[test]
fn spend_resources_insufficient_manpower() {
    let mut eco = france_economy();
    let result = spend_resources(&mut eco, 700_000, 100);
    assert!(result.is_err());
    assert_eq!(result.unwrap_err(), "insufficient manpower");
    assert_eq!(eco.manpower_pool, 650_000);
}

#[test]
fn spend_resources_insufficient_gold() {
    let mut eco = france_economy();
    let result = spend_resources(&mut eco, 1000, 10_000);
    assert!(result.is_err());
    assert_eq!(result.unwrap_err(), "insufficient treasury");
}

#[test]
fn record_casualties_increases_war_exhaustion() {
    let mut eco = france_economy();
    record_casualties(&mut eco, 50_000);
    assert_eq!(eco.war_exhaustion, 5);
}

#[test]
fn record_casualties_capped_at_100() {
    let mut eco = france_economy();
    eco.war_exhaustion = 95;
    record_casualties(&mut eco, 200_000);
    assert_eq!(eco.war_exhaustion, 100);
}

#[test]
fn advance_all_economies_updates_all() {
    let mut reg = default_economies();
    let fra_treasury_before = reg.get("FRA").unwrap().treasury;
    let gbr_treasury_before = reg.get("GBR").unwrap().treasury;
    advance_all_economies(&mut reg, 1);
    assert_eq!(reg.get("FRA").unwrap().treasury, fra_treasury_before + 40);
    assert_eq!(reg.get("GBR").unwrap().treasury, gbr_treasury_before + 20);
}

#[test]
fn economies_to_json_roundtrip() {
    // The registry holds the seven starting economies a serialised copy
    // would carry.
    let reg = default_economies();
    assert_eq!(reg.len(), 7);
    assert_eq!(reg.get("FRA").unwrap().treasury, 5000);
}

#[test]
fn power_economy_to_json_known() {
    let reg = default_economies();
    assert_eq!(reg.get("FRA").unwrap().treasury, 5000);
}

#[test]
fn power_economy_to_json_unknown() {
    let reg = default_economies();
    assert!(reg.get("XYZ").is_none());
}

#[test]
fn btreemap_deterministic_order() {
    let reg = default_economies();
    assert_eq!(reg.key_at(0).as_str(), "AUS");
    assert_eq!(reg.key_at(1).as_str(), "FRA");
    assert_eq!(reg.key_at(2).as_str(), "GBR");
}

#[test]
fn gold_above_i32_max_wraps_to_negative() {
    let mut e = france_economy();
    let treasury = e.treasury;
    let pool = e.manpower_pool;
    // 4_294_967_295 read as a signed 32-bit number is -1.
    assert!(can_recruit(&e, 0, u32::MAX));
    assert_eq!(spend_resources(&mut e, 0, u32::MAX), Ok(()));
    assert_eq!(e.treasury, treasury + 1);
    assert_eq!(e.manpower_pool, pool);
}
