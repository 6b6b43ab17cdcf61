use gc1805::historical::{
    all_historical_events, effect_summary, EventEffect, EventId, EventOption, EventRegistry, EventTrigger,
    HistoricalEvent,
};
use gc1805::ids::{AreaId, MarshalId, PowerId};
use gc1805::marshals::MarshalTrait;

fn fra() -> PowerId {
    PowerId::new("FRA")
}

fn gbr() -> PowerId {
    PowerId::new("GBR")
}

fn simple(id: EventId, title: &'static str, trigger: EventTrigger, effects: Vec<EventEffect>, repeatable: bool) -> HistoricalEvent {
    HistoricalEvent {
        id,
        title,
        description: "Test",
        trigger,
        options: vec![EventOption { label: "OK", effects }],
        fires_for: fra(),
        repeatable,
        fired: false,
    }
}

#[test]
fn registry_loads_25_events() {
    let reg = EventRegistry::with_historical();
    assert_eq!(reg.events.len(), 25);
}

#[test]
fn all_events_have_options() {
    let reg = EventRegistry::with_historical();
    for event in &reg.events {
        assert!(!event.options.is_empty(), "event {} '{}' has no options", event.id, event.title);
    }
}

#[test]
fn date_trigger_fires_on_exact_date() {
    let mut reg = EventRegistry::new();
    reg.add(simple(
        100,
        "Test Date Event",
        EventTrigger::DateReached { year: 1805, month: 10, day: 21 },
        vec![EventEffect::TreasuryChange(10)],
        false,
    ));
    let pending = reg.advance_triggers(1805, 10, 21);
    assert_eq!(pending, vec![100]);
}

#[test]
fn date_trigger_does_not_fire_before_date() {
    let mut reg = EventRegistry::new();
    reg.add(simple(
        101,
        "Future Event",
        EventTrigger::DateReached { year: 1810, month: 6, day: 1 },
        vec![],
        false,
    ));
    let pending = reg.advance_triggers(1805, 1, 1);
    assert!(pending.is_empty());
}

#[test]
fn always_true_fires_immediately() {
    let mut reg = EventRegistry::new();
    reg.add(simple(102, "Always Event", EventTrigger::AlwaysTrue, vec![], false));
    let pending = reg.advance_triggers(1805, 1, 1);
    assert_eq!(pending, vec![102]);
}

#[test]
fn fired_event_does_not_fire_again() {
    let mut reg = EventRegistry::new();
    reg.add(simple(103, "Once Only", EventTrigger::AlwaysTrue, vec![EventEffect::TreasuryChange(5)], false));
    let _ = reg.resolve(103, 0).unwrap();
    let pending = reg.advance_triggers(1805, 1, 1);
    assert!(pending.is_empty());
}

#[test]
fn repeatable_event_fires_again() {
    let mut reg = EventRegistry::new();
    reg.add(simple(104, "Repeating", EventTrigger::AlwaysTrue, vec![], true));
    let _ = reg.resolve(104, 0).unwrap();
    let pending = reg.advance_triggers(1805, 1, 1);
    assert_eq!(pending, vec![104]);
}

#[test]
fn resolve_returns_effects() {
    let mut reg = EventRegistry::new();
    reg.add(HistoricalEvent {
        id: 105,
        title: "Effects Test",
        description: "Test",
        trigger: EventTrigger::AlwaysTrue,
        options: vec![
            EventOption { label: "Option A", effects: vec![EventEffect::TreasuryChange(100)] },
            EventOption { label: "Option B", effects: vec![EventEffect::ManpowerChange(-5)] },
        ],
        fires_for: fra(),
        repeatable: false,
        fired: false,
    });
    let effects = reg.resolve(105, 1).unwrap();
    assert_eq!(effects.len(), 1);
    assert_eq!(effects[0], EventEffect::ManpowerChange(-5));
    assert!(reg.events[0].fired);
}

#[test]
fn resolve_invalid_option_returns_error() {
    let mut reg = EventRegistry::new();
    reg.add(simple(106, "Bounds Test", EventTrigger::AlwaysTrue, vec![], false));
    assert!(reg.resolve(106, 5).is_err());
    assert_eq!(
        reg.resolve(106, 5).unwrap_err(),
        "option index 5 out of range (event has 1 options)"
    );
    assert!(!reg.events[0].fired);
}

#[test]
fn resolve_unknown_event_returns_error() {
    let mut reg = EventRegistry::new();
    assert!(reg.resolve(999, 0).is_err());
    assert_eq!(reg.resolve(999, 0).unwrap_err(), "event 999 not found");
}

#[test]
fn add_replaces_same_id_and_keeps_order() {
    let mut reg = EventRegistry::new();
    reg.add(simple(7, "Seven", EventTrigger::AlwaysTrue, vec![], false));
    reg.add(simple(3, "Three", EventTrigger::AlwaysTrue, vec![], false));
    reg.add(simple(7, "Seven again", EventTrigger::AlwaysTrue, vec![], false));
    let ids: Vec<EventId> = reg.events.iter().map(|e| e.id).collect();
    assert_eq!(ids, vec![3, 7]);
    assert_eq!(reg.events[1].title, "Seven again");
}

#[test]
fn pending_events_json_filters_by_power() {
    let reg = EventRegistry::with_historical();
    let all_ids: Vec<EventId> = reg.events.iter().map(|e| e.id).collect();
    let fra_json = reg.pending_events_json(&fra(), &all_ids);
    let parsed: Vec<serde_json::Value> = serde_json::from_str(&fra_json).unwrap();
    for ev in &parsed {
        assert_eq!(ev["firesFor"].as_str().unwrap(), "FRA");
    }
    assert!(!parsed.is_empty());
}

#[test]
fn pending_events_json_exact_text() {
    let mut reg = EventRegistry::new();
    reg.add(HistoricalEvent {
        id: 5,
        title: "T",
        description: "D \"q\"",
        trigger: EventTrigger::AlwaysTrue,
        options: vec![EventOption {
            label: "L",
            effects: vec![EventEffect::TreasuryChange(3), EventEffect::DeclareWar(gbr())],
        }],
        fires_for: fra(),
        repeatable: false,
        fired: false,
    });
    assert_eq!(
        reg.pending_events_json(&fra(), &[5, 6]),
        r#"[{"description":"D \"q\"","firesFor":"FRA","id":5,"options":[{"effects":["+3 treasury","Declare war on GBR"],"label":"L"}],"title":"T"}]"#
    );
    assert_eq!(reg.pending_events_json(&gbr(), &[5]), "[]");
}

#[test]
fn territory_trigger_fires_on_loss() {
    let mut reg = EventRegistry::new();
    let area = AreaId::new("AREA_PARIS");
    reg.add(simple(200, "Paris Lost", EventTrigger::TerritoryLost(area.clone()), vec![], false));
    let pending = reg.check_territory_trigger(&area, false);
    assert_eq!(pending, vec![200]);
    let pending2 = reg.check_territory_trigger(&area, true);
    assert!(pending2.is_empty());
}

#[test]
fn effect_summary_formatting() {
    assert_eq!(effect_summary(&EventEffect::TreasuryChange(10)), "+10 treasury");
    assert_eq!(effect_summary(&EventEffect::TreasuryChange(-5)), "-5 treasury");
    assert_eq!(effect_summary(&EventEffect::ManpowerChange(3)), "+3 manpower");
    assert_eq!(
        effect_summary(&EventEffect::RelationChange { power: gbr(), delta: -20 }),
        "-20 relations with GBR"
    );
}

#[test]
fn effect_summary_other_kinds() {
    assert_eq!(effect_summary(&EventEffect::ManpowerChange(0)), "+0 manpower");
    assert_eq!(effect_summary(&EventEffect::PeaceOffer(gbr())), "Peace offer to GBR");
    assert_eq!(
        effect_summary(&EventEffect::AddTrait(MarshalId::new("MARSHAL_NEY"), MarshalTrait::Aggressive)),
        "Add Aggressive to MARSHAL_NEY"
    );
    assert_eq!(effect_summary(&EventEffect::NewsMessage("News".to_string())), "News");
}

#[test]
fn date_trigger_fires_after_date() {
    let mut reg = EventRegistry::new();
    reg.add(simple(
        201,
        "Past Event",
        EventTrigger::DateReached { year: 1805, month: 1, day: 1 },
        vec![],
        false,
    ));
    let pending = reg.advance_triggers(1806, 3, 15);
    assert_eq!(pending, vec![201]);
}

#[test]
fn first_event_is_the_coronation() {
    let events = all_historical_events();
    let e = &events[0];
    assert_eq!(e.id, 1);
    assert_eq!(e.title, "The Emperor Crowns Himself");
    assert_eq!(e.trigger, EventTrigger::DateReached { year: 1804, month: 12, day: 2 });
    assert_eq!(e.fires_for, fra());
    assert!(!e.repeatable);
    assert_eq!(e.options.len(), 2);
    assert_eq!(e.options[0].label, "Grand Ceremony");
    assert_eq!(
        e.options[0].effects,
        vec![
            EventEffect::ManpowerChange(5),
            EventEffect::TreasuryChange(-10),
            EventEffect::NewsMessage("Napoleon crowned Emperor in grand ceremony!".to_string()),
        ]
    );
    assert_eq!(events[24].title, "War Exhaustion");
    assert_eq!(events[24].trigger, EventTrigger::AlwaysTrue);
}
