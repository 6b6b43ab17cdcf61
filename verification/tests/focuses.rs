use gc1805::focuses::{build_britain_tree, build_france_tree, FocusEffect, FocusId, FocusRegistry, FocusTree};

fn focus_effects(tree: &FocusTree, id: u32) -> Vec<FocusEffect> {
    tree.focuses.iter().find(|f| f.id == FocusId(id)).unwrap().effects.clone()
}

#[test]
fn france_tree_has_14_focuses() {
    let tree = build_france_tree();
    assert_eq!(tree.focuses.len(), 14);
}

#[test]
fn britain_tree_has_12_focuses() {
    let tree = build_britain_tree();
    assert_eq!(tree.focuses.len(), 12);
}

#[test]
fn root_focuses_are_available() {
    let tree = build_france_tree();
    assert!(tree.is_available(FocusId(1)));
    assert!(!tree.is_available(FocusId(2)));
}

#[test]
fn start_focus_works() {
    let mut tree = build_france_tree();
    assert!(tree.start_focus(FocusId(1)));
    assert_eq!(tree.in_progress, Some((FocusId(1), 70)));
}

#[test]
fn cannot_start_two_focuses() {
    let mut tree = build_france_tree();
    assert!(tree.start_focus(FocusId(1)));
    assert!(!tree.start_focus(FocusId(5)));
}

#[test]
fn cannot_start_locked_focus() {
    let mut tree = build_france_tree();
    assert!(!tree.start_focus(FocusId(2)));
}

#[test]
fn advance_completes_focus() {
    let mut tree = build_france_tree();
    tree.start_focus(FocusId(1));
    let effects = tree.advance(70);
    assert!(effects.is_some());
    assert!(tree.completed.contains(&FocusId(1)));
    assert!(tree.in_progress.is_none());
}

#[test]
fn advance_partial_progress() {
    let mut tree = build_france_tree();
    tree.start_focus(FocusId(1));
    let effects = tree.advance(30);
    assert!(effects.is_none());
    assert_eq!(tree.in_progress, Some((FocusId(1), 40)));
}

#[test]
fn completing_prereq_unlocks_next() {
    let mut tree = build_france_tree();
    tree.start_focus(FocusId(1));
    tree.advance(70);
    assert!(tree.is_available(FocusId(2)));
    assert!(tree.is_available(FocusId(4)));
}

#[test]
fn focus_effects_are_correct() {
    let tree = build_france_tree();
    assert_eq!(focus_effects(&tree, 1), vec![FocusEffect::AttackBonus(10)]);
}

#[test]
fn registry_default_has_two_powers() {
    let reg = FocusRegistry::with_defaults();
    assert!(reg.get_tree("FRA").is_some());
    assert!(reg.get_tree("GBR").is_some());
    assert!(reg.get_tree("AUS").is_none());
}

#[test]
fn registry_start_and_advance() {
    let mut reg = FocusRegistry::with_defaults();
    assert!(reg.start_focus("FRA", 12));
    let effects = reg.advance_focus("FRA", 35);
    assert!(effects.is_some());
    assert_eq!(effects.unwrap(), vec![FocusEffect::ManpowerBonus(50_000)]);
}

#[test]
fn tree_json_round_trip() {
    // The French tree carries the focus names a serialised copy shows.
    let reg = FocusRegistry::with_defaults();
    let tree = reg.get_tree("FRA").unwrap();
    assert!(tree.focuses.iter().any(|f| f.name.contains("Grande")));
    assert!(tree.focuses.iter().any(|f| f.name == "Continental System"));
}

#[test]
fn completed_json_empty_initially() {
    let reg = FocusRegistry::with_defaults();
    assert!(reg.get_tree("FRA").unwrap().completed.is_empty());
}

#[test]
fn completed_focus_not_available() {
    let mut tree = build_france_tree();
    tree.start_focus(FocusId(1));
    tree.advance(70);
    assert!(!tree.is_available(FocusId(1)));
}

#[test]
fn britain_naval_chain() {
    let mut tree = build_britain_tree();
    assert!(tree.start_focus(FocusId(101)));
    tree.advance(70);
    assert!(tree.is_available(FocusId(102)));
    assert!(tree.start_focus(FocusId(102)));
    tree.advance(140);
    assert!(tree.is_available(FocusId(103)));
}

#[test]
fn advance_with_no_progress_returns_none() {
    let mut tree = build_france_tree();
    assert!(tree.advance(10).is_none());
}

#[test]
fn unknown_power_returns_null_json() {
    let reg = FocusRegistry::with_defaults();
    assert!(reg.get_tree("AUS").is_none());
}

#[test]
fn subsidize_allies_has_three_influences() {
    let tree = build_britain_tree();
    assert_eq!(
        focus_effects(&tree, 106),
        vec![
            FocusEffect::DiplomaticInfluence("AUS".to_string(), 25),
            FocusEffect::DiplomaticInfluence("PRU".to_string(), 25),
            FocusEffect::DiplomaticInfluence("RUS".to_string(), 25),
        ]
    );
}
