use gc1805::ids::{AreaId, PowerId};
use gc1805::map::MapGraph;
use gc1805::scenario::{
    Area, AreaAdjacency, Features, GameDate, MovementRules, Owner, PowerSlot, Scenario, Terrain,
    SCHEMA_VERSION,
};
use gc1805::strmap::StrMap;
use gc1805::tables::Maybe;

fn area(name: &str, owner: &str) -> Area {
    Area {
        display_name: name.to_string(),
        owner: Owner::Power(PowerSlot { power: PowerId::new(owner) }),
        terrain: Terrain::Open,
        fort_level: 0,
        money_yield: Maybe::Value(0),
        manpower_yield: Maybe::Value(0),
        capital_of: None,
        port: false,
        blockaded: false,
        map_x: 0,
        map_y: 0,
    }
}

fn edge(from: &str, to: &str, cost: Option<i32>) -> AreaAdjacency {
    AreaAdjacency {
        from: AreaId::new(from),
        to: AreaId::new(to),
        cost: match cost {
            Some(v) => Maybe::Value(v),
            None => Maybe::placeholder(),
        },
    }
}

fn empty() -> Scenario {
    Scenario {
        schema_version: SCHEMA_VERSION,
        rules_version: 0,
        scenario_id: "fixture".to_string(),
        name: "fixture".to_string(),
        start: GameDate::new(1805, 4),
        end: GameDate::new(1805, 5),
        unplayable_in_release: true,
        features: Features::default(),
        movement_rules: MovementRules::default(),
        current_turn: 0,
        power_state: StrMap::new(),
        production_queue: Vec::new(),
        replacement_queue: Vec::new(),
        subsidy_queue: Vec::new(),
        powers: StrMap::new(),
        minors: StrMap::new(),
        leaders: StrMap::new(),
        areas: StrMap::new(),
        sea_zones: StrMap::new(),
        corps: StrMap::new(),
        fleets: StrMap::new(),
        diplomacy: StrMap::new(),
        adjacency: Vec::new(),
        coast_links: Vec::new(),
        sea_adjacency: Vec::new(),
    }
}

/// 5-node line graph: A — B — C — D — E with unit costs.
fn line() -> Scenario {
    let mut s = empty();
    for n in ["AREA_A", "AREA_B", "AREA_C", "AREA_D", "AREA_E"] {
        s.areas.insert(n.to_string(), area(n, "FRA"));
    }
    for (a, b) in [
        ("AREA_A", "AREA_B"),
        ("AREA_B", "AREA_C"),
        ("AREA_C", "AREA_D"),
        ("AREA_D", "AREA_E"),
    ] {
        s.adjacency.push(edge(a, b, Some(1)));
        s.adjacency.push(edge(b, a, Some(1)));
    }
    s
}

/// Diamond graph — A connected to B and C, both connected to D.
fn diamond() -> Scenario {
    let mut s = empty();
    for n in ["AREA_A", "AREA_B", "AREA_C", "AREA_D"] {
        s.areas.insert(n.to_string(), area(n, "FRA"));
    }
    for (a, b, c) in [
        ("AREA_A", "AREA_B", 1),
        ("AREA_A", "AREA_C", 1),
        ("AREA_B", "AREA_D", 1),
        ("AREA_C", "AREA_D", 1),
    ] {
        s.adjacency.push(edge(a, b, Some(c)));
        s.adjacency.push(edge(b, a, Some(c)));
    }
    s
}

fn id(s: &str) -> AreaId {
    AreaId::new(s)
}

#[test]
fn case_a01_adjacent_neighbours_in_line() {
    let g = MapGraph::from_scenario(&line());
    assert!(g.adjacent(&id("AREA_A"), &id("AREA_B")));
    assert!(g.adjacent(&id("AREA_B"), &id("AREA_A")));
}

#[test]
fn case_a02_non_neighbours_in_line() {
    let g = MapGraph::from_scenario(&line());
    assert!(!g.adjacent(&id("AREA_A"), &id("AREA_C")));
}

#[test]
fn case_a03_unknown_area_not_adjacent() {
    let g = MapGraph::from_scenario(&line());
    assert!(!g.adjacent(&id("AREA_X"), &id("AREA_A")));
}

#[test]
fn case_a04_diamond_neighbours_sorted() {
    let g = MapGraph::from_scenario(&diamond());
    let nbrs = g.neighbours_of(&id("AREA_A")).unwrap();
    let names: Vec<&str> = nbrs.iter().map(|a| a.as_str()).collect();
    assert_eq!(names, vec!["AREA_B", "AREA_C"]);
}

#[test]
fn case_a05_area_count_matches_scenario() {
    let g = MapGraph::from_scenario(&line());
    assert_eq!(g.area_count(), 5);
}

#[test]
fn case_h01_zero_distance_to_self() {
    let g = MapGraph::from_scenario(&line());
    assert_eq!(g.distance_hops(&id("AREA_A"), &id("AREA_A")), Some(0));
}

#[test]
fn case_h02_one_hop_in_line() {
    let g = MapGraph::from_scenario(&line());
    assert_eq!(g.distance_hops(&id("AREA_A"), &id("AREA_B")), Some(1));
}

#[test]
fn case_h03_full_line() {
    let g = MapGraph::from_scenario(&line());
    assert_eq!(g.distance_hops(&id("AREA_A"), &id("AREA_E")), Some(4));
}

#[test]
fn case_h04_unreachable_returns_none() {
    let mut s = line();
    s.areas.insert("AREA_Z".to_string(), area("AREA_Z", "AUS"));
    let g = MapGraph::from_scenario(&s);
    assert_eq!(g.distance_hops(&id("AREA_A"), &id("AREA_Z")), None);
}

#[test]
fn case_h05_unknown_area_returns_none() {
    let g = MapGraph::from_scenario(&line());
    assert_eq!(g.distance_hops(&id("AREA_A"), &id("AREA_X")), None);
}

#[test]
fn case_h06_diamond_two_hops() {
    let g = MapGraph::from_scenario(&diamond());
    assert_eq!(g.distance_hops(&id("AREA_A"), &id("AREA_D")), Some(2));
}

#[test]
fn case_h07_diamond_path_picks_lexicographic_first() {
    let g = MapGraph::from_scenario(&diamond());
    let path = g.shortest_path_hops(&id("AREA_A"), &id("AREA_D")).unwrap();
    assert_eq!(path[1].as_str(), "AREA_B");
}

#[test]
fn case_h08_path_endpoints_correct() {
    let g = MapGraph::from_scenario(&line());
    let path = g.shortest_path_hops(&id("AREA_A"), &id("AREA_E")).unwrap();
    assert_eq!(path.first().unwrap().as_str(), "AREA_A");
    assert_eq!(path.last().unwrap().as_str(), "AREA_E");
}

#[test]
fn edge_ends_count_as_areas() {
    let mut s = empty();
    s.adjacency.push(edge("AREA_P", "AREA_Q", Some(1)));
    let g = MapGraph::from_scenario(&s);
    assert_eq!(g.area_count(), 2);
    assert_eq!(g.neighbours_of(&id("AREA_Q")), Some(vec![id("AREA_P")]));
    assert_eq!(g.distance_hops(&id("AREA_P"), &id("AREA_P")), Some(0));
    assert_eq!(g.distance_hops(&id("AREA_Q"), &id("AREA_P")), Some(1));
}

fn diamond_with_placeholder_branch() -> Scenario {
    let mut s = empty();
    for n in ["AREA_A", "AREA_B", "AREA_C", "AREA_D"] {
        s.areas.insert(n.to_string(), area(n, "FRA"));
    }
    s.adjacency.push(edge("AREA_A", "AREA_B", Some(1)));
    s.adjacency.push(edge("AREA_B", "AREA_A", Some(1)));
    s.adjacency.push(edge("AREA_A", "AREA_C", None));
    s.adjacency.push(edge("AREA_C", "AREA_A", None));
    s.adjacency.push(edge("AREA_B", "AREA_D", Some(1)));
    s.adjacency.push(edge("AREA_D", "AREA_B", Some(1)));
    s.adjacency.push(edge("AREA_C", "AREA_D", Some(1)));
    s.adjacency.push(edge("AREA_D", "AREA_C", Some(1)));
    s
}

fn cost(g: &MapGraph, a: &str, b: &str) -> Option<(i32, Vec<AreaId>)> {
    g.shortest_path_cost(&id(a), &id(b))
}

#[test]
fn case_c01_unit_costs_match_hops_in_line() {
    let g = MapGraph::from_scenario(&line());
    assert_eq!(cost(&g, "AREA_A", "AREA_E").map(|(c, _)| c), Some(4));
}

#[test]
fn case_c02_diamond_unit_cost_two() {
    let g = MapGraph::from_scenario(&diamond());
    assert_eq!(cost(&g, "AREA_A", "AREA_D").map(|(c, _)| c), Some(2));
}

#[test]
fn case_c03_placeholder_branch_returns_none_when_used() {
    let g = MapGraph::from_scenario(&diamond_with_placeholder_branch());
    assert_eq!(cost(&g, "AREA_A", "AREA_D").map(|(c, _)| c), Some(2));
}

#[test]
fn case_c04_placeholder_required_returns_none() {
    let mut s = empty();
    s.areas.insert("AREA_A".to_string(), area("a", "FRA"));
    s.areas.insert("AREA_B".to_string(), area("b", "FRA"));
    s.adjacency.push(edge("AREA_A", "AREA_B", None));
    s.adjacency.push(edge("AREA_B", "AREA_A", None));
    let g = MapGraph::from_scenario(&s);
    assert_eq!(cost(&g, "AREA_A", "AREA_B"), None);
}

#[test]
fn case_c05_unequal_costs_pick_cheaper() {
    let mut s = empty();
    for n in ["AREA_A", "AREA_B", "AREA_C", "AREA_D"] {
        s.areas.insert(n.to_string(), area(n, "FRA"));
    }
    for (a, b, c) in [
        ("AREA_A", "AREA_B", 5),
        ("AREA_B", "AREA_D", 5),
        ("AREA_A", "AREA_C", 1),
        ("AREA_C", "AREA_D", 1),
    ] {
        s.adjacency.push(edge(a, b, Some(c)));
        s.adjacency.push(edge(b, a, Some(c)));
    }
    let g = MapGraph::from_scenario(&s);
    let (c, path) = cost(&g, "AREA_A", "AREA_D").unwrap();
    assert_eq!(c, 2);
    assert_eq!(path[1].as_str(), "AREA_C");
}

#[test]
fn cost_to_self_is_zero() {
    let g = MapGraph::from_scenario(&diamond());
    assert_eq!(cost(&g, "AREA_B", "AREA_B"), Some((0, vec![id("AREA_B")])));
}

#[test]
fn cost_path_ties_take_lower_name() {
    let g = MapGraph::from_scenario(&diamond());
    let (c, path) = cost(&g, "AREA_A", "AREA_D").unwrap();
    assert_eq!(c, 2);
    assert_eq!(path, vec![id("AREA_A"), id("AREA_B"), id("AREA_D")]);
}

#[test]
fn cost_unknown_area_is_none() {
    let g = MapGraph::from_scenario(&diamond());
    assert_eq!(cost(&g, "AREA_A", "AREA_Z"), None);
}

#[test]
fn negative_cost_met_gives_none() {
    let mut s = empty();
    s.areas.insert("AREA_A".to_string(), area("a", "FRA"));
    s.areas.insert("AREA_B".to_string(), area("b", "FRA"));
    s.adjacency.push(edge("AREA_A", "AREA_B", Some(-1)));
    let g = MapGraph::from_scenario(&s);
    assert_eq!(cost(&g, "AREA_A", "AREA_B"), None);
}

#[test]
fn one_way_edge_connects_both_ways() {
    let mut s = empty();
    for n in ["AREA_A", "AREA_B", "AREA_C"] {
        s.areas.insert(n.to_string(), area(n, "FRA"));
    }
    s.adjacency.push(edge("AREA_A", "AREA_B", Some(3)));
    s.adjacency.push(edge("AREA_C", "AREA_B", Some(5)));
    let g = MapGraph::from_scenario(&s);
    assert!(g.adjacent(&id("AREA_A"), &id("AREA_B")));
    assert!(g.adjacent(&id("AREA_B"), &id("AREA_A")));
    assert!(g.adjacent(&id("AREA_B"), &id("AREA_C")));
    assert!(!g.adjacent(&id("AREA_A"), &id("AREA_C")));
    let hops = g.shortest_path_hops(&id("AREA_A"), &id("AREA_C")).unwrap();
    assert_eq!(hops, vec![id("AREA_A"), id("AREA_B"), id("AREA_C")]);
    let (cost, path) = g.shortest_path_cost(&id("AREA_C"), &id("AREA_A")).unwrap();
    assert_eq!(cost, 8);
    assert_eq!(path, vec![id("AREA_C"), id("AREA_B"), id("AREA_A")]);
}

#[test]
fn tied_shortest_paths_take_the_first_in_name_order() {
    let mut s = empty();
    for n in ["AREA_A", "AREA_B", "AREA_C", "AREA_D", "AREA_E"] {
        s.areas.insert(n.to_string(), area(n, "FRA"));
    }
    // Two routes of two hops from E to A: through C and through B; the
    // adjacency lists C first.
    s.adjacency.push(edge("AREA_E", "AREA_C", Some(1)));
    s.adjacency.push(edge("AREA_C", "AREA_A", Some(1)));
    s.adjacency.push(edge("AREA_E", "AREA_D", Some(1)));
    s.adjacency.push(edge("AREA_D", "AREA_A", Some(1)));
    s.adjacency.push(edge("AREA_E", "AREA_B", Some(1)));
    s.adjacency.push(edge("AREA_B", "AREA_A", Some(1)));
    let g = MapGraph::from_scenario(&s);
    let p = g.shortest_path_hops(&id("AREA_E"), &id("AREA_A")).unwrap();
    assert_eq!(p, vec![id("AREA_E"), id("AREA_B"), id("AREA_A")]);
    let q = g.shortest_path_hops(&id("AREA_A"), &id("AREA_E")).unwrap();
    assert_eq!(q, vec![id("AREA_A"), id("AREA_B"), id("AREA_E")]);
}

#[test]
fn large_costs_are_added_without_overflow() {
    let mut s = empty();
    for n in ["AREA_A", "AREA_B", "AREA_C", "AREA_D"] {
        s.areas.insert(n.to_string(), area(n, "FRA"));
    }
    s.adjacency.push(edge("AREA_A", "AREA_B", Some(2_000_000_000)));
    s.adjacency.push(edge("AREA_B", "AREA_C", Some(100)));
    s.adjacency.push(edge("AREA_C", "AREA_D", Some(2_000_000_000)));
    let g = MapGraph::from_scenario(&s);
    let (c, p) = g.shortest_path_cost(&id("AREA_A"), &id("AREA_C")).unwrap();
    assert_eq!(c, 2_000_000_100);
    assert_eq!(p, vec![id("AREA_A"), id("AREA_B"), id("AREA_C")]);
    // The cheapest path from A to D costs more than i32::MAX.
    assert!(g.shortest_path_cost(&id("AREA_A"), &id("AREA_D")).is_none());
}
