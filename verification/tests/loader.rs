use gc1805::canonical::{scan_placeholders, JsonNumber, JsonValue};
use gc1805::ids::{AreaId, LeaderId};
use gc1805::loader::{check_schema_version, initialize_power_state, read_raw_scenario, LoadError};
use gc1805::scenario::{
    Features, GameDate, MovementRules, PowerSetup, PowerState, Scenario, TaxPolicy, SCHEMA_VERSION,
};
use gc1805::schema_error::SchemaError;
use gc1805::strmap::StrMap;

fn to_json(v: &serde_json::Value) -> JsonValue {
    match v {
        serde_json::Value::Null => JsonValue::Null,
        serde_json::Value::Bool(b) => JsonValue::Bool(*b),
        serde_json::Value::Number(n) => match (n.as_u64(), n.as_i64()) {
            (Some(u), _) => JsonValue::Number(JsonNumber::UInt(u)),
            (None, Some(i)) => JsonValue::Number(JsonNumber::Int(i)),
            _ => JsonValue::Number(JsonNumber::Other(n.to_string())),
        },
        serde_json::Value::String(s) => JsonValue::String(s.clone()),
        serde_json::Value::Array(a) => JsonValue::Array(a.iter().map(to_json).collect()),
        serde_json::Value::Object(m) => {
            JsonValue::Object(m.iter().map(|(k, x)| (k.clone(), to_json(x))).collect())
        }
    }
}

fn parse(text: &str) -> JsonValue {
    to_json(&serde_json::from_str(text).unwrap())
}

#[test]
fn placeholder_scan_finds_simple_marker() {
    let v = parse(r#"{"x": {"_placeholder": true}}"#);
    let mut out = Vec::new();
    scan_placeholders(&v, "$", &mut out);
    assert_eq!(out, vec!["$.x".to_string()]);
}

#[test]
fn placeholder_scan_finds_nested_markers() {
    let v = parse(r#"{"a": [1, {"_placeholder": true}], "b": {"c": {"_placeholder": true}}}"#);
    let mut out = Vec::new();
    scan_placeholders(&v, "$", &mut out);
    out.sort();
    assert_eq!(out, vec!["$.a[1]".to_string(), "$.b.c".to_string()]);
}

#[test]
fn schema_version_mismatch_errors() {
    let r = read_raw_scenario(r#"{"schema_version": 9999}"#);
    assert!(matches!(
        r,
        Err(LoadError::Schema(SchemaError::SchemaVersion { found: 9999, .. }))
    ));
}

#[test]
fn placeholder_scan_skips_marker_with_other_members() {
    let v = parse(r#"{"x": {"_placeholder": true, "y": 1}, "z": {"_placeholder": false}}"#);
    let mut out = vec!["earlier".to_string()];
    scan_placeholders(&v, "$", &mut out);
    assert_eq!(out, vec!["earlier".to_string()]);
}

#[test]
fn top_level_marker_is_reported_at_root() {
    let v = parse(r#"{"_placeholder": true}"#);
    let mut out = Vec::new();
    scan_placeholders(&v, "$", &mut out);
    assert_eq!(out, vec!["$".to_string()]);
}

#[test]
fn missing_schema_version_is_invalid() {
    match check_schema_version(&parse(r#"{"name": "x"}"#)) {
        Err(SchemaError::InvalidValue { path, reason }) => {
            assert_eq!(path, "schema_version");
            assert_eq!(reason, "missing or non-integer");
        }
        other => panic!("unexpected {other:?}"),
    }
    assert!(matches!(
        check_schema_version(&parse(r#"{"schema_version": -1}"#)),
        Err(SchemaError::InvalidValue { .. })
    ));
    assert!(matches!(
        check_schema_version(&parse(r#"[1]"#)),
        Err(SchemaError::InvalidValue { .. })
    ));
}

#[test]
fn supported_schema_version_is_accepted() {
    assert_eq!(check_schema_version(&parse(r#"{"schema_version": 1}"#)), Ok(SCHEMA_VERSION));
    // The version is read as a u32: 2^32 + 1 wraps round to 1.
    assert_eq!(check_schema_version(&parse(r#"{"schema_version": 4294967297}"#)), Ok(1));
}

#[test]
fn raw_scenario_lists_placeholders() {
    let (raw, report) =
        read_raw_scenario(r#"{"schema_version": 1, "a": [{"_placeholder": true}], "b": 2}"#).unwrap();
    assert!(matches!(raw, JsonValue::Object(_)));
    assert_eq!(report.placeholder_paths, vec!["$.a[0]".to_string()]);
    assert!(report.integrity.is_empty());
    assert!(!report.is_clean());
}

#[test]
fn malformed_json_is_a_json_error() {
    assert!(matches!(read_raw_scenario("{not json"), Err(LoadError::Json(_))));
}

fn setup(capital: &str, treasury: i64, manpower: i32, pp: i32) -> PowerSetup {
    PowerSetup {
        display_name: "P".to_string(),
        house: "H".to_string(),
        ruler: LeaderId::new("LEADER_X"),
        capital: AreaId::new(capital),
        starting_treasury: treasury,
        starting_manpower: manpower,
        starting_pp: pp,
        max_corps: 1,
        max_depots: 1,
        mobilization_areas: vec![],
        color_hex: "#000".to_string(),
    }
}

#[test]
fn power_state_starts_from_setup_and_keeps_existing() {
    let mut s = Scenario {
        schema_version: SCHEMA_VERSION,
        rules_version: 0,
        scenario_id: "t".to_string(),
        name: "t".to_string(),
        start: GameDate::new(1805, 1),
        end: GameDate::new(1805, 2),
        unplayable_in_release: false,
        features: Features::default(),
        movement_rules: MovementRules::default(),
        current_turn: 0,
        power_state: StrMap::new(),
        production_queue: Vec::new(),
        replacement_queue: Vec::new(),
        subsidy_queue: Vec::new(),
        powers: StrMap::new(),
        minors: StrMap::new(),
        leaders: StrMap::new(),
        areas: StrMap::new(),
        sea_zones: StrMap::new(),
        corps: StrMap::new(),
        fleets: StrMap::new(),
        diplomacy: StrMap::new(),
        adjacency: Vec::new(),
        coast_links: Vec::new(),
        sea_adjacency: Vec::new(),
    };
    s.powers.insert("FRA".to_string(), setup("AREA_PARIS", 1000, 200, 30));
    s.powers.insert("GBR".to_string(), setup("AREA_LONDON", 2000, 100, 40));
    s.power_state.insert(
        "GBR".to_string(),
        PowerState { treasury: 5, manpower: 6, prestige: 7, tax_policy: TaxPolicy::Low },
    );
    initialize_power_state(&mut s);
    assert_eq!(s.power_state.len(), 2);
    let fra = s.power_state.get("FRA").unwrap();
    assert_eq!((fra.treasury, fra.manpower, fra.prestige), (1000, 200, 30));
    assert_eq!(fra.tax_policy, TaxPolicy::Standard);
    let gbr = s.power_state.get("GBR").unwrap();
    assert_eq!((gbr.treasury, gbr.manpower, gbr.prestige), (5, 6, 7));
    assert_eq!(gbr.tax_policy, TaxPolicy::Low);
}
