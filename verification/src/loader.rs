//! Diagnostics gathered while loading a scenario.

use vstd::prelude::*;

use crate::canonical::{find_key, key_index, placeholder_paths, scan_placeholders, texts, JsonNumber, JsonValue};
use crate::scenario::{PowerSetup, PowerState, Scenario, TaxPolicy, SCHEMA_VERSION};
use crate::schema_error::SchemaError;
use serde_json::Value;

verus! {

/// A structural finding about a loaded scenario (a dangling reference,
/// a one-way adjacency, …).
#[derive(Debug, Clone, PartialEq, Eq)]
pub struct IntegrityIssue {
    pub message: String,
}

/// Diagnostic record produced by loading.  A scenario can load with
/// placeholders or integrity issues; the report says what to surface.
#[derive(Debug, Clone)]
pub struct LoadReport {
    /// Dotted JSON paths where a placeholder value was found.  Non-empty
    /// implies the scenario is unplayable in release.
    pub placeholder_paths: Vec<String>,
    /// Integrity findings.
    pub integrity: Vec<IntegrityIssue>,
}

impl LoadReport {
    /// A report with nothing to surface.
    pub fn new() -> (r: Self)
        ensures
            r.placeholder_paths@.len() == 0,
            r.integrity@.len() == 0,
    {
        LoadReport { placeholder_paths: Vec::new(), integrity: Vec::new() }
    }

    /// Whether the scenario loaded with no placeholders and no findings.
    pub fn is_clean(&self) -> (b: bool)
        ensures
            b == (self.placeholder_paths@.len() == 0 && self.integrity@.len() == 0),
    {
        self.placeholder_paths.len() == 0 && self.integrity.len() == 0
    }
}

impl Default for LoadReport {
    /// Same as [`LoadReport::new`].
    fn default() -> (r: Self)
        ensures
            r.placeholder_paths@.len() == 0,
            r.integrity@.len() == 0,
    {
        Self::new()
    }
}

/// The number a JSON value holds when it is a non-negative integer that
/// fits in 64 bits.
pub open spec fn json_u64(v: JsonValue) -> Option<u64> {
    match v {
        JsonValue::Number(JsonNumber::UInt(u)) => Some(u),
        JsonValue::Number(JsonNumber::Int(i)) => if i >= 0 {
            Some(i as u64)
        } else {
            None
        },
        _ => None,
    }
}

/// The `schema_version` of a raw scenario: the value of its first member
/// of that name, when the scenario is an object and that value is a
/// non-negative integer.
pub open spec fn raw_schema_version(raw: JsonValue) -> Option<u64> {
    match raw {
        JsonValue::Object(ms) => {
            let i = key_index(ms@, "schema_version"@);
            if 0 <= i < ms@.len() {
                json_u64(ms@[i].1)
            } else {
                None
            }
        },
        _ => None,
    }
}

/// Checks the `schema_version` of a raw scenario before anything else is
/// read from it: it must be a non-negative integer that, read as a `u32`,
/// is the supported version.  Returns that version.
pub fn check_schema_version(raw: &JsonValue) -> (r: Result<u32, SchemaError>)
    ensures
        match raw_schema_version(*raw) {
            None => r matches Err(SchemaError::InvalidValue { path, reason }) && path@ == "schema_version"@
                && reason@ == "missing or non-integer"@,
            Some(found) => if found as u32 == SCHEMA_VERSION {
                r == Ok::<u32, SchemaError>(found as u32)
            } else {
                r == Err::<u32, SchemaError>(
                    SchemaError::SchemaVersion { found: found as u32, min: SCHEMA_VERSION, max: SCHEMA_VERSION },
                )
            },
        },
{
    let found: Option<u64> = match raw {
        JsonValue::Object(ms) => match find_key(ms, "schema_version") {
            Some(i) => match &ms[i].1 {
                JsonValue::Number(JsonNumber::UInt(u)) => Some(*u),
                JsonValue::Number(JsonNumber::Int(n)) => if *n >= 0 {
                    Some(*n as u64)
                } else {
                    None
                },
                _ => None,
            },
            None => None,
        },
        _ => None,
    };
    match found {
        None => Err(
            SchemaError::InvalidValue {
                path: "schema_version".to_owned(),
                reason: "missing or non-integer".to_owned(),
            },
        ),
        Some(f) => {
            let v = f as u32;
            if v != SCHEMA_VERSION {
                Err(SchemaError::SchemaVersion { found: v, min: SCHEMA_VERSION, max: SCHEMA_VERSION })
            } else {
                Ok(v)
            }
        },
    }
}

/// The live state a power starts with: its starting treasury, manpower
/// and prestige, at the standard tax rate.
pub open spec fn starting_state(p: PowerSetup) -> PowerState {
    PowerState {
        treasury: p.starting_treasury,
        manpower: p.starting_manpower,
        prestige: p.starting_pp,
        tax_policy: TaxPolicy::Standard,
    }
}

/// The live states once every power without one has its starting state;
/// states already present are kept.
pub open spec fn with_starting_states(
    setups: Map<Seq<char>, PowerSetup>,
    states: Map<Seq<char>, PowerState>,
) -> Map<Seq<char>, PowerState> {
    Map::new(
        |k: Seq<char>| states.contains_key(k) || setups.contains_key(k),
        |k: Seq<char>| if states.contains_key(k) {
            states[k]
        } else {
            starting_state(setups[k])
        },
    )
}

/// Gives every power without a live state its starting state, keeping
/// the states the scenario already holds.
pub fn initialize_power_state(s: &mut Scenario)
    ensures
        *final(s) == (Scenario { power_state: final(s).power_state, ..*old(s) }),
        final(s).power_state@ == with_starting_states(old(s).powers@, old(s).power_state@),
{
    let n = s.powers.len();
    let ghost ps0 = s.power_state@;
    let mut i: usize = 0;
    while i < n
        invariant
            n == s.powers.entries_view().len(),
            s.powers.well_formed(),
            *s == (Scenario { power_state: s.power_state, ..*old(s) }),
            ps0 == old(s).power_state@,
            i <= n,
            forall|k: Seq<char>|
                #[trigger] s.power_state@.contains_key(k) <==> ps0.contains_key(k) || exists|j: int|
                    0 <= j < i && #[trigger] s.powers.entries_view()[j].0@ == k,
            forall|k: Seq<char>|
                #[trigger] s.power_state@.contains_key(k) ==> s.power_state@[k] == if ps0.contains_key(k) {
                    ps0[k]
                } else {
                    starting_state(s.powers@[k])
                },
        decreases n - i,
    {
        let key = s.powers.key_at(i).clone();
        proof {
            assert(s.powers@.contains_key(s.powers.entries_view()[i as int].0@));
        }
        if !s.power_state.contains_key(key.as_str()) {
            let p = s.powers.value_at(i);
            let st = PowerState {
                treasury: p.starting_treasury,
                manpower: p.starting_manpower,
                prestige: p.starting_pp,
                tax_policy: TaxPolicy::Standard,
            };
            s.power_state.insert(key, st);
        }
        proof {
            assert forall|k: Seq<char>| #[trigger] s.power_state@.contains_key(k) implies ps0.contains_key(k)
                || exists|j: int| 0 <= j < i + 1 && #[trigger] s.powers.entries_view()[j].0@ == k by {
                if k == s.powers.entries_view()[i as int].0@ {
                } else {
                }
            }
        }
        i = i + 1;
    }
    proof {
        assert forall|k: Seq<char>| #[trigger] s.powers@.contains_key(k) implies s.power_state@.contains_key(k) by {
            let j = choose|j: int| 0 <= j < n && #[trigger] s.powers.entries_view()[j].0@ == k;
        }
        assert(s.power_state@ =~= with_starting_states(old(s).powers@, old(s).power_state@));
    }
}


/// Errors that prevent loading entirely.
#[derive(Debug, Clone, PartialEq, Eq)]
pub enum LoadError {
    /// The text is not JSON; carries the parser's message.
    Json(String),
    /// The JSON is not a scenario this version reads.
    Schema(SchemaError),
}

#[verifier::external_type_specification]
#[verifier::external_body]
pub struct ExSerdeJsonValue(Value);

/// What `serde_json::from_str` reads from a text, as a [`JsonValue`], or
/// the text of its error.
pub uninterp spec fn json_parse(text: Seq<char>) -> Result<JsonValue, Seq<char>>;

/// The [`JsonValue`] with the contents of a `serde_json::Value`: numbers
/// that `as_u64` reads become `UInt`, other numbers that `as_i64` reads
/// become `Int`, the rest keep their text; object members come in the
/// map's order.  Nothing is claimed of the result.
#[verifier::external_body]
fn json_from_serde(v: &Value) -> (r: JsonValue) {
    match v {
        Value::Null => JsonValue::Null,
        Value::Bool(b) => JsonValue::Bool(*b),
        Value::Number(n) => JsonValue::Number(match (n.as_u64(), n.as_i64()) {
            (Some(u), _) => JsonNumber::UInt(u),
            (None, Some(i)) => JsonNumber::Int(i),
            _ => JsonNumber::Other(n.to_string()),
        }),
        Value::String(t) => JsonValue::String(t.clone()),
        Value::Array(a) => JsonValue::Array(a.iter().map(json_from_serde).collect()),
        Value::Object(m) => JsonValue::Object(m.iter().map(|(k, x)| (k.clone(), json_from_serde(x))).collect()),
    }
}

/// Reads `text` with `serde_json::from_str` into a `serde_json::Value` and
/// converts it.  Claimed: the result is [`json_parse`] of the text, a
/// function of the text alone.  What that value is for a given text is
/// not stated.
#[verifier::external_body]
fn parse_json(text: &str) -> (r: Result<JsonValue, String>)
    ensures
        match json_parse(text@) {
            Ok(v) => r == Ok::<JsonValue, String>(v),
            Err(m) => r matches Err(e) && e@ == m,
        },
{
    match serde_json::from_str::<Value>(text) {
        Ok(v) => Ok(json_from_serde(&v)),
        Err(e) => Err(e.to_string()),
    }
}

/// What loading a raw scenario `raw` up to its typed reading gives: the
/// schema-version error, or `raw` back with a report that lists the
/// placeholder paths from `$` and no integrity findings yet.
pub open spec fn raw_load(raw: JsonValue, r: Result<(JsonValue, LoadReport), SchemaError>) -> bool {
    match raw_schema_version(raw) {
        None => r matches Err(SchemaError::InvalidValue { path, reason }) && path@ == "schema_version"@
            && reason@ == "missing or non-integer"@,
        Some(found) => if found as u32 == SCHEMA_VERSION {
            r matches Ok((v, rep)) && v == raw && texts(rep.placeholder_paths@) == placeholder_paths(raw, "$"@)
                && rep.integrity@.len() == 0
        } else {
            r == Err::<(JsonValue, LoadReport), SchemaError>(
                SchemaError::SchemaVersion { found: found as u32, min: SCHEMA_VERSION, max: SCHEMA_VERSION },
            )
        },
    }
}

/// The checks made on a raw scenario before it is read into a typed
/// scenario: its schema version, then the placeholder scan from `$`.
pub fn check_raw_scenario(raw: JsonValue) -> (r: Result<(JsonValue, LoadReport), SchemaError>)
    ensures
        raw_load(raw, r),
{
    match check_schema_version(&raw) {
        Err(e) => Err(e),
        Ok(_) => {
            let mut report = LoadReport::new();
            scan_placeholders(&raw, "$", &mut report.placeholder_paths);
            proof {
                reveal_strlit("$");
                assert(texts(Seq::<String>::empty()) =~= Seq::<Seq<char>>::empty());
                assert(texts(report.placeholder_paths@) =~= placeholder_paths(raw, "$"@));
            }
            Ok((raw, report))
        },
    }
}

/// Reads a scenario's JSON text as far as its typed reading: parses it,
/// checks its schema version and lists its placeholders.  A text that is
/// not JSON gives the parser's message.
pub fn read_raw_scenario(text: &str) -> (r: Result<(JsonValue, LoadReport), LoadError>)
    ensures
        match json_parse(text@) {
            Err(m) => r matches Err(LoadError::Json(e)) && e@ == m,
            Ok(raw) => exists|c: Result<(JsonValue, LoadReport), SchemaError>|
                #[trigger] raw_load(raw, c) && match c {
                    Ok(x) => r == Ok::<(JsonValue, LoadReport), LoadError>(x),
                    Err(e) => r == Err::<(JsonValue, LoadReport), LoadError>(LoadError::Schema(e)),
                },
        },
{
    match parse_json(text) {
        Err(m) => Err(LoadError::Json(m)),
        Ok(raw) => {
            let c = check_raw_scenario(raw);
            match c {
                Ok(x) => Ok(x),
                Err(e) => Err(LoadError::Schema(e)),
            }
        },
    }
}

} // verus!
