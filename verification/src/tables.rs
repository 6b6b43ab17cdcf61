//! Rules tables: designer-authored numerical values.
//!
//! A value that a designer has not yet authored is an explicit
//! placeholder; a scenario carrying any placeholder cannot ship in release.

use vstd::prelude::*;

use crate::strmap::StrMap;

verus! {

/// Either a designer-authored value of type `T`, or an explicit
/// placeholder marker.
#[derive(Debug, Clone, PartialEq, Eq)]
pub enum Maybe<T> {
    Value(T),
    Placeholder(PlaceholderMarker),
}

/// The literal `{"_placeholder": true}` marker.
#[derive(Debug, Clone, Copy, PartialEq, Eq, Structural)]
pub struct PlaceholderMarker {
    pub _placeholder: bool,
}

impl PlaceholderMarker {
    /// A marker with its flag set.
    pub fn new() -> (m: Self)
        ensures
            m._placeholder,
    {
        PlaceholderMarker { _placeholder: true }
    }
}

impl Default for PlaceholderMarker {
    /// Same as [`PlaceholderMarker::new`].
    fn default() -> (m: Self)
        ensures
            m._placeholder,
    {
        Self::new()
    }
}

impl<T> Maybe<T> {
    /// The authored value, if any.
    pub open spec fn value(&self) -> Option<T> {
        match self {
            Maybe::Value(v) => Some(*v),
            Maybe::Placeholder(_) => None,
        }
    }

    /// A placeholder.
    pub fn placeholder() -> (m: Self)
        ensures
            m is Placeholder,
            m->Placeholder_0._placeholder,
    {
        Maybe::Placeholder(PlaceholderMarker::new())
    }

    /// Whether the value is still a placeholder.
    pub fn is_placeholder(&self) -> (b: bool)
        ensures
            b == (self is Placeholder),
    {
        match self {
            Maybe::Value(_) => false,
            Maybe::Placeholder(_) => true,
        }
    }

    /// The authored value, if any.
    pub fn get(&self) -> (r: Option<&T>)
        ensures
            match r {
                Some(v) => self.value() == Some(*v),
                None => self.value() is None,
            },
    {
        match self {
            Maybe::Value(v) => Some(v),
            Maybe::Placeholder(_) => None,
        }
    }
}

impl<T> Default for Maybe<T> {
    /// Values are placeholders until authored.
    fn default() -> (m: Self)
        ensures
            m is Placeholder,
    {
        Self::placeholder()
    }
}

/// An authored integer, or `fallback` for a placeholder.
pub open spec fn value_or(m: Maybe<i32>, fallback: int) -> int {
    match m {
        Maybe::Value(v) => v as int,
        Maybe::Placeholder(_) => fallback,
    }
}

/// An authored integer, or `fallback` for a placeholder.
pub fn maybe_or(m: &Maybe<i32>, fallback: i32) -> (r: i32)
    ensures
        r == value_or(*m, fallback as int),
{
    match m {
        Maybe::Value(v) => *v,
        Maybe::Placeholder(_) => fallback,
    }
}

// ─── Combat ────────────────────────────────────────────────────────────

#[derive(Debug, Clone)]
pub struct RatioBucket {
    pub id: String,
    pub min_ratio_pct: i32,
    pub max_ratio_pct: i32,
    pub label: String,
}

#[derive(Debug, Clone)]
pub struct Formation {
    pub id: String,
    pub label: String,
    pub description: String,
}

#[derive(Debug, Clone, Copy)]
pub struct FormationEntry {
    pub att_col_shift: i8,
    pub def_morale_shift: i8,
}

#[derive(Debug, Clone, Copy)]
pub struct TerrainModifier {
    pub att_col_shift: i8,
    pub extra_def_morale: i8,
}

#[derive(Debug, Clone, Copy, PartialEq, Eq)]
pub struct CombatResult {
    pub att_sp_loss: i32,
    pub def_sp_loss: i32,
    /// Morale delta, fixed point with denominator 10000.
    pub att_morale_delta: i32,
    pub def_morale_delta: i32,
    pub def_retreat_steps: i32,
    pub att_advances: bool,
}

// ─── Attrition ─────────────────────────────────────────────────────────

#[derive(Debug)]
pub struct AttritionTable {
    pub schema_version: u32,
    /// Keyed by `<terrain>_<season>_<supply_state>` → SP loss per turn.
    pub rows: StrMap<Maybe<i32>>,
}

// ─── Weather ───────────────────────────────────────────────────────────

#[derive(Debug)]
pub struct WeatherTable {
    pub schema_version: u32,
    pub theaters: Vec<String>,
    /// Month (1..=12) → theater → weather kind → probability in fixed
    /// point with denominator 4096; each row sums to 4096.
    pub monthly: Vec<(u8, StrMap<StrMap<Maybe<i32>>>)>,
}

// ─── Minor activation ──────────────────────────────────────────────────

#[derive(Debug)]
pub struct MinorActivationTable {
    pub schema_version: u32,
    /// Keyed by minor ID.
    pub rows: StrMap<Maybe<MinorActivationRow>>,
}

#[derive(Debug)]
pub struct MinorActivationRow {
    pub trigger: String,
    /// Outcome key → probability, denominator 4096.
    pub outcomes: StrMap<i32>,
}

// ─── PP modifiers ──────────────────────────────────────────────────────

#[derive(Debug)]
pub struct PpModifiersTable {
    pub schema_version: u32,
    /// Keyed by event name → integer PP delta.
    pub events: StrMap<Maybe<i32>>,
}

// ─── Leader casualty ───────────────────────────────────────────────────

#[derive(Debug)]
pub struct LeaderCasualtyTable {
    pub schema_version: u32,
    /// Battle intensity bucket → outcome distribution, denominator 4096.
    pub by_intensity: StrMap<StrMap<Maybe<i32>>>,
}

// ─── Morale ────────────────────────────────────────────────────────────

#[derive(Debug, Clone)]
pub struct MoraleTable {
    pub schema_version: u32,
    pub retreat_threshold_q4: Maybe<i32>,
    pub rout_threshold_q4: Maybe<i32>,
    pub recovery_per_turn_q4: Maybe<i32>,
}

// ─── Naval combat ──────────────────────────────────────────────────────

#[derive(Debug)]
pub struct NavalCombatTable {
    pub schema_version: u32,
    pub ratio_buckets: Vec<String>,
    pub die_faces: u8,
    pub results: StrMap<Vec<Maybe<NavalResult>>>,
}

#[derive(Debug, Clone, Copy)]
pub struct NavalResult {
    pub attacker_ship_loss: i32,
    pub defender_ship_loss: i32,
    pub disengage: bool,
}

// ─── Economy ───────────────────────────────────────────────────────────

/// Designer-authored economy values; each may still be a placeholder.
#[derive(Debug, Clone)]
pub struct EconomyTable {
    pub schema_version: u32,
    pub corps_maintenance_per_sp: Maybe<i32>,
    pub fleet_maintenance_per_ship: Maybe<i32>,
    /// Tax-policy multipliers, fixed point with denominator 10000.
    pub tax_policy_multiplier_low_q4: Maybe<i32>,
    pub tax_policy_multiplier_standard_q4: Maybe<i32>,
    pub tax_policy_multiplier_heavy_q4: Maybe<i32>,
    pub corps_build_cost_money: Maybe<i32>,
    pub corps_build_cost_manpower: Maybe<i32>,
    pub corps_production_lag_turns: Maybe<i32>,
    pub corps_minimum_sp: Maybe<i32>,
    pub new_corps_morale_q4: Maybe<i32>,
    pub fleet_build_cost_money: Maybe<i32>,
    pub fleet_production_lag_turns: Maybe<i32>,
    pub depot_build_cost: Maybe<i32>,
    pub max_depots_default: Maybe<i32>,
    /// Fraction of last turn's combat losses returned per turn, denominator 4096.
    pub manpower_recovery_q12: Maybe<i32>,
    /// How many turns after a loss a replacement arrives.
    pub manpower_recovery_lag_turns: Maybe<i32>,
}

} // verus!
