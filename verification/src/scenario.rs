//! Scenario root types: the designer-authored starting state of a
//! campaign together with the state that mutates during play.
//!
//! Every numeric field that affects state is an integer; fractions are
//! stored as fixed point with a documented scale.  Keyed collections are
//! ordered maps, so every walk over them is deterministic.

use vstd::prelude::*;

use crate::ids::{AreaId, CorpsId, LeaderId, MinorId, PowerId, SeaZoneId};
use crate::strmap::{lex_lt, str_less, StrMap};
use crate::tables::Maybe;
use crate::text::{chars_of, push_str, string_from_chars};

verus! {

/// Schema version for the scenario format itself.
pub const SCHEMA_VERSION: u32 = 1;

/// A complete scenario: the starting state of a campaign plus its live
/// state.
#[derive(Debug, Clone)]
pub struct Scenario {
    pub schema_version: u32,
    /// Bumped whenever a tables file changes semantics.
    pub rules_version: u32,
    /// Stable identifier for this scenario, lowercase snake-case.
    pub scenario_id: String,
    /// Display name.
    pub name: String,
    /// Inclusive starting (year, month).
    pub start: GameDate,
    /// Inclusive ending (year, month).
    pub end: GameDate,
    /// Set while any placeholder values remain.
    pub unplayable_in_release: bool,
    /// Toggleable rules.
    pub features: Features,
    /// Movement rules.
    pub movement_rules: MovementRules,
    /// Logical turn index since `start`.
    pub current_turn: u32,
    /// Live economic and political state per power.
    pub power_state: StrMap<PowerState>,
    /// Pending production deliveries.
    pub production_queue: Vec<ProductionItem>,
    /// Pending manpower returns from past combat losses.
    pub replacement_queue: Vec<ReplacementItem>,
    /// Pending subsidy transfers.
    pub subsidy_queue: Vec<PendingSubsidy>,
    /// Major powers, keyed by ID.
    pub powers: StrMap<PowerSetup>,
    /// Minor countries.
    pub minors: StrMap<MinorSetup>,
    /// Leaders, keyed by ID.
    pub leaders: StrMap<Leader>,
    /// Land areas on the strategic map.
    pub areas: StrMap<Area>,
    /// Sea zones for naval movement.
    pub sea_zones: StrMap<SeaZone>,
    /// Corps.
    pub corps: StrMap<Corps>,
    /// Fleets.
    pub fleets: StrMap<Fleet>,
    /// Diplomatic relations, keyed by the pair text `LO:HI` of a
    /// [`DiplomaticPairKey`]; pair semantics are symmetric.
    pub diplomacy: StrMap<DiplomaticState>,
    /// Adjacency between land areas (stored in both directions).
    pub adjacency: Vec<AreaAdjacency>,
    /// Adjacency between land areas and sea zones (ports).
    pub coast_links: Vec<CoastLink>,
    /// Sea-zone adjacency.
    pub sea_adjacency: Vec<SeaAdjacency>,
}

/// `(year, month)` pair — month is 1..=12.
#[derive(Debug, Clone, Copy, PartialEq, Eq, Hash, Structural)]
pub struct GameDate {
    pub year: i32,
    pub month: u8,
}

impl GameDate {
    /// The date `(year, month)`.
    pub fn new(year: i32, month: u8) -> (d: Self)
        ensures
            d.year == year,
            d.month == month,
    {
        GameDate { year, month }
    }
}

/// Optional rules toggleable per scenario.
#[derive(Debug, Clone, Copy, Default)]
pub struct Features {
    pub continental_system: bool,
    /// Named-events system.
    pub named_events: bool,
}

/// Per-power live state.
#[derive(Debug, Clone, Copy)]
pub struct PowerState {
    pub treasury: i64,
    pub manpower: i32,
    pub prestige: i32,
    pub tax_policy: TaxPolicy,
}

#[derive(Debug, Clone, Copy, PartialEq, Eq, Structural)]
pub enum TaxPolicy {
    Low,
    Standard,
    Heavy,
}

impl Default for TaxPolicy {
    /// Taxes start at the standard rate.
    fn default() -> (t: Self)
        ensures
            t == TaxPolicy::Standard,
    {
        TaxPolicy::Standard
    }
}

/// Pending unit production, materializes at `eta_turn`.
#[derive(Debug, Clone)]
pub struct ProductionItem {
    pub owner: PowerId,
    pub area: AreaId,
    pub kind: ProductionKind,
    pub eta_turn: u32,
    /// Pre-paid composition for a corps; ignored for other kinds.
    pub corps_composition: Option<CorpsComposition>,
}

#[derive(Debug, Clone, Copy, PartialEq, Eq, Structural)]
pub enum ProductionKind {
    Corps,
    Fleet,
    Depot,
}

#[derive(Debug, Clone, Copy, PartialEq, Eq, Structural)]
pub struct CorpsComposition {
    pub infantry_sp: i32,
    pub cavalry_sp: i32,
    pub artillery_sp: i32,
}

/// Pending manpower replacements arriving at `eta_turn`.
#[derive(Debug, Clone)]
pub struct ReplacementItem {
    pub owner: PowerId,
    pub sp_amount: i32,
    pub eta_turn: u32,
}

/// Pending subsidy transfer awaiting the next economic phase.
#[derive(Debug, Clone)]
pub struct PendingSubsidy {
    pub from: PowerId,
    pub to: PowerId,
    pub amount: i64,
}

/// Movement rules; each numeric may still be a placeholder.
#[derive(Debug, Clone, Default)]
pub struct MovementRules {
    /// Maximum corps simultaneously in one area.
    pub max_corps_per_area: Maybe<i32>,
    /// Standard per-turn movement budget in hops.
    pub movement_hops_per_turn: Maybe<i32>,
    /// Forced-march extra-hop allowance.
    pub forced_march_extra_hops: Maybe<i32>,
    /// Morale loss (denominator 10000) applied on every forced march.
    pub forced_march_morale_loss_q4: Maybe<i32>,
}

/// Initial setup for a major power.
#[derive(Debug, Clone)]
pub struct PowerSetup {
    pub display_name: String,
    pub house: String,
    pub ruler: LeaderId,
    pub capital: AreaId,
    pub starting_treasury: i64,
    pub starting_manpower: i32,
    pub starting_pp: i32,
    pub max_corps: u8,
    pub max_depots: u8,
    pub mobilization_areas: Vec<AreaId>,
    /// Heraldic display color; UI only.
    pub color_hex: String,
}

/// Initial setup for a minor country.
#[derive(Debug, Clone)]
pub struct MinorSetup {
    pub display_name: String,
    pub home_areas: Vec<AreaId>,
    pub initial_relationship: MinorRelationship,
    /// The major an allied, feudal or conquered minor is tied to.
    pub patron: Option<PowerId>,
    pub starting_force_level: i32,
}

/// A minor's relationship with the powers.
#[derive(Debug, Clone, Copy, PartialEq, Eq, Structural)]
pub enum MinorRelationship {
    IndependentFree,
    AlliedFree,
    Feudal,
    Conquered,
    InRevolt,
}

#[derive(Debug, Clone)]
pub struct Leader {
    pub display_name: String,
    pub strategic: u8,
    pub tactical: u8,
    pub initiative: u8,
    /// Whether this leader can command a multi-corps army.
    pub army_commander: bool,
    /// Birth (year, month).
    pub born: GameDate,
}

#[derive(Debug, Clone)]
pub struct Area {
    pub display_name: String,
    pub owner: Owner,
    pub terrain: Terrain,
    /// Fortress level 0..=5.
    pub fort_level: u8,
    /// Monthly economic yield; may still be a placeholder.
    pub money_yield: Maybe<i32>,
    /// Monthly manpower yield; may still be a placeholder.
    pub manpower_yield: Maybe<i32>,
    pub capital_of: Option<PowerId>,
    pub port: bool,
    /// Blockaded areas yield no income during the economic phase.
    pub blockaded: bool,
    /// Strategic map coordinates; UI only.
    pub map_x: i32,
    pub map_y: i32,
}

#[derive(Debug, Clone)]
pub struct SeaZone {
    pub display_name: String,
    pub map_x: i32,
    pub map_y: i32,
}

#[derive(Debug, Clone, Copy, PartialEq, Eq, Structural)]
pub enum Terrain {
    Open,
    Forest,
    Mountain,
    Marsh,
    Urban,
}

/// Owner of an area or unit — a major, a minor, or nobody.
#[derive(Debug, Clone, PartialEq, Eq)]
pub enum Owner {
    Power(PowerSlot),
    Minor(MinorSlot),
    Unowned,
}

#[derive(Debug, Clone, PartialEq, Eq)]
pub struct PowerSlot {
    pub power: PowerId,
}

#[derive(Debug, Clone, PartialEq, Eq)]
pub struct MinorSlot {
    pub minor: MinorId,
}

#[derive(Debug, Clone)]
pub struct Corps {
    pub display_name: String,
    pub owner: PowerId,
    pub area: AreaId,
    pub infantry_sp: i32,
    pub cavalry_sp: i32,
    pub artillery_sp: i32,
    /// Morale 0..=10000 (denominator 10000).
    pub morale_q4: i32,
    pub supplied: bool,
    pub leader: Option<LeaderId>,
}

#[derive(Debug, Clone)]
pub struct Fleet {
    pub display_name: String,
    pub owner: PowerId,
    pub at_port: Option<AreaId>,
    pub at_sea: Option<SeaZoneId>,
    pub ships_of_the_line: i32,
    pub frigates: i32,
    pub transports: i32,
    pub morale_q4: i32,
    pub admiral: Option<LeaderId>,
    /// Corps currently carried, in key order.
    pub embarked_corps: Vec<CorpsId>,
}

/// Ordered key for a pair of powers: always `(lo, hi)` in lexicographic
/// order, so one entry expresses a symmetric relation.
#[derive(Debug, Clone, PartialEq, Eq, PartialOrd, Ord)]
pub struct DiplomaticPairKey(pub PowerId, pub PowerId);

/// The text a pair key is stored and written under: `lo:hi`.
pub open spec fn pair_text(lo: Seq<char>, hi: Seq<char>) -> Seq<char> {
    lo + seq![':'] + hi
}

/// The ordered pair for two powers.
pub open spec fn ordered_pair(a: Seq<char>, b: Seq<char>) -> (Seq<char>, Seq<char>) {
    if lex_lt(b, a) {
        (b, a)
    } else {
        (a, b)
    }
}

impl DiplomaticPairKey {
    /// The key for the pair `{a, b}`, lower ID first.
    pub fn new(a: PowerId, b: PowerId) -> (k: Self)
        ensures
            (k.0@, k.1@) == ordered_pair(a@, b@),
    {
        if str_less(b.as_str(), a.as_str()) {
            DiplomaticPairKey(b, a)
        } else {
            DiplomaticPairKey(a, b)
        }
    }

    /// The text the key is stored under: `lo:hi`.
    pub fn text(&self) -> (s: String)
        ensures
            s@ == pair_text(self.0@, self.1@),
    {
        let mut v: Vec<char> = Vec::new();
        push_str(&mut v, self.0.as_str());
        v.push(':');
        push_str(&mut v, self.1.as_str());
        proof {
            assert(v@ =~= pair_text(self.0@, self.1@));
        }
        string_from_chars(v.as_slice())
    }
}

/// Position of the first `:` in `k`, if any.
pub open spec fn first_colon(k: Seq<char>) -> Option<nat>
    decreases k.len(),
{
    if k.len() == 0 {
        None
    } else if k[0] == ':' {
        Some(0)
    } else {
        match first_colon(k.drop_first()) {
            Some(i) => Some(i + 1),
            None => None,
        }
    }
}

/// The pair a stored key names: the text before and after its first `:`,
/// lower ID first; `None` when the key has no `:`.
pub open spec fn pair_of(k: Seq<char>) -> Option<(Seq<char>, Seq<char>)> {
    match first_colon(k) {
        Some(i) => Some(ordered_pair(k.take(i as int), k.skip(i + 1 as int))),
        None => None,
    }
}

pub proof fn lemma_first_colon(k: Seq<char>, i: int)
    requires
        0 <= i <= k.len(),
        forall|j: int| 0 <= j < i ==> k[j] != ':',
    ensures
        i < k.len() && k[i] == ':' ==> first_colon(k) == Some(i as nat),
        i == k.len() ==> first_colon(k) is None,
    decreases i,
{
    if i > 0 {
        lemma_first_colon(k.drop_first(), i - 1);
    } else if k.len() > 0 {
    }
}

impl DiplomaticPairKey {
    /// Reads a stored key `lo:hi`, split at its first `:`; `None` when the
    /// text has no `:`.
    pub fn parse(text: &str) -> (r: Option<Self>)
        ensures
            match r {
                Some(k) => pair_of(text@) == Some((k.0@, k.1@)),
                None => pair_of(text@) is None,
            },
    {
        let v = chars_of(text);
        let mut i: usize = 0;
        while i < v.len() && v[i] != ':'
            invariant
                i <= v@.len(),
                forall|j: int| 0 <= j < i ==> v@[j] != ':',
            decreases v@.len() - i,
        {
            i = i + 1;
        }
        proof {
            lemma_first_colon(text@, i as int);
        }
        if i == v.len() {
            return None;
        }
        let mut lo: Vec<char> = Vec::new();
        let mut j: usize = 0;
        while j < i
            invariant
                i < v@.len(),
                j <= i,
                lo@ == v@.take(j as int),
            decreases i - j,
        {
            lo.push(v[j]);
            j = j + 1;
        }
        let mut hi: Vec<char> = Vec::new();
        let mut j: usize = i + 1;
        while j < v.len()
            invariant
                i < v@.len(),
                i + 1 <= j <= v@.len(),
                hi@ == v@.subrange(i + 1, j as int),
            decreases v@.len() - j,
        {
            hi.push(v[j]);
            j = j + 1;
        }
        proof {
            assert(hi@ =~= text@.skip(i + 1));
        }
        Some(DiplomaticPairKey::new(
            PowerId(string_from_chars(lo.as_slice())),
            PowerId(string_from_chars(hi.as_slice())),
        ))
    }
}

#[derive(Debug, Clone, Copy, PartialEq, Eq, Structural)]
pub enum DiplomaticState {
    War,
    Unfriendly,
    Neutral,
    Friendly,
    Allied,
}

#[derive(Debug, Clone)]
pub struct AreaAdjacency {
    pub from: AreaId,
    pub to: AreaId,
    /// Land-link cost; may still be a placeholder.
    pub cost: Maybe<i32>,
}

#[derive(Debug, Clone)]
pub struct CoastLink {
    pub area: AreaId,
    pub sea: SeaZoneId,
}

#[derive(Debug, Clone)]
pub struct SeaAdjacency {
    pub from: SeaZoneId,
    pub to: SeaZoneId,
}

/// The text the relation between `a` and `b` is stored under.
pub open spec fn pair_key(a: Seq<char>, b: Seq<char>) -> Seq<char> {
    pair_text(ordered_pair(a, b).0, ordered_pair(a, b).1)
}

/// The recorded diplomatic relation between `a` and `b`, if any.
pub open spec fn relation(s: &Scenario, a: Seq<char>, b: Seq<char>) -> Option<DiplomaticState> {
    if s.diplomacy@.contains_key(pair_key(a, b)) {
        Some(s.diplomacy@[pair_key(a, b)])
    } else {
        None
    }
}

/// The recorded diplomatic relation between `a` and `b`, if any.
pub fn diplomatic_state(s: &Scenario, a: &PowerId, b: &PowerId) -> (r: Option<DiplomaticState>)
    ensures
        r == relation(s, a@, b@),
{
    let key = DiplomaticPairKey::new(a.duplicate(), b.duplicate()).text();
    match s.diplomacy.get(key.as_str()) {
        Some(st) => Some(*st),
        None => None,
    }
}

/// An exact copy of an optional ID.
fn copy_leader(l: &Option<LeaderId>) -> (r: Option<LeaderId>)
    ensures
        r == *l,
{
    match l {
        Some(id) => Some(id.duplicate()),
        None => None,
    }
}

/// An equal, independently owned table of corps.
pub fn copy_corps_map(m: &StrMap<Corps>) -> (r: StrMap<Corps>)
    ensures
        r@ == m@,
{
    let n = m.len();
    let mut r: StrMap<Corps> = StrMap::new();
    let mut i: usize = 0;
    while i < n
        invariant
            m.well_formed(),
            n == m.entries_view().len(),
            i <= n,
            forall|k: Seq<char>|
                #[trigger] r@.contains_key(k) <==> exists|j: int| 0 <= j < i && #[trigger] m.entries_view()[j].0@ == k,
            forall|k: Seq<char>| #[trigger] r@.contains_key(k) ==> r@[k] == m@[k],
        decreases n - i,
    {
        proof {
            assert(m@.contains_key(m.entries_view()[i as int].0@));
        }
        r.insert(m.key_at(i).clone(), m.value_at(i).duplicate());
        i = i + 1;
    }
    proof {
        assert forall|k: Seq<char>| #[trigger] m@.contains_key(k) implies r@.contains_key(k) by {
            let j = choose|j: int| 0 <= j < m.entries_view().len() && #[trigger] m.entries_view()[j].0@ == k;
        }
        assert forall|k: Seq<char>| #[trigger] r@.contains_key(k) implies m@.contains_key(k) by {
            let j = choose|j: int| 0 <= j < i && #[trigger] m.entries_view()[j].0@ == k;
            assert(m@.contains_key(m.entries_view()[j].0@));
        }
        assert(r@ =~= m@);
    }
    r
}

/// An equal, independently owned table of areas.
pub fn copy_area_map(m: &StrMap<Area>) -> (r: StrMap<Area>)
    ensures
        r@ == m@,
{
    let n = m.len();
    let mut r: StrMap<Area> = StrMap::new();
    let mut i: usize = 0;
    while i < n
        invariant
            m.well_formed(),
            n == m.entries_view().len(),
            i <= n,
            forall|k: Seq<char>|
                #[trigger] r@.contains_key(k) <==> exists|j: int| 0 <= j < i && #[trigger] m.entries_view()[j].0@ == k,
            forall|k: Seq<char>| #[trigger] r@.contains_key(k) ==> r@[k] == m@[k],
        decreases n - i,
    {
        proof {
            assert(m@.contains_key(m.entries_view()[i as int].0@));
        }
        r.insert(m.key_at(i).clone(), m.value_at(i).duplicate());
        i = i + 1;
    }
    proof {
        assert forall|k: Seq<char>| #[trigger] m@.contains_key(k) implies r@.contains_key(k) by {
            let j = choose|j: int| 0 <= j < m.entries_view().len() && #[trigger] m.entries_view()[j].0@ == k;
        }
        assert forall|k: Seq<char>| #[trigger] r@.contains_key(k) implies m@.contains_key(k) by {
            let j = choose|j: int| 0 <= j < i && #[trigger] m.entries_view()[j].0@ == k;
            assert(m@.contains_key(m.entries_view()[j].0@));
        }
        assert(r@ =~= m@);
    }
    r
}

/// An exact copy of a list of corps IDs.
pub fn copy_corps_ids(v: &Vec<CorpsId>) -> (r: Vec<CorpsId>)
    ensures
        r@ == v@,
{
    let mut r: Vec<CorpsId> = Vec::new();
    let mut i: usize = 0;
    while i < v.len()
        invariant
            i <= v@.len(),
            r@ == v@.take(i as int),
        decreases v@.len() - i,
    {
        r.push(v[i].duplicate());
        proof {
            assert(v@.take(i + 1) =~= v@.take(i as int).push(v@[i as int]));
        }
        i = i + 1;
    }
    proof {
        assert(v@.take(v@.len() as int) =~= v@);
    }
    r
}

impl Corps {
    /// An equal, independently owned corps.
    pub fn duplicate(&self) -> (r: Self)
        ensures
            r == *self,
    {
        Corps {
            display_name: self.display_name.clone(),
            owner: self.owner.duplicate(),
            area: self.area.duplicate(),
            infantry_sp: self.infantry_sp,
            cavalry_sp: self.cavalry_sp,
            artillery_sp: self.artillery_sp,
            morale_q4: self.morale_q4,
            supplied: self.supplied,
            leader: copy_leader(&self.leader),
        }
    }

    /// Total strength points.
    pub open spec fn spec_total_sp(&self) -> int {
        self.infantry_sp + self.cavalry_sp + self.artillery_sp
    }
}

impl Fleet {
    /// An equal, independently owned fleet.
    pub fn duplicate(&self) -> (r: Self)
        ensures
            r.display_name == self.display_name,
            r.owner == self.owner,
            r.at_port == self.at_port,
            r.at_sea == self.at_sea,
            r.ships_of_the_line == self.ships_of_the_line,
            r.frigates == self.frigates,
            r.transports == self.transports,
            r.morale_q4 == self.morale_q4,
            r.admiral == self.admiral,
            r.embarked_corps@ == self.embarked_corps@,
    {
        Fleet {
            display_name: self.display_name.clone(),
            owner: self.owner.duplicate(),
            at_port: match &self.at_port {
                Some(a) => Some(a.duplicate()),
                None => None,
            },
            at_sea: match &self.at_sea {
                Some(z) => Some(z.duplicate()),
                None => None,
            },
            ships_of_the_line: self.ships_of_the_line,
            frigates: self.frigates,
            transports: self.transports,
            morale_q4: self.morale_q4,
            admiral: copy_leader(&self.admiral),
            embarked_corps: copy_corps_ids(&self.embarked_corps),
        }
    }
}

impl Owner {
    /// An equal, independently owned owner.
    pub fn duplicate(&self) -> (r: Self)
        ensures
            r == *self,
    {
        match self {
            Owner::Power(slot) => Owner::Power(PowerSlot { power: slot.power.duplicate() }),
            Owner::Minor(slot) => Owner::Minor(MinorSlot { minor: slot.minor.duplicate() }),
            Owner::Unowned => Owner::Unowned,
        }
    }
}

impl Area {
    /// An equal, independently owned area.
    pub fn duplicate(&self) -> (r: Self)
        ensures
            r == *self,
    {
        Area {
            display_name: self.display_name.clone(),
            owner: self.owner.duplicate(),
            terrain: self.terrain,
            fort_level: self.fort_level,
            money_yield: match &self.money_yield {
                Maybe::Value(v) => Maybe::Value(*v),
                Maybe::Placeholder(m) => Maybe::Placeholder(*m),
            },
            manpower_yield: match &self.manpower_yield {
                Maybe::Value(v) => Maybe::Value(*v),
                Maybe::Placeholder(m) => Maybe::Placeholder(*m),
            },
            capital_of: match &self.capital_of {
                Some(p) => Some(p.duplicate()),
                None => None,
            },
            port: self.port,
            blockaded: self.blockaded,
            map_x: self.map_x,
            map_y: self.map_y,
        }
    }
}

/// The pair key is symmetric: both argument orders give the same key.
pub proof fn lemma_pair_key_symmetric(a: Seq<char>, b: Seq<char>)
    ensures
        ordered_pair(a, b) == ordered_pair(b, a),
{
    crate::strmap::lemma_lex_total(a, b);
    if lex_lt(a, b) {
        crate::strmap::lemma_lex_asymmetric(a, b);
    }
}

} // verus!
