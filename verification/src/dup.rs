//! Exact copies of scenario parts: each copy agrees with its original,
//! equal outright or, where a field is a vector, field by field with the
//! vector's elements equal.

use vstd::prelude::*;

use crate::ids::AreaId;
use crate::scenario::{
    copy_area_map, copy_corps_map, AreaAdjacency, CoastLink, DiplomaticState, Fleet, Leader, MinorSetup,
    MovementRules, PendingSubsidy, PowerSetup, PowerState, ProductionItem, ReplacementItem, Scenario,
    SeaAdjacency, SeaZone,
};
use crate::strmap::StrMap;
use crate::tables::Maybe;

verus! {

/// Values that can be copied into fresh, independently owned values.
pub trait Duplicate: Sized {
    /// `other` agrees with `self`.
    spec fn agrees(&self, other: &Self) -> bool;

    /// A copy that agrees with `self`.
    fn copy_of(&self) -> (r: Self)
        ensures
            self.agrees(&r),
    ;
}

/// `b` holds the same keys as `a`, each with a value that agrees with
/// `a`'s.
pub open spec fn agreeing_maps<V: Duplicate>(a: Map<Seq<char>, V>, b: Map<Seq<char>, V>) -> bool {
    &&& b.dom() == a.dom()
    &&& forall|k: Seq<char>| #[trigger] b.contains_key(k) ==> a[k].agrees(&b[k])
}

/// A vector whose elements agree, in order, with those of `v`.
pub fn copy_vec<T: Duplicate>(v: &Vec<T>) -> (r: Vec<T>)
    ensures
        r@.len() == v@.len(),
        forall|i: int| 0 <= i < v@.len() ==> v@[i].agrees(&#[trigger] r@[i]),
{
    let mut r: Vec<T> = Vec::new();
    let mut i: usize = 0;
    while i < v.len()
        invariant
            i <= v@.len(),
            r@.len() == i,
            forall|j: int| 0 <= j < i ==> v@[j].agrees(&#[trigger] r@[j]),
        decreases v@.len() - i,
    {
        r.push(v[i].copy_of());
        i = i + 1;
    }
    r
}

impl<V: Duplicate> StrMap<V> {
    /// A map with the same keys, each with a value that agrees with this
    /// map's.
    pub fn copy_map(&self) -> (r: Self)
        ensures
            agreeing_maps(self@, r@),
    {
        let n = self.len();
        let mut r: StrMap<V> = StrMap::new();
        let mut i: usize = 0;
        while i < n
            invariant
                self.well_formed(),
                n == self.entries_view().len(),
                i <= n,
                forall|k: Seq<char>|
                    #[trigger] r@.contains_key(k) <==> exists|j: int|
                        0 <= j < i && #[trigger] self.entries_view()[j].0@ == k,
                forall|k: Seq<char>| #[trigger] r@.contains_key(k) ==> self@[k].agrees(&r@[k]),
            decreases n - i,
        {
            proof {
                assert(self@.contains_key(self.entries_view()[i as int].0@));
            }
            r.insert(self.key_at(i).clone(), self.value_at(i).copy_of());
            i = i + 1;
        }
        proof {
            assert forall|k: Seq<char>| #[trigger] self@.contains_key(k) implies r@.contains_key(k) by {
                let j = choose|j: int| 0 <= j < self.entries_view().len() && #[trigger] self.entries_view()[j].0@ == k;
            }
            assert forall|k: Seq<char>| #[trigger] r@.contains_key(k) implies self@.contains_key(k) by {
                let j = choose|j: int| 0 <= j < i && #[trigger] self.entries_view()[j].0@ == k;
                assert(self@.contains_key(self.entries_view()[j].0@));
            }
            assert(r@.dom() =~= self@.dom());
        }
        r
    }
}

/// An exact copy of a possibly placeholder number.
fn copy_maybe(m: &Maybe<i32>) -> (r: Maybe<i32>)
    ensures
        r == *m,
{
    match m {
        Maybe::Value(v) => Maybe::Value(*v),
        Maybe::Placeholder(p) => Maybe::Placeholder(*p),
    }
}

impl Duplicate for MovementRules {
    open spec fn agrees(&self, other: &Self) -> bool {
        *other == *self
    }

    fn copy_of(&self) -> (r: Self) {
        MovementRules {
            max_corps_per_area: copy_maybe(&self.max_corps_per_area),
            movement_hops_per_turn: copy_maybe(&self.movement_hops_per_turn),
            forced_march_extra_hops: copy_maybe(&self.forced_march_extra_hops),
            forced_march_morale_loss_q4: copy_maybe(&self.forced_march_morale_loss_q4),
        }
    }
}

impl Duplicate for AreaId {
    open spec fn agrees(&self, other: &Self) -> bool {
        *other == *self
    }

    fn copy_of(&self) -> (r: Self) {
        self.duplicate()
    }
}

impl Duplicate for PowerState {
    open spec fn agrees(&self, other: &Self) -> bool {
        *other == *self
    }

    fn copy_of(&self) -> (r: Self) {
        *self
    }
}

impl Duplicate for ProductionItem {
    open spec fn agrees(&self, other: &Self) -> bool {
        *other == *self
    }

    fn copy_of(&self) -> (r: Self) {
        ProductionItem {
            owner: self.owner.duplicate(),
            area: self.area.duplicate(),
            kind: self.kind,
            eta_turn: self.eta_turn,
            corps_composition: self.corps_composition,
        }
    }
}

impl Duplicate for ReplacementItem {
    open spec fn agrees(&self, other: &Self) -> bool {
        *other == *self
    }

    fn copy_of(&self) -> (r: Self) {
        ReplacementItem { owner: self.owner.duplicate(), sp_amount: self.sp_amount, eta_turn: self.eta_turn }
    }
}

impl Duplicate for PendingSubsidy {
    open spec fn agrees(&self, other: &Self) -> bool {
        *other == *self
    }

    fn copy_of(&self) -> (r: Self) {
        PendingSubsidy { from: self.from.duplicate(), to: self.to.duplicate(), amount: self.amount }
    }
}

impl Duplicate for Leader {
    open spec fn agrees(&self, other: &Self) -> bool {
        *other == *self
    }

    fn copy_of(&self) -> (r: Self) {
        Leader {
            display_name: self.display_name.clone(),
            strategic: self.strategic,
            tactical: self.tactical,
            initiative: self.initiative,
            army_commander: self.army_commander,
            born: self.born,
        }
    }
}

impl Duplicate for SeaZone {
    open spec fn agrees(&self, other: &Self) -> bool {
        *other == *self
    }

    fn copy_of(&self) -> (r: Self) {
        SeaZone { display_name: self.display_name.clone(), map_x: self.map_x, map_y: self.map_y }
    }
}

impl Duplicate for AreaAdjacency {
    open spec fn agrees(&self, other: &Self) -> bool {
        *other == *self
    }

    fn copy_of(&self) -> (r: Self) {
        AreaAdjacency { from: self.from.duplicate(), to: self.to.duplicate(), cost: copy_maybe(&self.cost) }
    }
}

impl Duplicate for CoastLink {
    open spec fn agrees(&self, other: &Self) -> bool {
        *other == *self
    }

    fn copy_of(&self) -> (r: Self) {
        CoastLink { area: self.area.duplicate(), sea: self.sea.duplicate() }
    }
}

impl Duplicate for SeaAdjacency {
    open spec fn agrees(&self, other: &Self) -> bool {
        *other == *self
    }

    fn copy_of(&self) -> (r: Self) {
        SeaAdjacency { from: self.from.duplicate(), to: self.to.duplicate() }
    }
}

impl Duplicate for PowerSetup {
    open spec fn agrees(&self, other: &Self) -> bool {
        &&& other.display_name == self.display_name
        &&& other.house == self.house
        &&& other.ruler == self.ruler
        &&& other.capital == self.capital
        &&& other.starting_treasury == self.starting_treasury
        &&& other.starting_manpower == self.starting_manpower
        &&& other.starting_pp == self.starting_pp
        &&& other.max_corps == self.max_corps
        &&& other.max_depots == self.max_depots
        &&& other.mobilization_areas@ == self.mobilization_areas@
        &&& other.color_hex == self.color_hex
    }

    fn copy_of(&self) -> (r: Self) {
        let areas = copy_vec(&self.mobilization_areas);
        proof {
            assert(areas@ =~= self.mobilization_areas@);
        }
        PowerSetup {
            display_name: self.display_name.clone(),
            house: self.house.clone(),
            ruler: self.ruler.duplicate(),
            capital: self.capital.duplicate(),
            starting_treasury: self.starting_treasury,
            starting_manpower: self.starting_manpower,
            starting_pp: self.starting_pp,
            max_corps: self.max_corps,
            max_depots: self.max_depots,
            mobilization_areas: areas,
            color_hex: self.color_hex.clone(),
        }
    }
}

impl Duplicate for MinorSetup {
    open spec fn agrees(&self, other: &Self) -> bool {
        &&& other.display_name == self.display_name
        &&& other.home_areas@ == self.home_areas@
        &&& other.initial_relationship == self.initial_relationship
        &&& other.patron == self.patron
        &&& other.starting_force_level == self.starting_force_level
    }

    fn copy_of(&self) -> (r: Self) {
        let areas = copy_vec(&self.home_areas);
        proof {
            assert(areas@ =~= self.home_areas@);
        }
        MinorSetup {
            display_name: self.display_name.clone(),
            home_areas: areas,
            initial_relationship: self.initial_relationship,
            patron: match &self.patron {
                Some(p) => Some(p.duplicate()),
                None => None,
            },
            starting_force_level: self.starting_force_level,
        }
    }
}

impl Duplicate for DiplomaticState {
    open spec fn agrees(&self, other: &Self) -> bool {
        *other == *self
    }

    fn copy_of(&self) -> (r: Self) {
        *self
    }
}

impl Duplicate for Fleet {
    open spec fn agrees(&self, other: &Self) -> bool {
        &&& other.display_name == self.display_name
        &&& other.owner == self.owner
        &&& other.at_port == self.at_port
        &&& other.at_sea == self.at_sea
        &&& other.ships_of_the_line == self.ships_of_the_line
        &&& other.frigates == self.frigates
        &&& other.transports == self.transports
        &&& other.morale_q4 == self.morale_q4
        &&& other.admiral == self.admiral
        &&& other.embarked_corps@ == self.embarked_corps@
    }

    fn copy_of(&self) -> (r: Self) {
        self.duplicate()
    }
}

/// Every part of `b` but the power states, the corps and the turn counter
/// is that of `a`: equal, or, for the setups of powers and minors and for
/// the fleets, agreeing field by field.
pub open spec fn same_apart_from_play(a: &Scenario, b: &Scenario) -> bool {
    &&& b.schema_version == a.schema_version
    &&& b.rules_version == a.rules_version
    &&& b.scenario_id == a.scenario_id
    &&& b.name == a.name
    &&& b.start == a.start
    &&& b.end == a.end
    &&& b.unplayable_in_release == a.unplayable_in_release
    &&& b.features == a.features
    &&& b.movement_rules == a.movement_rules
    &&& b.production_queue@ == a.production_queue@
    &&& b.replacement_queue@ == a.replacement_queue@
    &&& b.subsidy_queue@ == a.subsidy_queue@
    &&& agreeing_maps(a.powers@, b.powers@)
    &&& agreeing_maps(a.minors@, b.minors@)
    &&& b.leaders@ == a.leaders@
    &&& b.areas@ == a.areas@
    &&& b.sea_zones@ == a.sea_zones@
    &&& agreeing_maps(a.fleets@, b.fleets@)
    &&& b.diplomacy@ == a.diplomacy@
    &&& b.adjacency@ == a.adjacency@
    &&& b.coast_links@ == a.coast_links@
    &&& b.sea_adjacency@ == a.sea_adjacency@
}

/// An independently owned scenario that agrees with `s` in every part.
pub fn copy_scenario(s: &Scenario) -> (r: Scenario)
    ensures
        same_apart_from_play(s, &r),
        r.power_state@ == s.power_state@,
        r.corps@ == s.corps@,
        r.current_turn == s.current_turn,
{
    let power_state = s.power_state.copy_map();
    let production_queue = copy_vec(&s.production_queue);
    let replacement_queue = copy_vec(&s.replacement_queue);
    let subsidy_queue = copy_vec(&s.subsidy_queue);
    let leaders = s.leaders.copy_map();
    let sea_zones = s.sea_zones.copy_map();
    let diplomacy = s.diplomacy.copy_map();
    let adjacency = copy_vec(&s.adjacency);
    let coast_links = copy_vec(&s.coast_links);
    let sea_adjacency = copy_vec(&s.sea_adjacency);
    proof {
        assert(power_state@ =~= s.power_state@);
        assert(production_queue@ =~= s.production_queue@);
        assert(replacement_queue@ =~= s.replacement_queue@);
        assert(subsidy_queue@ =~= s.subsidy_queue@);
        assert(leaders@ =~= s.leaders@);
        assert(sea_zones@ =~= s.sea_zones@);
        assert(diplomacy@ =~= s.diplomacy@);
        assert(adjacency@ =~= s.adjacency@);
        assert(coast_links@ =~= s.coast_links@);
        assert(sea_adjacency@ =~= s.sea_adjacency@);
    }
    Scenario {
        schema_version: s.schema_version,
        rules_version: s.rules_version,
        scenario_id: s.scenario_id.clone(),
        name: s.name.clone(),
        start: s.start,
        end: s.end,
        unplayable_in_release: s.unplayable_in_release,
        features: s.features,
        movement_rules: s.movement_rules.copy_of(),
        current_turn: s.current_turn,
        power_state,
        production_queue,
        replacement_queue,
        subsidy_queue,
        powers: s.powers.copy_map(),
        minors: s.minors.copy_map(),
        leaders,
        areas: copy_area_map(&s.areas),
        sea_zones,
        corps: copy_corps_map(&s.corps),
        fleets: s.fleets.copy_map(),
        diplomacy,
        adjacency,
        coast_links,
        sea_adjacency,
    }
}

} // verus!
