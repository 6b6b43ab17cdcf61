//! Fog-of-war projection: what one power sees of the scenario.
//!
//! For a viewer power `P`: diplomacy keeps the pairs `P` belongs to and
//! every pair at war (war is public); corps and fleets keep those `P` owns
//! and those standing in an area (or in port in an area) `P` owns.  All
//! other parts are visible in full.

use vstd::prelude::*;

use crate::dup::{agreeing_maps, copy_vec, Duplicate};
use crate::ids::PowerId;
use crate::scenario::{copy_area_map, pair_of, Corps, DiplomaticPairKey, DiplomaticState, Fleet, Owner, Scenario};
use crate::strmap::StrMap;

verus! {

/// A scenario as one power sees it.
#[derive(Debug, Clone)]
pub struct ProjectedScenario {
    pub viewer: PowerId,
    pub view: Scenario,
}

/// The viewer owns the area.
pub open spec fn viewer_owns(full: &Scenario, v: Seq<char>, a: Seq<char>) -> bool {
    &&& full.areas@.contains_key(a)
    &&& full.areas@[a].owner matches Owner::Power(slot) && slot.power@ == v
}

/// The viewer may see the relation stored under `k`.
pub open spec fn relation_visible(v: Seq<char>, k: Seq<char>, st: DiplomaticState) -> bool {
    ||| (pair_of(k) matches Some(p) && (p.0 == v || p.1 == v))
    ||| st == DiplomaticState::War
}

/// The viewer may see the corps.
pub open spec fn corps_visible(full: &Scenario, v: Seq<char>, c: Corps) -> bool {
    c.owner@ == v || viewer_owns(full, v, c.area@)
}

/// The viewer may see the fleet.
pub open spec fn fleet_visible(full: &Scenario, v: Seq<char>, f: Fleet) -> bool {
    ||| f.owner@ == v
    ||| (f.at_port matches Some(a) && viewer_owns(full, v, a@))
}

/// Two fleets agree field by field.
pub open spec fn same_fleet(a: Fleet, b: Fleet) -> bool {
    &&& a.display_name == b.display_name
    &&& a.owner == b.owner
    &&& a.at_port == b.at_port
    &&& a.at_sea == b.at_sea
    &&& a.ships_of_the_line == b.ships_of_the_line
    &&& a.frigates == b.frigates
    &&& a.transports == b.transports
    &&& a.morale_q4 == b.morale_q4
    &&& a.admiral == b.admiral
    &&& a.embarked_corps@ == b.embarked_corps@
}

/// Every part of `v` but the relations, corps and fleets is that of
/// `full`: equal, or, for the powers' and minors' setups, agreeing field
/// by field.
pub open spec fn same_unfiltered(full: &Scenario, v: &Scenario) -> bool {
    &&& v.schema_version == full.schema_version
    &&& v.rules_version == full.rules_version
    &&& v.scenario_id == full.scenario_id
    &&& v.name == full.name
    &&& v.start == full.start
    &&& v.end == full.end
    &&& v.unplayable_in_release == full.unplayable_in_release
    &&& v.features == full.features
    &&& v.movement_rules == full.movement_rules
    &&& v.current_turn == full.current_turn
    &&& v.power_state@ == full.power_state@
    &&& v.production_queue@ == full.production_queue@
    &&& v.replacement_queue@ == full.replacement_queue@
    &&& v.subsidy_queue@ == full.subsidy_queue@
    &&& agreeing_maps(full.powers@, v.powers@)
    &&& agreeing_maps(full.minors@, v.minors@)
    &&& v.leaders@ == full.leaders@
    &&& v.areas@ == full.areas@
    &&& v.sea_zones@ == full.sea_zones@
    &&& v.adjacency@ == full.adjacency@
    &&& v.coast_links@ == full.coast_links@
    &&& v.sea_adjacency@ == full.sea_adjacency@
}

/// `p` is what `viewer` sees of `full`: every part as it is but the
/// relations, corps and fleets, of which it holds those the viewer may
/// see.
pub open spec fn is_projection(full: &Scenario, viewer: Seq<char>, p: ProjectedScenario) -> bool {
    &&& p.viewer@ == viewer
    &&& same_unfiltered(full, &p.view)
    &&& forall|k: Seq<char>|
        #[trigger] p.view.diplomacy@.contains_key(k) <==> full.diplomacy@.contains_key(k) && relation_visible(
            viewer,
            k,
            full.diplomacy@[k],
        )
    &&& forall|k: Seq<char>| #[trigger] p.view.diplomacy@.contains_key(k) ==> p.view.diplomacy@[k] == full.diplomacy@[k]
    &&& forall|k: Seq<char>|
        #[trigger] p.view.corps@.contains_key(k) <==> full.corps@.contains_key(k) && corps_visible(
            full,
            viewer,
            full.corps@[k],
        )
    &&& forall|k: Seq<char>| #[trigger] p.view.corps@.contains_key(k) ==> p.view.corps@[k] == full.corps@[k]
    &&& forall|k: Seq<char>|
        #[trigger] p.view.fleets@.contains_key(k) <==> full.fleets@.contains_key(k) && fleet_visible(
            full,
            viewer,
            full.fleets@[k],
        )
    &&& forall|k: Seq<char>| #[trigger] p.view.fleets@.contains_key(k) ==> same_fleet(p.view.fleets@[k], full.fleets@[k])
}

/// Whether the viewer owns the area.
fn owns_area(full: &Scenario, v: &PowerId, a: &crate::ids::AreaId) -> (r: bool)
    ensures
        r == viewer_owns(full, v@, a@),
{
    match full.areas.get(a.as_str()) {
        Some(area) => match &area.owner {
            Owner::Power(slot) => slot.power.same(v),
            _ => false,
        },
        None => false,
    }
}

/// The scenario as `viewer` sees it.
#[verifier::rlimit(30)]
pub fn project(full: &Scenario, viewer: &PowerId) -> (p: ProjectedScenario)
    ensures
        is_projection(full, viewer@, p),
        p.viewer == *viewer,
{
    let mut diplomacy: StrMap<DiplomaticState> = StrMap::new();
    let n = full.diplomacy.len();
    let mut i: usize = 0;
    while i < n
        invariant
            full.diplomacy.well_formed(),
            n == full.diplomacy.entries_view().len(),
            i <= n,
            forall|k: Seq<char>|
                #[trigger] diplomacy@.contains_key(k) <==> exists|j: int|
                    0 <= j < i && #[trigger] full.diplomacy.entries_view()[j].0@ == k && relation_visible(
                        viewer@,
                        k,
                        full.diplomacy@[k],
                    ),
            forall|k: Seq<char>| #[trigger] diplomacy@.contains_key(k) ==> diplomacy@[k] == full.diplomacy@[k],
        decreases n - i,
    {
        proof {
            assert(full.diplomacy@.contains_key(full.diplomacy.entries_view()[i as int].0@));
        }
        let st = *full.diplomacy.value_at(i);
        let touches = match DiplomaticPairKey::parse(full.diplomacy.key_at(i).as_str()) {
            Some(key) => key.0.same(viewer) || key.1.same(viewer),
            None => false,
        };
        if touches || st == DiplomaticState::War {
            diplomacy.insert(full.diplomacy.key_at(i).clone(), st);
        }
        i = i + 1;
    }
    proof {
        assert forall|k: Seq<char>|
            #[trigger] diplomacy@.contains_key(k) <==> full.diplomacy@.contains_key(k) && relation_visible(
                viewer@,
                k,
                full.diplomacy@[k],
            ) by {
            if full.diplomacy@.contains_key(k) && relation_visible(viewer@, k, full.diplomacy@[k]) {
                let j = choose|j: int|
                    0 <= j < full.diplomacy.entries_view().len() && #[trigger] full.diplomacy.entries_view()[j].0@ == k;
            }
            if diplomacy@.contains_key(k) {
                let j = choose|j: int|
                    0 <= j < i && #[trigger] full.diplomacy.entries_view()[j].0@ == k && relation_visible(
                        viewer@,
                        k,
                        full.diplomacy@[k],
                    );
                assert(full.diplomacy@.contains_key(full.diplomacy.entries_view()[j].0@));
            }
        }
    }

    let mut corps: StrMap<Corps> = StrMap::new();
    let n = full.corps.len();
    let mut i: usize = 0;
    while i < n
        invariant
            full.corps.well_formed(),
            n == full.corps.entries_view().len(),
            i <= n,
            forall|k: Seq<char>|
                #[trigger] corps@.contains_key(k) <==> exists|j: int|
                    0 <= j < i && #[trigger] full.corps.entries_view()[j].0@ == k && corps_visible(
                        full,
                        viewer@,
                        full.corps@[k],
                    ),
            forall|k: Seq<char>| #[trigger] corps@.contains_key(k) ==> corps@[k] == full.corps@[k],
        decreases n - i,
    {
        proof {
            assert(full.corps@.contains_key(full.corps.entries_view()[i as int].0@));
        }
        let c = full.corps.value_at(i);
        if c.owner.same(viewer) || owns_area(full, viewer, &c.area) {
            corps.insert(full.corps.key_at(i).clone(), c.duplicate());
        }
        i = i + 1;
    }
    proof {
        assert forall|k: Seq<char>|
            #[trigger] corps@.contains_key(k) <==> full.corps@.contains_key(k) && corps_visible(
                full,
                viewer@,
                full.corps@[k],
            ) by {
            if full.corps@.contains_key(k) && corps_visible(full, viewer@, full.corps@[k]) {
                let j = choose|j: int|
                    0 <= j < full.corps.entries_view().len() && #[trigger] full.corps.entries_view()[j].0@ == k;
            }
            if corps@.contains_key(k) {
                let j = choose|j: int|
                    0 <= j < i && #[trigger] full.corps.entries_view()[j].0@ == k && corps_visible(
                        full,
                        viewer@,
                        full.corps@[k],
                    );
                assert(full.corps@.contains_key(full.corps.entries_view()[j].0@));
            }
        }
    }

    let mut fleets: StrMap<Fleet> = StrMap::new();
    let n = full.fleets.len();
    let mut i: usize = 0;
    while i < n
        invariant
            full.fleets.well_formed(),
            n == full.fleets.entries_view().len(),
            i <= n,
            forall|k: Seq<char>|
                #[trigger] fleets@.contains_key(k) <==> exists|j: int|
                    0 <= j < i && #[trigger] full.fleets.entries_view()[j].0@ == k && fleet_visible(
                        full,
                        viewer@,
                        full.fleets@[k],
                    ),
            forall|k: Seq<char>| #[trigger] fleets@.contains_key(k) ==> same_fleet(fleets@[k], full.fleets@[k]),
        decreases n - i,
    {
        proof {
            assert(full.fleets@.contains_key(full.fleets.entries_view()[i as int].0@));
        }
        let f = full.fleets.value_at(i);
        let visible = f.owner.same(viewer) || match &f.at_port {
            Some(a) => owns_area(full, viewer, a),
            None => false,
        };
        if visible {
            fleets.insert(full.fleets.key_at(i).clone(), f.duplicate());
        }
        i = i + 1;
    }
    proof {
        assert forall|k: Seq<char>|
            #[trigger] fleets@.contains_key(k) <==> full.fleets@.contains_key(k) && fleet_visible(
                full,
                viewer@,
                full.fleets@[k],
            ) by {
            if full.fleets@.contains_key(k) && fleet_visible(full, viewer@, full.fleets@[k]) {
                let j = choose|j: int|
                    0 <= j < full.fleets.entries_view().len() && #[trigger] full.fleets.entries_view()[j].0@ == k;
            }
            if fleets@.contains_key(k) {
                let j = choose|j: int|
                    0 <= j < i && #[trigger] full.fleets.entries_view()[j].0@ == k && fleet_visible(
                        full,
                        viewer@,
                        full.fleets@[k],
                    );
                assert(full.fleets@.contains_key(full.fleets.entries_view()[j].0@));
            }
        }
    }
    let power_state = full.power_state.copy_map();
    let production_queue = copy_vec(&full.production_queue);
    let replacement_queue = copy_vec(&full.replacement_queue);
    let subsidy_queue = copy_vec(&full.subsidy_queue);
    let leaders = full.leaders.copy_map();
    let sea_zones = full.sea_zones.copy_map();
    let adjacency = copy_vec(&full.adjacency);
    let coast_links = copy_vec(&full.coast_links);
    let sea_adjacency = copy_vec(&full.sea_adjacency);
    proof {
        assert(power_state@ =~= full.power_state@);
        assert(production_queue@ =~= full.production_queue@);
        assert(replacement_queue@ =~= full.replacement_queue@);
        assert(subsidy_queue@ =~= full.subsidy_queue@);
        assert(leaders@ =~= full.leaders@);
        assert(sea_zones@ =~= full.sea_zones@);
        assert(adjacency@ =~= full.adjacency@);
        assert(coast_links@ =~= full.coast_links@);
        assert(sea_adjacency@ =~= full.sea_adjacency@);
    }
    let view = Scenario {
        schema_version: full.schema_version,
        rules_version: full.rules_version,
        scenario_id: full.scenario_id.clone(),
        name: full.name.clone(),
        start: full.start,
        end: full.end,
        unplayable_in_release: full.unplayable_in_release,
        features: full.features,
        movement_rules: full.movement_rules.copy_of(),
        current_turn: full.current_turn,
        power_state,
        production_queue,
        replacement_queue,
        subsidy_queue,
        powers: full.powers.copy_map(),
        minors: full.minors.copy_map(),
        leaders,
        areas: copy_area_map(&full.areas),
        sea_zones,
        corps,
        fleets,
        diplomacy,
        adjacency,
        coast_links,
        sea_adjacency,
    };
    ProjectedScenario { viewer: viewer.duplicate(), view }
}

/// A power always sees its own corps and fleets, wherever they stand, at
/// sea too; a foreign fleet at sea and out of port stays hidden, and so
/// does a foreign corps in an area the viewer does not own.
pub proof fn lemma_projection_shows_own_units(full: &Scenario, viewer: Seq<char>, p: ProjectedScenario, k: Seq<char>)
    requires
        is_projection(full, viewer, p),
    ensures
        full.fleets@.contains_key(k) && full.fleets@[k].owner@ == viewer ==> p.view.fleets@.contains_key(k),
        full.corps@.contains_key(k) && full.corps@[k].owner@ == viewer ==> p.view.corps@.contains_key(k),
        full.fleets@.contains_key(k) && full.fleets@[k].owner@ != viewer && full.fleets@[k].at_port is None
            ==> !p.view.fleets@.contains_key(k),
        full.corps@.contains_key(k) && full.corps@[k].owner@ != viewer && !full.areas@.contains_key(
            full.corps@[k].area@,
        ) ==> !p.view.corps@.contains_key(k),
        full.corps@.contains_key(k) && full.corps@[k].owner@ != viewer && full.areas@.contains_key(
            full.corps@[k].area@,
        ) && !(full.areas@[full.corps@[k].area@].owner matches Owner::Power(slot) && slot.power@ == viewer)
            ==> !p.view.corps@.contains_key(k),
{
    assert(p.view.fleets@.contains_key(k) <==> full.fleets@.contains_key(k) && fleet_visible(
        full,
        viewer,
        full.fleets@[k],
    ));
    assert(p.view.corps@.contains_key(k) <==> full.corps@.contains_key(k) && corps_visible(
        full,
        viewer,
        full.corps@[k],
    ));
}

/// A relation the viewer takes part in is always shown, and so is every
/// war; a relation between two other powers at peace stays hidden. What
/// is shown is shown as it stands.
pub proof fn lemma_projection_shows_relations(full: &Scenario, viewer: Seq<char>, p: ProjectedScenario, k: Seq<char>)
    requires
        is_projection(full, viewer, p),
    ensures
        full.diplomacy@.contains_key(k) && (pair_of(k) matches Some(pr) && (pr.0 == viewer || pr.1 == viewer))
            ==> p.view.diplomacy@.contains_key(k) && p.view.diplomacy@[k] == full.diplomacy@[k],
        full.diplomacy@.contains_key(k) && full.diplomacy@[k] == DiplomaticState::War ==> p.view.diplomacy@.contains_key(k)
            && p.view.diplomacy@[k] == DiplomaticState::War,
        full.diplomacy@.contains_key(k) && full.diplomacy@[k] != DiplomaticState::War && (pair_of(k) matches Some(pr)
            && pr.0 != viewer && pr.1 != viewer) ==> !p.view.diplomacy@.contains_key(k),
{
    assert(p.view.diplomacy@.contains_key(k) <==> full.diplomacy@.contains_key(k) && relation_visible(
        viewer,
        k,
        full.diplomacy@[k],
    ));
}

/// Projecting a projection for the same viewer changes nothing: the
/// relations, corps and fleets it shows stay the same, and so does every
/// other part.
pub proof fn lemma_projection_idempotent(full: &Scenario, viewer: Seq<char>, p1: ProjectedScenario, p2: ProjectedScenario)
    requires
        is_projection(full, viewer, p1),
        is_projection(&p1.view, viewer, p2),
    ensures
        same_unfiltered(&p1.view, &p2.view),
        p2.view.diplomacy@ == p1.view.diplomacy@,
        p2.view.corps@ == p1.view.corps@,
        p2.view.fleets@.dom() == p1.view.fleets@.dom(),
        forall|k: Seq<char>| #[trigger] p2.view.fleets@.contains_key(k) ==> same_fleet(p2.view.fleets@[k], p1.view.fleets@[k]),
{
    assert(p2.view.diplomacy@ =~= p1.view.diplomacy@);
    assert(p2.view.corps@ =~= p1.view.corps@);
    assert forall|k: Seq<char>| #[trigger] p2.view.fleets@.contains_key(k) <==> p1.view.fleets@.contains_key(k) by {
        if p1.view.fleets@.contains_key(k) {
            assert(same_fleet(p1.view.fleets@[k], full.fleets@[k]));
        }
    }
    assert(p2.view.fleets@.dom() =~= p1.view.fleets@.dom());
}

} // verus!
