//! Land combat: zones of control, attack validation and battle resolution.
//!
//! All arithmetic is on integers; every walk over the scenario follows key
//! order, so a battle resolves the same way for the same inputs and seed.

use vstd::prelude::*;

use crate::combat_types::BattleOutcome;
use crate::events::{Event, OrderRejected};
use crate::ids::{AreaId, CorpsId, PowerId};
use crate::orders::AttackOrder;
use crate::scenario::{diplomatic_state, relation, Corps, DiplomaticState, Scenario, Terrain};
use crate::strmap::{lex_lt, StrMap};
use crate::tables::{Maybe, MoraleTable};
use crate::text::{push_str, string_from_chars};

verus! {

/// Column shifts for an attacker formation against a defender formation.
#[derive(Debug, Clone, Copy)]
pub struct FormationEntry {
    pub att_col_shift: i8,
    pub def_col_shift: i8,
}

/// Attacker column shift for fighting in a terrain.
#[derive(Debug, Clone, Copy)]
pub struct TerrainModifier {
    pub att_col_shift: i8,
}

/// One cell of the combat results table.
#[derive(Debug, Clone, Copy, PartialEq, Eq)]
pub struct CombatResult {
    pub attacker_sp_loss: i32,
    pub defender_sp_loss: i32,
    /// Morale delta, fixed point with denominator 10000.
    pub attacker_morale_q4: i32,
    pub defender_morale_q4: i32,
    pub retreat_hexes: i32,
}

/// The combat results table the resolver reads.
#[derive(Debug)]
pub struct CombatTable {
    pub schema_version: u32,
    pub ratio_buckets: Vec<String>,
    pub die_faces: u8,
    pub formations: Vec<String>,
    /// Keyed `<ATTACKER>_vs_<DEFENDER>`.
    pub formation_matrix: StrMap<FormationEntry>,
    /// Keyed by terrain name (`OPEN`, `FOREST`, …).
    pub terrain_modifiers: StrMap<TerrainModifier>,
    /// Keyed by ratio bucket; one entry per die face.
    pub results: StrMap<Vec<Maybe<CombatResult>>>,
}

// ─── Zones of control ──────────────────────────────────────────────────

/// Some corps of `power` in the corps table `m` stands in `a`.
pub open spec fn occupied_in(m: Map<Seq<char>, Corps>, power: Seq<char>, a: Seq<char>) -> bool {
    exists|k: Seq<char>| #[trigger] m.contains_key(k) && m[k].owner@ == power && m[k].area@ == a
}

/// `a` is next to an area `power` occupies in `m`, and not occupied itself.
pub open spec fn zoc_of(m: Map<Seq<char>, Corps>, adj: Seq<crate::scenario::AreaAdjacency>, power: Seq<char>, a: Seq<char>) -> bool {
    &&& !occupied_in(m, power, a)
    &&& exists|t: int|
        0 <= t < adj.len() && ((occupied_in(m, power, #[trigger] adj[t].from@) && adj[t].to@ == a) || (
        occupied_in(m, power, adj[t].to@) && adj[t].from@ == a))
}

/// Some corps of `power` stands in `a`.
pub open spec fn occupied_by(s: &Scenario, power: Seq<char>, a: Seq<char>) -> bool {
    occupied_in(s.corps@, power, a)
}

/// `a` is in the zone of control of `power`.
pub open spec fn in_zoc(s: &Scenario, power: Seq<char>, a: Seq<char>) -> bool {
    zoc_of(s.corps@, s.adjacency@, power, a)
}

/// `v` is in strictly increasing name order.
pub open spec fn names_increasing(v: Seq<AreaId>) -> bool {
    forall|i: int, j: int| 0 <= i < j < v.len() ==> lex_lt(#[trigger] v[i]@, #[trigger] v[j]@)
}

/// The areas where `power` has a corps, as a flag table.
fn occupied_table(s: &Scenario, power: &PowerId) -> (t: StrMap<bool>)
    ensures
        forall|a: Seq<char>| #[trigger] t@.contains_key(a) <==> occupied_by(s, power@, a),
{
    let mut t: StrMap<bool> = StrMap::new();
    let n = s.corps.len();
    let mut i: usize = 0;
    while i < n
        invariant
            n == s.corps.entries_view().len(),
            s.corps.well_formed(),
            i <= n,
            forall|a: Seq<char>|
                #[trigger] t@.contains_key(a) <==> exists|j: int|
                    0 <= j < i && #[trigger] s.corps.entries_view()[j].1.owner@ == power@
                        && s.corps.entries_view()[j].1.area@ == a,
        decreases n - i,
    {
        let c = s.corps.value_at(i);
        if c.owner.same(power) {
            t.insert(c.area.0.clone(), true);
        }
        proof {
            assert forall|a: Seq<char>|
                #[trigger] t@.contains_key(a) <==> exists|j: int|
                    0 <= j < i + 1 && #[trigger] s.corps.entries_view()[j].1.owner@ == power@
                        && s.corps.entries_view()[j].1.area@ == a by {
                if exists|j: int|
                    0 <= j < i + 1 && #[trigger] s.corps.entries_view()[j].1.owner@ == power@
                        && s.corps.entries_view()[j].1.area@ == a {
                    let j = choose|j: int|
                        0 <= j < i + 1 && #[trigger] s.corps.entries_view()[j].1.owner@ == power@
                            && s.corps.entries_view()[j].1.area@ == a;
                    if j < i {
                        assert(s.corps.entries_view()[j].1.owner@ == power@);
                    }
                }
            }
        }
        i = i + 1;
    }
    proof {
        assert forall|a: Seq<char>| #[trigger] t@.contains_key(a) <==> occupied_by(s, power@, a) by {
            if t@.contains_key(a) {
                let j = choose|j: int|
                    0 <= j < n && #[trigger] s.corps.entries_view()[j].1.owner@ == power@
                        && s.corps.entries_view()[j].1.area@ == a;
                assert(s.corps@.contains_key(s.corps.entries_view()[j].0@));
            }
            if occupied_by(s, power@, a) {
                let k = choose|k: Seq<char>|
                    #[trigger] s.corps@.contains_key(k) && s.corps@[k].owner@ == power@ && s.corps@[k].area@ == a;
                let j = choose|j: int| 0 <= j < n && #[trigger] s.corps.entries_view()[j].0@ == k;
                assert(s.corps@.contains_key(s.corps.entries_view()[j].0@));
                assert(s.corps.entries_view()[j].1.owner@ == power@);
            }
        }
    }
    t
}

/// The keys of a flag table, in order, as area IDs.
fn table_keys(t: &StrMap<bool>) -> (v: Vec<AreaId>)
    ensures
        v@.len() == t.entries_view().len(),
        forall|i: int| 0 <= i < v@.len() ==> (#[trigger] v@[i])@ == t.entries_view()[i].0@,
{
    let n = t.len();
    let mut v: Vec<AreaId> = Vec::new();
    let mut i: usize = 0;
    while i < n
        invariant
            n == t.entries_view().len(),
            i <= n,
            v@.len() == i,
            forall|k: int| 0 <= k < i ==> (#[trigger] v@[k])@ == t.entries_view()[k].0@,
        decreases n - i,
    {
        v.push(AreaId(t.key_at(i).clone()));
        i = i + 1;
    }
    v
}

/// The areas threatened by `power`'s corps: those next to an area it
/// occupies, less the areas it occupies, in name order.
pub fn zones_of_control(s: &Scenario, power: &PowerId) -> (v: Vec<AreaId>)
    ensures
        forall|a: Seq<char>| #[trigger] in_zoc(s, power@, a) <==> exists|i: int| 0 <= i < v@.len() && #[trigger] v@[i]@ == a,
        names_increasing(v@),
{
    let occupied = occupied_table(s, power);
    let mut zoc: StrMap<bool> = StrMap::new();
    let mut t: usize = 0;
    while t < s.adjacency.len()
        invariant
            t <= s.adjacency@.len(),
            zoc.well_formed(),
            forall|a: Seq<char>| #[trigger] occupied@.contains_key(a) <==> occupied_by(s, power@, a),
            forall|a: Seq<char>|
                #[trigger] zoc@.contains_key(a) <==> (!occupied_by(s, power@, a) && exists|u: int|
                    0 <= u < t && ((occupied_by(s, power@, #[trigger] s.adjacency@[u].from@) && s.adjacency@[u].to@
                        == a) || (occupied_by(s, power@, s.adjacency@[u].to@) && s.adjacency@[u].from@ == a))),
        decreases s.adjacency@.len() - t,
    {
        let e = &s.adjacency[t];
        if occupied.contains_key(e.from.as_str()) && !occupied.contains_key(e.to.as_str()) {
            zoc.insert(e.to.0.clone(), true);
        }
        if occupied.contains_key(e.to.as_str()) && !occupied.contains_key(e.from.as_str()) {
            zoc.insert(e.from.0.clone(), true);
        }
        proof {
            assert forall|a: Seq<char>|
                #[trigger] zoc@.contains_key(a) <==> (!occupied_by(s, power@, a) && exists|u: int|
                    0 <= u < t + 1 && ((occupied_by(s, power@, #[trigger] s.adjacency@[u].from@) && s.adjacency@[u].to@
                        == a) || (occupied_by(s, power@, s.adjacency@[u].to@) && s.adjacency@[u].from@ == a))) by {
                if !occupied_by(s, power@, a) && exists|u: int|
                    0 <= u < t + 1 && ((occupied_by(s, power@, #[trigger] s.adjacency@[u].from@) && s.adjacency@[u].to@
                        == a) || (occupied_by(s, power@, s.adjacency@[u].to@) && s.adjacency@[u].from@ == a)) {
                    let u = choose|u: int|
                        0 <= u < t + 1 && ((occupied_by(s, power@, #[trigger] s.adjacency@[u].from@)
                            && s.adjacency@[u].to@ == a) || (occupied_by(s, power@, s.adjacency@[u].to@)
                            && s.adjacency@[u].from@ == a));
                    if u < t {
                        assert(occupied_by(s, power@, s.adjacency@[u].from@) || true);
                    }
                }
            }
        }
        t = t + 1;
    }
    let v = table_keys(&zoc);
    proof {
        assert forall|a: Seq<char>| #[trigger] in_zoc(s, power@, a) <==> exists|i: int| 0 <= i < v@.len() && #[trigger] v@[i]@ == a by {
            if in_zoc(s, power@, a) {
                assert(zoc@.contains_key(a));
                let i = choose|i: int| 0 <= i < zoc.entries_view().len() && #[trigger] zoc.entries_view()[i].0@ == a;
                assert(v@[i]@ == a);
            }
            if exists|i: int| 0 <= i < v@.len() && #[trigger] v@[i]@ == a {
                let i = choose|i: int| 0 <= i < v@.len() && #[trigger] v@[i]@ == a;
                assert(zoc@.contains_key(zoc.entries_view()[i].0@));
            }
        }
        assert forall|i: int, j: int| 0 <= i < j < v@.len() implies lex_lt(#[trigger] v@[i]@, #[trigger] v@[j]@) by {
            assert(lex_lt(zoc.entries_view()[i].0@, zoc.entries_view()[j].0@));
        }
    }
    v
}


// ─── Attack validation ─────────────────────────────────────────────────

/// Some listed corps does not exist.
pub open spec fn has_unknown(s: &Scenario, ids: Seq<CorpsId>) -> bool {
    exists|i: int| 0 <= i < ids.len() && !s.corps@.contains_key(#[trigger] ids[i]@)
}

/// The position of the first listed corps that does not exist.
pub open spec fn first_unknown(s: &Scenario, ids: Seq<CorpsId>) -> int {
    choose|i: int|
        0 <= i < ids.len() && !s.corps@.contains_key(#[trigger] ids[i]@) && forall|j: int|
            0 <= j < i ==> s.corps@.contains_key(#[trigger] ids[j]@)
}

/// Some listed corps belongs to another power than `p`.
pub open spec fn has_foreign(s: &Scenario, ids: Seq<CorpsId>, p: Seq<char>) -> bool {
    exists|i: int| 0 <= i < ids.len() && s.corps@[#[trigger] ids[i]@].owner@ != p
}

/// The position of the first listed corps that belongs to another power.
pub open spec fn first_foreign(s: &Scenario, ids: Seq<CorpsId>, p: Seq<char>) -> int {
    choose|i: int|
        0 <= i < ids.len() && s.corps@[#[trigger] ids[i]@].owner@ != p && forall|j: int|
            0 <= j < i ==> s.corps@[#[trigger] ids[j]@].owner@ == p
}

/// Some adjacency, in either direction, joins `a` to `t`.
pub open spec fn touches(s: &Scenario, t: Seq<char>, a: Seq<char>) -> bool {
    exists|u: int|
        0 <= u < s.adjacency@.len() && ((#[trigger] s.adjacency@[u].to@ == t && s.adjacency@[u].from@ == a) || (
        s.adjacency@[u].from@ == t && s.adjacency@[u].to@ == a))
}

/// Some listed corps stands next to `t`.
pub open spec fn any_touches(s: &Scenario, ids: Seq<CorpsId>, t: Seq<char>) -> bool {
    exists|i: int| 0 <= i < ids.len() && touches(s, t, s.corps@[#[trigger] ids[i]@].area@)
}

/// A corps of another power than `p` stands in `t`.
pub open spec fn enemy_in(s: &Scenario, t: Seq<char>, p: Seq<char>) -> bool {
    exists|k: Seq<char>| #[trigger] s.corps@.contains_key(k) && s.corps@[k].area@ == t && s.corps@[k].owner@ != p
}

/// `p` is at war with the owner of some corps of another power in `t`.
pub open spec fn at_war_with_defender(s: &Scenario, t: Seq<char>, p: Seq<char>) -> bool {
    exists|k: Seq<char>|
        #[trigger] s.corps@.contains_key(k) && s.corps@[k].area@ == t && s.corps@[k].owner@ != p && relation(
            s,
            p,
            s.corps@[k].owner@,
        ) == Some(DiplomaticState::War)
}

/// What validating an attack gives: `Ok` or the text of the first failed
/// check.
pub open spec fn attack_verdict(s: &Scenario, o: AttackOrder) -> Result<(), Seq<char>> {
    let ids = o.attacking_corps@;
    let t = o.target_area@;
    let p = o.submitter@;
    if ids.len() == 0 {
        Err("attacking_corps must not be empty"@)
    } else if has_unknown(s, ids) {
        Err("unknown corps `"@ + ids[first_unknown(s, ids)]@ + "`"@)
    } else if has_foreign(s, ids, p) {
        let id = ids[first_foreign(s, ids, p)];
        Err("corps `"@ + id@ + "` is owned by `"@ + s.corps@[id@].owner@ + "`, not `"@ + p + "`"@)
    } else if !s.areas@.contains_key(t) {
        Err("unknown target area `"@ + t + "`"@)
    } else if !any_touches(s, ids, t) {
        Err("no attacking corps is adjacent to `"@ + t + "`"@)
    } else if !enemy_in(s, t, p) {
        Err("no enemy corps in target area `"@ + t + "`"@)
    } else if !at_war_with_defender(s, t, p) {
        Err("`"@ + p + "` is not at war with any defender in `"@ + t + "`"@)
    } else if o.formation@.len() == 0 {
        Err("formation must not be empty"@)
    } else {
        Ok(())
    }
}

/// A string holding `a`, `b` and `c` in turn.
fn text3(a: &str, b: &str, c: &str) -> (r: String)
    ensures
        r@ == a@ + b@ + c@,
{
    let mut v: Vec<char> = Vec::new();
    push_str(&mut v, a);
    push_str(&mut v, b);
    push_str(&mut v, c);
    string_from_chars(v.as_slice())
}

/// Whether some adjacency joins `a` to `t`.
fn touches_exec(s: &Scenario, t: &AreaId, a: &AreaId) -> (r: bool)
    ensures
        r == touches(s, t@, a@),
{
    let mut u: usize = 0;
    while u < s.adjacency.len()
        invariant
            u <= s.adjacency@.len(),
            forall|x: int|
                0 <= x < u ==> !((#[trigger] s.adjacency@[x].to@ == t@ && s.adjacency@[x].from@ == a@) || (
                s.adjacency@[x].from@ == t@ && s.adjacency@[x].to@ == a@)),
        decreases s.adjacency@.len() - u,
    {
        let e = &s.adjacency[u];
        if (e.to.same(t) && e.from.same(a)) || (e.from.same(t) && e.to.same(a)) {
            return true;
        }
        u = u + 1;
    }
    false
}

/// Checks an attack order against the scenario without changing it.
pub fn validate_attack(s: &Scenario, order: &AttackOrder) -> (r: Result<(), String>)
    ensures
        match r {
            Ok(()) => attack_verdict(s, *order) == Ok::<(), Seq<char>>(()),
            Err(m) => attack_verdict(s, *order) == Err::<(), Seq<char>>(m@),
        },
{
    let ids = &order.attacking_corps;
    let ghost idv = ids@;
    if ids.len() == 0 {
        return Err("attacking_corps must not be empty".to_string());
    }
    let mut i: usize = 0;
    while i < ids.len()
        invariant
            idv == ids@,
            idv == order.attacking_corps@,
            i <= ids@.len(),
            forall|j: int| 0 <= j < i ==> s.corps@.contains_key(#[trigger] ids@[j]@),
        decreases ids@.len() - i,
    {
        if !s.corps.contains_key(ids[i].as_str()) {
            proof {
                assert(has_unknown(s, idv));
                assert(0 <= i < idv.len() && !s.corps@.contains_key(idv[i as int]@) && forall|j: int|
                    0 <= j < i ==> s.corps@.contains_key(#[trigger] idv[j]@));
                let f = first_unknown(s, idv);
                assert(0 <= f < idv.len() && !s.corps@.contains_key(idv[f]@) && forall|j: int|
                    0 <= j < f ==> s.corps@.contains_key(#[trigger] idv[j]@));
                if f < i {
                    assert(s.corps@.contains_key(ids@[f]@));
                }
                if f > i {
                    assert(s.corps@.contains_key(idv[i as int]@));
                }
                assert(f == i);
            }
            return Err(text3("unknown corps `", ids[i].as_str(), "`"));
        }
        i = i + 1;
    }
    let mut i: usize = 0;
    while i < ids.len()
        invariant
            idv == ids@,
            idv == order.attacking_corps@,
            i <= ids@.len(),
            !has_unknown(s, idv),
            forall|j: int| 0 <= j < i ==> s.corps@[#[trigger] ids@[j]@].owner@ == order.submitter@,
        decreases ids@.len() - i,
    {
        let c = match s.corps.get(ids[i].as_str()) {
            Some(c) => c,
            None => {
                proof {
                    assert(has_unknown(s, idv));
                }
                return Err(String::new());
            },
        };
        if !c.owner.same(&order.submitter) {
            proof {
                assert(has_foreign(s, idv, order.submitter@));
                assert(0 <= i < idv.len() && s.corps@[idv[i as int]@].owner@ != order.submitter@ && forall|j: int|
                    0 <= j < i ==> s.corps@[#[trigger] idv[j]@].owner@ == order.submitter@);
                let f = first_foreign(s, idv, order.submitter@);
                assert(0 <= f < idv.len() && s.corps@[idv[f]@].owner@ != order.submitter@ && forall|j: int|
                    0 <= j < f ==> s.corps@[#[trigger] idv[j]@].owner@ == order.submitter@);
                if f < i {
                    assert(s.corps@[ids@[f]@].owner@ == order.submitter@);
                }
                if f > i {
                    assert(s.corps@[idv[i as int]@].owner@ == order.submitter@);
                }
                assert(f == i);
            }
            let mut v: Vec<char> = Vec::new();
            push_str(&mut v, "corps `");
            push_str(&mut v, ids[i].as_str());
            push_str(&mut v, "` is owned by `");
            push_str(&mut v, c.owner.as_str());
            push_str(&mut v, "`, not `");
            push_str(&mut v, order.submitter.as_str());
            push_str(&mut v, "`");
            return Err(string_from_chars(v.as_slice()));
        }
        i = i + 1;
    }
    let t = &order.target_area;
    if !s.areas.contains_key(t.as_str()) {
        return Err(text3("unknown target area `", t.as_str(), "`"));
    }
    let mut any = false;
    let mut i: usize = 0;
    while i < ids.len()
        invariant
            idv == ids@,
            idv == order.attacking_corps@,
            i <= ids@.len(),
            !has_unknown(s, idv),
            any == exists|j: int| 0 <= j < i && touches(s, t@, s.corps@[#[trigger] ids@[j]@].area@),
        decreases ids@.len() - i,
    {
        match s.corps.get(ids[i].as_str()) {
            Some(c) => {
                if touches_exec(s, t, &c.area) {
                    any = true;
                }
            },
            None => {
                proof {
                    assert(has_unknown(s, idv));
                }
            },
        }
        proof {
            if any {
                if !(exists|j: int| 0 <= j < i && touches(s, t@, s.corps@[#[trigger] ids@[j]@].area@)) {
                    assert(touches(s, t@, s.corps@[ids@[i as int]@].area@));
                }
            }
        }
        i = i + 1;
    }
    if !any {
        return Err(text3("no attacking corps is adjacent to `", t.as_str(), "`"));
    }
    let n = s.corps.len();
    let mut enemy = false;
    let mut war = false;
    let mut k: usize = 0;
    while k < n
        invariant
            n == s.corps.entries_view().len(),
            s.corps.well_formed(),
            k <= n,
            enemy == exists|j: int|
                0 <= j < k && (#[trigger] s.corps.entries_view()[j]).1.area@ == t@ && s.corps.entries_view()[j].1.owner@
                    != order.submitter@,
            war == exists|j: int|
                0 <= j < k && (#[trigger] s.corps.entries_view()[j]).1.area@ == t@ && s.corps.entries_view()[j].1.owner@
                    != order.submitter@ && relation(s, order.submitter@, s.corps.entries_view()[j].1.owner@) == Some(
                    DiplomaticState::War,
                ),
        decreases n - k,
    {
        let c = s.corps.value_at(k);
        if c.area.same(t) && !c.owner.same(&order.submitter) {
            enemy = true;
            match diplomatic_state(s, &order.submitter, &c.owner) {
                Some(DiplomaticState::War) => {
                    war = true;
                },
                _ => {},
            }
        }
        proof {
            let e = s.corps.entries_view();
            if enemy && !(exists|j: int|
                0 <= j < k && (#[trigger] e[j]).1.area@ == t@ && e[j].1.owner@ != order.submitter@) {
                assert(e[k as int].1.area@ == t@);
            }
            if war && !(exists|j: int|
                0 <= j < k && (#[trigger] e[j]).1.area@ == t@ && e[j].1.owner@ != order.submitter@ && relation(
                    s,
                    order.submitter@,
                    e[j].1.owner@,
                ) == Some(DiplomaticState::War)) {
                assert(e[k as int].1.area@ == t@);
            }
        }
        k = k + 1;
    }
    proof {
        let e = s.corps.entries_view();
        if enemy_in(s, t@, order.submitter@) {
            let key = choose|key: Seq<char>|
                #[trigger] s.corps@.contains_key(key) && s.corps@[key].area@ == t@ && s.corps@[key].owner@
                    != order.submitter@;
            let j = choose|j: int| 0 <= j < n && #[trigger] e[j].0@ == key;
            assert(s.corps@.contains_key(e[j].0@));
        }
        if enemy {
            let j = choose|j: int| 0 <= j < n && (#[trigger] e[j]).1.area@ == t@ && e[j].1.owner@ != order.submitter@;
            assert(s.corps@.contains_key(e[j].0@));
        }
        if at_war_with_defender(s, t@, order.submitter@) {
            let key = choose|key: Seq<char>|
                #[trigger] s.corps@.contains_key(key) && s.corps@[key].area@ == t@ && s.corps@[key].owner@
                    != order.submitter@ && relation(s, order.submitter@, s.corps@[key].owner@) == Some(
                    DiplomaticState::War,
                );
            let j = choose|j: int| 0 <= j < n && #[trigger] e[j].0@ == key;
            assert(s.corps@.contains_key(e[j].0@));
        }
        if war {
            let j = choose|j: int|
                0 <= j < n && (#[trigger] e[j]).1.area@ == t@ && e[j].1.owner@ != order.submitter@ && relation(
                    s,
                    order.submitter@,
                    e[j].1.owner@,
                ) == Some(DiplomaticState::War);
            assert(s.corps@.contains_key(e[j].0@));
        }
    }
    if !enemy {
        return Err(text3("no enemy corps in target area `", t.as_str(), "`"));
    }
    if !war {
        let mut v: Vec<char> = Vec::new();
        push_str(&mut v, "`");
        push_str(&mut v, order.submitter.as_str());
        push_str(&mut v, "` is not at war with any defender in `");
        push_str(&mut v, t.as_str());
        push_str(&mut v, "`");
        return Err(string_from_chars(v.as_slice()));
    }
    if order.formation.as_str().is_empty() {
        return Err("formation must not be empty".to_string());
    }
    Ok(())
}


// ─── Battle arithmetic ─────────────────────────────────────────────────

/// Whether `x` is representable as an `i32`.
pub open spec fn fits(x: int) -> bool {
    i32::MIN <= x <= i32::MAX
}

/// Division rounding toward zero, for a positive divisor.
pub open spec fn trunc_div(a: int, b: int) -> int {
    if a >= 0 {
        a / b
    } else {
        -((-a) / b)
    }
}

/// `x`, or zero when `x` is negative.
pub open spec fn floor0(x: int) -> int {
    if x < 0 {
        0
    } else {
        x
    }
}

/// The names of a list of corps IDs.
pub open spec fn key_seq(ids: Seq<CorpsId>) -> Seq<Seq<char>> {
    ids.map_values(|c: CorpsId| c@)
}

/// Total strength points of a corps.
pub open spec fn corps_total(c: Corps) -> int {
    c.infantry_sp as int + c.cavalry_sp as int + c.artillery_sp as int
}

/// The strength total of a corps is computed without overflow.
pub open spec fn total_fits(c: Corps) -> bool {
    fits(c.infantry_sp as int + c.cavalry_sp as int) && fits(corps_total(c))
}

/// Summed strength of the listed corps that exist in `m`.
pub open spec fn listed_strength(m: Map<Seq<char>, Corps>, ks: Seq<Seq<char>>) -> int
    decreases ks.len(),
{
    if ks.len() == 0 {
        0
    } else {
        listed_strength(m, ks.drop_last()) + if m.contains_key(ks.last()) {
            corps_total(m[ks.last()])
        } else {
            0
        }
    }
}

/// Every partial sum of [`listed_strength`] fits an `i32`.
pub open spec fn strength_fits(m: Map<Seq<char>, Corps>, ks: Seq<Seq<char>>) -> bool
    decreases ks.len(),
{
    if ks.len() == 0 {
        true
    } else {
        &&& strength_fits(m, ks.drop_last())
        &&& fits(listed_strength(m, ks))
        &&& m.contains_key(ks.last()) ==> total_fits(m[ks.last()])
    }
}

/// Names, in key order, of the corps of other powers than `p` in `t`.
pub open spec fn defender_ids(es: Seq<(String, Corps)>, t: Seq<char>, p: Seq<char>) -> Seq<Seq<char>>
    decreases es.len(),
{
    if es.len() == 0 {
        Seq::empty()
    } else {
        let rest = defender_ids(es.drop_last(), t, p);
        if es.last().1.area@ == t && es.last().1.owner@ != p {
            rest.push(es.last().0@)
        } else {
            rest
        }
    }
}

/// The strength-ratio bucket of an attack.
pub open spec fn ratio_bucket(att: int, def: int) -> Seq<char> {
    if att >= 3 * def {
        "3:1"@
    } else if att >= 2 * def {
        "2:1"@
    } else if att * 2 >= 3 * def {
        "3:2"@
    } else if att >= def {
        "1:1"@
    } else if att * 2 >= def {
        "1:2"@
    } else {
        "1:3"@
    }
}

/// The terrain's name in the modifier table.
pub open spec fn terrain_name(t: Terrain) -> Seq<char> {
    match t {
        Terrain::Open => "OPEN"@,
        Terrain::Forest => "FOREST"@,
        Terrain::Mountain => "MOUNTAIN"@,
        Terrain::Marsh => "MARSH"@,
        Terrain::Urban => "URBAN"@,
    }
}

/// The formation-matrix key for an attacker formation against a line.
pub open spec fn formation_key(f: Seq<char>) -> Seq<char> {
    f + "_vs_LINE"@
}

/// Attacker and defender column shifts from the formation matrix.
pub open spec fn formation_shifts(tables: &CombatTable, f: Seq<char>) -> (int, int) {
    if tables.formation_matrix@.contains_key(formation_key(f)) {
        (
            tables.formation_matrix@[formation_key(f)].att_col_shift as int,
            tables.formation_matrix@[formation_key(f)].def_col_shift as int,
        )
    } else {
        (0, 0)
    }
}

/// Attacker column shift for the terrain of the target.
pub open spec fn terrain_shift(tables: &CombatTable, t: Terrain) -> int {
    if tables.terrain_modifiers@.contains_key(terrain_name(t)) {
        tables.terrain_modifiers@[terrain_name(t)].att_col_shift as int
    } else {
        0
    }
}

/// `x` limited to `lo..=hi`.
pub open spec fn clamp(x: int, lo: int, hi: int) -> int {
    if x < lo {
        lo
    } else if x > hi {
        hi
    } else {
        x
    }
}

/// The results-table column the die roll selects after column shifts.
pub open spec fn die_column(tables: &CombatTable, seed: u64, f: Seq<char>, t: Terrain) -> int {
    let die = (seed % (tables.die_faces as u64)) as int;
    let att = formation_shifts(tables, f).0 + terrain_shift(tables, t);
    let def = formation_shifts(tables, f).1;
    clamp(die + att - def, 0, tables.die_faces - 1)
}

/// The die picks its column after the column shifts: the face rolled, plus
/// the attacker shift of the formation pairing and the attacker shift that
/// the modifier table gives the target's terrain, minus the defender shift
/// of the pairing, held to the die's faces. A pairing or terrain the tables
/// do not list shifts nothing.
pub proof fn lemma_column_shifts(tables: &CombatTable, seed: u64, f: Seq<char>, t: Terrain)
    ensures
        ({
            let pairing = f + "_vs_LINE"@;
            let att = if tables.formation_matrix@.contains_key(pairing) {
                tables.formation_matrix@[pairing].att_col_shift as int
            } else {
                0
            };
            let def = if tables.formation_matrix@.contains_key(pairing) {
                tables.formation_matrix@[pairing].def_col_shift as int
            } else {
                0
            };
            let ground = if tables.terrain_modifiers@.contains_key(terrain_name(t)) {
                tables.terrain_modifiers@[terrain_name(t)].att_col_shift as int
            } else {
                0
            };
            let raw = (seed % (tables.die_faces as u64)) as int + att + ground - def;
            let col = die_column(tables, seed, f, t);
            &&& raw < 0 ==> col == 0
            &&& 0 <= raw < tables.die_faces ==> col == raw
            &&& raw >= tables.die_faces ==> col == tables.die_faces - 1
        }),
{
}

/// Two tables that differ only in the shift they give one terrain move the
/// column of a battle on that terrain by the difference of the shifts, as
/// long as neither column is held at an edge of the die.
pub proof fn lemma_terrain_moves_column(t1: &CombatTable, t2: &CombatTable, seed: u64, f: Seq<char>, t: Terrain)
    requires
        t2.die_faces == t1.die_faces,
        t2.formation_matrix@ == t1.formation_matrix@,
        t1.terrain_modifiers@.contains_key(terrain_name(t)),
        t2.terrain_modifiers@.contains_key(terrain_name(t)),
        0 < die_column(t1, seed, f, t) < t1.die_faces - 1,
        0 < die_column(t2, seed, f, t) < t2.die_faces - 1,
    ensures
        die_column(t2, seed, f, t) - die_column(t1, seed, f, t)
            == t2.terrain_modifiers@[terrain_name(t)].att_col_shift as int
            - t1.terrain_modifiers@[terrain_name(t)].att_col_shift as int,
{
    lemma_column_shifts(t1, seed, f, t);
    lemma_column_shifts(t2, seed, f, t);
}

/// A corps scaled from `ot` down to `nt` strength points, its arms in
/// proportion and the rounding left over given to the infantry.
pub open spec fn scaled(c: Corps, nt: int, ot: int) -> Corps {
    if ot <= 0 {
        c
    } else if nt <= 0 {
        Corps { infantry_sp: 0, cavalry_sp: 0, artillery_sp: 0, ..c }
    } else {
        let ni = trunc_div(c.infantry_sp * nt, ot);
        let nc = trunc_div(c.cavalry_sp * nt, ot);
        let na = trunc_div(c.artillery_sp * nt, ot);
        let adj = nt - (ni + nc + na);
        Corps {
            infantry_sp: floor0(ni + adj) as i32,
            cavalry_sp: floor0(nc) as i32,
            artillery_sp: floor0(na) as i32,
            ..c
        }
    }
}

/// The scaling arithmetic stays within `i32`.
pub open spec fn scale_fits(c: Corps, nt: int, ot: int) -> bool {
    ot <= 0 || nt <= 0 || {
        let ni = trunc_div(c.infantry_sp * nt, ot);
        let nc = trunc_div(c.cavalry_sp * nt, ot);
        let na = trunc_div(c.artillery_sp * nt, ot);
        &&& fits(c.infantry_sp * nt)
        &&& fits(c.cavalry_sp * nt)
        &&& fits(c.artillery_sp * nt)
        &&& fits(ni + nc)
        &&& fits(ni + nc + na)
        &&& fits(nt - (ni + nc + na))
        &&& fits(ni + (nt - (ni + nc + na)))
    }
}

/// A corps after losing `loss` strength points.
pub open spec fn after_loss(c: Corps, loss: int) -> Corps {
    scaled(c, floor0(corps_total(c) - loss), corps_total(c))
}

/// A nonnegative share `x` of a total `ot`, scaled down to `nt` and
/// rounded toward zero, stays between zero and `x`, and times `ot` does
/// not exceed `x * nt`.
proof fn lemma_scaled_part(x: int, nt: int, ot: int)
    by (nonlinear_arith)
    requires
        0 <= x,
        0 < nt <= ot,
    ensures
        0 <= (x * nt) / ot <= x,
        ((x * nt) / ot) * ot <= x * nt,
{
}

/// A corps that loses `loss` strength points keeps exactly what is left
/// of its total, nothing when the loss exceeds it: cavalry and artillery
/// shrink in proportion, rounded down, the infantry takes up the rounding,
/// no arm goes negative or grows, and nothing else about the corps changes.
pub proof fn lemma_loss_keeps_remainder(c: Corps, loss: int)
    requires
        c.infantry_sp >= 0,
        c.cavalry_sp >= 0,
        c.artillery_sp >= 0,
        loss >= 0,
        loss_fits(c, loss),
    ensures
        ({
            let r = after_loss(c, loss);
            let left = c.infantry_sp as int + c.cavalry_sp as int + c.artillery_sp as int - loss;
            &&& r.infantry_sp as int + r.cavalry_sp as int + r.artillery_sp as int == (if left < 0 {
                0
            } else {
                left
            })
            &&& 0 <= r.infantry_sp <= c.infantry_sp + c.cavalry_sp + c.artillery_sp
            &&& 0 <= r.cavalry_sp <= c.cavalry_sp
            &&& 0 <= r.artillery_sp <= c.artillery_sp
            &&& r == (Corps { infantry_sp: r.infantry_sp, cavalry_sp: r.cavalry_sp, artillery_sp: r.artillery_sp, ..c })
        }),
{
    let ot = corps_total(c);
    let nt = floor0(ot - loss);
    if ot > 0 && nt > 0 {
        let i = c.infantry_sp as int;
        let cv = c.cavalry_sp as int;
        let a = c.artillery_sp as int;
        lemma_scaled_part(i, nt, ot);
        lemma_scaled_part(cv, nt, ot);
        lemma_scaled_part(a, nt, ot);
        let ni = (i * nt) / ot;
        let nc = (cv * nt) / ot;
        let na = (a * nt) / ot;
        assert(ni + nc + na <= nt) by (nonlinear_arith)
            requires
                ni * ot <= i * nt,
                nc * ot <= cv * nt,
                na * ot <= a * nt,
                ot == i + cv + a,
                ot > 0,
        ;
        assert(trunc_div(i * nt, ot) == ni);
        assert(trunc_div(cv * nt, ot) == nc);
        assert(trunc_div(a * nt, ot) == na);
    }
}

/// Losing `loss` strength points is computed without overflow.
pub open spec fn loss_fits(c: Corps, loss: int) -> bool {
    total_fits(c) && fits(corps_total(c) - loss) && scale_fits(c, floor0(corps_total(c) - loss), corps_total(c))
}

/// The loss of the `i`-th listed corps: an equal share, the first taking
/// the remainder.
pub open spec fn share(i: int, per: int, rem: int) -> int {
    if i == 0 {
        per + rem
    } else {
        per
    }
}

/// The corps table after the first `k` listed corps took their losses.
pub open spec fn losses_applied(m: Map<Seq<char>, Corps>, ks: Seq<Seq<char>>, k: nat, per: int, rem: int) -> Map<Seq<char>, Corps>
    decreases k,
{
    if k == 0 {
        m
    } else {
        let m1 = losses_applied(m, ks, (k - 1) as nat, per, rem);
        let id = ks[k - 1];
        if m1.contains_key(id) {
            m1.insert(id, after_loss(m1[id], share(k - 1, per, rem)))
        } else {
            m1
        }
    }
}

/// Every step of [`losses_applied`] stays within `i32`.
pub open spec fn losses_fit(m: Map<Seq<char>, Corps>, ks: Seq<Seq<char>>, k: nat, per: int, rem: int) -> bool
    decreases k,
{
    if k == 0 {
        true
    } else {
        let m1 = losses_applied(m, ks, (k - 1) as nat, per, rem);
        let id = ks[k - 1];
        &&& losses_fit(m, ks, (k - 1) as nat, per, rem)
        &&& m1.contains_key(id) ==> loss_fits(m1[id], share(k - 1, per, rem))
    }
}

/// The corps table after `total` strength points of loss are spread
/// over the listed corps.
pub open spec fn distributed(m: Map<Seq<char>, Corps>, ks: Seq<Seq<char>>, total: int) -> Map<Seq<char>, Corps> {
    if ks.len() == 0 || total <= 0 {
        m
    } else {
        losses_applied(m, ks, ks.len(), total / (ks.len() as int), total % (ks.len() as int))
    }
}

/// Spreading the loss stays within `i32`.
pub open spec fn distribute_fits(m: Map<Seq<char>, Corps>, ks: Seq<Seq<char>>, total: int) -> bool {
    ks.len() == 0 || total <= 0 || (ks.len() <= i32::MAX && losses_fit(
        m,
        ks,
        ks.len(),
        total / (ks.len() as int),
        total % (ks.len() as int),
    ))
}

/// The corps table after the first `k` listed corps gained `delta` morale.
pub open spec fn morale_added(m: Map<Seq<char>, Corps>, ks: Seq<Seq<char>>, k: nat, delta: int) -> Map<Seq<char>, Corps>
    decreases k,
{
    if k == 0 {
        m
    } else {
        let m1 = morale_added(m, ks, (k - 1) as nat, delta);
        let id = ks[k - 1];
        if m1.contains_key(id) {
            m1.insert(id, Corps { morale_q4: (m1[id].morale_q4 + delta) as i32, ..m1[id] })
        } else {
            m1
        }
    }
}

/// Every step of [`morale_added`] stays within `i32`.
pub open spec fn morale_fits(m: Map<Seq<char>, Corps>, ks: Seq<Seq<char>>, k: nat, delta: int) -> bool
    decreases k,
{
    if k == 0 {
        true
    } else {
        let m1 = morale_added(m, ks, (k - 1) as nat, delta);
        let id = ks[k - 1];
        &&& morale_fits(m, ks, (k - 1) as nat, delta)
        &&& m1.contains_key(id) ==> fits(m1[id].morale_q4 + delta)
    }
}

/// Summed morale of the listed corps that exist in `m`.
pub open spec fn morale_sum(m: Map<Seq<char>, Corps>, ks: Seq<Seq<char>>) -> int
    decreases ks.len(),
{
    if ks.len() == 0 {
        0
    } else {
        morale_sum(m, ks.drop_last()) + if m.contains_key(ks.last()) {
            m[ks.last()].morale_q4 as int
        } else {
            0
        }
    }
}

/// Every partial sum of [`morale_sum`] fits an `i32`.
pub open spec fn morale_sum_fits(m: Map<Seq<char>, Corps>, ks: Seq<Seq<char>>) -> bool
    decreases ks.len(),
{
    if ks.len() == 0 {
        true
    } else {
        morale_sum_fits(m, ks.drop_last()) && fits(morale_sum(m, ks))
    }
}

/// Average morale of the listed corps (zero for an empty list).
pub open spec fn average_morale(m: Map<Seq<char>, Corps>, ks: Seq<Seq<char>>) -> int {
    if ks.len() == 0 {
        0
    } else {
        trunc_div(morale_sum(m, ks), ks.len() as int)
    }
}

/// The strategic outcome from the sides' average morale after the battle.
pub open spec fn outcome_of(morale: &MoraleTable, att: int, def: int) -> BattleOutcome {
    match (morale.rout_threshold_q4, morale.retreat_threshold_q4) {
        (Maybe::Value(rout), Maybe::Value(retreat)) => if def < rout {
            BattleOutcome::DefenderRouted
        } else if def < retreat {
            BattleOutcome::DefenderRetreats
        } else if att < retreat {
            BattleOutcome::AttackerRepulsed
        } else {
            BattleOutcome::MutualWithdrawal
        },
        _ => BattleOutcome::AttackerRepulsed,
    }
}

/// The ratio bucket is the largest of 3:1, 2:1, 3:2, 1:1 and 1:2 that the
/// attacker's strength reaches against the defender's, and 1:3 below them
/// all; strength `att` reaches `a:b` against `def` when `b * att >= a * def`.
pub proof fn lemma_ratio_buckets(att: int, def: int)
    ensures
        att >= 3 * def ==> ratio_bucket(att, def) == "3:1"@,
        2 * def <= att < 3 * def ==> ratio_bucket(att, def) == "2:1"@,
        2 * att >= 3 * def && att < 2 * def ==> ratio_bucket(att, def) == "3:2"@,
        att >= def && 2 * att < 3 * def ==> ratio_bucket(att, def) == "1:1"@,
        2 * att >= def && att < def ==> ratio_bucket(att, def) == "1:2"@,
        0 <= att && 2 * att < def ==> ratio_bucket(att, def) == "1:3"@,
{
}

/// With both morale thresholds authored, a defender whose average morale
/// falls below the rout threshold is routed, else one below the retreat
/// threshold retreats; a defender that holds them repulses an attacker
/// below the retreat threshold, and otherwise both sides withdraw. While
/// either threshold is unauthored the attacker is repulsed.
pub proof fn lemma_battle_outcomes(morale: &MoraleTable, att: int, def: int)
    ensures
        morale.rout_threshold_q4 is Placeholder || morale.retreat_threshold_q4 is Placeholder ==> outcome_of(
            morale,
            att,
            def,
        ) == BattleOutcome::AttackerRepulsed,
        morale.rout_threshold_q4 is Value && morale.retreat_threshold_q4 is Value ==> {
            let rout = morale.rout_threshold_q4->Value_0 as int;
            let retreat = morale.retreat_threshold_q4->Value_0 as int;
            &&& def < rout ==> outcome_of(morale, att, def) == BattleOutcome::DefenderRouted
            &&& rout <= def < retreat ==> outcome_of(morale, att, def) == BattleOutcome::DefenderRetreats
            &&& def >= rout && def >= retreat && att < retreat ==> outcome_of(morale, att, def)
                == BattleOutcome::AttackerRepulsed
            &&& def >= rout && def >= retreat && att >= retreat ==> outcome_of(morale, att, def)
                == BattleOutcome::MutualWithdrawal
        },
{
}

/// The table after each listed corps moved to `to`.
pub open spec fn retreated(m: Map<Seq<char>, Corps>, ks: Seq<Seq<char>>, k: nat, to: AreaId) -> Map<Seq<char>, Corps>
    decreases k,
{
    if k == 0 {
        m
    } else {
        let m1 = retreated(m, ks, (k - 1) as nat, to);
        let id = ks[k - 1];
        if m1.contains_key(id) {
            m1.insert(id, Corps { area: to, ..m1[id] })
        } else {
            m1
        }
    }
}

/// An area the defenders of `t` may fall back to: next to `t` and outside
/// the attacker's zone of control.
pub open spec fn retreat_candidate(m: Map<Seq<char>, Corps>, s: &Scenario, t: Seq<char>, p: Seq<char>, a: Seq<char>) -> bool {
    touches(s, t, a) && !zoc_of(m, s.adjacency@, p, a)
}


proof fn lemma_strength_prefix(m: Map<Seq<char>, Corps>, ks: Seq<Seq<char>>, i: int)
    requires
        strength_fits(m, ks),
        0 <= i <= ks.len(),
    ensures
        strength_fits(m, ks.take(i)),
    decreases ks.len(),
{
    if i == ks.len() {
        assert(ks.take(i) =~= ks);
    } else {
        assert(ks.drop_last().take(i) =~= ks.take(i));
        lemma_strength_prefix(m, ks.drop_last(), i);
    }
}

proof fn lemma_morale_sum_prefix(m: Map<Seq<char>, Corps>, ks: Seq<Seq<char>>, i: int)
    requires
        morale_sum_fits(m, ks),
        0 <= i <= ks.len(),
    ensures
        morale_sum_fits(m, ks.take(i)),
    decreases ks.len(),
{
    if i == ks.len() {
        assert(ks.take(i) =~= ks);
    } else {
        assert(ks.drop_last().take(i) =~= ks.take(i));
        lemma_morale_sum_prefix(m, ks.drop_last(), i);
    }
}

proof fn lemma_losses_fit_prefix(m: Map<Seq<char>, Corps>, ks: Seq<Seq<char>>, k: nat, j: nat, per: int, rem: int)
    requires
        losses_fit(m, ks, k, per, rem),
        j <= k,
    ensures
        losses_fit(m, ks, j, per, rem),
    decreases k,
{
    if j < k {
        lemma_losses_fit_prefix(m, ks, (k - 1) as nat, j, per, rem);
    }
}

proof fn lemma_morale_fits_prefix(m: Map<Seq<char>, Corps>, ks: Seq<Seq<char>>, k: nat, j: nat, delta: int)
    requires
        morale_fits(m, ks, k, delta),
        j <= k,
    ensures
        morale_fits(m, ks, j, delta),
    decreases k,
{
    if j < k {
        lemma_morale_fits_prefix(m, ks, (k - 1) as nat, j, delta);
    }
}

/// Summed strength of the listed corps that exist.
fn strength(m: &StrMap<Corps>, ids: &Vec<CorpsId>) -> (r: i32)
    requires
        strength_fits(m@, key_seq(ids@)),
    ensures
        r == listed_strength(m@, key_seq(ids@)),
{
    let ghost ks = key_seq(ids@);
    let mut acc: i32 = 0;
    let mut i: usize = 0;
    while i < ids.len()
        invariant
            ks == key_seq(ids@),
            strength_fits(m@, ks),
            i <= ids@.len(),
            acc == listed_strength(m@, ks.take(i as int)),
        decreases ids@.len() - i,
    {
        proof {
            lemma_strength_prefix(m@, ks, i + 1);
            assert(ks.take(i + 1).drop_last() =~= ks.take(i as int));
            assert(ks.take(i + 1).last() == ids@[i as int]@);
        }
        match m.get(ids[i].as_str()) {
            Some(c) => {
                acc = acc + (c.infantry_sp + c.cavalry_sp + c.artillery_sp);
            },
            None => {},
        }
        i = i + 1;
    }
    proof {
        assert(ks.take(ids@.len() as int) =~= ks);
    }
    acc
}

/// The corps of other powers than `p` standing in `t`, in key order.
fn defender_list(s: &Scenario, t: &AreaId, p: &PowerId) -> (v: Vec<CorpsId>)
    ensures
        key_seq(v@) == defender_ids(s.corps.entries_view(), t@, p@),
        forall|i: int| 0 <= i < v@.len() ==> s.corps@.contains_key(#[trigger] v@[i]@),
{
    let n = s.corps.len();
    let mut v: Vec<CorpsId> = Vec::new();
    let mut i: usize = 0;
    while i < n
        invariant
            n == s.corps.entries_view().len(),
            s.corps.well_formed(),
            i <= n,
            key_seq(v@) == defender_ids(s.corps.entries_view().take(i as int), t@, p@),
            forall|j: int| 0 <= j < v@.len() ==> s.corps@.contains_key(#[trigger] v@[j]@),
        decreases n - i,
    {
        let ghost es = s.corps.entries_view();
        proof {
            assert(es.take(i + 1).drop_last() =~= es.take(i as int));
            assert(es.take(i + 1).last() == es[i as int]);
        }
        let c = s.corps.value_at(i);
        if c.area.same(t) && !c.owner.same(p) {
            let ghost before = v@;
            v.push(CorpsId(s.corps.key_at(i).clone()));
            proof {
                assert(key_seq(v@) =~= key_seq(before).push(es[i as int].0@));
                assert(s.corps@.contains_key(es[i as int].0@));
                assert forall|j: int| 0 <= j < v@.len() implies s.corps@.contains_key(#[trigger] v@[j]@) by {
                    if j < before.len() {
                        assert(v@[j] == before[j]);
                    }
                }
            }
        }
        i = i + 1;
    }
    proof {
        assert(s.corps.entries_view().take(n as int) =~= s.corps.entries_view());
    }
    v
}

/// `a / b` rounded toward zero, for a positive `b`.
fn div_trunc(a: i64, b: i64) -> (r: i64)
    requires
        b > 0,
        a > i64::MIN,
    ensures
        r == trunc_div(a as int, b as int),
{
    if a >= 0 {
        a / b
    } else {
        -((-a) / b)
    }
}

/// Scales a corps's arms down from `old_total` to `new_total` strength.
fn scale_corps_sp(c: &mut Corps, new_total: i32, old_total: i32)
    requires
        scale_fits(*old(c), new_total as int, old_total as int),
    ensures
        *final(c) == scaled(*old(c), new_total as int, old_total as int),
{
    if old_total <= 0 {
        return;
    }
    if new_total <= 0 {
        c.infantry_sp = 0;
        c.cavalry_sp = 0;
        c.artillery_sp = 0;
        return;
    }
    let ni = div_trunc(c.infantry_sp as i64 * new_total as i64, old_total as i64) as i32;
    let nc = div_trunc(c.cavalry_sp as i64 * new_total as i64, old_total as i64) as i32;
    let na = div_trunc(c.artillery_sp as i64 * new_total as i64, old_total as i64) as i32;
    let assigned = ni + nc + na;
    let adj = new_total - assigned;
    let inf = ni + adj;
    c.infantry_sp = if inf < 0 {
        0
    } else {
        inf
    };
    c.cavalry_sp = if nc < 0 {
        0
    } else {
        nc
    };
    c.artillery_sp = if na < 0 {
        0
    } else {
        na
    };
}

/// Spreads `total_loss` strength points over the listed corps in order:
/// each takes an equal share and the first also takes the remainder.
fn distribute_sp_loss(corps: &mut StrMap<Corps>, ids: &Vec<CorpsId>, total_loss: i32)
    requires
        distribute_fits(old(corps)@, key_seq(ids@), total_loss as int),
    ensures
        final(corps)@ == distributed(old(corps)@, key_seq(ids@), total_loss as int),
{
    if ids.len() == 0 || total_loss <= 0 {
        return;
    }
    let ghost ks = key_seq(ids@);
    let ghost m0 = corps@;
    let count = ids.len() as i32;
    let per = total_loss / count;
    let rem = total_loss % count;
    let mut i: usize = 0;
    while i < ids.len()
        invariant
            ks == key_seq(ids@),
            count == ids@.len(),
            count > 0,
            per == total_loss / count,
            rem == total_loss % count,
            total_loss > 0,
            losses_fit(m0, ks, ks.len(), per as int, rem as int),
            i <= ids@.len(),
            corps@ == losses_applied(m0, ks, i as nat, per as int, rem as int),
        decreases ids@.len() - i,
    {
        proof {
            lemma_losses_fit_prefix(m0, ks, ks.len(), (i + 1) as nat, per as int, rem as int);
            assert(ks[i as int] == ids@[i as int]@);
        }
        match corps.find(ids[i].as_str()) {
            Some(j) => {
                let mut c = corps.value_at(j).duplicate();
                proof {
                    assert(corps@.contains_key(corps.entries_view()[j as int].0@));
                }
                proof {
                    assert(per + rem <= total_loss) by (nonlinear_arith)
                        requires
                            per == total_loss / count,
                            rem == total_loss % count,
                            count >= 1,
                            total_loss > 0,
                    ;
                }
                let loss = if i == 0 {
                    per + rem
                } else {
                    per
                };
                let total = c.infantry_sp + c.cavalry_sp + c.artillery_sp;
                let nt = if total - loss < 0 {
                    0
                } else {
                    total - loss
                };
                scale_corps_sp(&mut c, nt, total);
                corps.set_value_at(j, c);
            },
            None => {},
        }
        i = i + 1;
    }
}

/// Adds `delta` to the morale of each listed corps, in order.
fn add_morale(corps: &mut StrMap<Corps>, ids: &Vec<CorpsId>, delta: i32)
    requires
        morale_fits(old(corps)@, key_seq(ids@), ids@.len(), delta as int),
    ensures
        final(corps)@ == morale_added(old(corps)@, key_seq(ids@), ids@.len(), delta as int),
{
    let ghost ks = key_seq(ids@);
    let ghost m0 = corps@;
    let mut i: usize = 0;
    while i < ids.len()
        invariant
            ks == key_seq(ids@),
            morale_fits(m0, ks, ids@.len(), delta as int),
            i <= ids@.len(),
            corps@ == morale_added(m0, ks, i as nat, delta as int),
        decreases ids@.len() - i,
    {
        proof {
            lemma_morale_fits_prefix(m0, ks, ids@.len(), (i + 1) as nat, delta as int);
            assert(ks[i as int] == ids@[i as int]@);
        }
        match corps.find(ids[i].as_str()) {
            Some(j) => {
                let mut c = corps.value_at(j).duplicate();
                proof {
                    assert(corps@.contains_key(corps.entries_view()[j as int].0@));
                }
                c.morale_q4 = c.morale_q4 + delta;
                corps.set_value_at(j, c);
            },
            None => {},
        }
        i = i + 1;
    }
}

/// Average morale of the listed corps; zero for an empty list.
fn avg_morale(m: &StrMap<Corps>, ids: &Vec<CorpsId>) -> (r: i32)
    requires
        morale_sum_fits(m@, key_seq(ids@)),
        ids@.len() <= i32::MAX,
    ensures
        r == average_morale(m@, key_seq(ids@)),
{
    if ids.len() == 0 {
        return 0;
    }
    let ghost ks = key_seq(ids@);
    let mut acc: i32 = 0;
    let mut i: usize = 0;
    while i < ids.len()
        invariant
            ks == key_seq(ids@),
            morale_sum_fits(m@, ks),
            i <= ids@.len(),
            acc == morale_sum(m@, ks.take(i as int)),
        decreases ids@.len() - i,
    {
        proof {
            lemma_morale_sum_prefix(m@, ks, i + 1);
            assert(ks.take(i + 1).drop_last() =~= ks.take(i as int));
            assert(ks.take(i + 1).last() == ids@[i as int]@);
        }
        match m.get(ids[i].as_str()) {
            Some(c) => {
                acc = acc + c.morale_q4;
            },
            None => {},
        }
        i = i + 1;
    }
    proof {
        assert(ks.take(ids@.len() as int) =~= ks);
    }
    let q = div_trunc(acc as i64, ids.len() as i64);
    proof {
        assert(-(i32::MIN as int) / (ids@.len() as int) <= -(i32::MIN as int)) by (nonlinear_arith)
            requires ids@.len() >= 1;
        assert((i32::MAX as int) / (ids@.len() as int) <= i32::MAX) by (nonlinear_arith)
            requires ids@.len() >= 1;
        if acc >= 0 {
            assert((acc as int) / (ids@.len() as int) <= (i32::MAX as int) / (ids@.len() as int)) by (nonlinear_arith)
                requires ids@.len() >= 1, 0 <= acc <= i32::MAX;
        } else {
            assert((-(acc as int)) / (ids@.len() as int) <= -(i32::MIN as int) / (ids@.len() as int)) by (nonlinear_arith)
                requires ids@.len() >= 1, 0 < -acc <= -(i32::MIN as int);
        }
    }
    q as i32
}

/// The strategic outcome from the sides' average morale.
fn determine_outcome(morale_table: &MoraleTable, att_morale: i32, def_morale: i32) -> (o: BattleOutcome)
    ensures
        o == outcome_of(morale_table, att_morale as int, def_morale as int),
{
    let rout = match &morale_table.rout_threshold_q4 {
        Maybe::Value(v) => *v,
        Maybe::Placeholder(_) => {
            return BattleOutcome::AttackerRepulsed;
        },
    };
    let retreat = match &morale_table.retreat_threshold_q4 {
        Maybe::Value(v) => *v,
        Maybe::Placeholder(_) => {
            return BattleOutcome::AttackerRepulsed;
        },
    };
    if def_morale < rout {
        BattleOutcome::DefenderRouted
    } else if def_morale < retreat {
        BattleOutcome::DefenderRetreats
    } else if att_morale < retreat {
        BattleOutcome::AttackerRepulsed
    } else {
        BattleOutcome::MutualWithdrawal
    }
}

/// The terrain's name in the modifier table.
fn terrain_to_str(terrain: &Terrain) -> (s: &'static str)
    ensures
        s@ == terrain_name(*terrain),
{
    match terrain {
        Terrain::Open => "OPEN",
        Terrain::Forest => "FOREST",
        Terrain::Mountain => "MOUNTAIN",
        Terrain::Marsh => "MARSH",
        Terrain::Urban => "URBAN",
    }
}

/// Moves each listed corps to `to`, in order.
fn retreat_all(corps: &mut StrMap<Corps>, ids: &Vec<CorpsId>, to: &AreaId)
    ensures
        final(corps)@ == retreated(old(corps)@, key_seq(ids@), ids@.len(), *to),
{
    let ghost ks = key_seq(ids@);
    let ghost m0 = corps@;
    let mut i: usize = 0;
    while i < ids.len()
        invariant
            ks == key_seq(ids@),
            i <= ids@.len(),
            corps@ == retreated(m0, ks, i as nat, *to),
        decreases ids@.len() - i,
    {
        proof {
            assert(ks[i as int] == ids@[i as int]@);
        }
        match corps.find(ids[i].as_str()) {
            Some(j) => {
                let mut c = corps.value_at(j).duplicate();
                proof {
                    assert(corps@.contains_key(corps.entries_view()[j as int].0@));
                }
                c.area = to.duplicate();
                corps.set_value_at(j, c);
            },
            None => {},
        }
        i = i + 1;
    }
}


// ─── Battle resolution ─────────────────────────────────────────────────

/// The text of a rejection for a missing results bucket.
pub open spec fn missing_bucket_text(b: Seq<char>) -> Seq<char> {
    "Combat table bucket `"@ + b
        + "` missing; values are PLACEHOLDER. Gate cannot close until Q1 (human designer) provides real combat.json values."@
}

/// The text of a rejection for a die column past the end of its row.
pub open spec fn missing_column_text() -> Seq<char> {
    "Combat table index out of bounds; values are PLACEHOLDER. Gate cannot close until Q1 (human designer) provides real combat.json values."@
}

/// The text of a rejection for a results cell that is still a placeholder.
pub open spec fn placeholder_cell_text() -> Seq<char> {
    "Combat table values are PLACEHOLDER. Gate cannot close until Q1 (human designer) provides real combat.json values."@
}

/// The defenders of an attack: corps of other powers in the target area.
pub open spec fn battle_defenders(s: &Scenario, o: AttackOrder) -> Seq<Seq<char>> {
    defender_ids(s.corps.entries_view(), o.target_area@, o.submitter@)
}

/// The ratio bucket of an attack.
pub open spec fn battle_bucket(s: &Scenario, o: AttackOrder) -> Seq<char> {
    ratio_bucket(
        listed_strength(s.corps@, key_seq(o.attacking_corps@)),
        listed_strength(s.corps@, battle_defenders(s, o)),
    )
}

/// The results-table column of an attack.
pub open spec fn battle_column(s: &Scenario, tables: &CombatTable, seed: u64, o: AttackOrder) -> int {
    die_column(tables, seed, o.formation@, s.areas@[o.target_area@].terrain)
}

/// The results cell a battle reads, when there are defenders and every
/// lookup finds an authored value.
pub open spec fn battle_cell(s: &Scenario, tables: &CombatTable, seed: u64, o: AttackOrder) -> Option<CombatResult> {
    let b = battle_bucket(s, o);
    if battle_defenders(s, o).len() == 0 || !tables.results@.contains_key(b) {
        None
    } else {
        let row = tables.results@[b]@;
        let col = battle_column(s, tables, seed, o);
        if col >= row.len() {
            None
        } else {
            match row[col] {
                Maybe::Value(r) => Some(r),
                Maybe::Placeholder(_) => None,
            }
        }
    }
}

/// Corps table after the attacker's losses and morale change.
pub open spec fn after_attacker(s: &Scenario, o: AttackOrder, r: CombatResult) -> Map<Seq<char>, Corps> {
    let ks = key_seq(o.attacking_corps@);
    morale_added(distributed(s.corps@, ks, r.attacker_sp_loss as int), ks, ks.len(), r.attacker_morale_q4 as int)
}

/// Corps table after both sides' losses and morale changes.
pub open spec fn after_both(s: &Scenario, o: AttackOrder, r: CombatResult) -> Map<Seq<char>, Corps> {
    let ds = battle_defenders(s, o);
    morale_added(distributed(after_attacker(s, o, r), ds, r.defender_sp_loss as int), ds, ds.len(), r.defender_morale_q4 as int)
}

/// The conditions under which the battle arithmetic stays within `i32`,
/// and the lookups the resolver makes are defined.
pub open spec fn battle_fits(s: &Scenario, tables: &CombatTable, seed: u64, o: AttackOrder) -> bool {
    let ks = key_seq(o.attacking_corps@);
    let ds = battle_defenders(s, o);
    let att = listed_strength(s.corps@, ks);
    let def = listed_strength(s.corps@, ds);
    &&& strength_fits(s.corps@, ks)
    &&& strength_fits(s.corps@, ds)
    &&& fits(3 * def) && fits(2 * att)
    &&& ks.len() <= i32::MAX
    &&& ds.len() <= i32::MAX
    &&& (ds.len() > 0 && tables.results@.contains_key(ratio_bucket(att, def))) ==> (s.areas@.contains_key(o.target_area@)
        && tables.die_faces > 0)
    &&& battle_cell(s, tables, seed, o) matches Some(r) ==> {
        let m1 = distributed(s.corps@, ks, r.attacker_sp_loss as int);
        let m2 = after_attacker(s, o, r);
        let m3 = distributed(m2, ds, r.defender_sp_loss as int);
        let m4 = after_both(s, o, r);
        &&& distribute_fits(s.corps@, ks, r.attacker_sp_loss as int)
        &&& morale_fits(m1, ks, ks.len(), r.attacker_morale_q4 as int)
        &&& distribute_fits(m2, ds, r.defender_sp_loss as int)
        &&& morale_fits(m3, ds, ds.len(), r.defender_morale_q4 as int)
        &&& morale_sum_fits(m4, ks)
        &&& morale_sum_fits(m4, ds)
    }
}

/// The events are the single rejection with this code and text, and the
/// scenario is unchanged.
pub open spec fn rejected_with(s0: &Scenario, s1: &Scenario, ev: Seq<Event>, code: Seq<char>, text: Seq<char>) -> bool {
    &&& *s1 == *s0
    &&& ev.len() == 1
    &&& ev[0] matches Event::OrderRejected(x) && x.reason_code@ == code && x.message@ == text
}

/// `a` is a fall-back area for the defenders and no other is before it
/// in name order.
pub open spec fn first_retreat(m: Map<Seq<char>, Corps>, s: &Scenario, t: Seq<char>, p: Seq<char>, a: Seq<char>) -> bool {
    &&& retreat_candidate(m, s, t, p, a)
    &&& forall|b: Seq<char>| #[trigger] retreat_candidate(m, s, t, p, b) ==> b == a || lex_lt(a, b)
}

/// What resolving a battle does to the scenario and which events it
/// emits.
pub open spec fn battle_result(
    s0: &Scenario,
    s1: &Scenario,
    tables: &CombatTable,
    morale: &MoraleTable,
    seed: u64,
    o: AttackOrder,
    ev: Seq<Event>,
) -> bool {
    let ks = key_seq(o.attacking_corps@);
    let ds = battle_defenders(s0, o);
    let t = o.target_area@;
    let p = o.submitter@;
    let b = battle_bucket(s0, o);
    if ds.len() == 0 {
        rejected_with(s0, s1, ev, "NO_DEFENDER"@, "no defender corps in `"@ + t + "`"@)
    } else if !tables.results@.contains_key(b) {
        rejected_with(s0, s1, ev, "COMBAT_TABLE_PLACEHOLDER"@, missing_bucket_text(b))
    } else if battle_column(s0, tables, seed, o) >= tables.results@[b]@.len() {
        rejected_with(s0, s1, ev, "COMBAT_TABLE_PLACEHOLDER"@, missing_column_text())
    } else if tables.results@[b]@[battle_column(s0, tables, seed, o)] is Placeholder {
        rejected_with(s0, s1, ev, "COMBAT_TABLE_PLACEHOLDER"@, placeholder_cell_text())
    } else {
        let r = tables.results@[b]@[battle_column(s0, tables, seed, o)]->Value_0;
        let m4 = after_both(s0, o, r);
        let outcome = outcome_of(morale, average_morale(m4, ks), average_morale(m4, ds));
        let n = ev.len();
        &&& *s1 == (Scenario { corps: s1.corps, ..*s0 })
        &&& n >= 1
        &&& ev[n - 1] == Event::BattleResolved {
            area: o.target_area,
            attacker: o.submitter,
            defender: s0.corps@[ds[0]].owner,
            attacker_sp_before: listed_strength(s0.corps@, ks) as i32,
            defender_sp_before: listed_strength(s0.corps@, ds) as i32,
            attacker_sp_loss: r.attacker_sp_loss,
            defender_sp_loss: r.defender_sp_loss,
            attacker_morale_q4_delta: r.attacker_morale_q4,
            defender_morale_q4_delta: r.defender_morale_q4,
            outcome,
        }
        &&& match outcome {
            BattleOutcome::DefenderRouted => {
                &&& s1.corps@ == m4
                &&& n == ds.len() + 1
                &&& forall|i: int|
                    0 <= i < ds.len() ==> (#[trigger] ev[i] matches Event::CorpsRouted { corps, area } && corps@ == ds[i]
                        && area == o.target_area)
            },
            BattleOutcome::DefenderRetreats => if exists|a: Seq<char>| retreat_candidate(m4, s0, t, p, a) {
                &&& n == ds.len() + 1
                &&& exists|a: Seq<char>|
                    #[trigger] first_retreat(m4, s0, t, p, a) && {
                        &&& s1.corps@.dom() == m4.dom()
                        &&& forall|k: Seq<char>|
                            #[trigger] s1.corps@.contains_key(k) ==> if ds.contains(k) {
                                s1.corps@[k] == Corps { area: s1.corps@[k].area, ..m4[k] } && s1.corps@[k].area@ == a
                            } else {
                                s1.corps@[k] == m4[k]
                            }
                        &&& forall|i: int|
                            0 <= i < ds.len() ==> (#[trigger] ev[i] matches Event::CorpsRetreated { corps, from, to }
                                && corps@ == ds[i] && from == o.target_area && to@ == a)
                    }
            } else {
                s1.corps@ == m4 && n == 1
            },
            _ => s1.corps@ == m4 && n == 1,
        }
    }
}


/// The ratio bucket for the given strengths.
fn bucket_of(att: i32, def: i32) -> (b: &'static str)
    ensures
        b@ == ratio_bucket(att as int, def as int),
{
    let a = att as i64;
    let d = def as i64;
    if a >= 3 * d {
        "3:1"
    } else if a >= 2 * d {
        "2:1"
    } else if a * 2 >= 3 * d {
        "3:2"
    } else if a >= d {
        "1:1"
    } else if a * 2 >= d {
        "1:2"
    } else {
        "1:3"
    }
}

/// Whether `a` is among `v`.
fn contains_area(v: &Vec<AreaId>, a: &AreaId) -> (r: bool)
    ensures
        r == exists|i: int| 0 <= i < v@.len() && #[trigger] v@[i]@ == a@,
{
    let mut i: usize = 0;
    while i < v.len()
        invariant
            i <= v@.len(),
            forall|j: int| 0 <= j < i ==> (#[trigger] v@[j])@ != a@,
        decreases v@.len() - i,
    {
        if v[i].same(a) {
            return true;
        }
        i = i + 1;
    }
    false
}

/// The areas next to `t` that are not in `zoc`, as a flag table.
fn retreat_options(s: &Scenario, t: &AreaId, zoc: &Vec<AreaId>) -> (c: StrMap<bool>)
    ensures
        c.well_formed(),
        forall|a: Seq<char>|
            #[trigger] c@.contains_key(a) <==> (touches(s, t@, a) && !exists|i: int|
                0 <= i < zoc@.len() && #[trigger] zoc@[i]@ == a),
{
    let mut c: StrMap<bool> = StrMap::new();
    let mut u: usize = 0;
    while u < s.adjacency.len()
        invariant
            u <= s.adjacency@.len(),
            c.well_formed(),
            forall|a: Seq<char>|
                #[trigger] c@.contains_key(a) <==> ((exists|x: int|
                    0 <= x < u && ((#[trigger] s.adjacency@[x].to@ == t@ && s.adjacency@[x].from@ == a) || (
                    s.adjacency@[x].from@ == t@ && s.adjacency@[x].to@ == a))) && !exists|i: int|
                    0 <= i < zoc@.len() && #[trigger] zoc@[i]@ == a),
        decreases s.adjacency@.len() - u,
    {
        let e = &s.adjacency[u];
        if e.from.same(t) {
            if !contains_area(zoc, &e.to) {
                c.insert(e.to.0.clone(), true);
            }
        }
        if e.to.same(t) {
            if !contains_area(zoc, &e.from) {
                c.insert(e.from.0.clone(), true);
            }
        }
        proof {
            assert forall|a: Seq<char>|
                #[trigger] c@.contains_key(a) <==> ((exists|x: int|
                    0 <= x < u + 1 && ((#[trigger] s.adjacency@[x].to@ == t@ && s.adjacency@[x].from@ == a) || (
                    s.adjacency@[x].from@ == t@ && s.adjacency@[x].to@ == a))) && !exists|i: int|
                    0 <= i < zoc@.len() && #[trigger] zoc@[i]@ == a) by {
                if exists|x: int|
                    0 <= x < u + 1 && ((#[trigger] s.adjacency@[x].to@ == t@ && s.adjacency@[x].from@ == a) || (
                    s.adjacency@[x].from@ == t@ && s.adjacency@[x].to@ == a)) {
                    let x = choose|x: int|
                        0 <= x < u + 1 && ((#[trigger] s.adjacency@[x].to@ == t@ && s.adjacency@[x].from@ == a) || (
                        s.adjacency@[x].from@ == t@ && s.adjacency@[x].to@ == a));
                    if x < u {
                        assert(s.adjacency@[x].to@ == s.adjacency@[x].to@);
                    }
                }
            }
        }
        u = u + 1;
    }
    c
}

/// Facts about [`retreated`]: the same corps, those listed moved to `to`.
proof fn lemma_retreated(m: Map<Seq<char>, Corps>, ks: Seq<Seq<char>>, k: nat, to: AreaId)
    requires
        k <= ks.len(),
    ensures
        retreated(m, ks, k, to).dom() == m.dom(),
        forall|key: Seq<char>|
            #[trigger] retreated(m, ks, k, to).contains_key(key) ==> retreated(m, ks, k, to)[key] == if ks.take(
                k as int,
            ).contains(key) {
                Corps { area: to, ..m[key] }
            } else {
                m[key]
            },
    decreases k,
{
    if k > 0 {
        lemma_retreated(m, ks, (k - 1) as nat, to);
        let m1 = retreated(m, ks, (k - 1) as nat, to);
        let id = ks[k - 1];
        assert(ks.take(k as int) =~= ks.take(k - 1).push(id));
        assert forall|key: Seq<char>| #[trigger] retreated(m, ks, k, to).contains_key(key) implies retreated(
            m,
            ks,
            k,
            to,
        )[key] == if ks.take(k as int).contains(key) {
            Corps { area: to, ..m[key] }
        } else {
            m[key]
        } by {
            if key == id {
                assert(ks.take(k as int).contains(key)) by {
                    assert(ks.take(k as int)[k - 1] == id);
                }
            } else {
                let pre = ks.take(k - 1);
                let cur = ks.take(k as int);
                if cur.contains(key) {
                    let j = choose|j: int| 0 <= j < cur.len() && cur[j] == key;
                    assert(pre[j] == key);
                }
                if pre.contains(key) {
                    let j = choose|j: int| 0 <= j < pre.len() && pre[j] == key;
                    assert(cur[j] == key);
                }
            }
        }
        assert(retreated(m, ks, k, to).dom() =~= m.dom());
    } else {
        assert(ks.take(0) =~= Seq::<Seq<char>>::empty());
    }
}

/// A single rejection event.
fn rejection(code: &str, message: String) -> (v: Vec<Event>)
    ensures
        v@.len() == 1,
        v@[0] matches Event::OrderRejected(x) && x.reason_code@ == code@ && x.message@ == message@,
{
    let mut v: Vec<Event> = Vec::new();
    v.push(Event::OrderRejected(OrderRejected { reason_code: code.to_string(), message }));
    v
}

/// Resolves a validated land battle: applies losses and morale changes to
/// both sides, decides the outcome from the sides' average morale, moves
/// or routs the defenders, and returns the events in order.
pub fn resolve_battle(
    s: &mut Scenario,
    tables: &CombatTable,
    morale_table: &MoraleTable,
    rng_seed: u64,
    order: &AttackOrder,
) -> (ev: Vec<Event>)
    requires
        battle_fits(&*old(s), tables, rng_seed, *order),
    ensures
        battle_result(&*old(s), &*final(s), tables, morale_table, rng_seed, *order, ev@),
{
    let ghost ks = key_seq(order.attacking_corps@);
    let att_sp = strength(&s.corps, &order.attacking_corps);
    let defenders = defender_list(s, &order.target_area, &order.submitter);
    let ghost ds = key_seq(defenders@);
    let def_sp = strength(&s.corps, &defenders);
    let t = &order.target_area;
    if defenders.len() == 0 {
        return rejection("NO_DEFENDER", text3("no defender corps in `", t.as_str(), "`"));
    }
    let defending_power = match s.corps.get(defenders[0].as_str()) {
        Some(c) => c.owner.duplicate(),
        None => PowerId(String::new()),
    };
    let bucket = bucket_of(att_sp, def_sp);
    let row = match tables.results.get(bucket) {
        Some(r) => r,
        None => {
            return rejection(
                "COMBAT_TABLE_PLACEHOLDER",
                text3(
                    "Combat table bucket `",
                    bucket,
                    "` missing; values are PLACEHOLDER. Gate cannot close until Q1 (human designer) provides real combat.json values.",
                ),
            );
        },
    };
    let mut key: Vec<char> = Vec::new();
    push_str(&mut key, order.formation.as_str());
    push_str(&mut key, "_vs_LINE");
    let key = string_from_chars(key.as_slice());
    let (form_att, form_def): (i32, i32) = match tables.formation_matrix.get(key.as_str()) {
        Some(fe) => (fe.att_col_shift as i32, fe.def_col_shift as i32),
        None => (0, 0),
    };
    let area = match s.areas.get(t.as_str()) {
        Some(a) => a,
        None => {
            return Vec::new();
        },
    };
    let terrain_att: i32 = match tables.terrain_modifiers.get(terrain_to_str(&area.terrain)) {
        Some(tm) => tm.att_col_shift as i32,
        None => 0,
    };
    let faces = tables.die_faces as i32;
    let die = (rng_seed % (tables.die_faces as u64)) as i32;
    let raw = die + (form_att + terrain_att) - form_def;
    let col: i32 = if raw < 0 {
        0
    } else if raw > faces - 1 {
        faces - 1
    } else {
        raw
    };
    proof {
        assert(col == battle_column(&*old(s), tables, rng_seed, *order));
    }
    if col as usize >= row.len() {
        return rejection(
            "COMBAT_TABLE_PLACEHOLDER",
            "Combat table index out of bounds; values are PLACEHOLDER. Gate cannot close until Q1 (human designer) provides real combat.json values.".to_string(),
        );
    }
    let r: CombatResult = match &row[col as usize] {
        Maybe::Value(v) => *v,
        Maybe::Placeholder(_) => {
            return rejection(
                "COMBAT_TABLE_PLACEHOLDER",
                "Combat table values are PLACEHOLDER. Gate cannot close until Q1 (human designer) provides real combat.json values.".to_string(),
            );
        },
    };
    proof {
        assert(battle_cell(&*old(s), tables, rng_seed, *order) == Some(r));
    }
    distribute_sp_loss(&mut s.corps, &order.attacking_corps, r.attacker_sp_loss);
    add_morale(&mut s.corps, &order.attacking_corps, r.attacker_morale_q4);
    distribute_sp_loss(&mut s.corps, &defenders, r.defender_sp_loss);
    add_morale(&mut s.corps, &defenders, r.defender_morale_q4);
    let att_morale = avg_morale(&s.corps, &order.attacking_corps);
    let def_morale = avg_morale(&s.corps, &defenders);
    let outcome = determine_outcome(morale_table, att_morale, def_morale);
    let ghost m4 = s.corps@;
    let mut events: Vec<Event> = Vec::new();
    match outcome {
        BattleOutcome::DefenderRouted => {
            let mut i: usize = 0;
            while i < defenders.len()
                invariant
                    i <= defenders@.len(),
                    events@.len() == i,
                    forall|j: int|
                        0 <= j < i ==> (#[trigger] events@[j] matches Event::CorpsRouted { corps, area } && corps@
                            == defenders@[j]@ && area == *t),
                decreases defenders@.len() - i,
            {
                events.push(Event::CorpsRouted { corps: defenders[i].duplicate(), area: t.duplicate() });
                i = i + 1;
            }
        },
        BattleOutcome::DefenderRetreats => {
            let zoc = zones_of_control(s, &order.submitter);
            let options = retreat_options(s, t, &zoc);
            proof {
                assert(s.adjacency@ == old(s).adjacency@);
                assert forall|a: Seq<char>|
                    #[trigger] retreat_candidate(m4, &*old(s), t@, order.submitter@, a) <==> options@.contains_key(a) by {
                    assert(in_zoc(s, order.submitter@, a) == zoc_of(m4, old(s).adjacency@, order.submitter@, a));
                    assert(touches(s, t@, a) == touches(&*old(s), t@, a));
                }
            }
            if options.len() == 0 {
                proof {
                    assert forall|a: Seq<char>| !retreat_candidate(m4, &*old(s), t@, order.submitter@, a) by {
                        if options@.contains_key(a) {
                            let j = choose|j: int|
                                0 <= j < options.entries_view().len() && #[trigger] options.entries_view()[j].0@ == a;
                        }
                    }
                }
            }
            if options.len() > 0 {
                let to = AreaId(options.key_at(0).clone());
                proof {
                    let e = options.entries_view();
                    assert(options@.contains_key(e[0].0@));
                    assert(retreat_candidate(m4, &*old(s), t@, order.submitter@, to@));
                    assert forall|b: Seq<char>| #[trigger] retreat_candidate(m4, &*old(s), t@, order.submitter@, b) implies b
                        == to@ || lex_lt(to@, b) by {
                        assert(options@.contains_key(b));
                        let j = choose|j: int| 0 <= j < e.len() && #[trigger] e[j].0@ == b;
                        if j > 0 {
                            assert(lex_lt(e[0].0@, e[j].0@));
                        }
                    }
                    assert(first_retreat(m4, &*old(s), t@, order.submitter@, to@));
                }
                let ghost before = s.corps@;
                retreat_all(&mut s.corps, &defenders, &to);
                let mut i: usize = 0;
                while i < defenders.len()
                    invariant
                        i <= defenders@.len(),
                        events@.len() == i,
                        forall|j: int|
                            0 <= j < i ==> (#[trigger] events@[j] matches Event::CorpsRetreated { corps, from, to: dest }
                                && corps@ == defenders@[j]@ && from == *t && dest@ == to@),
                    decreases defenders@.len() - i,
                {
                    events.push(
                        Event::CorpsRetreated { corps: defenders[i].duplicate(), from: t.duplicate(), to: to.duplicate() },
                    );
                    i = i + 1;
                }
                proof {
                    lemma_retreated(before, ds, ds.len(), to);
                    assert(ds.take(ds.len() as int) =~= ds);
                }
            }
        },
        _ => {},
    }
    events.push(
        Event::BattleResolved {
            area: t.duplicate(),
            attacker: order.submitter.duplicate(),
            defender: defending_power,
            attacker_sp_before: att_sp,
            defender_sp_before: def_sp,
            attacker_sp_loss: r.attacker_sp_loss,
            defender_sp_loss: r.defender_sp_loss,
            attacker_morale_q4_delta: r.attacker_morale_q4,
            defender_morale_q4_delta: r.defender_morale_q4,
            outcome,
        },
    );
    events
}

} // verus!
