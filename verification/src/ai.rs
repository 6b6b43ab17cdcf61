//! AI decision helpers.

use vstd::prelude::*;

use vstd::string::StringSliceAdditionalSpecFns;

use crate::ids::{AreaId, CorpsId, PowerId};
use crate::map::{area_names, MapGraph};
use crate::movement::{
    hop_distance, land_reachable, land_walk, lemma_graph_walk, movement_fits, occupants, plan_result, stacking_limit,
    validate_order, validate_result,
};
use crate::orders::{BuildCorpsOrder, DeclareWarOrder, HoldOrder, MoveOrder, Order};
use crate::strmap::lemma_lex_irreflexive;
use crate::tables::Maybe;
use vstd::utf8::encode_utf8;
use crate::scenario::{
    diplomatic_state, pair_of, relation, Corps, CorpsComposition, DiplomaticPairKey, DiplomaticState, Scenario,
};
use crate::strmap::{lemma_lex_total, lemma_lex_transitive, lex_lt, str_less, StrMap};

verus! {

/// One step of the string hash: `acc * 31 + b`, wrapping at 64 bits.
pub open spec fn hash_step(acc: u64, b: u8) -> u64 {
    acc.wrapping_mul(31).wrapping_add(b as u64)
}

/// The hash of a byte string: the left fold of [`hash_step`] from zero.
pub open spec fn hash_bytes(bytes: Seq<u8>) -> u64
    decreases bytes.len(),
{
    if bytes.len() == 0 {
        0
    } else {
        hash_step(hash_bytes(bytes.drop_last()), bytes.last())
    }
}

/// A deterministic hash of the UTF-8 bytes of `s`, used for tie-breaking.
pub fn str_hash(s: &str) -> (h: u64)
    ensures
        h == hash_bytes(s.spec_bytes()),
{
    let bytes = s.as_bytes();
    let mut acc: u64 = 0;
    let mut i: usize = 0;
    while i < bytes.len()
        invariant
            bytes@ == s.spec_bytes(),
            i <= bytes@.len(),
            acc == hash_bytes(bytes@.take(i as int)),
        decreases bytes@.len() - i,
    {
        proof {
            assert(bytes@.take(i + 1).drop_last() =~= bytes@.take(i as int));
        }
        acc = acc.wrapping_mul(31).wrapping_add(bytes[i] as u64);
        i = i + 1;
    }
    proof {
        assert(bytes@.take(bytes@.len() as int) =~= bytes@);
    }
    acc
}

/// How an AI power weighs its options, each on a 0–10 scale.
#[derive(Debug, Clone, PartialEq, Eq)]
pub struct AiPersonality {
    pub id: String,
    pub aggression: u8,
    pub defensiveness: u8,
    pub diplomatic_openness: u8,
    pub economic_priority: u8,
}

impl Default for AiPersonality {
    /// The balanced personality: every trait at 5.
    fn default() -> (p: Self)
        ensures
            p.id@ == "DEFAULT"@,
            p.aggression == 5,
            p.defensiveness == 5,
            p.diplomatic_openness == 5,
            p.economic_priority == 5,
    {
        AiPersonality {
            id: "DEFAULT".to_owned(),
            aggression: 5,
            defensiveness: 5,
            diplomatic_openness: 5,
            economic_priority: 5,
        }
    }
}

/// The value of trait `name` in `fields`, or 5 when absent.
pub open spec fn trait_or_default(fields: Map<Seq<char>, u8>, name: Seq<char>) -> u8 {
    if fields.contains_key(name) {
        fields[name]
    } else {
        5
    }
}

fn field_or_default(fields: &StrMap<u8>, name: &str) -> (v: u8)
    ensures
        v == trait_or_default(fields@, name@),
{
    match fields.get(name) {
        Some(v) => *v,
        None => 5,
    }
}

/// Builds a personality from named trait values; missing traits stay at 5.
pub fn personality_from_map(fields: &StrMap<u8>) -> (p: AiPersonality)
    ensures
        p.id@ == "DEFAULT"@,
        p.aggression == trait_or_default(fields@, "aggression"@),
        p.defensiveness == trait_or_default(fields@, "defensiveness"@),
        p.diplomatic_openness == trait_or_default(fields@, "diplomatic_openness"@),
        p.economic_priority == trait_or_default(fields@, "economic_priority"@),
{
    AiPersonality {
        id: "DEFAULT".to_owned(),
        aggression: field_or_default(fields, "aggression"),
        defensiveness: field_or_default(fields, "defensiveness"),
        diplomatic_openness: field_or_default(fields, "diplomatic_openness"),
        economic_priority: field_or_default(fields, "economic_priority"),
    }
}

/// The scenario joins `a` and `x` by an adjacency listed in either
/// direction.
pub open spec fn touches(s: &Scenario, a: Seq<char>, x: Seq<char>) -> bool {
    exists|t: int|
        #![trigger s.adjacency@[t]]
        0 <= t < s.adjacency@.len() && ((s.adjacency@[t].from@ == a && s.adjacency@[t].to@ == x) || (
        s.adjacency@[t].to@ == a && s.adjacency@[t].from@ == x))
}

/// Every entry comes strictly before the next in text order.
pub open spec fn strictly_sorted(q: Seq<Seq<char>>) -> bool {
    forall|i: int, j: int| 0 <= i < j < q.len() ==> lex_lt(#[trigger] q[i], #[trigger] q[j])
}

/// Adds `x` to a list in strict text order, unless it is there already.
fn insert_area(out: &mut Vec<AreaId>, x: AreaId)
    requires
        strictly_sorted(area_names(old(out)@)),
    ensures
        strictly_sorted(area_names(final(out)@)),
        forall|y: Seq<char>| #[trigger] area_names(final(out)@).contains(y) <==> (area_names(old(out)@).contains(y) || y == x@),
{
    let ghost s = area_names(out@);
    let mut p: usize = 0;
    while p < out.len() && str_less(out[p].as_str(), x.as_str())
        invariant
            s == area_names(out@),
            p <= out@.len(),
            forall|k: int| 0 <= k < p ==> lex_lt(#[trigger] s[k], x@),
        decreases out@.len() - p,
    {
        p = p + 1;
    }
    if p < out.len() && out[p].same(&x) {
        proof {
            assert(area_names(out@)[p as int] == x@);
        }
        return;
    }
    let ghost xv = x@;
    proof {
        if p < s.len() {
            lemma_lex_total(s[p as int], xv);
        }
    }
    out.insert(p, x);
    proof {
        let n = area_names(out@);
        assert(n =~= s.insert(p as int, xv));
        assert forall|i: int, j: int| 0 <= i < j < n.len() implies lex_lt(#[trigger] n[i], #[trigger] n[j]) by {
            if j < p {
                assert(lex_lt(s[i], s[j]));
            } else if j == p {
                assert(lex_lt(s[i], xv));
            } else if i < p {
                assert(lex_lt(s[i], s[j - 1]));
            } else if i == p {
                if p < j - 1 {
                    assert(lex_lt(s[p as int], s[j - 1]));
                    lemma_lex_transitive(xv, s[p as int], s[j - 1]);
                }
            } else {
                assert(lex_lt(s[i - 1], s[j - 1]));
            }
        }
        assert forall|y: Seq<char>| #[trigger] n.contains(y) <==> (s.contains(y) || y == xv) by {
            if n.contains(y) {
                let k = choose|k: int| 0 <= k < n.len() && n[k] == y;
                if k < p {
                    assert(s[k] == y);
                } else if k > p {
                    assert(s[k - 1] == y);
                }
            }
            if s.contains(y) {
                let k = choose|k: int| 0 <= k < s.len() && s[k] == y;
                if k < p {
                    assert(n[k] == y);
                } else {
                    assert(n[k + 1] == y);
                }
            }
            if y == xv {
                assert(n[p as int] == y);
            }
        }
    }
}

/// The areas joined to `area` by an adjacency in either direction, in text
/// order, each once.
pub fn adjacent_areas(s: &Scenario, area: &AreaId) -> (v: Vec<AreaId>)
    ensures
        strictly_sorted(area_names(v@)),
        forall|x: Seq<char>| #[trigger] area_names(v@).contains(x) <==> touches(s, area@, x),
{
    let mut out: Vec<AreaId> = Vec::new();
    let mut t: usize = 0;
    while t < s.adjacency.len()
        invariant
            t <= s.adjacency@.len(),
            strictly_sorted(area_names(out@)),
            forall|x: Seq<char>|
                #[trigger] area_names(out@).contains(x) <==> exists|u: int|
                    #![trigger s.adjacency@[u]]
                    0 <= u < t && ((s.adjacency@[u].from@ == area@ && s.adjacency@[u].to@ == x) || (
                    s.adjacency@[u].to@ == area@ && s.adjacency@[u].from@ == x)),
        decreases s.adjacency@.len() - t,
    {
        let e = &s.adjacency[t];
        let ghost before = area_names(out@);
        if e.from.same(area) {
            insert_area(&mut out, e.to.duplicate());
        } else if e.to.same(area) {
            insert_area(&mut out, e.from.duplicate());
        }
        proof {
            assert forall|x: Seq<char>|
                #[trigger] area_names(out@).contains(x) <==> exists|u: int|
                    #![trigger s.adjacency@[u]]
                    0 <= u < t + 1 && ((s.adjacency@[u].from@ == area@ && s.adjacency@[u].to@ == x) || (
                    s.adjacency@[u].to@ == area@ && s.adjacency@[u].from@ == x)) by {
                if before.contains(x) {
                    let u = choose|u: int|
                        #![trigger s.adjacency@[u]]
                        0 <= u < t && ((s.adjacency@[u].from@ == area@ && s.adjacency@[u].to@ == x) || (
                        s.adjacency@[u].to@ == area@ && s.adjacency@[u].from@ == x));
                    assert(0 <= u < t + 1);
                }
                if exists|u: int|
                    #![trigger s.adjacency@[u]]
                    0 <= u < t + 1 && ((s.adjacency@[u].from@ == area@ && s.adjacency@[u].to@ == x) || (
                    s.adjacency@[u].to@ == area@ && s.adjacency@[u].from@ == x)) {
                    let u = choose|u: int|
                        #![trigger s.adjacency@[u]]
                        0 <= u < t + 1 && ((s.adjacency@[u].from@ == area@ && s.adjacency@[u].to@ == x) || (
                        s.adjacency@[u].to@ == area@ && s.adjacency@[u].from@ == x));
                    if u < t {
                        assert(before.contains(x));
                    }
                }
            }
        }
        t = t + 1;
    }
    out
}

/// Some corps of another power than `p` stands in `a`.
pub open spec fn enemy_in(s: &Scenario, a: Seq<char>, p: Seq<char>) -> bool {
    exists|k: Seq<char>| #[trigger] s.corps@.contains_key(k) && s.corps@[k].owner@ != p && s.corps@[k].area@ == a
}

/// Some corps of another power than `p` stands next to `a`.
pub open spec fn enemy_near(s: &Scenario, a: Seq<char>, p: Seq<char>) -> bool {
    exists|x: Seq<char>| #[trigger] touches(s, a, x) && enemy_in(s, x, p)
}

/// Whether a corps of another power than `own_power` stands in `area`.
pub fn has_enemy_corps(s: &Scenario, area: &AreaId, own_power: &PowerId) -> (r: bool)
    ensures
        r == enemy_in(s, area@, own_power@),
{
    let n = s.corps.len();
    let mut i: usize = 0;
    while i < n
        invariant
            n == s.corps.entries_view().len(),
            s.corps.well_formed(),
            i <= n,
            forall|k: int|
                0 <= k < i ==> !((#[trigger] s.corps.entries_view()[k]).1.owner@ != own_power@
                    && s.corps.entries_view()[k].1.area@ == area@),
        decreases n - i,
    {
        let c = s.corps.value_at(i);
        if !c.owner.same(own_power) && c.area.same(area) {
            proof {
                assert(s.corps@.contains_key(s.corps.entries_view()[i as int].0@));
            }
            return true;
        }
        i = i + 1;
    }
    proof {
        if enemy_in(s, area@, own_power@) {
            let k = choose|k: Seq<char>|
                #[trigger] s.corps@.contains_key(k) && s.corps@[k].owner@ != own_power@ && s.corps@[k].area@ == area@;
            let j = choose|j: int| 0 <= j < s.corps.entries_view().len() && #[trigger] s.corps.entries_view()[j].0@ == k;
            assert(s.corps@.contains_key(s.corps.entries_view()[j].0@));
        }
    }
    false
}

/// Whether a corps of another power than `own_power` stands next to `area`.
pub fn enemy_adjacent(s: &Scenario, area: &AreaId, own_power: &PowerId) -> (r: bool)
    ensures
        r == enemy_near(s, area@, own_power@),
{
    let near = adjacent_areas(s, area);
    let mut i: usize = 0;
    while i < near.len()
        invariant
            i <= near@.len(),
            forall|x: Seq<char>| #[trigger] area_names(near@).contains(x) <==> touches(s, area@, x),
            forall|k: int| 0 <= k < i ==> !enemy_in(s, (#[trigger] near@[k])@, own_power@),
        decreases near@.len() - i,
    {
        if has_enemy_corps(s, &near[i], own_power) {
            proof {
                assert(area_names(near@)[i as int] == near@[i as int]@);
                assert(area_names(near@).contains(near@[i as int]@));
                assert(touches(s, area@, near@[i as int]@));
            }
            return true;
        }
        i = i + 1;
    }
    proof {
        if enemy_near(s, area@, own_power@) {
            let x = choose|x: Seq<char>| #[trigger] touches(s, area@, x) && enemy_in(s, x, own_power@);
            assert(area_names(near@).contains(x));
            let k = choose|k: int| 0 <= k < area_names(near@).len() && area_names(near@)[k] == x;
            assert(near@[k]@ == x);
        }
    }
    false
}

/// Some land walk from `a` to `b` of at most `n` areas makes a shortest
/// one exist.
proof fn lemma_shortest_exists(s: &Scenario, a: Seq<char>, b: Seq<char>, n: nat)
    requires
        land_reachable(s, a, b),
        exists|p: Seq<Seq<char>>| #[trigger] land_walk(s, p, a, b) && p.len() <= n,
    ensures
        exists|d: int| #[trigger] hop_distance(s, a, b, d),
    decreases n,
{
    if forall|p: Seq<Seq<char>>| #[trigger] land_walk(s, p, a, b) ==> p.len() >= n {
        let p = choose|p: Seq<Seq<char>>| #[trigger] land_walk(s, p, a, b) && p.len() <= n;
        assert(hop_distance(s, a, b, p.len() - 1));
    } else {
        let p = choose|p: Seq<Seq<char>>| !(#[trigger] land_walk(s, p, a, b) ==> p.len() >= n);
        lemma_shortest_exists(s, a, b, (n - 1) as nat);
    }
}

/// A reachable area has a shortest walk.
pub proof fn lemma_reachable_has_distance(s: &Scenario, a: Seq<char>, b: Seq<char>)
    requires
        land_reachable(s, a, b),
    ensures
        exists|d: int| #[trigger] hop_distance(s, a, b, d),
{
    let p = choose|p: Seq<Seq<char>>| #[trigger] land_walk(s, p, a, b);
    lemma_shortest_exists(s, a, b, p.len());
}

/// The shortest-walk length is unique.
pub proof fn lemma_distance_unique(s: &Scenario, a: Seq<char>, b: Seq<char>, d: int, e: int)
    requires
        hop_distance(s, a, b, d),
        hop_distance(s, a, b, e),
    ensures
        d == e,
{
    let p = choose|p: Seq<Seq<char>>| #[trigger] land_walk(s, p, a, b) && p.len() == d + 1;
    let q = choose|q: Seq<Seq<char>>| #[trigger] land_walk(s, q, a, b) && q.len() == e + 1;
    assert(land_walk(s, p, a, b));
    assert(land_walk(s, q, a, b));
}

/// The number of areas on a shortest land walk from `from` to `capital`
/// (both ends counted); `None` when there is none.
pub fn distance_to_capital(s: &Scenario, from: &AreaId, capital: &AreaId) -> (r: Option<usize>)
    ensures
        match r {
            Some(n) => hop_distance(s, from@, capital@, n - 1),
            None => !land_reachable(s, from@, capital@),
        },
{
    let g = MapGraph::from_scenario(s);
    match g.shortest_path_hops(from, capital) {
        Some(path) => {
            proof {
                lemma_graph_walk(s, &g, area_names(path@), from@, capital@);
                assert forall|o: Seq<Seq<char>>| #[trigger] land_walk(s, o, from@, capital@) implies o.len() >= path@.len() by {
                    lemma_graph_walk(s, &g, o, from@, capital@);
                }
                assert(land_walk(s, area_names(path@), from@, capital@));
            }
            Some(path.len())
        },
        None => {
            proof {
                if land_reachable(s, from@, capital@) {
                    let o = choose|o: Seq<Seq<char>>| #[trigger] land_walk(s, o, from@, capital@);
                    lemma_graph_walk(s, &g, o, from@, capital@);
                    assert(g.graph.walk(o, from@, capital@));
                }
            }
            None
        },
    }
}

/// `x` is next to `area` and no neighbour of `area` is nearer to `capital`.
pub open spec fn nearest(s: &Scenario, area: Seq<char>, capital: Seq<char>, x: Seq<char>) -> bool {
    &&& touches(s, area, x)
    &&& exists|d: int| #[trigger] hop_distance(s, x, capital, d) && forall|y: Seq<char>, e: int|
        touches(s, area, y) && #[trigger] hop_distance(s, y, capital, e) ==> d <= e
}

/// The neighbours of `area` nearest to `capital`.
pub open spec fn nearest_set(s: &Scenario, area: Seq<char>, capital: Seq<char>) -> Set<Seq<char>> {
    Set::new(|x: Seq<char>| nearest(s, area, capital, x))
}

/// The tie-break key of an area: the hash of its name, then the name.
pub open spec fn name_hash(x: Seq<char>) -> u64 {
    hash_bytes(encode_utf8(x))
}

/// `x` comes strictly before `y` in tie-break order.
pub open spec fn tie_before(x: Seq<char>, y: Seq<char>) -> bool {
    name_hash(x) < name_hash(y) || (name_hash(x) == name_hash(y) && lex_lt(x, y))
}

/// `q` lists the members of `t`, each once, in tie-break order.
pub open spec fn ranked(q: Seq<Seq<char>>, t: Set<Seq<char>>) -> bool {
    &&& forall|x: Seq<char>| #![trigger q.contains(x)] #![trigger t.contains(x)] q.contains(x) <==> t.contains(x)
    &&& forall|i: int, j: int| 0 <= i < j < q.len() ==> tie_before(#[trigger] q[i], #[trigger] q[j])
}

/// The member of `t` at position `seed` modulo the size of `t`, counting in
/// tie-break order.
pub open spec fn pick(t: Set<Seq<char>>, seed: u64) -> Seq<char> {
    let q = choose|q: Seq<Seq<char>>| ranked(q, t);
    q[(seed as int) % (q.len() as int)]
}

proof fn lemma_tie_irreflexive(x: Seq<char>)
    ensures
        !tie_before(x, x),
{
    lemma_lex_irreflexive(x);
}

proof fn lemma_tie_transitive(x: Seq<char>, y: Seq<char>, z: Seq<char>)
    requires
        tie_before(x, y),
        tie_before(y, z),
    ensures
        tie_before(x, z),
{
    if name_hash(x) == name_hash(y) && name_hash(y) == name_hash(z) {
        lemma_lex_transitive(x, y, z);
    }
}

proof fn lemma_tie_total(x: Seq<char>, y: Seq<char>)
    ensures
        x == y || tie_before(x, y) || tie_before(y, x),
{
    lemma_lex_total(x, y);
}

/// Only one list ranks a set.
proof fn lemma_ranked_unique(q1: Seq<Seq<char>>, q2: Seq<Seq<char>>, t: Set<Seq<char>>)
    requires
        ranked(q1, t),
        ranked(q2, t),
    ensures
        q1 == q2,
    decreases q1.len(),
{
    if q1.len() == 0 {
        if q2.len() > 0 {
            assert(q2.contains(q2[0]));
        }
        assert(q1 =~= q2);
    } else {
        assert(q1.contains(q1[0]));
        assert(q2.len() > 0);
        assert(q2.contains(q2[0]));
        let j = choose|j: int| 0 <= j < q2.len() && q2[j] == q1[0];
        let i = choose|i: int| 0 <= i < q1.len() && q1[i] == q2[0];
        if j > 0 {
            assert(tie_before(q2[0], q2[j]));
            if i > 0 {
                assert(tie_before(q1[0], q1[i]));
                lemma_tie_transitive(q1[0], q1[i], q1[0]);
                lemma_tie_irreflexive(q1[0]);
            } else {
                lemma_tie_irreflexive(q1[0]);
            }
        }
        let x = q1[0];
        let t2 = t.remove(x);
        assert forall|k: int| 1 <= k < q1.len() implies q1[k] != x by {
            assert(tie_before(q1[0], q1[k]));
            lemma_tie_irreflexive(x);
        }
        assert forall|k: int| 1 <= k < q2.len() implies q2[k] != x by {
            assert(tie_before(q2[0], q2[k]));
            lemma_tie_irreflexive(x);
        }
        assert forall|y: Seq<char>| #[trigger] q1.drop_first().contains(y) <==> t2.contains(y) by {
            if q1.contains(y) && y != x {
                let k = choose|k: int| 0 <= k < q1.len() && q1[k] == y;
                assert(q1.drop_first()[k - 1] == y);
            }
            if q1.drop_first().contains(y) {
                let k = choose|k: int| 0 <= k < q1.drop_first().len() && q1.drop_first()[k] == y;
                assert(q1[k + 1] == y);
            }
        }
        assert forall|y: Seq<char>| #[trigger] q2.drop_first().contains(y) <==> t2.contains(y) by {
            if q2.contains(y) && y != x {
                let k = choose|k: int| 0 <= k < q2.len() && q2[k] == y;
                assert(q2.drop_first()[k - 1] == y);
            }
            if q2.drop_first().contains(y) {
                let k = choose|k: int| 0 <= k < q2.drop_first().len() && q2.drop_first()[k] == y;
                assert(q2[k + 1] == y);
            }
        }
        assert forall|a: int, b: int| 0 <= a < b < q1.drop_first().len() implies tie_before(
            #[trigger] q1.drop_first()[a],
            #[trigger] q1.drop_first()[b],
        ) by {
            assert(tie_before(q1[a + 1], q1[b + 1]));
        }
        assert forall|a: int, b: int| 0 <= a < b < q2.drop_first().len() implies tie_before(
            #[trigger] q2.drop_first()[a],
            #[trigger] q2.drop_first()[b],
        ) by {
            assert(tie_before(q2[a + 1], q2[b + 1]));
        }
        lemma_ranked_unique(q1.drop_first(), q2.drop_first(), t2);
        assert(q2[0] == q1[0]);
        assert forall|k: int| 0 <= k < q1.len() implies q1[k] == q2[k] by {
            if k > 0 {
                assert(q1.drop_first()[k - 1] == q2.drop_first()[k - 1]);
            }
        }
        assert(q1 =~= q2);
    }
}

/// A ranked list settles what [`pick`] gives.
proof fn lemma_pick(q: Seq<Seq<char>>, t: Set<Seq<char>>, seed: u64)
    requires
        ranked(q, t),
        q.len() > 0,
    ensures
        pick(t, seed) == q[(seed as int) % (q.len() as int)],
{
    let q2 = choose|q2: Seq<Seq<char>>| ranked(q2, t);
    lemma_ranked_unique(q, q2, t);
}

/// Whether `a` comes strictly before `b` in tie-break order.
fn tie_less(a: &AreaId, b: &AreaId) -> (r: bool)
    ensures
        r == tie_before(a@, b@),
{
    let ha = str_hash(a.as_str());
    let hb = str_hash(b.as_str());
    ha < hb || (ha == hb && str_less(a.as_str(), b.as_str()))
}

/// Every entry comes strictly before the next in tie-break order.
pub open spec fn tie_sorted(q: Seq<Seq<char>>) -> bool {
    forall|i: int, j: int| 0 <= i < j < q.len() ==> tie_before(#[trigger] q[i], #[trigger] q[j])
}

/// Adds an area that is not yet listed to a list in tie-break order.
fn insert_by_tie(out: &mut Vec<AreaId>, x: AreaId)
    requires
        tie_sorted(area_names(old(out)@)),
        !area_names(old(out)@).contains(x@),
    ensures
        tie_sorted(area_names(final(out)@)),
        forall|y: Seq<char>| #[trigger] area_names(final(out)@).contains(y) <==> (area_names(old(out)@).contains(y) || y == x@),
{
    let ghost s = area_names(out@);
    let mut p: usize = 0;
    while p < out.len() && tie_less(&out[p], &x)
        invariant
            s == area_names(out@),
            p <= out@.len(),
            forall|k: int| 0 <= k < p ==> tie_before(#[trigger] s[k], x@),
        decreases out@.len() - p,
    {
        p = p + 1;
    }
    let ghost xv = x@;
    proof {
        if p < s.len() {
            assert(s.contains(s[p as int]));
            lemma_tie_total(s[p as int], xv);
        }
    }
    out.insert(p, x);
    proof {
        let n = area_names(out@);
        assert(n =~= s.insert(p as int, xv));
        assert forall|i: int, j: int| 0 <= i < j < n.len() implies tie_before(#[trigger] n[i], #[trigger] n[j]) by {
            if j < p {
                assert(tie_before(s[i], s[j]));
            } else if j == p {
                assert(tie_before(s[i], xv));
            } else if i < p {
                assert(tie_before(s[i], s[j - 1]));
            } else if i == p {
                if p < j - 1 {
                    assert(tie_before(s[p as int], s[j - 1]));
                    lemma_tie_transitive(xv, s[p as int], s[j - 1]);
                }
            } else {
                assert(tie_before(s[i - 1], s[j - 1]));
            }
        }
        assert forall|y: Seq<char>| #[trigger] n.contains(y) <==> (s.contains(y) || y == xv) by {
            if n.contains(y) {
                let k = choose|k: int| 0 <= k < n.len() && n[k] == y;
                if k < p {
                    assert(s[k] == y);
                } else if k > p {
                    assert(s[k - 1] == y);
                }
            }
            if s.contains(y) {
                let k = choose|k: int| 0 <= k < s.len() && s[k] == y;
                if k < p {
                    assert(n[k] == y);
                } else {
                    assert(n[k + 1] == y);
                }
            }
            if y == xv {
                assert(n[p as int] == y);
            }
        }
    }
}

/// The neighbour of `from` to move to on the way to `capital`: among the
/// neighbours nearest to the capital, the one at position `seed` modulo
/// their number in tie-break order; `None` when no neighbour reaches it.
pub fn choose_destination(s: &Scenario, from: &AreaId, capital: &AreaId, seed: u64) -> (r: Option<AreaId>)
    ensures
        match r {
            None => forall|x: Seq<char>| !#[trigger] nearest(s, from@, capital@, x),
            Some(a) => {
                &&& nearest(s, from@, capital@, a@)
                &&& a@ == pick(nearest_set(s, from@, capital@), seed)
            },
        },
{
    let near = adjacent_areas(s, from);
    let ghost nn = area_names(near@);
    let mut dists: Vec<Option<usize>> = Vec::new();
    let mut best: Option<usize> = None;
    let mut i: usize = 0;
    while i < near.len()
        invariant
            nn == area_names(near@),
            i <= near@.len(),
            dists@.len() == i,
            forall|k: int|
                0 <= k < i ==> match #[trigger] dists@[k] {
                    Some(n) => hop_distance(s, nn[k], capital@, n - 1),
                    None => !land_reachable(s, nn[k], capital@),
                },
            match best {
                Some(b) => (exists|k: int| 0 <= k < i && #[trigger] dists@[k] == Some(b)) && forall|k: int|
                    0 <= k < i ==> (#[trigger] dists@[k] matches Some(n) ==> b <= n),
                None => forall|k: int| 0 <= k < i ==> #[trigger] dists@[k] is None,
            },
        decreases near@.len() - i,
    {
        let d = distance_to_capital(s, &near[i], capital);
        let ghost prev = dists@;
        let ghost prev_best = best;
        proof {
            assert(nn[i as int] == near@[i as int]@);
        }
        match d {
            Some(n) => {
                best = match best {
                    Some(b) => if n < b {
                        Some(n)
                    } else {
                        Some(b)
                    },
                    None => Some(n),
                };
            },
            None => {},
        }
        dists.push(d);
        proof {
            assert(dists@[i as int] == d);
            assert(forall|k: int| 0 <= k < i ==> dists@[k] == prev[k]);
            match best {
                Some(b) => {
                    if d == Some(b) {
                        assert(dists@[i as int] == Some(b));
                    } else {
                        let pb = prev_best->Some_0;
                        assert(pb == b);
                        let k = choose|k: int| 0 <= k < i && #[trigger] prev[k] == Some(pb);
                        assert(dists@[k] == Some(b));
                    }
                },
                None => {},
            }
        }
        i = i + 1;
    }
    let mut tied: Vec<AreaId> = Vec::new();
    match best {
        None => {},
        Some(b) => {
            let mut i: usize = 0;
            while i < near.len()
                invariant
                    nn == area_names(near@),
                    strictly_sorted(nn),
                    dists@.len() == near@.len(),
                    i <= near@.len(),
                    tie_sorted(area_names(tied@)),
                    forall|y: Seq<char>|
                        #[trigger] area_names(tied@).contains(y) <==> exists|k: int|
                            0 <= k < i && #[trigger] nn[k] == y && dists@[k] == Some(b),
                decreases near@.len() - i,
            {
                if dists[i] == Some(b) {
                    proof {
                        if area_names(tied@).contains(nn[i as int]) {
                            let k = choose|k: int| 0 <= k < i && #[trigger] nn[k] == nn[i as int] && dists@[k] == Some(b);
                            assert(lex_lt(nn[k], nn[i as int]));
                            lemma_lex_irreflexive(nn[k]);
                        }
                        assert(nn[i as int] == near@[i as int]@);
                    }
                    insert_by_tie(&mut tied, near[i].duplicate());
                }
                proof {
                    assert forall|y: Seq<char>|
                        #[trigger] area_names(tied@).contains(y) <==> exists|k: int|
                            0 <= k < i + 1 && #[trigger] nn[k] == y && dists@[k] == Some(b) by {
                        if exists|k: int| 0 <= k < i + 1 && #[trigger] nn[k] == y && dists@[k] == Some(b) {
                            let k = choose|k: int| 0 <= k < i + 1 && #[trigger] nn[k] == y && dists@[k] == Some(b);
                            if k < i {
                                assert(exists|k2: int| 0 <= k2 < i && #[trigger] nn[k2] == y && dists@[k2] == Some(b));
                            }
                        }
                    }
                }
                i = i + 1;
            }
        },
    }
    proof {
        let t = nearest_set(s, from@, capital@);
        assert forall|x: Seq<char>| #[trigger] area_names(tied@).contains(x) <==> nearest(s, from@, capital@, x) by {
            if area_names(tied@).contains(x) {
                let b = best->Some_0;
                let k = choose|k: int| 0 <= k < near@.len() && #[trigger] nn[k] == x && dists@[k] == Some(b);
                assert(nn.contains(x));
                assert(touches(s, from@, x));
                assert(hop_distance(s, x, capital@, b - 1));
                assert forall|y: Seq<char>, e: int|
                    touches(s, from@, y) && #[trigger] hop_distance(s, y, capital@, e) implies b - 1 <= e by {
                    assert(nn.contains(y));
                    let m = choose|m: int| 0 <= m < nn.len() && nn[m] == y;
                    match dists@[m] {
                        Some(n) => {
                            lemma_distance_unique(s, y, capital@, e, n - 1);
                        },
                        None => {},
                    }
                }
            }
            if nearest(s, from@, capital@, x) {
                assert(nn.contains(x));
                let k = choose|k: int| 0 <= k < nn.len() && nn[k] == x;
                let d = choose|d: int| #[trigger] hop_distance(s, x, capital@, d) && forall|y: Seq<char>, e: int|
                    touches(s, from@, y) && #[trigger] hop_distance(s, y, capital@, e) ==> d <= e;
                match dists@[k] {
                    Some(n) => {
                        lemma_distance_unique(s, x, capital@, d, n - 1);
                        let b = best->Some_0;
                        let m = choose|m: int| 0 <= m < near@.len() && #[trigger] dists@[m] == Some(b);
                        assert(nn.contains(nn[m]));
                        assert(hop_distance(s, nn[m], capital@, b - 1));
                        assert(b <= n);
                        assert(exists|k2: int| 0 <= k2 < near@.len() && #[trigger] nn[k2] == x && dists@[k2] == Some(b));
                    },
                    None => {},
                }
            }
        }
        assert forall|x: Seq<char>| #![trigger area_names(tied@).contains(x)] #![trigger t.contains(x)]
            area_names(tied@).contains(x) <==> t.contains(x) by {
        }
        assert(ranked(area_names(tied@), t));
    }
    if tied.len() == 0 {
        proof {
            assert forall|x: Seq<char>| !#[trigger] nearest(s, from@, capital@, x) by {
                if nearest(s, from@, capital@, x) {
                    assert(area_names(tied@).contains(x));
                }
            }
        }
        None
    } else {
        let k = (seed % (tied.len() as u64)) as usize;
        proof {
            lemma_pick(area_names(tied@), nearest_set(s, from@, capital@), seed);
            assert(area_names(tied@).contains(area_names(tied@)[k as int]));
        }
        Some(tied[k].duplicate())
    }
}

/// A move of one of the AI's corps from `from` to `to` passes validation:
/// `to` is an area reachable by land, the hop budget is authored and covers
/// the shortest walk, and the stacking limit leaves room.
pub open spec fn move_accepted(s: &Scenario, from: Seq<char>, to: Seq<char>) -> bool {
    &&& s.areas@.contains_key(to)
    &&& land_reachable(s, from, to)
    &&& s.movement_rules.movement_hops_per_turn matches Maybe::Value(v) && forall|d: int|
        #[trigger] hop_distance(s, from, to, d) ==> d <= v && !(occupants(s, to) + 1 > stacking_limit(s) && from != to)
}

/// A planned plain move succeeds exactly when it is accepted.
pub proof fn lemma_move_result(s: &Scenario, from: Seq<char>, to: Seq<char>, r: Result<crate::movement::MovementPlan, crate::movement::MovementRejection>)
    requires
        plan_result(s, from, to, 0, r),
    ensures
        r is Ok <==> move_accepted(s, from, to),
{
    if s.areas@.contains_key(to) && land_reachable(s, from, to) {
        lemma_reachable_has_distance(s, from, to);
        let d0 = choose|d: int| #[trigger] hop_distance(s, from, to, d);
        match s.movement_rules.movement_hops_per_turn {
            Maybe::Value(v) => {
                if r is Ok {
                    assert forall|d: int| #[trigger] hop_distance(s, from, to, d) implies d <= v && !(occupants(s, to)
                        + 1 > stacking_limit(s) && from != to) by {}
                }
            },
            Maybe::Placeholder(_) => {},
        }
    }
}

/// A hold order for the corps, when validation accepts it.
pub fn make_hold_order(power: &PowerId, corps_id: &CorpsId, s: &Scenario) -> (r: Option<Order>)
    requires
        movement_fits(s),
    ensures
        r is Some <==> (s.corps@.contains_key(corps_id@) && s.corps@[corps_id@].owner@ == power@),
        r is Some ==> r == Some(Order::Hold(HoldOrder { submitter: *power, corps: *corps_id })),
{
    let order = Order::Hold(HoldOrder { submitter: power.duplicate(), corps: corps_id.duplicate() });
    match validate_order(s, &order) {
        Ok(_) => Some(order),
        Err(_) => None,
    }
}

/// A move order for the corps to `destination`, when validation accepts it.
pub fn make_move_order(power: &PowerId, corps_id: &CorpsId, destination: &AreaId, s: &Scenario) -> (r: Option<Order>)
    requires
        movement_fits(s),
    ensures
        r is Some <==> (s.corps@.contains_key(corps_id@) && s.corps@[corps_id@].owner@ == power@ && move_accepted(
            s,
            s.corps@[corps_id@].area@,
            destination@,
        )),
        r is Some ==> r == Some(Order::Move(MoveOrder { submitter: *power, corps: *corps_id, to: *destination })),
{
    let order = Order::Move(
        MoveOrder { submitter: power.duplicate(), corps: corps_id.duplicate(), to: destination.duplicate() },
    );
    let v = validate_order(s, &order);
    proof {
        if s.corps@.contains_key(corps_id@) && s.corps@[corps_id@].owner@ == power@ {
            lemma_move_result(s, s.corps@[corps_id@].area@, destination@, v);
        }
    }
    match v {
        Ok(_) => Some(order),
        Err(_) => None,
    }
}

/// The make-up of the first corps of `p` in key order.
pub open spec fn first_composition(es: Seq<(String, Corps)>, p: Seq<char>) -> Option<CorpsComposition>
    decreases es.len(),
{
    if es.len() == 0 {
        None
    } else if es[0].1.owner@ == p {
        Some(
            CorpsComposition {
                infantry_sp: es[0].1.infantry_sp,
                cavalry_sp: es[0].1.cavalry_sp,
                artillery_sp: es[0].1.artillery_sp,
            },
        )
    } else {
        first_composition(es.drop_first(), p)
    }
}

/// The make-up a new corps of `power` copies: that of its first corps in
/// key order.
pub fn default_build_composition(s: &Scenario, power: &PowerId) -> (r: Option<CorpsComposition>)
    ensures
        r == first_composition(s.corps.entries_view(), power@),
{
    let n = s.corps.len();
    let ghost es = s.corps.entries_view();
    proof {
        assert(es.skip(0) =~= es);
    }
    let mut i: usize = 0;
    while i < n
        invariant
            es == s.corps.entries_view(),
            n == es.len(),
            i <= n,
            first_composition(es, power@) == first_composition(es.skip(i as int), power@),
        decreases n - i,
    {
        proof {
            assert(es.skip(i as int)[0] == es[i as int]);
            assert(es.skip(i as int).drop_first() =~= es.skip(i + 1));
        }
        let c = s.corps.value_at(i);
        if c.owner.same(power) {
            return Some(
                CorpsComposition {
                    infantry_sp: c.infantry_sp,
                    cavalry_sp: c.cavalry_sp,
                    artillery_sp: c.artillery_sp,
                },
            );
        }
        i = i + 1;
    }
    proof {
        assert(es.skip(n as int).len() == 0);
    }
    None
}

/// An order to build a corps of the default make-up in `area`; `None` when
/// `power` has no corps to copy.
pub fn make_build_corps_order(power: &PowerId, area: &AreaId, s: &Scenario) -> (r: Option<Order>)
    ensures
        match first_composition(s.corps.entries_view(), power@) {
            None => r is None,
            Some(c) => r == Some(
                Order::BuildCorps(BuildCorpsOrder { submitter: *power, area: *area, composition: c }),
            ),
        },
{
    match default_build_composition(s, power) {
        None => None,
        Some(composition) => Some(
            Order::BuildCorps(BuildCorpsOrder { submitter: power.duplicate(), area: area.duplicate(), composition }),
        ),
    }
}

/// A declaration of war on `target`; `None` when it is the power itself.
pub fn make_declare_war_order(power: &PowerId, target: &PowerId) -> (r: Option<Order>)
    ensures
        power@ == target@ ==> r is None,
        power@ != target@ ==> r == Some(Order::DeclareWar(DeclareWarOrder { submitter: *power, target: *target })),
{
    if power.same(target) {
        return None;
    }
    Some(Order::DeclareWar(DeclareWarOrder { submitter: power.duplicate(), target: target.duplicate() }))
}

/// Whether `power` is one of the pair.
pub fn pair_contains_power(key: &DiplomaticPairKey, power: &PowerId) -> (r: bool)
    ensures
        r == (key.0@ == power@ || key.1@ == power@),
{
    key.0.same(power) || key.1.same(power)
}

/// The other member of a pair that holds `power`.
pub fn other_power(key: &DiplomaticPairKey, power: &PowerId) -> (r: Option<PowerId>)
    ensures
        key.0@ == power@ ==> r == Some(key.1),
        key.0@ != power@ && key.1@ == power@ ==> r == Some(key.0),
        key.0@ != power@ && key.1@ != power@ ==> r is None,
{
    if key.0.same(power) {
        Some(key.1.duplicate())
    } else if key.1.same(power) {
        Some(key.0.duplicate())
    } else {
        None
    }
}

/// The capital of `p`, when `p` is a listed power.
pub open spec fn capital_of(s: &Scenario, p: Seq<char>) -> Option<Seq<char>> {
    if s.powers@.contains_key(p) {
        Some(s.powers@[p].capital@)
    } else {
        None
    }
}

/// What the AI of `p` does with its corps `c`: `Some((true, _))` holds it
/// (an enemy corps stands next to it), `Some((false, to))` moves it one
/// step towards the capital, to the neighbour [`choose_destination`]
/// picks, and `None` gives it no order (it stands in the capital, no
/// neighbour reaches the capital, or the move would not validate).
pub open spec fn corps_intent(s: &Scenario, p: Seq<char>, seed: u64, c: Corps) -> Option<(bool, Seq<char>)> {
    if enemy_near(s, c.area@, p) {
        Some((true, c.area@))
    } else {
        match capital_of(s, p) {
            None => None,
            Some(cap) => if c.area@ == cap || !(exists|x: Seq<char>| #[trigger] nearest(s, c.area@, cap, x)) {
                None
            } else {
                let to = pick(nearest_set(s, c.area@, cap), seed);
                if move_accepted(s, c.area@, to) {
                    Some((false, to))
                } else {
                    None
                }
            },
        }
    }
}

/// `o` is the order an intent `(corps, hold, to)` of `p` stands for.
pub open spec fn order_is(o: Order, p: Seq<char>, it: (Seq<char>, bool, Seq<char>)) -> bool {
    if it.1 {
        o matches Order::Hold(h) && h.submitter@ == p && h.corps@ == it.0
    } else {
        o matches Order::Move(m) && m.submitter@ == p && m.corps@ == it.0 && m.to@ == it.2
    }
}

/// The intents for the corps of `p` among the entries, in entry order.
pub open spec fn movement_intents(s: &Scenario, p: Seq<char>, seed: u64, es: Seq<(String, Corps)>) -> Seq<
    (Seq<char>, bool, Seq<char>),
>
    decreases es.len(),
{
    if es.len() == 0 {
        Seq::empty()
    } else {
        let prev = movement_intents(s, p, seed, es.drop_last());
        let c = es.last().1;
        if c.owner@ != p {
            prev
        } else {
            match corps_intent(s, p, seed, c) {
                Some(it) => prev.push((es.last().0@, it.0, it.1)),
                None => prev,
            }
        }
    }
}

/// The order for one corps of the AI's power.
fn corps_order(s: &Scenario, power: &PowerId, capital: &Option<AreaId>, seed: u64, corps_id: &CorpsId, c: &Corps) -> (r:
    Option<Order>)
    requires
        movement_fits(s),
        s.corps@.contains_key(corps_id@),
        s.corps@[corps_id@] == *c,
        c.owner@ == power@,
        match capital {
            Some(a) => capital_of(s, power@) == Some(a@),
            None => capital_of(s, power@) is None,
        },
    ensures
        match corps_intent(s, power@, seed, *c) {
            None => r is None,
            Some(it) => r is Some && order_is(r->Some_0, power@, (corps_id@, it.0, it.1)),
        },
{
    if enemy_adjacent(s, &c.area, power) {
        return make_hold_order(power, corps_id, s);
    }
    match capital {
        None => None,
        Some(cap) => {
            if c.area.same(cap) {
                return None;
            }
            match choose_destination(s, &c.area, cap, seed) {
                None => None,
                Some(dest) => make_move_order(power, corps_id, &dest, s),
            }
        },
    }
}

/// What the AI of `p` may declare war over for the stored relation `st`
/// under key `k`: the other power of an unfriendly pair holding `p`, unless
/// the two are already at war or the other power is `p` itself.
pub open spec fn war_candidate(s: &Scenario, p: Seq<char>, k: Seq<char>, st: DiplomaticState) -> Option<Seq<char>> {
    if st != DiplomaticState::Unfriendly {
        None
    } else {
        match pair_of(k) {
            None => None,
            Some(pair) => {
                let other = if pair.0 == p {
                    pair.1
                } else {
                    pair.0
                };
                if (pair.0 == p || pair.1 == p) && relation(s, p, other) != Some(DiplomaticState::War) && other != p {
                    Some(other)
                } else {
                    None
                }
            },
        }
    }
}

/// The first power, in key order, that the AI of `p` may declare war on.
pub open spec fn war_target(s: &Scenario, p: Seq<char>, es: Seq<(String, DiplomaticState)>) -> Option<Seq<char>>
    decreases es.len(),
{
    if es.len() == 0 {
        None
    } else {
        match war_candidate(s, p, es[0].0@, es[0].1) {
            Some(o) => Some(o),
            None => war_target(s, p, es.drop_first()),
        }
    }
}

/// The money a power must hold before the AI builds: 50 for an
/// economy-minded personality (priority 7 or more), else 100.
pub open spec fn build_threshold(personality: AiPersonality) -> int {
    if personality.economic_priority >= 7 {
        50
    } else {
        100
    }
}

/// The AI of `p` wants a new corps: it has a capital, more money than its
/// threshold, more than 20 manpower, and nothing in production.
pub open spec fn wants_build(s: &Scenario, p: Seq<char>, personality: AiPersonality) -> bool {
    &&& s.power_state@.contains_key(p)
    &&& s.power_state@[p].treasury > build_threshold(personality)
    &&& s.power_state@[p].manpower > 20
    &&& s.production_queue@.len() == 0
    &&& capital_of(s, p) is Some
}

/// Everything the AI reads to choose one power's orders.
pub struct AiContext<'a> {
    /// The state the orders are chosen against.
    pub projected: &'a Scenario,
    pub power: PowerId,
    pub personality: AiPersonality,
    /// Breaks ties between equally good moves.
    pub rng_seed: u64,
}

/// The orders the AI chose, by phase.
pub struct AiOrders {
    pub movement_orders: Vec<Order>,
    pub economic_orders: Vec<Order>,
    pub diplomatic_orders: Vec<Order>,
}

impl Default for AiOrders {
    /// No orders.
    fn default() -> (o: Self)
        ensures
            o.movement_orders@.len() == 0,
            o.economic_orders@.len() == 0,
            o.diplomatic_orders@.len() == 0,
    {
        AiOrders { movement_orders: Vec::new(), economic_orders: Vec::new(), diplomatic_orders: Vec::new() }
    }
}

/// Chooses the orders of `ctx.power` for one turn: an order for each of its
/// corps as [`corps_intent`] says, in corps key order; a corps build at the
/// capital when [`wants_build`] holds and it has a corps to copy; and, for
/// an aggressive personality (8 or more), one declaration of war on
/// [`war_target`].
pub fn generate_orders(ctx: &AiContext) -> (o: AiOrders)
    requires
        movement_fits(ctx.projected),
    ensures
        ({
            let s = ctx.projected;
            let p = ctx.power@;
            let its = movement_intents(s, p, ctx.rng_seed, s.corps.entries_view());
            &&& o.movement_orders@.len() == its.len()
            &&& forall|i: int| 0 <= i < its.len() ==> order_is(#[trigger] o.movement_orders@[i], p, its[i])
        }),
        ({
            let s = ctx.projected;
            let p = ctx.power@;
            let comp = first_composition(s.corps.entries_view(), p);
            if wants_build(s, p, ctx.personality) && comp is Some {
                &&& o.economic_orders@.len() == 1
                &&& o.economic_orders@[0] matches Order::BuildCorps(b) && b.submitter@ == p && b.area@ == capital_of(
                    s,
                    p,
                )->Some_0 && b.composition == comp->Some_0
            } else {
                o.economic_orders@.len() == 0
            }
        }),
        ({
            let s = ctx.projected;
            let p = ctx.power@;
            let target = war_target(s, p, s.diplomacy.entries_view());
            if ctx.personality.aggression >= 8 && target is Some {
                &&& o.diplomatic_orders@.len() == 1
                &&& o.diplomatic_orders@[0] matches Order::DeclareWar(d) && d.submitter@ == p && d.target@
                    == target->Some_0
            } else {
                o.diplomatic_orders@.len() == 0
            }
        }),
{
    let s = ctx.projected;
    let power = &ctx.power;
    let ghost p = power@;
    let capital: Option<AreaId> = match s.powers.get(power.as_str()) {
        Some(ps) => Some(ps.capital.duplicate()),
        None => None,
    };
    let mut movement_orders: Vec<Order> = Vec::new();
    let n = s.corps.len();
    let ghost es = s.corps.entries_view();
    let mut i: usize = 0;
    while i < n
        invariant
            movement_fits(s),
            es == s.corps.entries_view(),
            s.corps.well_formed(),
            n == es.len(),
            i <= n,
            p == power@,
            match capital {
                Some(a) => capital_of(s, p) == Some(a@),
                None => capital_of(s, p) is None,
            },
            movement_orders@.len() == movement_intents(s, p, ctx.rng_seed, es.take(i as int)).len(),
            forall|j: int|
                0 <= j < movement_orders@.len() ==> order_is(
                    #[trigger] movement_orders@[j],
                    p,
                    movement_intents(s, p, ctx.rng_seed, es.take(i as int))[j],
                ),
        decreases n - i,
    {
        proof {
            assert(es.take(i + 1).drop_last() =~= es.take(i as int));
            assert(s.corps@.contains_key(es[i as int].0@));
        }
        let c = s.corps.value_at(i);
        if c.owner.same(power) {
            let cid = CorpsId(s.corps.key_at(i).clone());
            match corps_order(s, power, &capital, ctx.rng_seed, &cid, c) {
                Some(order) => {
                    movement_orders.push(order);
                },
                None => {},
            }
        }
        i = i + 1;
    }
    proof {
        assert(es.take(n as int) =~= es);
    }
    let mut economic_orders: Vec<Order> = Vec::new();
    match s.power_state.get(power.as_str()) {
        Some(ps) => {
            let threshold: i64 = if ctx.personality.economic_priority >= 7 {
                50
            } else {
                100
            };
            if ps.treasury > threshold && ps.manpower > 20 && s.production_queue.len() == 0 {
                match &capital {
                    Some(cap) => {
                        match make_build_corps_order(power, cap, s) {
                            Some(order) => {
                                economic_orders.push(order);
                            },
                            None => {},
                        }
                    },
                    None => {},
                }
            }
        },
        None => {},
    }
    let mut diplomatic_orders: Vec<Order> = Vec::new();
    if ctx.personality.aggression >= 8 {
        let m = s.diplomacy.len();
        let ghost ds = s.diplomacy.entries_view();
        proof {
            assert(ds.skip(0) =~= ds);
        }
        let mut k: usize = 0;
        while k < m
            invariant_except_break
                diplomatic_orders@.len() == 0,
                war_target(s, p, ds) == war_target(s, p, ds.skip(k as int)),
            invariant
                ds == s.diplomacy.entries_view(),
                m == ds.len(),
                k <= m,
                p == power@,
            ensures
                diplomatic_orders@.len() == 0 ==> war_target(s, p, ds) is None,
                diplomatic_orders@.len() != 0 ==> ({
                    &&& diplomatic_orders@.len() == 1
                    &&& war_target(s, p, ds) is Some
                    &&& diplomatic_orders@[0] matches Order::DeclareWar(d) && d.submitter@ == p && d.target@
                        == war_target(s, p, ds)->Some_0
                }),
            decreases m - k,
        {
            proof {
                assert(ds.skip(k as int)[0] == ds[k as int]);
                assert(ds.skip(k as int).drop_first() =~= ds.skip(k + 1));
            }
            let state = *s.diplomacy.value_at(k);
            if state == DiplomaticState::Unfriendly {
                match DiplomaticPairKey::parse(s.diplomacy.key_at(k).as_str()) {
                    Some(key) => {
                        if pair_contains_power(&key, power) {
                            match other_power(&key, power) {
                                Some(other) => {
                                    let at_war = match diplomatic_state(s, power, &other) {
                                        Some(DiplomaticState::War) => true,
                                        _ => false,
                                    };
                                    if !at_war {
                                        match make_declare_war_order(power, &other) {
                                            Some(order) => {
                                                diplomatic_orders.push(order);
                                                break;
                                            },
                                            None => {},
                                        }
                                    }
                                },
                                None => {},
                            }
                        }
                    },
                    None => {},
                }
            }
            k = k + 1;
        }
        proof {
            if diplomatic_orders@.len() == 0 && k >= m {
                assert(ds.skip(k as int).len() == 0);
            }
        }
    }
    AiOrders { movement_orders, economic_orders, diplomatic_orders }
}

} // verus!
