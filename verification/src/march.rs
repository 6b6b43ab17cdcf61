//! Marching every corps home: each corps heads for its owner's capital
//! along a shortest land path, as far as one turn's movement allows.

use vstd::prelude::*;

use crate::events::Event;
use crate::ids::CorpsId;
use crate::graph::names_before;
use crate::map::{area_names, land_link, land_node, MapGraph};
use crate::movement::{
    first_land_walk, hop_distance, land_reachable, land_walk, lemma_graph_walk, movement_fits, rejection_code, rejection_text,
    resolution, resolve_order, validate_or_reject, validate_order, validate_result, MovementPlan, MovementRejection,
};
use crate::orders::{HoldOrder, MoveOrder, Order};
use crate::scenario::Scenario;
use crate::strmap::{lemma_lex_asymmetric, lemma_lex_irreflexive, lex_lt};
use crate::tables::Maybe;

verus! {

/// `p` is a land walk from `a` to `b` that no other walk between them is
/// shorter than.
pub open spec fn shortest_land_walk(s: &Scenario, p: Seq<Seq<char>>, a: Seq<char>, b: Seq<char>) -> bool {
    &&& land_walk(s, p, a, b)
    &&& forall|o: Seq<Seq<char>>| #[trigger] land_walk(s, o, a, b) ==> o.len() >= p.len()
}

/// Index of the area a corps marches to along a path of `d` hops: one
/// turn's movement budget of hops, or the whole path when the budget is
/// negative, reaches the end anyway, or is not yet authored.
pub open spec fn step_index(s: &Scenario, d: int) -> int {
    match s.movement_rules.movement_hops_per_turn {
        Maybe::Value(v) => if v < 0 || v >= d {
            d
        } else {
            v as int
        },
        Maybe::Placeholder(_) => d,
    }
}

/// What validating and resolving an order gives: a resolution of the
/// plan, or the rejection recorded as an event with the scenario unchanged.
pub open spec fn order_outcome(
    s: Scenario,
    order: Order,
    v: Result<MovementPlan, MovementRejection>,
    evs: Seq<Event>,
    s2: Scenario,
) -> bool {
    match v {
        Ok(plan) => evs.len() == 1 && resolution(s, order, plan, evs[0], s2),
        Err(j) => {
            &&& s2 == s
            &&& evs.len() == 1
            &&& evs[0] matches Event::OrderRejected(r) && r.reason_code@ == rejection_code(j) && r.message@
                == rejection_text(j)
        },
    }
}

/// One corps `cid` of `s` marches home; `evs` are the events it records
/// and `s2` the scenario afterwards.
/// - A corps whose owner is not a listed power stays, with no event.
/// - A corps already in its capital holds, and the hold is recorded.
/// - A corps that cannot reach its capital over land stays, with no event.
/// - Otherwise it is ordered to move along the shortest land path to the
///   capital that comes first in name order, to the area `step_index`
///   hops along it, and that order is validated and resolved, or its
///   rejection recorded.
pub open spec fn march_step(s: Scenario, cid: Seq<char>, evs: Seq<Event>, s2: Scenario) -> bool {
    let c = s.corps@[cid];
    if !s.powers@.contains_key(c.owner@) {
        evs.len() == 0 && s2 == s
    } else {
        let cap = s.powers@[c.owner@].capital;
        if c.area@ == cap@ {
            &&& s2 == s
            &&& evs.len() == 1
            &&& evs[0] matches Event::MovementResolved(m) && m.corps@ == cid && m.from == c.area && m.to == c.area
                && m.hops == 0 && m.path@.len() == 1 && m.path@[0]@ == c.area@
        } else if !land_reachable(&s, c.area@, cap@) {
            evs.len() == 0 && s2 == s
        } else {
            exists|p: Seq<Seq<char>>, o: MoveOrder, v: Result<MovementPlan, MovementRejection>|
                #![trigger first_land_walk(&s, p, c.area@, cap@), validate_result(&s, Order::Move(o), v)]
                {
                    &&& first_land_walk(&s, p, c.area@, cap@)
                    &&& o.submitter == c.owner
                    &&& o.corps@ == cid
                    &&& o.to@ == p[step_index(&s, p.len() - 1)]
                    &&& validate_result(&s, Order::Move(o), v)
                    &&& order_outcome(s, Order::Move(o), v, evs, s2)
                }
        }
    }
}

/// The names of a list of corps IDs.
pub open spec fn id_texts(v: Seq<CorpsId>) -> Seq<Seq<char>> {
    v.map_values(|c: CorpsId| c@)
}

/// `states` and `cuts` trace the corps `ids` of `s` marching home one
/// after another, in order: the `j`-th corps marches from `states[j]` to
/// `states[j + 1]`, recording the events of `evs` from `cuts[j]` up to
/// `cuts[j + 1]`, each of which `who` names it beside.
pub open spec fn march_trace(
    s: Scenario,
    ids: Seq<Seq<char>>,
    evs: Seq<Event>,
    who: Seq<Seq<char>>,
    states: Seq<Scenario>,
    cuts: Seq<int>,
) -> bool {
    &&& who.len() == evs.len()
    &&& forall|j: int, e: int|
        #![trigger ids[j], who[e]]
        0 <= j < ids.len() && cuts[j] <= e < cuts[j + 1] ==> who[e] == ids[j]
    &&& states.len() == ids.len() + 1
    &&& cuts.len() == ids.len() + 1
    &&& states[0] == s
    &&& cuts[0] == 0
    &&& cuts.last() == evs.len()
    &&& forall|j: int| 0 <= j < cuts.len() ==> 0 <= #[trigger] cuts[j] <= evs.len()
    &&& forall|j: int, l: int| 0 <= j <= l < cuts.len() ==> #[trigger] cuts[j] <= #[trigger] cuts[l]
    &&& forall|j: int|
        #![trigger ids[j]]
        0 <= j < ids.len() ==> march_step(
            states[j],
            ids[j],
            evs.subrange(cuts[j], cuts[j + 1]),
            states[j + 1],
        )
}

/// The corps `ids` of `s` march home one after another, in order; `evs`
/// are the events recorded, `who` names beside each event the corps that
/// recorded it, and `s2` is the scenario at the end.
pub open spec fn march_all(s: Scenario, ids: Seq<Seq<char>>, evs: Seq<Event>, who: Seq<Seq<char>>, s2: Scenario) -> bool {
    exists|states: Seq<Scenario>, cuts: Seq<int>|
        #[trigger] march_trace(s, ids, evs, who, states, cuts) && states.last() == s2
}

/// There is one first shortest land walk between two areas: two walks
/// that are both the first in name order among the shortest are the same.
pub proof fn lemma_first_land_walk_unique(s: &Scenario, p: Seq<Seq<char>>, q: Seq<Seq<char>>, a: Seq<char>, b: Seq<char>)
    requires
        first_land_walk(s, p, a, b),
        first_land_walk(s, q, a, b),
    ensures
        p == q,
{
    if p != q {
        assert(land_walk(s, q, a, b));
        assert(land_walk(s, p, a, b));
        assert(p.len() == q.len());
        assert(names_before(p, q));
        assert(names_before(q, p));
        let j1 = choose|j: int| 0 <= j < p.len() && j < q.len() && p.take(j) == q.take(j) && #[trigger] lex_lt(p[j], q[j]);
        let j2 = choose|j: int| 0 <= j < q.len() && j < p.len() && q.take(j) == p.take(j) && #[trigger] lex_lt(q[j], p[j]);
        if j1 < j2 {
            assert(p.take(j2)[j1] == q.take(j2)[j1]);
            lemma_lex_irreflexive(p[j1]);
        } else if j2 < j1 {
            assert(p.take(j1)[j2] == q.take(j1)[j2]);
            lemma_lex_irreflexive(q[j2]);
        } else {
            lemma_lex_asymmetric(p[j1], q[j1]);
        }
    }
}

/// Two scenarios with the same areas and adjacencies have the same land
/// map.
proof fn lemma_same_land(s: &Scenario, t: &Scenario)
    requires
        s.areas == t.areas,
        s.adjacency == t.adjacency,
    ensures
        forall|a: Seq<char>| #[trigger] land_node(s, a) <==> land_node(t, a),
        forall|a: Seq<char>, b: Seq<char>| #[trigger] land_link(s, a, b) <==> land_link(t, a, b),
{
}

/// A prefix of a shortest walk is a shortest walk to the area it ends in.
proof fn lemma_shortest_prefix(s: &Scenario, p: Seq<Seq<char>>, a: Seq<char>, b: Seq<char>, k: int)
    requires
        shortest_land_walk(s, p, a, b),
        land_node(s, a),
        land_node(s, b),
        0 <= k < p.len(),
    ensures
        hop_distance(s, a, p[k], k),
{
    let q = p.take(k + 1);
    assert(land_walk(s, q, a, p[k])) by {
        assert forall|j: int| 0 <= j < q.len() - 1 implies #[trigger] land_link(s, q[j], q[j + 1]) by {
            assert(land_link(s, p[j], p[j + 1]));
        }
    }
    assert(land_node(s, p[k])) by {
        if k < p.len() - 1 {
            assert(land_link(s, p[k], p[k + 1]));
        }
    }
    assert forall|o: Seq<Seq<char>>| #[trigger] land_walk(s, o, a, p[k]) implies o.len() >= k + 1 by {
        if o.len() < k + 1 {
            let r = o + p.skip(k + 1);
            assert(land_walk(s, r, a, b)) by {
                assert forall|j: int| 0 <= j < r.len() - 1 implies #[trigger] land_link(s, r[j], r[j + 1]) by {
                    if j < o.len() - 1 {
                        assert(land_link(s, o[j], o[j + 1]));
                    } else if j == o.len() - 1 {
                        assert(land_link(s, p[k], p[k + 1]));
                    } else {
                        let m = k + 1 + (j - o.len());
                        assert(r[j] == p[m] && r[j + 1] == p[m + 1]);
                        assert(land_link(s, p[m], p[m + 1]));
                    }
                }
                if k == p.len() - 1 {
                    assert(r =~= o);
                }
            }
        }
    }
}

/// Marches corps `cid` home, as `march_step` says.
#[verifier::rlimit(60)]
fn march_corps(s: &mut Scenario, map: &MapGraph, cid: &CorpsId) -> (evs: Vec<Event>)
    requires
        movement_fits(&*old(s)),
        old(s).corps@.contains_key(cid@),
        forall|a: Seq<char>| #[trigger] map.graph.is_node(a) <==> land_node(&*old(s), a),
        forall|a: Seq<char>, b: Seq<char>| #[trigger] map.graph.link(a, b) <==> land_link(&*old(s), a, b),
    ensures
        march_step(*old(s), cid@, evs@, *final(s)),
        *final(s) == (Scenario { corps: final(s).corps, ..*old(s) }),
        final(s).corps@.dom() == old(s).corps@.dom(),
{
    let ghost s0 = *s;
    let mut evs: Vec<Event> = Vec::new();
    let (owner, from) = match s.corps.get(cid.as_str()) {
        Some(c) => (c.owner.duplicate(), c.area.duplicate()),
        None => {
            return evs;
        },
    };
    let cap = match s.powers.get(owner.as_str()) {
        Some(p) => p.capital.duplicate(),
        None => {
            return evs;
        },
    };
    if from.same(&cap) {
        let order = Order::Hold(HoldOrder { submitter: owner, corps: cid.duplicate() });
        match validate_order(s, &order) {
            Ok(plan) => {
                let e = resolve_order(s, &order, plan);
                evs.push(e);
                proof {
                    assert(evs@ =~= seq![e]);
                }
            },
            Err(_) => {},
        }
        return evs;
    }
    let path = match map.shortest_path_hops(&from, &cap) {
        Some(p) => p,
        None => {
            proof {
                if land_reachable(&s0, from@, cap@) {
                    let w = choose|w: Seq<Seq<char>>| #[trigger] land_walk(&s0, w, from@, cap@);
                    lemma_graph_walk(&s0, map, w, from@, cap@);
                }
            }
            return evs;
        },
    };
    let ghost names = area_names(path@);
    proof {
        lemma_graph_walk(&s0, map, names, from@, cap@);
        assert forall|o: Seq<Seq<char>>| #[trigger] land_walk(&s0, o, from@, cap@) implies o.len() >= names.len() by {
            lemma_graph_walk(&s0, map, o, from@, cap@);
        }
        assert(shortest_land_walk(&s0, names, from@, cap@));
        assert forall|o: Seq<Seq<char>>|
            #[trigger] land_walk(&s0, o, from@, cap@) && o.len() == names.len() && o != names
                implies names_before(names, o) by {
            lemma_graph_walk(&s0, map, o, from@, cap@);
        }
        assert(first_land_walk(&s0, names, from@, cap@));
        assert(map.graph.is_node(from@) && map.graph.is_node(cap@));
        assert(land_reachable(&s0, from@, cap@));
    }
    let last = path.len() - 1;
    let idx = match &s.movement_rules.movement_hops_per_turn {
        Maybe::Value(v) => if *v < 0 || *v as usize >= last {
            last
        } else {
            *v as usize
        },
        Maybe::Placeholder(_) => last,
    };
    assert(idx as int == step_index(&s0, names.len() - 1));
    let target = path[idx].duplicate();
    let mo = MoveOrder { submitter: owner, corps: cid.duplicate(), to: target };
    let ghost gmo = mo;
    let order = Order::Move(mo);
    proof {
        lemma_shortest_prefix(&s0, names, from@, cap@, idx as int);
        assert(names[idx as int] == target@);
    }
    match validate_or_reject(s, &order) {
        Ok(plan) => {
            let ghost v = choose|v: Result<MovementPlan, MovementRejection>|
                #[trigger] validate_result(&s0, order, v) && v == Ok::<MovementPlan, MovementRejection>(plan);
            proof {
                assert(hop_distance(&s0, from@, target@, idx as int));
            }
            let e = resolve_order(s, &order, plan);
            evs.push(e);
            proof {
                assert(s.corps@.dom() =~= s0.corps@.dom());
                assert(evs@ =~= seq![e]);
                assert(order_outcome(s0, order, v, evs@, *s));
                assert(first_land_walk(&s0, names, from@, cap@) && validate_result(&s0, Order::Move(gmo), v));
            }
        },
        Err(e) => {
            let ghost v = choose|v: Result<MovementPlan, MovementRejection>|
                #[trigger] validate_result(&s0, order, v) && match v {
                    Ok(_) => false,
                    Err(j) => e matches Event::OrderRejected(o) && o.reason_code@ == rejection_code(j) && o.message@
                        == rejection_text(j),
                };
            evs.push(e);
            proof {
                assert(evs@ =~= seq![e]);
                assert(order_outcome(s0, order, v, evs@, *s));
                assert(first_land_walk(&s0, names, from@, cap@) && validate_result(&s0, Order::Move(gmo), v));
            }
        },
    }
    evs
}

/// Marches every corps home, in key order, and returns the events
/// recorded and, beside each event, the corps that recorded it.  The land
/// map is read once; marching never changes it.
pub fn march_to_capitals(s: &mut Scenario) -> (r: (Vec<Event>, Vec<CorpsId>))
    requires
        movement_fits(&*old(s)),
    ensures
        march_all(*old(s), old(s).corps.keys_view(), r.0@, id_texts(r.1@), *final(s)),
{
    let ghost s0 = *s;
    let map = MapGraph::from_scenario(s);
    let n = s.corps.len();
    let mut ids: Vec<CorpsId> = Vec::new();
    let mut i: usize = 0;
    while i < n
        invariant
            n == s0.corps.entries_view().len(),
            *s == s0,
            i <= n,
            ids@.len() == i,
            forall|j: int| 0 <= j < i ==> (#[trigger] ids@[j])@ == s0.corps.keys_view()[j],
        decreases n - i,
    {
        ids.push(CorpsId::new(s.corps.key_at(i).as_str()));
        i = i + 1;
    }
    let mut events: Vec<Event> = Vec::new();
    let mut who: Vec<CorpsId> = Vec::new();
    let ghost mut states: Seq<Scenario> = seq![*s];
    let ghost mut cuts: Seq<int> = seq![0];
    let mut i: usize = 0;
    while i < n
        invariant
            n == s0.corps.entries_view().len(),
            n == s0.corps@.dom().len(),
            s0.corps.well_formed(),
            movement_fits(&s0),
            i <= n,
            ids@.len() == n,
            forall|j: int| 0 <= j < n ==> (#[trigger] ids@[j])@ == s0.corps.keys_view()[j],
            *s == (Scenario { corps: s.corps, ..s0 }),
            s.corps@.dom() == s0.corps@.dom(),
            forall|a: Seq<char>| #[trigger] map.graph.is_node(a) <==> land_node(&s0, a),
            forall|a: Seq<char>, b: Seq<char>| #[trigger] map.graph.link(a, b) <==> land_link(&s0, a, b),
            march_trace(s0, s0.corps.keys_view().take(i as int), events@, id_texts(who@), states, cuts),
            states.last() == *s,
        decreases n - i,
    {
        // Its length is that of the key set, which marching keeps.
        s.corps.len();
        proof {
            lemma_same_land(&*s, &s0);
            assert(s.corps@.contains_key(s0.corps.entries_view()[i as int].0@));
        }
        let ghost old_events = events@;
        let ghost old_who = id_texts(who@);
        let mut evs = march_corps(s, &map, &ids[i]);
        let ghost got = evs@;
        let cnt = evs.len();
        let mut k: usize = 0;
        while k < cnt
            invariant
                k <= cnt,
                i < n,
                ids@.len() == n,
                who@.len() == old_who.len() + k,
                forall|e: int| 0 <= e < old_who.len() ==> #[trigger] id_texts(who@)[e] == old_who[e],
                forall|e: int| old_who.len() <= e < who@.len() ==> #[trigger] id_texts(who@)[e] == ids@[i as int]@,
            decreases cnt - k,
        {
            let ghost before = who@;
            who.push(ids[i].duplicate());
            proof {
                assert(id_texts(who@) =~= id_texts(before).push(ids@[i as int]@));
            }
            k = k + 1;
        }
        events.append(&mut evs);
        proof {
            let ks = s0.corps.keys_view();
            let k = old_events.len() as int;
            let old_states = states;
            let old_cuts = cuts;
            states = states.push(*s);
            cuts = cuts.push(events@.len() as int);
            assert(events@.subrange(k, events@.len() as int) =~= got);
            assert(ks.take(i + 1)[i as int] == ids@[i as int]@);
            assert forall|j: int|
                #![trigger ks.take(i + 1)[j]]
                0 <= j < ks.take(i + 1).len() implies march_step(
                states[j],
                ks.take(i + 1)[j],
                events@.subrange(cuts[j], cuts[j + 1]),
                states[j + 1],
            ) by {
                if j < i {
                    assert(ks.take(i as int)[j] == ks.take(i + 1)[j]);
                    assert(old_cuts[j] <= old_cuts[j + 1]);
                    assert(march_step(
                        old_states[j],
                        ks.take(i as int)[j],
                        old_events.subrange(old_cuts[j], old_cuts[j + 1]),
                        old_states[j + 1],
                    ));
                    assert(events@.subrange(cuts[j], cuts[j + 1]) =~= old_events.subrange(old_cuts[j], old_cuts[j + 1]));
                } else {
                    assert(cuts[j] == k && cuts[j + 1] == events@.len());
                }
            }
            assert forall|j: int| 0 <= j < cuts.len() implies 0 <= #[trigger] cuts[j] <= events@.len() by {
                if j < i + 1 {
                    assert(cuts[j] == old_cuts[j]);
                }
            }
            assert forall|j: int, l: int| 0 <= j <= l < cuts.len() implies #[trigger] cuts[j] <= #[trigger] cuts[l] by {
                if l < i + 1 {
                    assert(cuts[j] == old_cuts[j] && cuts[l] == old_cuts[l]);
                }
            }
            let w = id_texts(who@);
            assert forall|j: int, e: int|
                #![trigger ks.take(i + 1)[j], w[e]]
                0 <= j < ks.take(i + 1).len() && cuts[j] <= e < cuts[j + 1] implies w[e] == ks.take(i + 1)[j] by {
                if j < i {
                    assert(ks.take(i as int)[j] == ks.take(i + 1)[j]);
                    assert(cuts[j + 1] == old_cuts[j + 1]);
                    assert(old_cuts[j + 1] <= old_cuts[i as int]);
                    assert(old_who[e] == ks.take(i as int)[j]);
                }
            }
            assert(march_trace(s0, ks.take(i + 1), events@, w, states, cuts));
        }
        i = i + 1;
    }
    proof {
        assert(s0.corps.keys_view().take(n as int) =~= s0.corps.keys_view());
        assert(march_trace(s0, s0.corps.keys_view(), events@, id_texts(who@), states, cuts));
    }
    (events, who)
}

} // verus!
