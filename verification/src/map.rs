//! Strategic-map graph and pathfinding.
//!
//! Hop distance counts land edges and is found by breadth-first search.
//! Neighbour lists are kept in name order, so iteration is deterministic.

use vstd::prelude::*;

use crate::costpath::{nonneg, total};
use crate::graph::{edge_label, lists_edge, lists_name, lists_source, names_before, NamedGraph};
use crate::ids::AreaId;
use crate::scenario::Scenario;
use crate::tables::Maybe;

verus! {

/// `a` is an area of the scenario's land map: a declared area, or an end
/// of some adjacency.
pub open spec fn land_node(s: &Scenario, a: Seq<char>) -> bool {
    ||| s.areas@.contains_key(a)
    ||| exists|t: int| 0 <= t < s.adjacency@.len() && #[trigger] s.adjacency@[t].from@ == a
    ||| exists|t: int| 0 <= t < s.adjacency@.len() && #[trigger] s.adjacency@[t].to@ == a
}

/// The scenario lists an adjacency from `a` to `b`.
pub open spec fn authored_link(s: &Scenario, a: Seq<char>, b: Seq<char>) -> bool {
    exists|t: int| 0 <= t < s.adjacency@.len() && #[trigger] s.adjacency@[t].from@ == a && s.adjacency@[t].to@ == b
}

/// `a` and `b` are directly connected, in either direction: the scenario
/// lists an adjacency from `a` to `b` or from `b` to `a`.
pub open spec fn land_link(s: &Scenario, a: Seq<char>, b: Seq<char>) -> bool {
    authored_link(s, a, b) || authored_link(s, b, a)
}

/// The cost of going from `a` to `b`: the authored cost of the last
/// adjacency from `a` to `b`, or, when there is none, of the last one from
/// `b` to `a` (`None` for a placeholder or when neither exists).
pub open spec fn land_cost(s: &Scenario, a: Seq<char>, b: Seq<char>) -> Option<i32> {
    if authored_link(s, a, b) {
        last_cost(s.adjacency@, a, b)
    } else {
        last_cost(s.adjacency@, b, a)
    }
}

/// The cost of the last listed link from `a` to `b` in `es`.
pub open spec fn last_cost(es: Seq<crate::scenario::AreaAdjacency>, a: Seq<char>, b: Seq<char>) -> Option<i32>
    decreases es.len(),
{
    if es.len() == 0 {
        None
    } else if es.last().from@ == a && es.last().to@ == b {
        es.last().cost.value()
    } else {
        last_cost(es.drop_last(), a, b)
    }
}

/// A sequence of areas read as their names.
pub open spec fn area_names(p: Seq<AreaId>) -> Seq<Seq<char>> {
    p.map_values(|x: AreaId| x@)
}

/// Compiled view of a scenario's land-area topology.
pub struct MapGraph {
    pub graph: NamedGraph,
}

/// The authored value of a possibly-placeholder cost.
fn authored(m: &Maybe<i32>) -> (r: Option<i32>)
    ensures
        r == m.value(),
{
    match m {
        Maybe::Value(v) => Some(*v),
        Maybe::Placeholder(_) => None,
    }
}

proof fn lemma_label_concat(ms: Seq<(String, String, Option<i32>)>, ls: Seq<(String, String, Option<i32>)>, a: Seq<char>, b: Seq<char>)
    ensures
        edge_label(ms + ls, a, b) == if lists_edge(ls, a, b) {
            edge_label(ls, a, b)
        } else {
            edge_label(ms, a, b)
        },
    decreases ls.len(),
{
    if ls.len() == 0 {
        assert(ms + ls =~= ms);
    } else {
        assert((ms + ls).drop_last() =~= ms + ls.drop_last());
        assert((ms + ls).last() == ls.last());
        lemma_label_concat(ms, ls.drop_last(), a, b);
        if lists_edge(ls.drop_last(), a, b) {
            let t = choose|t: int| 0 <= t < ls.drop_last().len() && #[trigger] ls.drop_last()[t].0@ == a && ls.drop_last()[t].1@ == b;
            assert(ls[t] == ls.drop_last()[t]);
        }
        if lists_edge(ls, a, b) && !(ls.last().0@ == a && ls.last().1@ == b) {
            let t = choose|t: int| 0 <= t < ls.len() && #[trigger] ls[t].0@ == a && ls[t].1@ == b;
            assert(t < ls.len() - 1);
            assert(ls.drop_last()[t] == ls[t]);
        }
    }
}

proof fn lemma_last_cost_mirror(es: Seq<crate::scenario::AreaAdjacency>, ms: Seq<(String, String, Option<i32>)>, a: Seq<char>, b: Seq<char>)
    requires
        es.len() == ms.len(),
        forall|t: int|
            0 <= t < es.len() ==> (#[trigger] ms[t]).0@ == es[t].to@ && ms[t].1@ == es[t].from@ && ms[t].2
                == es[t].cost.value(),
    ensures
        edge_label(ms, a, b) == last_cost(es, b, a),
    decreases es.len(),
{
    if es.len() > 0 {
        let u = es.len() - 1;
        assert(ms[u] == ms.last());
        lemma_last_cost_mirror(es.drop_last(), ms.drop_last(), a, b);
    }
}

proof fn lemma_last_cost(es: Seq<crate::scenario::AreaAdjacency>, ls: Seq<(String, String, Option<i32>)>, a: Seq<char>, b: Seq<char>)
    requires
        es.len() == ls.len(),
        forall|t: int|
            0 <= t < es.len() ==> (#[trigger] ls[t]).0@ == es[t].from@ && ls[t].1@ == es[t].to@ && ls[t].2
                == es[t].cost.value(),
    ensures
        edge_label(ls, a, b) == last_cost(es, a, b),
    decreases es.len(),
{
    if es.len() > 0 {
        let u = es.len() - 1;
        assert(ls[u] == ls.last());
        lemma_last_cost(es.drop_last(), ls.drop_last(), a, b);
    }
}

impl MapGraph {
    /// Builds the graph of a scenario: its areas and the ends of its
    /// adjacencies are the nodes, and every adjacency is entered in both
    /// directions.  A link keeps the cost last authored in its own
    /// direction, or else the cost last authored the other way.
    pub fn from_scenario(s: &Scenario) -> (g: Self)
        ensures
            forall|a: Seq<char>| #[trigger] g.graph.is_node(a) <==> land_node(s, a),
            forall|a: Seq<char>, b: Seq<char>| #[trigger] g.graph.link(a, b) <==> land_link(s, a, b),
            g.graph.names_view().len() <= s.areas.entries_view().len() + 4 * s.adjacency@.len(),
            forall|i: int, k: int|
                #![trigger g.graph.adj_view()[i][k]]
                0 <= i < g.graph.adj_view().len() && 0 <= k < g.graph.adj_view()[i].len() ==> g.graph.labels_view()[i][k]
                    == land_cost(s, g.graph.names_view()[i], g.graph.names_view()[g.graph.adj_view()[i][k] as int]),
    {
        let mut nodes: Vec<String> = Vec::new();
        let n = s.areas.len();
        let mut i: usize = 0;
        while i < n
            invariant
                n == s.areas.entries_view().len(),
                s.areas.well_formed(),
                i <= n,
                nodes@.len() == i,
                forall|k: int| 0 <= k < i ==> (#[trigger] nodes@[k])@ == s.areas.entries_view()[k].0@,
            decreases n - i,
        {
            nodes.push(s.areas.key_at(i).clone());
            i = i + 1;
        }
        let mut mirrored: Vec<(String, String, Option<i32>)> = Vec::new();
        let mut t: usize = 0;
        while t < s.adjacency.len()
            invariant
                t <= s.adjacency@.len(),
                mirrored@.len() == t,
                forall|u: int|
                    0 <= u < t ==> (#[trigger] mirrored@[u]).0@ == s.adjacency@[u].to@ && mirrored@[u].1@
                        == s.adjacency@[u].from@ && mirrored@[u].2 == s.adjacency@[u].cost.value(),
            decreases s.adjacency@.len() - t,
        {
            let e = &s.adjacency[t];
            mirrored.push((e.to.0.clone(), e.from.0.clone(), authored(&e.cost)));
            t = t + 1;
        }
        let mut listed: Vec<(String, String, Option<i32>)> = Vec::new();
        let mut t: usize = 0;
        while t < s.adjacency.len()
            invariant
                t <= s.adjacency@.len(),
                listed@.len() == t,
                forall|u: int|
                    0 <= u < t ==> (#[trigger] listed@[u]).0@ == s.adjacency@[u].from@ && listed@[u].1@
                        == s.adjacency@[u].to@ && listed@[u].2 == s.adjacency@[u].cost.value(),
            decreases s.adjacency@.len() - t,
        {
            let e = &s.adjacency[t];
            listed.push((e.from.0.clone(), e.to.0.clone(), authored(&e.cost)));
            t = t + 1;
        }
        let ghost ms = mirrored@;
        let ghost ls = listed@;
        let mut edges = mirrored;
        let mut more = listed;
        edges.append(&mut more);
        let graph = NamedGraph::build(&nodes, &edges);
        proof {
            let es = edges@;
            assert(es =~= ms + ls);
            let m = ms.len();
            assert forall|a: Seq<char>| #[trigger] graph.is_node(a) <==> land_node(s, a) by {
                if lists_name(nodes@, a) {
                    let k = choose|k: int| 0 <= k < nodes@.len() && #[trigger] nodes@[k]@ == a;
                    assert(s.areas@.contains_key(s.areas.entries_view()[k].0@));
                }
                if s.areas@.contains_key(a) {
                    let k = choose|k: int| 0 <= k < s.areas.entries_view().len() && #[trigger] s.areas.entries_view()[k].0@ == a;
                    assert(nodes@[k]@ == a);
                }
                if lists_source(es, a) {
                    let u = choose|u: int| 0 <= u < es.len() && #[trigger] es[u].0@ == a;
                    if u < m {
                        assert(es[u] == ms[u]);
                        assert(s.adjacency@[u].to@ == a);
                    } else {
                        assert(es[u] == ls[u - m]);
                        assert(s.adjacency@[u - m].from@ == a);
                    }
                }
                if exists|u: int| 0 <= u < s.adjacency@.len() && #[trigger] s.adjacency@[u].from@ == a {
                    let u = choose|u: int| 0 <= u < s.adjacency@.len() && #[trigger] s.adjacency@[u].from@ == a;
                    assert(es[m + u] == ls[u]);
                    assert(es[m + u].0@ == a);
                }
                if exists|u: int| 0 <= u < s.adjacency@.len() && #[trigger] s.adjacency@[u].to@ == a {
                    let u = choose|u: int| 0 <= u < s.adjacency@.len() && #[trigger] s.adjacency@[u].to@ == a;
                    assert(es[u] == ms[u]);
                    assert(es[u].0@ == a);
                }
            }
            assert forall|a: Seq<char>, b: Seq<char>| #[trigger] graph.link(a, b) <==> land_link(s, a, b) by {
                if lists_edge(es, a, b) {
                    let u = choose|u: int| 0 <= u < es.len() && #[trigger] es[u].0@ == a && es[u].1@ == b;
                    if u < m {
                        assert(es[u] == ms[u]);
                        assert(s.adjacency@[u].from@ == b && s.adjacency@[u].to@ == a);
                        assert(authored_link(s, b, a));
                    } else {
                        assert(es[u] == ls[u - m]);
                        assert(s.adjacency@[u - m].from@ == a && s.adjacency@[u - m].to@ == b);
                        assert(authored_link(s, a, b));
                    }
                }
                if authored_link(s, a, b) {
                    let u = choose|u: int| 0 <= u < s.adjacency@.len() && #[trigger] s.adjacency@[u].from@ == a && s.adjacency@[u].to@ == b;
                    assert(es[m + u] == ls[u]);
                    assert(es[m + u].0@ == a && es[m + u].1@ == b);
                }
                if authored_link(s, b, a) {
                    let u = choose|u: int| 0 <= u < s.adjacency@.len() && #[trigger] s.adjacency@[u].from@ == b && s.adjacency@[u].to@ == a;
                    assert(es[u] == ms[u]);
                    assert(es[u].0@ == a && es[u].1@ == b);
                }
            }
            assert forall|a: Seq<char>, b: Seq<char>| edge_label(es, a, b) == land_cost(s, a, b) by {
                lemma_label_concat(ms, ls, a, b);
                lemma_last_cost(s.adjacency@, ls, a, b);
                lemma_last_cost_mirror(s.adjacency@, ms, a, b);
                if lists_edge(ls, a, b) {
                    let u = choose|u: int| 0 <= u < ls.len() && #[trigger] ls[u].0@ == a && ls[u].1@ == b;
                    assert(s.adjacency@[u].from@ == a && s.adjacency@[u].to@ == b);
                }
                if authored_link(s, a, b) {
                    let u = choose|u: int| 0 <= u < s.adjacency@.len() && #[trigger] s.adjacency@[u].from@ == a && s.adjacency@[u].to@ == b;
                    assert(ls[u].0@ == a && ls[u].1@ == b);
                }
            }
        }
        MapGraph { graph }
    }

    /// Number of areas in the graph.
    pub fn area_count(&self) -> (n: usize)
        ensures
            n == crate::graph::count_true(self.graph.listed_view()),
    {
        self.graph.node_count()
    }

    /// The neighbours of `area` in name order, or `None` when it is not an
    /// area of the graph.
    pub fn neighbours_of(&self, area: &AreaId) -> (r: Option<Vec<AreaId>>)
        ensures
            match r {
                None => !self.graph.is_node(area@),
                Some(v) => self.graph.is_node(area@) && self.graph.successor_list(area@, area_names(v@)),
            },
    {
        match self.graph.successors(area.as_str()) {
            None => None,
            Some(names) => {
                let mut out: Vec<AreaId> = Vec::new();
                let mut k: usize = 0;
                while k < names.len()
                    invariant
                        k <= names@.len(),
                        out@.len() == k,
                        forall|e: int| 0 <= e < k ==> (#[trigger] out@[e])@ == names@[e]@,
                    decreases names@.len() - k,
                {
                    out.push(AreaId(names[k].clone()));
                    k = k + 1;
                }
                proof {
                    assert(area_names(out@) =~= names@.map_values(|x: String| x@));
                }
                Some(out)
            },
        }
    }

    /// Whether `a` and `b` are directly connected (in either direction).
    pub fn adjacent(&self, a: &AreaId, b: &AreaId) -> (r: bool)
        ensures
            r == self.graph.link(a@, b@),
    {
        self.graph.has_link(a.as_str(), b.as_str())
    }

    /// A shortest path in hops, both ends included: of the shortest ones,
    /// the first in name order, compared area by area from `from` (the one
    /// a breadth-first search visiting neighbours in name order finds).
    /// `None` when either end is not an area or `to` cannot be reached
    /// from `from`.
    pub fn shortest_path_hops(&self, from: &AreaId, to: &AreaId) -> (r: Option<Vec<AreaId>>)
        ensures
            match r {
                None => !(self.graph.is_node(from@) && self.graph.is_node(to@) && exists|o: Seq<Seq<char>>|
                    #[trigger] self.graph.walk(o, from@, to@)),
                Some(p) => {
                    &&& self.graph.is_node(from@)
                    &&& self.graph.is_node(to@)
                    &&& self.graph.walk(area_names(p@), from@, to@)
                    &&& forall|o: Seq<Seq<char>>| #[trigger] self.graph.walk(o, from@, to@) ==> o.len() >= p@.len()
                    &&& forall|o: Seq<Seq<char>>|
                        #[trigger] self.graph.walk(o, from@, to@) && o.len() == p@.len() && o != area_names(p@)
                            ==> names_before(area_names(p@), o)
                    &&& p@.len() <= self.graph.names_view().len()
                },
            },
    {
        match self.graph.shortest_walk(from.as_str(), to.as_str()) {
            None => None,
            Some(names) => {
                let mut out: Vec<AreaId> = Vec::new();
                let mut k: usize = 0;
                while k < names.len()
                    invariant
                        k <= names@.len(),
                        out@.len() == k,
                        forall|e: int| 0 <= e < k ==> (#[trigger] out@[e])@ == names@[e]@,
                    decreases names@.len() - k,
                {
                    out.push(AreaId(names[k].clone()));
                    k = k + 1;
                }
                proof {
                    assert(area_names(out@) =~= names@.map_values(|x: String| x@));
                }
                Some(out)
            },
        }
    }

    /// The hop count of a shortest path, one less than its length.
    pub fn distance_hops(&self, from: &AreaId, to: &AreaId) -> (r: Option<i32>)
        requires
            self.graph.names_view().len() <= i32::MAX,
        ensures
            match r {
                None => !(self.graph.is_node(from@) && self.graph.is_node(to@) && exists|o: Seq<Seq<char>>|
                    #[trigger] self.graph.walk(o, from@, to@)),
                Some(d) => {
                    &&& d >= 0
                    &&& exists|o: Seq<Seq<char>>| #[trigger] self.graph.walk(o, from@, to@) && o.len() == d + 1
                    &&& forall|o: Seq<Seq<char>>| #[trigger] self.graph.walk(o, from@, to@) ==> o.len() >= d + 1
                },
            },
    {
        match self.shortest_path_hops(from, to) {
            None => None,
            Some(p) => {
                let d = (p.len() - 1) as i32;
                proof {
                    assert(self.graph.walk(area_names(p@), from@, to@));
                }
                Some(d)
            },
        }
    }
}


impl MapGraph {
    /// A cheapest path by integer edge cost, both ends included, with its
    /// cost.  Placeholder costs make an edge impassable.  `None` when
    /// either end is not an area, when `to` cannot be reached, when the
    /// search meets a negative cost, or when the cheapest cost is beyond
    /// `i32`.  With no negative cost, the path is a cheapest one, and `None`
    /// for two areas means that every path between them costs more than
    /// `i32::MAX`, or there is none.
    pub fn shortest_path_cost(&self, from: &AreaId, to: &AreaId) -> (r: Option<(i32, Vec<AreaId>)>)
        requires
            self.graph.names_view().len() <= 0x1_0000_0000,
        ensures
            r matches Some((d, p)) ==> {
                &&& self.graph.is_node(from@)
                &&& self.graph.is_node(to@)
                &&& exists|cs: Seq<int>| #[trigger] self.graph.costed_walk(area_names(p@), cs, from@, to@) && total(cs) == d
                &&& nonneg(self.graph.labels_view()) ==> forall|o: Seq<Seq<char>>, cs: Seq<int>|
                    #[trigger] self.graph.costed_walk(o, cs, from@, to@) ==> total(cs) >= d
            },
            r is None ==> !self.graph.is_node(from@) || !self.graph.is_node(to@) || (nonneg(self.graph.labels_view())
                ==> forall|o: Seq<Seq<char>>, cs: Seq<int>|
                #[trigger] self.graph.costed_walk(o, cs, from@, to@) ==> total(cs) > i32::MAX),
    {
        match self.graph.cheapest_walk(from.as_str(), to.as_str()) {
            None => None,
            Some((d, names)) => {
                let mut out: Vec<AreaId> = Vec::new();
                let mut k: usize = 0;
                while k < names.len()
                    invariant
                        k <= names@.len(),
                        out@.len() == k,
                        forall|e: int| 0 <= e < k ==> (#[trigger] out@[e])@ == names@[e]@,
                    decreases names@.len() - k,
                {
                    out.push(AreaId(names[k].clone()));
                    k = k + 1;
                }
                proof {
                    assert(area_names(out@) =~= names@.map_values(|x: String| x@));
                }
                let r = Some((d, out));
                proof {
                    assert(r matches Some((d2, p2)) && d2 == d && p2@ == out@);
                }
                r
            },
        }
    }
}
} // verus!
