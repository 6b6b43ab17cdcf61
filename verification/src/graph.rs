//! Directed graphs over node indices, and breadth-first shortest paths.
//!
//! Nodes are `0..n`; each node lists its successors.  The search visits
//! successors in list order and the frontier level by level, so the path it
//! returns is deterministic; its contract is that the path is a shortest one.

use vstd::prelude::*;

use crate::costpath::{cwalk, ints, nonneg, total, wedge, CostGraph};
use crate::strmap::{lex_lt, lemma_lex_irreflexive, lemma_lex_transitive, StrMap};

verus! {

/// A directed graph on nodes `0..adj.len()`.
pub struct IndexGraph {
    pub adj: Vec<Vec<usize>>,
}

/// Successor lists that only name existing nodes.
pub open spec fn adj_ok(adj: Seq<Seq<usize>>) -> bool {
    forall|i: int, k: int| 0 <= i < adj.len() && 0 <= k < adj[i].len() ==> (#[trigger] adj[i][k]) < adj.len()
}

/// `j` is a successor of `i`.
pub open spec fn iedge(adj: Seq<Seq<usize>>, i: int, j: int) -> bool {
    0 <= i < adj.len() && exists|k: int| 0 <= k < adj[i].len() && adj[i][k] == j
}

/// `p` is a walk from `s` to `t`: it starts at `s`, ends at `t`, and each
/// step follows an edge.
pub open spec fn ipath(adj: Seq<Seq<usize>>, p: Seq<int>, s: int, t: int) -> bool {
    &&& p.len() >= 1
    &&& p[0] == s
    &&& p.last() == t
    &&& forall|k: int| 0 <= k < p.len() - 1 ==> #[trigger] iedge(adj, p[k], p[k + 1])
}

/// `v` can be reached from `s` in at most `d` steps.
pub open spec fn within(adj: Seq<Seq<usize>>, s: int, v: int, d: int) -> bool {
    exists|p: Seq<int>| #[trigger] ipath(adj, p, s, v) && p.len() <= d + 1
}

/// `v` is exactly `d` steps away from `s`.
pub open spec fn exact(adj: Seq<Seq<usize>>, s: int, v: int, d: int) -> bool {
    within(adj, s, v, d) && !within(adj, s, v, d - 1)
}

/// `v` can be reached from `s` at all.
pub open spec fn reachable(adj: Seq<Seq<usize>>, s: int, v: int) -> bool {
    exists|p: Seq<int>| #[trigger] ipath(adj, p, s, v)
}

/// Extending a walk by one edge.
pub proof fn lemma_extend(adj: Seq<Seq<usize>>, s: int, u: int, w: int, d: int)
    requires
        within(adj, s, u, d),
        iedge(adj, u, w),
    ensures
        within(adj, s, w, d + 1),
{
    let p = choose|p: Seq<int>| #[trigger] ipath(adj, p, s, u) && p.len() <= d + 1;
    let q = p.push(w);
    assert forall|k: int| 0 <= k < q.len() - 1 implies #[trigger] iedge(adj, q[k], q[k + 1]) by {
        if k < p.len() - 1 {
            assert(q[k] == p[k] && q[k + 1] == p[k + 1]);
            assert(iedge(adj, p[k], p[k + 1]));
        } else {
            assert(q[k] == u && q[k + 1] == w);
        }
    }
    assert(ipath(adj, q, s, w));
}

/// A node first reached after `d + 1` steps has a predecessor first reached
/// after exactly `d` steps.
pub proof fn lemma_exact_pred(adj: Seq<Seq<usize>>, s: int, v: int, d: int)
    requires
        d >= 0,
        exact(adj, s, v, d + 1),
    ensures
        exists|u: int| #[trigger] exact(adj, s, u, d) && iedge(adj, u, v),
{
    let p = choose|p: Seq<int>| #[trigger] ipath(adj, p, s, v) && p.len() <= d + 2;
    if p.len() <= d + 1 {
        assert(within(adj, s, v, d));
    }
    assert(p.len() == d + 2);
    let u = p[p.len() - 2];
    let q = p.drop_last();
    assert forall|k: int| 0 <= k < q.len() - 1 implies #[trigger] iedge(adj, q[k], q[k + 1]) by {
        assert(q[k] == p[k] && q[k + 1] == p[k + 1]);
        assert(iedge(adj, p[k], p[k + 1]));
    }
    assert(ipath(adj, q, s, u));
    assert(within(adj, s, u, d));
    assert(iedge(adj, p[p.len() - 2], p[p.len() - 1]));
    if within(adj, s, u, d - 1) {
        lemma_extend(adj, s, u, v, d - 1);
    }
    assert(exact(adj, s, u, d));
}

/// If no node is exactly `d` steps away, nothing is reachable beyond `d - 1`
/// steps.
pub proof fn lemma_no_level_no_further(adj: Seq<Seq<usize>>, s: int, v: int, d: int, e: int)
    requires
        d >= 1,
        e >= d,
        forall|u: int| !#[trigger] exact(adj, s, u, d),
        within(adj, s, v, e),
    ensures
        within(adj, s, v, d - 1),
    decreases e - d,
{
    if e == d {
        assert(!exact(adj, s, v, d));
    } else {
        if !within(adj, s, v, e - 1) {
            lemma_exact_pred(adj, s, v, e - 1);
            let u = choose|u: int| #[trigger] exact(adj, s, u, e - 1) && iedge(adj, u, v);
            lemma_no_level_no_further(adj, s, u, d, e - 1);
            if e - 1 == d {
                assert(!exact(adj, s, u, d));
            }
            assert(within(adj, s, u, d - 1));
            lemma_extend(adj, s, u, v, d - 1);
            assert(within(adj, s, v, d));
            assert(!exact(adj, s, v, d));
        } else {
            lemma_no_level_no_further(adj, s, v, d, e - 1);
        }
    }
}

/// Allowing more steps keeps every node that was within reach.
pub proof fn lemma_within_mono(adj: Seq<Seq<usize>>, s: int, v: int, d: int, e: int)
    requires
        within(adj, s, v, d),
        d <= e,
    ensures
        within(adj, s, v, e),
{
    let p = choose|p: Seq<int>| #[trigger] ipath(adj, p, s, v) && p.len() <= d + 1;
    assert(ipath(adj, p, s, v) && p.len() <= e + 1);
}

/// A node has one exact distance.
pub proof fn lemma_exact_unique(adj: Seq<Seq<usize>>, s: int, v: int, a: int, b: int)
    requires
        exact(adj, s, v, a),
        exact(adj, s, v, b),
    ensures
        a == b,
{
    if a < b {
        lemma_within_mono(adj, s, v, a, b - 1);
    } else if b < a {
        lemma_within_mono(adj, s, v, b, a - 1);
    }
}

/// Any walk lies within its own length.
pub proof fn lemma_walk_within(adj: Seq<Seq<usize>>, p: Seq<int>, s: int, t: int)
    requires
        ipath(adj, p, s, t),
    ensures
        within(adj, s, t, p.len() - 1),
{
}

/// `t` can be reached from `u` in exactly `r` steps.
pub open spec fn steps_to(adj: Seq<Seq<usize>>, u: int, t: int, r: int) -> bool {
    exists|p: Seq<int>| #[trigger] ipath(adj, p, u, t) && p.len() == r + 1
}

/// `q` comes before `o` in the order of their node indices, compared
/// position by position from the start.
pub open spec fn ilex_before(q: Seq<int>, o: Seq<int>) -> bool {
    exists|j: int| 0 <= j < q.len() && j < o.len() && q.take(j) == o.take(j) && #[trigger] q[j] < o[j]
}

/// `q` is the shortest walk from `s` to `t` that comes first in the order
/// of node indices: every other walk between them is longer, or as long
/// and later in that order.
pub open spec fn first_shortest_ipath(adj: Seq<Seq<usize>>, q: Seq<int>, s: int, t: int) -> bool {
    &&& ipath(adj, q, s, t)
    &&& forall|o: Seq<int>| #[trigger] ipath(adj, o, s, t) ==> o.len() >= q.len()
    &&& forall|o: Seq<int>| #[trigger] ipath(adj, o, s, t) && o.len() == q.len() && o != q ==> ilex_before(q, o)
}

/// Zero steps reach only the start.
pub proof fn lemma_steps_zero(adj: Seq<Seq<usize>>, u: int, t: int)
    ensures
        steps_to(adj, u, t, 0) <==> u == t,
{
    if u == t {
        assert(ipath(adj, seq![u], u, t));
    }
}

/// `r + 1` steps reach `t` from `u` exactly when some successor of `u`
/// reaches it in `r`.
pub proof fn lemma_steps_succ(adj: Seq<Seq<usize>>, u: int, w: int, t: int, r: int)
    requires
        r >= 0,
        iedge(adj, u, w),
        steps_to(adj, w, t, r),
    ensures
        steps_to(adj, u, t, r + 1),
{
    let p = choose|p: Seq<int>| #[trigger] ipath(adj, p, w, t) && p.len() == r + 1;
    let q = seq![u] + p;
    assert forall|k: int| 0 <= k < q.len() - 1 implies #[trigger] iedge(adj, q[k], q[k + 1]) by {
        if k > 0 {
            let j = k - 1;
            assert(q[k] == p[j] && q[k + 1] == p[j + 1]);
            assert(iedge(adj, p[j], p[j + 1]));
        }
    }
    assert(ipath(adj, q, u, t));
}

/// A walk's suffix from position `k` is a walk to the same end.
pub proof fn lemma_suffix_steps(adj: Seq<Seq<usize>>, o: Seq<int>, s: int, t: int, k: int)
    requires
        ipath(adj, o, s, t),
        0 <= k < o.len(),
    ensures
        steps_to(adj, o[k], t, o.len() - 1 - k),
{
    let q = o.skip(k);
    assert forall|j: int| 0 <= j < q.len() - 1 implies #[trigger] iedge(adj, q[j], q[j + 1]) by {
        assert(q[j] == o[k + j] && q[j + 1] == o[k + j + 1]);
        assert(iedge(adj, o[k + j], o[k + j + 1]));
    }
    assert(ipath(adj, q, o[k], t));
}

/// Number of `true` entries in `v`.
pub open spec fn count_true(v: Seq<bool>) -> nat
    decreases v.len(),
{
    if v.len() == 0 {
        0
    } else {
        count_true(v.drop_last()) + if v.last() {
            1nat
        } else {
            0nat
        }
    }
}

pub proof fn lemma_count_bound(v: Seq<bool>)
    ensures
        count_true(v) <= v.len(),
    decreases v.len(),
{
    if v.len() > 0 {
        lemma_count_bound(v.drop_last());
    }
}

pub proof fn lemma_count_set(v: Seq<bool>, i: int)
    requires
        0 <= i < v.len(),
        !v[i],
    ensures
        count_true(v.update(i, true)) == count_true(v) + 1,
    decreases v.len(),
{
    let w = v.update(i, true);
    if i == v.len() - 1 {
        assert(w.drop_last() =~= v.drop_last());
    } else {
        assert(w.drop_last() =~= v.drop_last().update(i, true));
        lemma_count_set(v.drop_last(), i);
    }
}

/// The BFS bookkeeping: `vis` marks nodes reached, `lvl` their distance,
/// `prev` their predecessor on a shortest walk.
pub open spec fn tree_ok(
    adj: Seq<Seq<usize>>,
    s: int,
    vis: Seq<bool>,
    prev: Seq<usize>,
    lvl: Seq<int>,
) -> bool {
    let n = adj.len();
    &&& vis.len() == n
    &&& prev.len() == n
    &&& lvl.len() == n
    &&& 0 <= s < n
    &&& vis[s]
    &&& lvl[s] == 0
    &&& forall|v: int|
        0 <= v < n && #[trigger] vis[v] ==> exact(adj, s, v, lvl[v]) && lvl[v] >= 0 && (v != s ==> {
            &&& prev[v] < n
            &&& vis[prev[v] as int]
            &&& lvl[prev[v] as int] == lvl[v] - 1
            &&& iedge(adj, prev[v] as int, v)
        })
}

impl IndexGraph {
    pub open spec fn view_adj(&self) -> Seq<Seq<usize>> {
        self.adj@.map_values(|l: Vec<usize>| l@)
    }

    pub open spec fn wf(&self) -> bool {
        adj_ok(self.view_adj())
    }

    /// Walks the predecessor links back from `t` to `s`.
    fn trace_back(&self, s: usize, t: usize, prev: &Vec<usize>, Ghost(vis): Ghost<Seq<bool>>, Ghost(lvl): Ghost<Seq<int>>) -> (p: Vec<usize>)
        requires
            self.wf(),
            tree_ok(self.view_adj(), s as int, vis, prev@, lvl),
            0 <= t < self.adj@.len(),
            vis[t as int],
        ensures
            ipath(self.view_adj(), p@.map_values(|x: usize| x as int), s as int, t as int),
            p@.len() == lvl[t as int] + 1,
    {
        let ghost adj = self.view_adj();
        let mut rev: Vec<usize> = Vec::new();
        let mut cur: usize = t;
        rev.push(t);
        while cur != s
            invariant
                tree_ok(adj, s as int, vis, prev@, lvl),
                adj == self.view_adj(),
                0 <= cur < adj.len(),
                vis[cur as int],
                rev@.len() >= 1,
                rev@.len() + lvl[cur as int] == lvl[t as int] + 1,
                rev@[0] == t,
                rev@.last() == cur,
                forall|k: int| 0 <= k < rev@.len() - 1 ==> #[trigger] iedge(adj, rev@[k + 1] as int, rev@[k] as int),
            decreases lvl[cur as int],
        {
            let p = prev[cur];
            proof {
                assert(vis[cur as int]);
            }
            rev.push(p);
            cur = p;
        }
        proof {
            assert(lvl[s as int] == 0);
        }
        let n = rev.len();
        let mut out: Vec<usize> = Vec::new();
        let mut i: usize = n;
        while i > 0
            invariant
                n == rev@.len(),
                i <= n,
                out@.len() == n - i,
                forall|k: int| 0 <= k < n - i ==> out@[k] == rev@[n - 1 - k],
            decreases i,
        {
            out.push(rev[i - 1]);
            i = i - 1;
        }
        proof {
            let q = out@.map_values(|x: usize| x as int);
            assert(q[0] == s as int);
            assert(q.last() == t as int);
            assert forall|k: int| 0 <= k < q.len() - 1 implies #[trigger] iedge(adj, q[k], q[k + 1]) by {
                let j = n - 2 - k;
                assert(iedge(adj, rev@[j + 1] as int, rev@[j] as int));
                assert(out@[k] == rev@[j + 1]);
                assert(out@[k + 1] == rev@[j]);
            }
        }
        out
    }

    /// A shortest walk from `s` to `t`, or `None` when `t` cannot be
    /// reached from `s`.
    pub fn bfs(&self, s: usize, t: usize) -> (r: Option<Vec<usize>>)
        requires
            self.wf(),
            s < self.adj@.len(),
            t < self.adj@.len(),
        ensures
            match r {
                None => !reachable(self.view_adj(), s as int, t as int),
                Some(p) => {
                    let q = p@.map_values(|x: usize| x as int);
                    &&& ipath(self.view_adj(), q, s as int, t as int)
                    &&& forall|o: Seq<int>| #[trigger] ipath(self.view_adj(), o, s as int, t as int) ==> o.len() >= q.len()
                    &&& q.len() <= self.adj@.len()
                },
            },
    {
        let ghost adj = self.view_adj();
        let n = self.adj.len();
        if s == t {
            let mut p: Vec<usize> = Vec::new();
            p.push(s);
            proof {
                let q = p@.map_values(|x: usize| x as int);
                assert(q[0] == s as int);
            }
            return Some(p);
        }
        let mut vis: Vec<bool> = Vec::new();
        let mut prev: Vec<usize> = Vec::new();
        let mut j: usize = 0;
        while j < n
            invariant
                j <= n,
                vis@.len() == j,
                prev@.len() == j,
                forall|k: int| 0 <= k < j ==> !vis@[k],
            decreases n - j,
        {
            vis.push(false);
            prev.push(0);
            j = j + 1;
        }
        vis.set(s, true);
        let ghost mut lvl: Seq<int> = Seq::new(n as nat, |k: int| 0int);
        let mut frontier: Vec<usize> = Vec::new();
        frontier.push(s);
        let mut level: usize = 0;
        let mut nvis: usize = 1;
        proof {
            let p0 = seq![s as int];
            assert(ipath(adj, p0, s as int, s as int));
            assert(within(adj, s as int, s as int, 0));
            assert forall|v: int| 0 <= v < n implies (vis@[v] <==> within(adj, s as int, v, 0)) by {
                if within(adj, s as int, v, 0) {
                    let p = choose|p: Seq<int>| #[trigger] ipath(adj, p, s as int, v) && p.len() <= 1;
                    assert(p[0] == v);
                }
            }
            assert(!within(adj, s as int, s as int, -1));
            assert(tree_ok(adj, s as int, vis@, prev@, lvl));
            assert forall|v: int| 0 <= v < n && #[trigger] exact(adj, s as int, v, 0) implies frontier@.contains(v as usize) by {
                let p = choose|p: Seq<int>| #[trigger] ipath(adj, p, s as int, v) && p.len() <= 1;
                assert(p[0] == v);
                assert(frontier@[0] == s);
            }
            let v0: Seq<bool> = Seq::new(n as nat, |k: int| false);
            assert(count_true(v0) == 0) by {
                lemma_count_all_false(v0);
            }
            assert(vis@ =~= v0.update(s as int, true));
            lemma_count_set(v0, s as int);
        }
        while frontier.len() > 0
            invariant
                adj == self.view_adj(),
                adj_ok(adj),
                n == adj.len(),
                s < n,
                t < n,
                s != t,
                tree_ok(adj, s as int, vis@, prev@, lvl),
                nvis == count_true(vis@),
                level <= nvis,
                nvis <= n,
                !vis@[t as int],
                forall|v: int| 0 <= v < n ==> (#[trigger] vis@[v] <==> within(adj, s as int, v, level as int)),
                forall|v: int| 0 <= v < n && #[trigger] vis@[v] ==> lvl[v] <= level,
                forall|k: int| 0 <= k < frontier@.len() ==> (#[trigger] frontier@[k]) < n && exact(
                    adj,
                    s as int,
                    frontier@[k] as int,
                    level as int,
                ),
                forall|v: int| 0 <= v < n && #[trigger] exact(adj, s as int, v, level as int) ==> frontier@.contains(v as usize),
                frontier@.len() > 0 ==> level < nvis,
            decreases (n - nvis) * 2 + if frontier@.len() > 0 { 1int } else { 0int },
        {
            let ghost vis0 = vis@;
            let mut next: Vec<usize> = Vec::new();
            let mut fi: usize = 0;
            while fi < frontier.len()
                invariant
                    adj == self.view_adj(),
                    adj_ok(adj),
                    n == adj.len(),
                    s < n,
                    t < n,
                    s != t,
                    fi <= frontier@.len(),
                    tree_ok(adj, s as int, vis@, prev@, lvl),
                    nvis == count_true(vis@),
                    nvis <= n,
                    !vis@[t as int],
                    forall|k: int| 0 <= k < frontier@.len() ==> (#[trigger] frontier@[k]) < n && exact(
                        adj,
                        s as int,
                        frontier@[k] as int,
                        level as int,
                    ),
                    forall|v: int| 0 <= v < n ==> (vis0[v] ==> #[trigger] vis@[v]),
                    forall|v: int|
                        0 <= v < n && #[trigger] vis@[v] ==> vis0[v] || (lvl[v] == level + 1 && next@.contains(v as usize)),
                    forall|v: int| 0 <= v < n && #[trigger] vis0[v] ==> lvl[v] <= level,
                    forall|k: int| 0 <= k < next@.len() ==> (#[trigger] next@[k]) < n && vis@[next@[k] as int]
                        && !vis0[next@[k] as int],
                    forall|k: int, e: int|
                        0 <= k < fi && 0 <= e < adj[frontier@[k] as int].len() ==> #[trigger] vis@[adj[frontier@[k] as int][e] as int],
                    vis0.len() == n,
                    forall|v: int| 0 <= v < n ==> (#[trigger] vis0[v] <==> within(adj, s as int, v, level as int)),
                    next@.len() == nvis - count_true(vis0),
                    count_true(vis0) <= nvis,
                    level < count_true(vis0),
                decreases frontier@.len() - fi,
            {
                let u = frontier[fi];
                let nbrs = &self.adj[u];
                let mut e: usize = 0;
                while e < nbrs.len()
                    invariant
                        adj == self.view_adj(),
                        adj_ok(adj),
                        n == adj.len(),
                        s < n,
                        t < n,
                        s != t,
                        fi < frontier@.len(),
                        u == frontier@[fi as int],
                        u < n,
                        exact(adj, s as int, u as int, level as int),
                        nbrs@ == adj[u as int],
                        e <= nbrs@.len(),
                        tree_ok(adj, s as int, vis@, prev@, lvl),
                        nvis == count_true(vis@),
                        nvis <= n,
                        !vis@[t as int],
                        forall|k: int| 0 <= k < frontier@.len() ==> (#[trigger] frontier@[k]) < n && exact(
                            adj,
                            s as int,
                            frontier@[k] as int,
                            level as int,
                        ),
                        forall|v: int| 0 <= v < n ==> (vis0[v] ==> #[trigger] vis@[v]),
                        forall|v: int|
                            0 <= v < n && #[trigger] vis@[v] ==> vis0[v] || (lvl[v] == level + 1 && next@.contains(v as usize)),
                        forall|v: int| 0 <= v < n && #[trigger] vis0[v] ==> lvl[v] <= level,
                        forall|k: int| 0 <= k < next@.len() ==> (#[trigger] next@[k]) < n && vis@[next@[k] as int]
                            && !vis0[next@[k] as int],
                        forall|k: int, e2: int|
                            0 <= k < fi && 0 <= e2 < adj[frontier@[k] as int].len() ==> #[trigger] vis@[adj[frontier@[k] as int][e2] as int],
                        forall|e2: int| 0 <= e2 < e ==> #[trigger] vis@[adj[u as int][e2] as int],
                        vis0.len() == n,
                        forall|v: int| 0 <= v < n ==> (#[trigger] vis0[v] <==> within(adj, s as int, v, level as int)),
                        next@.len() == nvis - count_true(vis0),
                        count_true(vis0) <= nvis,
                        level < count_true(vis0),
                    decreases nbrs@.len() - e,
                {
                    let v = nbrs[e];
                    proof {
                        assert(adj[u as int][e as int] == v);
                    }
                    if !vis[v] {
                        proof {
                            assert(iedge(adj, u as int, v as int));
                            lemma_extend(adj, s as int, u as int, v as int, level as int);
                            assert(!vis0[v as int]);
                            assert(!within(adj, s as int, v as int, level as int));
                            lemma_count_set(vis@, v as int);
                            lemma_count_bound(vis@.update(v as int, true));
                        }
                        let ghost vis_before = vis@;
                        vis.set(v, true);
                        prev.set(v, u);
                        proof {
                            lvl = lvl.update(v as int, level + 1);
                            assert forall|x: int| 0 <= x < n && #[trigger] vis@[x] implies exact(adj, s as int, x, lvl[x]) && lvl[x] >= 0 && (x != s ==> {
                                &&& prev@[x] < n
                                &&& vis@[prev@[x] as int]
                                &&& lvl[prev@[x] as int] == lvl[x] - 1
                                &&& iedge(adj, prev@[x] as int, x)
                            }) by {
                                if x != v as int {
                                    assert(vis_before[x]);
                                    if x != s as int {
                                        let px = prev@[x] as int;
                                        assert(vis_before[px]);
                                        if px == v as int {
                                            assert(false);
                                        }
                                    }
                                } else {
                                    assert(vis0[u as int]);
                                    assert(vis_before[u as int]);
                                    lemma_exact_unique(adj, s as int, u as int, lvl[u as int], level as int);
                                }
                            }
                        }
                        if v == t {
                            let p = self.trace_back(s, t, &prev, Ghost(vis@), Ghost(lvl));
                            proof {
                                let q = p@.map_values(|x: usize| x as int);
                                assert forall|o: Seq<int>| #[trigger] ipath(adj, o, s as int, t as int) implies o.len() >= q.len() by {
                                    if o.len() < q.len() {
                                        lemma_walk_within(adj, o, s as int, t as int);
                                        assert(within(adj, s as int, t as int, level as int));
                                    }
                                }
                            }
                            return Some(p);
                        }
                        let ghost next_before = next@;
                        next.push(v);
                        nvis = nvis + 1;
                        proof {
                            assert forall|x: int| 0 <= x < n && #[trigger] vis@[x] implies vis0[x] || (lvl[x] == level + 1 && next@.contains(x as usize)) by {
                                if x != v as int {
                                    assert(vis_before[x]);
                                    if !vis0[x] {
                                        let k = choose|k: int| 0 <= k < next_before.len() && next_before[k] == x as usize;
                                        assert(next@[k] == x as usize);
                                    }
                                } else {
                                    assert(next@[next@.len() - 1] == v);
                                }
                            }
                        }
                    }
                    e = e + 1;
                }
                fi = fi + 1;
            }
            proof {
                // Every node reached in one more step is now marked.
                assert forall|v: int| 0 <= v < n implies (#[trigger] vis@[v] <==> within(adj, s as int, v, level + 1)) by {
                    if vis@[v] {
                        if !vis0[v] {
                            assert(lvl[v] == level + 1);
                        } else {
                            let p = choose|p: Seq<int>| #[trigger] ipath(adj, p, s as int, v) && p.len() <= level + 1;
                        }
                    } else if within(adj, s as int, v, level + 1) {
                        assert(!vis0[v]);
                        assert(exact(adj, s as int, v, level + 1));
                        lemma_exact_pred(adj, s as int, v, level as int);
                        let w = choose|w: int| #[trigger] exact(adj, s as int, w, level as int) && iedge(adj, w, v);
                        let k = choose|k: int| 0 <= k < adj[w].len() && adj[w][k] == v;
                        assert(w < n);
                        let fk = choose|fk: int| 0 <= fk < frontier@.len() && frontier@[fk] == w as usize;
                        assert(vis@[adj[frontier@[fk] as int][k] as int]);
                    }
                }
                assert forall|k: int| 0 <= k < next@.len() implies (#[trigger] next@[k]) < n && exact(
                    adj,
                    s as int,
                    next@[k] as int,
                    level + 1,
                ) by {
                    let x = next@[k] as int;
                    assert(vis@[x] && !vis0[x]);
                }
                assert forall|v: int| 0 <= v < n && #[trigger] exact(adj, s as int, v, level + 1) implies next@.contains(v as usize) by {
                    assert(vis@[v]);
                    assert(!vis0[v]);
                }
                if next@.len() == 0 {
                    assert forall|v: int| !#[trigger] exact(adj, s as int, v, level + 1) by {
                        if exact(adj, s as int, v, level + 1) {
                            lemma_exact_pred(adj, s as int, v, level as int);
                            let w = choose|w: int| #[trigger] exact(adj, s as int, w, level as int) && iedge(adj, w, v);
                            assert(0 <= w < n);
                            assert(v < n) by {
                                let k = choose|k: int| 0 <= k < adj[w].len() && adj[w][k] == v;
                            }
                            assert(next@.contains(v as usize));
                        }
                    }
                }
                lemma_count_bound(vis@);
            }
            frontier = next;
            level = level + 1;
        }
        proof {
            assert forall|p: Seq<int>| !#[trigger] ipath(adj, p, s as int, t as int) by {
                if ipath(adj, p, s as int, t as int) {
                    lemma_walk_within(adj, p, s as int, t as int);
                    if level == 0 {
                        assert(frontier@.len() > 0);
                    }
                    assert forall|u: int| !#[trigger] exact(adj, s as int, u, level as int) by {
                        if exact(adj, s as int, u, level as int) {
                            assert(0 <= u < n) by {
                                let q = choose|q: Seq<int>| #[trigger] ipath(adj, q, s as int, u) && q.len() <= level + 1;
                                if q.len() > 1 {
                                    let a = q[q.len() - 2];
                                    let b = q[q.len() - 1];
                                    assert(iedge(adj, a, b));
                                    let k = choose|k: int| 0 <= k < adj[a].len() && adj[a][k] == b;
                                }
                            }
                            assert(frontier@.contains(u as usize));
                        }
                    }
                    if p.len() - 1 >= level {
                        lemma_no_level_no_further(adj, s as int, t as int, level as int, p.len() - 1);
                    }
                    assert(within(adj, s as int, t as int, level as int));
                }
            }
        }
        None
    }
}

proof fn lemma_count_all_false(v: Seq<bool>)
    requires
        forall|k: int| 0 <= k < v.len() ==> !v[k],
    ensures
        count_true(v) == 0,
    decreases v.len(),
{
    if v.len() > 0 {
        lemma_count_all_false(v.drop_last());
    }
}


impl IndexGraph {
    /// For each node, whether it reaches `t` in exactly `r` steps, given
    /// the same for `r - 1`.
    fn step_back(&self, row: &Vec<bool>, t: usize, r: usize) -> (out: Vec<bool>)
        requires
            self.wf(),
            adj_ok(self.view_adj()),
            r >= 1,
            row@.len() == self.view_adj().len(),
            forall|v: int| 0 <= v < row@.len() ==> (#[trigger] row@[v] <==> steps_to(self.view_adj(), v, t as int, r - 1)),
        ensures
            out@.len() == self.view_adj().len(),
            forall|v: int| 0 <= v < out@.len() ==> (#[trigger] out@[v] <==> steps_to(self.view_adj(), v, t as int, r as int)),
    {
        let ghost adj = self.view_adj();
        let n = self.adj.len();
        let mut out: Vec<bool> = Vec::new();
        let mut u: usize = 0;
        while u < n
            invariant
                adj == self.view_adj(),
                adj_ok(adj),
                n == adj.len(),
                r >= 1,
                row@.len() == n,
                forall|v: int| 0 <= v < n ==> (#[trigger] row@[v] <==> steps_to(adj, v, t as int, r - 1)),
                u <= n,
                out@.len() == u,
                forall|v: int| 0 <= v < u ==> (#[trigger] out@[v] <==> steps_to(adj, v, t as int, r as int)),
            decreases n - u,
        {
            let nbrs = &self.adj[u];
            let mut found = false;
            let mut e: usize = 0;
            while e < nbrs.len()
                invariant
                    adj == self.view_adj(),
                    adj_ok(adj),
                    n == adj.len(),
                    u < n,
                    r >= 1,
                    row@.len() == n,
                    forall|v: int| 0 <= v < n ==> (#[trigger] row@[v] <==> steps_to(adj, v, t as int, r - 1)),
                    nbrs@ == adj[u as int],
                    e <= nbrs@.len(),
                    found ==> steps_to(adj, u as int, t as int, r as int),
                    !found ==> forall|e2: int| 0 <= e2 < e ==> !steps_to(adj, #[trigger] adj[u as int][e2] as int, t as int, r - 1),
                decreases nbrs@.len() - e,
            {
                let w = nbrs[e];
                proof {
                    assert(adj[u as int][e as int] == w);
                    assert(w < n);
                }
                if row[w] {
                    proof {
                        assert(iedge(adj, u as int, w as int));
                        lemma_steps_succ(adj, u as int, w as int, t as int, r - 1);
                    }
                    found = true;
                }
                e = e + 1;
            }
            proof {
                if !found && steps_to(adj, u as int, t as int, r as int) {
                    let p = choose|p: Seq<int>| #[trigger] ipath(adj, p, u as int, t as int) && p.len() == r + 1;
                    let z: int = 0;
                    let w = p[1];
                    assert(iedge(adj, p[z], p[z + 1]));
                    let e2 = choose|e2: int| 0 <= e2 < adj[u as int].len() && adj[u as int][e2] == w;
                    lemma_suffix_steps(adj, p, u as int, t as int, 1);
                    assert(!steps_to(adj, adj[u as int][e2] as int, t as int, r - 1));
                }
            }
            out.push(found);
            u = u + 1;
        }
        out
    }

    /// The shortest walk from `s` to `t` that comes first in the order of
    /// node indices, or `None` when `t` cannot be reached from `s`.  With
    /// successors listed in increasing order, this is the walk a
    /// breadth-first search visiting successors in list order finds.
    pub fn first_shortest(&self, s: usize, t: usize) -> (r: Option<Vec<usize>>)
        requires
            self.wf(),
            s < self.adj@.len(),
            t < self.adj@.len(),
            forall|i: int| 0 <= i < self.view_adj().len() ==> increasing(#[trigger] self.view_adj()[i]),
        ensures
            match r {
                None => !reachable(self.view_adj(), s as int, t as int),
                Some(p) => {
                    &&& first_shortest_ipath(self.view_adj(), ints(p@), s as int, t as int)
                    &&& p@.len() <= self.adj@.len()
                },
            },
    {
        let ghost adj = self.view_adj();
        proof {
            assert(adj_ok(adj));
        }
        let bound = match self.bfs(s, t) {
            None => {
                return None;
            },
            Some(p) => p.len(),
        };
        let len = bound - 1;
        // rows[r][v]: v reaches t in exactly r steps.
        let n = self.adj.len();
        let mut rows: Vec<Vec<bool>> = Vec::new();
        let mut row0: Vec<bool> = Vec::new();
        let mut v: usize = 0;
        while v < n
            invariant
                n == adj.len(),
                v <= n,
                row0@.len() == v,
                forall|x: int| 0 <= x < v ==> (#[trigger] row0@[x] <==> steps_to(adj, x, t as int, 0)),
            decreases n - v,
        {
            proof {
                lemma_steps_zero(adj, v as int, t as int);
            }
            row0.push(v == t);
            v = v + 1;
        }
        rows.push(row0);
        let mut r: usize = 1;
        while r <= len
            invariant
                adj == self.view_adj(),
                self.wf(),
                adj_ok(adj),
                n == adj.len(),
                1 <= r <= len + 1,
                len < bound,
                rows@.len() == r,
                forall|k: int| 0 <= k < r ==> (#[trigger] rows@[k])@.len() == n,
                forall|k: int, x: int| 0 <= k < r && 0 <= x < n ==> ((#[trigger] rows@[k]@[x]) <==> steps_to(adj, x, t as int, k)),
            decreases len + 1 - r,
        {
            let next = self.step_back(&rows[r - 1], t, r);
            rows.push(next);
            r = r + 1;
        }
        // Walk forward, taking at each step the first successor that can
        // still reach `t` in the steps left.
        let mut path: Vec<usize> = Vec::new();
        path.push(s);
        let mut cur: usize = s;
        let mut k: usize = 1;
        proof {
            let b = choose|b: Seq<int>| #[trigger] ipath(adj, b, s as int, t as int) && b.len() == len + 1;
            lemma_suffix_steps(adj, b, s as int, t as int, 0);
            assert forall|o: Seq<int>| #[trigger] ipath(adj, o, s as int, t as int) && o.len() == len + 1 implies
                o.take(1) == ints(path@) || ilex_before(ints(path@), o) by {
                assert(o.take(1) =~= ints(path@));
            }
        }
        while k <= len
            invariant
                adj == self.view_adj(),
                adj_ok(adj),
                n == adj.len(),
                s < n && t < n,
                1 <= k <= len + 1,
                len < bound,
                rows@.len() == len + 1,
                forall|j: int| 0 <= j <= len ==> (#[trigger] rows@[j])@.len() == n,
                forall|j: int, x: int| 0 <= j <= len && 0 <= x < n ==> ((#[trigger] rows@[j]@[x]) <==> steps_to(adj, x, t as int, j)),
                forall|i: int| 0 <= i < adj.len() ==> increasing(#[trigger] adj[i]),
                path@.len() == k,
                cur < n,
                path@[k - 1] == cur,
                path@[0] == s,
                forall|j: int| 0 <= j < k - 1 ==> #[trigger] iedge(adj, path@[j] as int, path@[j + 1] as int),
                forall|j: int| 0 <= j < k ==> (#[trigger] path@[j]) < n,
                steps_to(adj, cur as int, t as int, len + 1 - k),
                forall|o: Seq<int>| #[trigger] ipath(adj, o, s as int, t as int) && o.len() == len + 1 ==>
                    o.take(k as int) == ints(path@) || ilex_before(ints(path@), o),
            decreases len + 1 - k,
        {
            let ghost rem = len - k;
            let nbrs = &self.adj[cur];
            let row = &rows[len - k];
            proof {
                // Some successor of `cur` can reach `t` in the steps left.
                let b = choose|b: Seq<int>| #[trigger] ipath(adj, b, cur as int, t as int) && b.len() == len + 2 - k;
                let z: int = 0;
                assert(iedge(adj, b[z], b[z + 1]));
                lemma_suffix_steps(adj, b, cur as int, t as int, 1);
            }
            let mut e: usize = 0;
            while e < nbrs.len() && !row[nbrs[e]]
                invariant
                    adj_ok(adj),
                    n == adj.len(),
                    cur < n,
                    nbrs@ == adj[cur as int],
                    row@.len() == n,
                    e <= nbrs@.len(),
                    forall|e2: int| 0 <= e2 < e ==> !row@[#[trigger] nbrs@[e2] as int],
                decreases nbrs@.len() - e,
            {
                e = e + 1;
            }
            proof {
                if e == nbrs.len() {
                    let b = choose|b: Seq<int>| #[trigger] ipath(adj, b, cur as int, t as int) && b.len() == len + 2 - k;
                    let z: int = 0;
                    assert(iedge(adj, b[z], b[z + 1]));
                    let e2 = choose|e2: int| 0 <= e2 < adj[cur as int].len() && adj[cur as int][e2] == b[1];
                    lemma_suffix_steps(adj, b, cur as int, t as int, 1);
                    assert(row@[nbrs@[e2] as int]);
                    assert(false);
                }
            }
            let w = nbrs[e];
            proof {
                assert(adj[cur as int][e as int] == w);
                assert(w < n);
                assert(row@[w as int]);
                assert(iedge(adj, cur as int, w as int));
            }
            let ghost before = ints(path@);
            path.push(w);
            proof {
                let after = ints(path@);
                assert(after =~= before.push(w as int));
                assert forall|o: Seq<int>| #[trigger] ipath(adj, o, s as int, t as int) && o.len() == len + 1 implies
                    o.take(k + 1) == after || ilex_before(after, o) by {
                    if o.take(k as int) == before {
                        let j: int = k - 1;
                        assert(o[j] == before[j]);
                        assert(iedge(adj, o[j], o[j + 1]));
                        lemma_suffix_steps(adj, o, s as int, t as int, k as int);
                        let e2 = choose|e2: int| 0 <= e2 < adj[cur as int].len() && adj[cur as int][e2] == o[k as int];
                        assert(row@[nbrs@[e2] as int]);
                        assert(e <= e2);
                        if e < e2 {
                            assert(adj[cur as int][e as int] < adj[cur as int][e2]);
                        }
                        if o[k as int] == w as int {
                            assert(o.take(k + 1) =~= after);
                        } else {
                            assert(after.take(k as int) =~= o.take(k as int));
                            assert(after[k as int] < o[k as int]);
                        }
                    } else {
                        let j = choose|j: int| 0 <= j < before.len() && j < o.len() && before.take(j) == o.take(j) && #[trigger] before[j] < o[j];
                        assert(after.take(j) =~= before.take(j));
                        assert(after[j] == before[j]);
                    }
                }
            }
            cur = w;
            k = k + 1;
        }
        proof {
            let q = ints(path@);
            lemma_steps_zero(adj, cur as int, t as int);
            assert(q[0] == s as int);
            assert(q.last() == t as int);
            assert forall|j: int| 0 <= j < q.len() - 1 implies #[trigger] iedge(adj, q[j], q[j + 1]) by {
                assert(iedge(adj, path@[j] as int, path@[j + 1] as int));
            }
            assert(ipath(adj, q, s as int, t as int));
            assert forall|o: Seq<int>| #[trigger] ipath(adj, o, s as int, t as int) && o.len() == q.len() && o != q implies ilex_before(q, o) by {
                if o.take(k as int) == q {
                    assert(o =~= o.take(k as int));
                }
            }
        }
        Some(path)
    }
}

/// The label of the last edge from `a` to `b` in `es`.
pub open spec fn edge_label(es: Seq<(String, String, Option<i32>)>, a: Seq<char>, b: Seq<char>) -> Option<i32>
    decreases es.len(),
{
    if es.len() == 0 {
        None
    } else if es.last().0@ == a && es.last().1@ == b {
        es.last().2
    } else {
        edge_label(es.drop_last(), a, b)
    }
}

/// The label of the last index pair `(i, j)` in `ps`.
pub open spec fn pair_label(ps: Seq<(usize, usize, Option<i32>)>, i: int, j: int) -> Option<i32>
    decreases ps.len(),
{
    if ps.len() == 0 {
        None
    } else if ps.last().0 == i && ps.last().1 == j {
        ps.last().2
    } else {
        pair_label(ps.drop_last(), i, j)
    }
}

/// `es` lists some edge from `a` to `b`.
pub open spec fn lists_edge(es: Seq<(String, String, Option<i32>)>, a: Seq<char>, b: Seq<char>) -> bool {
    exists|t: int| 0 <= t < es.len() && #[trigger] es[t].0@ == a && es[t].1@ == b
}

/// `a` is named in `ns`.
pub open spec fn lists_name(ns: Seq<String>, a: Seq<char>) -> bool {
    exists|t: int| 0 <= t < ns.len() && #[trigger] ns[t]@ == a
}

/// `a` is the source of some edge in `es`.
pub open spec fn lists_source(es: Seq<(String, String, Option<i32>)>, a: Seq<char>) -> bool {
    exists|t: int| 0 <= t < es.len() && #[trigger] es[t].0@ == a
}

/// `a` is the target of some edge in `es`.
pub open spec fn lists_target(es: Seq<(String, String, Option<i32>)>, a: Seq<char>) -> bool {
    exists|t: int| 0 <= t < es.len() && #[trigger] es[t].1@ == a
}

/// Strictly increasing.
pub open spec fn increasing(v: Seq<usize>) -> bool {
    forall|a: int, b: int| 0 <= a < b < v.len() ==> #[trigger] v[a] < #[trigger] v[b]
}

/// Inserts `j` with label `l` into the sorted row, or relabels it when
/// present.
fn insert_sorted(row: &mut Vec<usize>, lab: &mut Vec<Option<i32>>, j: usize, l: Option<i32>)
    requires
        increasing(old(row)@),
        old(lab)@.len() == old(row)@.len(),
    ensures
        increasing(final(row)@),
        final(lab)@.len() == final(row)@.len(),
        forall|x: usize| #[trigger] final(row)@.contains(x) <==> (old(row)@.contains(x) || x == j),
        forall|k: int| 0 <= k < final(row)@.len() && #[trigger] final(row)@[k] == j ==> final(lab)@[k] == l,
        forall|k: int|
            0 <= k < final(row)@.len() && #[trigger] final(row)@[k] != j ==> exists|k0: int|
                0 <= k0 < old(row)@.len() && old(row)@[k0] == final(row)@[k] && #[trigger] old(lab)@[k0] == final(lab)@[k],
{
    let mut p: usize = 0;
    while p < row.len() && row[p] < j
        invariant
            p <= row@.len(),
            forall|k: int| 0 <= k < p ==> #[trigger] row@[k] < j,
        decreases row@.len() - p,
    {
        p = p + 1;
    }
    if p < row.len() && row[p] == j {
        let ghost r0 = row@;
        let ghost l0 = lab@;
        lab.set(p, l);
        proof {
            assert forall|k: int|
                0 <= k < row@.len() && #[trigger] row@[k] != j implies exists|k0: int|
                    0 <= k0 < r0.len() && r0[k0] == row@[k] && #[trigger] l0[k0] == lab@[k] by {
                assert(l0[k] == lab@[k]);
            }
        }
    } else {
        let ghost r0 = row@;
        let ghost l0 = lab@;
        row.insert(p, j);
        lab.insert(p, l);
        proof {
            assert forall|a: int, b: int| 0 <= a < b < row@.len() implies #[trigger] row@[a] < #[trigger] row@[b] by {
                if b < p {
                } else if b == p {
                    assert(row@[a] == r0[a]);
                } else if a == p {
                    assert(row@[b] == r0[b - 1]);
                    assert(r0[p as int] >= j);
                    if b - 1 > p {
                        assert(r0[p as int] < r0[b - 1]);
                    }
                    assert(r0[p as int] != j);
                } else if a < p {
                    assert(row@[b] == r0[b - 1]);
                    assert(row@[a] == r0[a]);
                } else {
                    assert(row@[a] == r0[a - 1]);
                    assert(row@[b] == r0[b - 1]);
                }
            }
            assert forall|x: usize| #[trigger] row@.contains(x) <==> (r0.contains(x) || x == j) by {
                if row@.contains(x) {
                    let k = choose|k: int| 0 <= k < row@.len() && row@[k] == x;
                    if k < p {
                        assert(r0[k] == x);
                    } else if k > p {
                        assert(r0[k - 1] == x);
                    }
                }
                if r0.contains(x) {
                    let k = choose|k: int| 0 <= k < r0.len() && r0[k] == x;
                    if k < p {
                        assert(row@[k] == x);
                    } else {
                        assert(row@[k + 1] == x);
                    }
                }
                if x == j {
                    assert(row@[p as int] == x);
                }
            }
            assert forall|k: int|
                0 <= k < row@.len() && #[trigger] row@[k] != j implies exists|k0: int|
                    0 <= k0 < r0.len() && r0[k0] == row@[k] && #[trigger] l0[k0] == lab@[k] by {
                if k < p {
                    assert(l0[k] == lab@[k]);
                } else {
                    assert(k != p);
                    assert(l0[k - 1] == lab@[k]);
                }
            }
            assert forall|k: int| 0 <= k < row@.len() && #[trigger] row@[k] == j implies lab@[k] == l by {
                if k < p {
                    assert(r0[k] < j);
                } else if k > p {
                    assert(r0[k - 1] == j);
                    assert(r0[p as int] != j);
                    if k - 1 > p {
                        assert(r0[p as int] < r0[k - 1]);
                    }
                }
            }
        }
    }
}

/// A directed graph whose nodes are named by strings, with an optional
/// integer label on each edge.  Nodes are held in name order, and each
/// node's successors in name order as well.
pub struct NamedGraph {
    names: Vec<String>,
    listed: Vec<bool>,
    graph: IndexGraph,
    labels: Vec<Vec<Option<i32>>>,
}

impl NamedGraph {
    /// Every name the graph knows, in increasing order.
    pub closed spec fn names_view(&self) -> Seq<Seq<char>> {
        self.names@.map_values(|s: String| s@)
    }

    /// Which names are nodes in their own right (as opposed to names only
    /// reached as edge targets).
    pub closed spec fn listed_view(&self) -> Seq<bool> {
        self.listed@
    }

    /// Successor indices of each name.
    pub closed spec fn adj_view(&self) -> Seq<Seq<usize>> {
        self.graph.view_adj()
    }

    /// Labels parallel to the successor lists.
    pub closed spec fn labels_view(&self) -> Seq<Seq<Option<i32>>> {
        self.labels@.map_values(|l: Vec<Option<i32>>| l@)
    }

    /// The shape every graph keeps.
    pub open spec fn wf(&self) -> bool {
        let n = self.names_view().len();
        &&& self.listed_view().len() == n
        &&& self.adj_view().len() == n
        &&& self.labels_view().len() == n
        &&& adj_ok(self.adj_view())
        &&& forall|i: int, j: int|
            0 <= i < j < n ==> lex_lt(#[trigger] self.names_view()[i], #[trigger] self.names_view()[j])
        &&& forall|i: int, j: int|
            0 <= i < n && 0 <= j < n && i != j ==> #[trigger] self.names_view()[i] != #[trigger] self.names_view()[j]
        &&& forall|i: int| 0 <= i < n ==> increasing(#[trigger] self.adj_view()[i])
        &&& forall|i: int| 0 <= i < n ==> (#[trigger] self.labels_view()[i]).len() == self.adj_view()[i].len()
        &&& forall|i: int| 0 <= i < n && (#[trigger] self.adj_view()[i]).len() > 0 ==> self.listed_view()[i]
    }

    #[verifier::type_invariant]
    closed spec fn inv(&self) -> bool {
        &&& self.wf()
        &&& self.graph.wf()
        &&& self.names@.len() == self.graph.adj@.len()
        &&& self.labels@.len() == self.graph.adj@.len()
    }

    /// `a` is a node of the graph.
    pub open spec fn is_node(&self, a: Seq<char>) -> bool {
        exists|i: int| 0 <= i < self.names_view().len() && #[trigger] self.names_view()[i] == a && self.listed_view()[i]
    }

    /// There is an edge from `a` to `b`.
    pub open spec fn link(&self, a: Seq<char>, b: Seq<char>) -> bool {
        exists|i: int, k: int|
            #![trigger self.adj_view()[i][k]]
            0 <= i < self.adj_view().len() && 0 <= k < self.adj_view()[i].len() && self.names_view()[i] == a
                && self.names_view()[self.adj_view()[i][k] as int] == b
    }

    /// `p` is a walk from `a` to `b` along edges.
    pub open spec fn walk(&self, p: Seq<Seq<char>>, a: Seq<char>, b: Seq<char>) -> bool {
        &&& p.len() >= 1
        &&& p[0] == a
        &&& p.last() == b
        &&& forall|k: int| 0 <= k < p.len() - 1 ==> #[trigger] self.link(p[k], p[k + 1])
    }

    /// Builds the graph whose nodes are the names in `nodes` and the sources
    /// of `edges`, and whose edges are `edges`; a repeated edge keeps the
    /// label it was given last.
    pub fn build(nodes: &Vec<String>, edges: &Vec<(String, String, Option<i32>)>) -> (g: Self)
        ensures
            forall|a: Seq<char>| #[trigger] g.is_node(a) <==> (lists_name(nodes@, a) || lists_source(edges@, a)),
            forall|a: Seq<char>, b: Seq<char>| #[trigger] g.link(a, b) <==> lists_edge(edges@, a, b),
            forall|i: int| 0 <= i < g.names_view().len() ==> (lists_name(nodes@, #[trigger] g.names_view()[i])
                || lists_source(edges@, g.names_view()[i]) || lists_target(edges@, g.names_view()[i])),
            forall|i: int, k: int|
                #![trigger g.adj_view()[i][k]]
                0 <= i < g.adj_view().len() && 0 <= k < g.adj_view()[i].len() ==> g.labels_view()[i][k]
                    == edge_label(edges@, g.names_view()[i], g.names_view()[g.adj_view()[i][k] as int]),
            g.wf(),
            g.names_view().len() <= nodes@.len() + 2 * edges@.len(),
    {
        let mut table: StrMap<bool> = StrMap::new();
        let mut t: usize = 0;
        while t < nodes.len()
            invariant
                t <= nodes@.len(),
                table.well_formed(),
                table.entries_view().len() <= t,
                forall|a: Seq<char>| #[trigger] table@.contains_key(a) <==> lists_name(nodes@.take(t as int), a),
                forall|a: Seq<char>| #[trigger] table@.contains_key(a) ==> table@[a],
            decreases nodes@.len() - t,
        {
            table.insert(nodes[t].clone(), true);
            proof {
                assert forall|a: Seq<char>| #[trigger] table@.contains_key(a) <==> lists_name(nodes@.take(t + 1), a) by {
                    if lists_name(nodes@.take(t + 1), a) {
                        let u = choose|u: int| 0 <= u < t + 1 && #[trigger] nodes@.take(t + 1)[u]@ == a;
                        if u < t {
                            assert(nodes@.take(t as int)[u]@ == a);
                        }
                    }
                    if lists_name(nodes@.take(t as int), a) {
                        let u = choose|u: int| 0 <= u < t && #[trigger] nodes@.take(t as int)[u]@ == a;
                        assert(nodes@.take(t + 1)[u]@ == a);
                    }
                    if a == nodes@[t as int]@ {
                        assert(nodes@.take(t + 1)[t as int]@ == a);
                    }
                }
            }
            t = t + 1;
        }
        proof {
            assert(nodes@.take(nodes@.len() as int) =~= nodes@);
        }
        let mut t: usize = 0;
        while t < edges.len()
            invariant
                t <= edges@.len(),
                table.well_formed(),
                table.entries_view().len() <= nodes@.len() + 2 * t,
                forall|a: Seq<char>|
                    #[trigger] table@.contains_key(a) <==> (lists_name(nodes@, a) || lists_source(edges@.take(t as int), a)
                        || lists_target(edges@.take(t as int), a)),
                forall|a: Seq<char>|
                    #[trigger] table@.contains_key(a) ==> (table@[a] <==> (lists_name(nodes@, a) || lists_source(
                        edges@.take(t as int),
                        a,
                    ))),
            decreases edges@.len() - t,
        {
            let ghost pre = edges@.take(t as int);
            let ghost post = edges@.take(t + 1);
            proof {
                assert forall|a: Seq<char>| lists_source(post, a) <==> (lists_source(pre, a) || a == edges@[t as int].0@) by {
                    if lists_source(post, a) {
                        let u = choose|u: int| 0 <= u < post.len() && #[trigger] post[u].0@ == a;
                        if u < t {
                            assert(pre[u].0@ == a);
                        }
                    }
                    if lists_source(pre, a) {
                        let u = choose|u: int| 0 <= u < pre.len() && #[trigger] pre[u].0@ == a;
                        assert(post[u].0@ == a);
                    }
                    if a == edges@[t as int].0@ {
                        assert(post[t as int].0@ == a);
                    }
                }
                assert forall|a: Seq<char>| lists_target(post, a) <==> (lists_target(pre, a) || a == edges@[t as int].1@) by {
                    if lists_target(post, a) {
                        let u = choose|u: int| 0 <= u < post.len() && #[trigger] post[u].1@ == a;
                        if u < t {
                            assert(pre[u].1@ == a);
                        }
                    }
                    if lists_target(pre, a) {
                        let u = choose|u: int| 0 <= u < pre.len() && #[trigger] pre[u].1@ == a;
                        assert(post[u].1@ == a);
                    }
                    if a == edges@[t as int].1@ {
                        assert(post[t as int].1@ == a);
                    }
                }
            }
            table.insert(edges[t].0.clone(), true);
            if !table.contains_key(edges[t].1.as_str()) {
                table.insert(edges[t].1.clone(), false);
            }
            t = t + 1;
        }
        proof {
            assert(edges@.take(edges@.len() as int) =~= edges@);
        }
        // Names and flags, in key order.
        let n = table.len();
        let mut names: Vec<String> = Vec::new();
        let mut listed: Vec<bool> = Vec::new();
        let mut i: usize = 0;
        while i < n
            invariant
                n == table.entries_view().len(),
                table.well_formed(),
                i <= n,
                names@.len() == i,
                listed@.len() == i,
                forall|k: int| 0 <= k < i ==> (#[trigger] names@[k])@ == table.entries_view()[k].0@,
                forall|k: int| 0 <= k < i ==> #[trigger] listed@[k] == table.entries_view()[k].1,
            decreases n - i,
        {
            names.push(table.key_at(i).clone());
            listed.push(*table.value_at(i));
            i = i + 1;
        }
        // Each edge as a pair of indices.
        let mut ps: Vec<(usize, usize, Option<i32>)> = Vec::new();
        let mut t: usize = 0;
        while t < edges.len()
            invariant
                n == table.entries_view().len(),
                table.well_formed(),
                names@.len() == n,
                forall|k: int| 0 <= k < n ==> (#[trigger] names@[k])@ == table.entries_view()[k].0@,
                forall|a: Seq<char>|
                    #[trigger] table@.contains_key(a) <==> (lists_name(nodes@, a) || lists_source(edges@, a)
                        || lists_target(edges@, a)),
                t <= edges@.len(),
                ps@.len() == t,
                forall|u: int|
                    0 <= u < t ==> (#[trigger] ps@[u]).0 < n && ps@[u].1 < n && names@[ps@[u].0 as int]@ == edges@[u].0@
                        && names@[ps@[u].1 as int]@ == edges@[u].1@ && ps@[u].2 == edges@[u].2,
            decreases edges@.len() - t,
        {
            proof {
                assert(edges@[t as int].0@ == edges@[t as int].0@);
                assert(lists_source(edges@, edges@[t as int].0@));
                assert(lists_target(edges@, edges@[t as int].1@));
            }
            let fi = match table.find(edges[t].0.as_str()) {
                Some(x) => x,
                None => {
                    proof {
                        assert(false);
                    }
                    0
                },
            };
            let ti = match table.find(edges[t].1.as_str()) {
                Some(x) => x,
                None => {
                    proof {
                        assert(false);
                    }
                    0
                },
            };
            ps.push((fi, ti, edges[t].2));
            t = t + 1;
        }
        // Successor lists.
        let mut adj: Vec<Vec<usize>> = Vec::new();
        let mut labels: Vec<Vec<Option<i32>>> = Vec::new();
        let mut i: usize = 0;
        while i < n
            invariant
                i <= n,
                adj@.len() == i,
                labels@.len() == i,
                forall|k: int| 0 <= k < i ==> (#[trigger] adj@[k])@.len() == 0,
                forall|k: int| 0 <= k < i ==> (#[trigger] labels@[k])@.len() == 0,
            decreases n - i,
        {
            adj.push(Vec::new());
            labels.push(Vec::new());
            i = i + 1;
        }
        let mut t: usize = 0;
        while t < ps.len()
            invariant
                n == adj@.len(),
                n == labels@.len(),
                t <= ps@.len(),
                forall|u: int| 0 <= u < ps@.len() ==> (#[trigger] ps@[u]).0 < n && ps@[u].1 < n,
                forall|i: int| 0 <= i < n ==> increasing((#[trigger] adj@[i])@),
                forall|i: int| 0 <= i < n ==> (#[trigger] labels@[i])@.len() == adj@[i]@.len(),
                forall|i: int, k: int| 0 <= i < n && 0 <= k < adj@[i]@.len() ==> #[trigger] adj@[i]@[k] < n,
                forall|i: int, j: usize|
                    0 <= i < n ==> (#[trigger] adj@[i]@.contains(j) <==> exists|u: int|
                        0 <= u < t && #[trigger] ps@[u].0 == i && ps@[u].1 == j),
                forall|i: int, k: int|
                    0 <= i < n && 0 <= k < adj@[i]@.len() ==> #[trigger] labels@[i]@[k] == pair_label(
                        ps@.take(t as int),
                        i,
                        adj@[i]@[k] as int,
                    ),
            decreases ps@.len() - t,
        {
            let (fi, ti, l) = ps[t];
            let ghost a0 = adj@;
            let ghost l0 = labels@;
            let mut row: Vec<usize> = Vec::new();
            let mut lab: Vec<Option<i32>> = Vec::new();
            adj.set_and_swap(fi, &mut row);
            labels.set_and_swap(fi, &mut lab);
            let ghost row0 = row@;
            let ghost lab0 = lab@;
            insert_sorted(&mut row, &mut lab, ti, l);
            let ghost lab1 = lab@;
            adj.set_and_swap(fi, &mut row);
            labels.set_and_swap(fi, &mut lab);
            proof {
                let pre = ps@.take(t as int);
                let post = ps@.take(t + 1);
                assert(post.drop_last() =~= pre);
                assert(post.last() == ps@[t as int]);
                assert forall|i: int| 0 <= i < n implies increasing((#[trigger] adj@[i])@) by {
                    if i != fi {
                        assert(adj@[i] == a0[i]);
                    }
                }
                assert forall|i: int| 0 <= i < n implies (#[trigger] labels@[i])@.len() == adj@[i]@.len() by {
                    if i != fi {
                        assert(adj@[i] == a0[i]);
                        assert(labels@[i] == l0[i]);
                    }
                }
                assert forall|i: int, k: int| 0 <= i < n && 0 <= k < adj@[i]@.len() implies #[trigger] adj@[i]@[k] < n by {
                    if i != fi {
                        assert(adj@[i] == a0[i]);
                    } else {
                        let x = adj@[i]@[k];
                        assert(adj@[i]@.contains(x));
                        if x != ti {
                            assert(row0.contains(x));
                            let k0 = choose|k0: int| 0 <= k0 < row0.len() && row0[k0] == x;
                            assert(a0[i]@[k0] == x);
                        }
                    }
                }
                assert forall|i: int, j: usize|
                    0 <= i < n implies (#[trigger] adj@[i]@.contains(j) <==> exists|u: int|
                        0 <= u < t + 1 && #[trigger] ps@[u].0 == i && ps@[u].1 == j) by {
                    if i != fi {
                        assert(adj@[i] == a0[i]);
                        if exists|u: int| 0 <= u < t + 1 && #[trigger] ps@[u].0 == i && ps@[u].1 == j {
                            let u = choose|u: int| 0 <= u < t + 1 && #[trigger] ps@[u].0 == i && ps@[u].1 == j;
                            assert(u != t);
                        }
                    } else {
                        assert(a0[i]@ == row0);
                        if j == ti {
                            assert(ps@[t as int].0 == i && ps@[t as int].1 == j);
                        } else if exists|u: int| 0 <= u < t + 1 && #[trigger] ps@[u].0 == i && ps@[u].1 == j {
                            let u = choose|u: int| 0 <= u < t + 1 && #[trigger] ps@[u].0 == i && ps@[u].1 == j;
                            assert(u != t);
                        }
                    }
                }
                assert forall|i: int, k: int|
                    0 <= i < n && 0 <= k < adj@[i]@.len() implies #[trigger] labels@[i]@[k] == pair_label(
                        post,
                        i,
                        adj@[i]@[k] as int,
                    ) by {
                    if i != fi {
                        assert(adj@[i] == a0[i]);
                        assert(labels@[i] == l0[i]);
                        assert(labels@[i]@[k] == pair_label(pre, i, adj@[i]@[k] as int));
                    } else {
                        let x = adj@[i]@[k];
                        if x == ti {
                        } else {
                            assert(lab1 == labels@[i]@);
                            let k0 = choose|k0: int|
                                0 <= k0 < row0.len() && row0[k0] == x && #[trigger] lab0[k0] == lab1[k];
                            assert(a0[i]@[k0] == x);
                            assert(l0[i]@[k0] == lab0[k0]);
                            assert(l0[i]@[k0] == pair_label(pre, i, a0[i]@[k0] as int));
                        }
                    }
                }
            }
            t = t + 1;
        }
        proof {
            assert(ps@.take(ps@.len() as int) =~= ps@);
        }
        proof {
            let nv = names@.map_values(|s: String| s@);
            let av = adj@.map_values(|l: Vec<usize>| l@);
            assert forall|i: int, j: int| 0 <= i < j < n implies lex_lt(#[trigger] nv[i], #[trigger] nv[j]) by {
                assert(nv[i] == table.entries_view()[i].0@);
                assert(nv[j] == table.entries_view()[j].0@);
            }
            assert forall|i: int, j: int| 0 <= i < n && 0 <= j < n && i != j implies #[trigger] nv[i] != #[trigger] nv[j] by {
                if i < j {
                    assert(lex_lt(nv[i], nv[j]));
                    lemma_lex_irreflexive(nv[i]);
                } else {
                    assert(lex_lt(nv[j], nv[i]));
                    lemma_lex_irreflexive(nv[j]);
                }
            }
            assert forall|i: int| 0 <= i < n && (#[trigger] av[i]).len() > 0 implies listed@[i] by {
                let j = av[i][0];
                assert(av[i].contains(j));
                let u = choose|u: int| 0 <= u < ps@.len() && #[trigger] ps@[u].0 == i && ps@[u].1 == j;
                assert(names@[i]@ == edges@[u].0@);
                assert(lists_source(edges@, nv[i]));
                assert(table@.contains_key(table.entries_view()[i].0@));
            }
            assert forall|i: int| 0 <= i < n implies increasing(#[trigger] av[i]) by {
                assert(av[i] == adj@[i]@);
            }
            assert forall|i: int, k: int| 0 <= i < av.len() && 0 <= k < av[i].len() implies (#[trigger] av[i][k]) < av.len() by {
                assert(av[i] == adj@[i]@);
            }
        }
        let g = NamedGraph { names, listed, graph: IndexGraph { adj }, labels };
        proof {
            let nv = g.names_view();
            let av = g.adj_view();
            assert(g.wf());
            assert forall|a: Seq<char>| #[trigger] g.is_node(a) <==> (lists_name(nodes@, a) || lists_source(edges@, a)) by {
                if g.is_node(a) {
                    let i = choose|i: int| 0 <= i < nv.len() && #[trigger] nv[i] == a && g.listed_view()[i];
                    assert(table@.contains_key(table.entries_view()[i].0@));
                }
                if lists_name(nodes@, a) || lists_source(edges@, a) {
                    assert(table@.contains_key(a));
                    let i = choose|i: int| 0 <= i < table.entries_view().len() && #[trigger] table.entries_view()[i].0@ == a;
                    assert(nv[i] == a);
                }
            }
            assert forall|i: int| 0 <= i < nv.len() implies (lists_name(nodes@, #[trigger] nv[i])
                || lists_source(edges@, nv[i]) || lists_target(edges@, nv[i])) by {
                assert(table@.contains_key(table.entries_view()[i].0@));
            }
            assert forall|a: Seq<char>, b: Seq<char>| #[trigger] g.link(a, b) <==> lists_edge(edges@, a, b) by {
                if g.link(a, b) {
                    let (i, k) = choose|i: int, k: int|
                        #![trigger av[i][k]]
                        0 <= i < av.len() && 0 <= k < av[i].len() && nv[i] == a && nv[av[i][k] as int] == b;
                    let j = av[i][k];
                    assert(av[i].contains(j));
                    let u = choose|u: int| 0 <= u < ps@.len() && #[trigger] ps@[u].0 == i && ps@[u].1 == j;
                    assert(edges@[u].0@ == a && edges@[u].1@ == b);
                }
                if lists_edge(edges@, a, b) {
                    let u = choose|u: int| 0 <= u < edges@.len() && #[trigger] edges@[u].0@ == a && edges@[u].1@ == b;
                    let i = ps@[u].0 as int;
                    let j = ps@[u].1;
                    assert(av[i].contains(j));
                    let k = choose|k: int| 0 <= k < av[i].len() && av[i][k] == j;
                    assert(av[i][k] == j);
                }
            }
            assert forall|i: int, k: int|
                #![trigger av[i][k]]
                0 <= i < av.len() && 0 <= k < av[i].len() implies g.labels_view()[i][k] == edge_label(
                    edges@,
                    nv[i],
                    nv[av[i][k] as int],
                ) by {
                lemma_pair_label_names(ps@, edges@, nv, i, av[i][k] as int);
            }
        }
        g
    }
}

/// Index pairs that name the same edges carry the same labels.
proof fn lemma_pair_label_names(
    ps: Seq<(usize, usize, Option<i32>)>,
    es: Seq<(String, String, Option<i32>)>,
    nv: Seq<Seq<char>>,
    i: int,
    j: int,
)
    requires
        ps.len() == es.len(),
        0 <= i < nv.len(),
        0 <= j < nv.len(),
        forall|a: int, b: int| 0 <= a < nv.len() && 0 <= b < nv.len() && a != b ==> #[trigger] nv[a] != #[trigger] nv[b],
        forall|u: int|
            0 <= u < ps.len() ==> (#[trigger] ps[u]).0 < nv.len() && ps[u].1 < nv.len() && nv[ps[u].0 as int]
                == es[u].0@ && nv[ps[u].1 as int] == es[u].1@ && ps[u].2 == es[u].2,
    ensures
        pair_label(ps, i, j) == edge_label(es, nv[i], nv[j]),
    decreases ps.len(),
{
    if ps.len() > 0 {
        let u = ps.len() - 1;
        assert(ps[u] == ps.last());
        let pi = ps[u].0 as int;
        let pj = ps[u].1 as int;
        if pi == i && pj == j {
        } else {
            assert(nv[pi] != nv[i] || nv[pj] != nv[j]);
            lemma_pair_label_names(ps.drop_last(), es.drop_last(), nv, i, j);
        }
    }
}


/// `w` comes before `o` in name order, compared position by position
/// from the start.
pub open spec fn names_before(w: Seq<Seq<char>>, o: Seq<Seq<char>>) -> bool {
    exists|j: int| 0 <= j < w.len() && j < o.len() && w.take(j) == o.take(j) && #[trigger] lex_lt(w[j], o[j])
}

impl NamedGraph {
    /// The position of `a` among the names.
    pub open spec fn position(&self, a: Seq<char>) -> int {
        choose|i: int| 0 <= i < self.names_view().len() && #[trigger] self.names_view()[i] == a
    }

    /// A name walk read as an index walk.
    proof fn lemma_walk_indices(&self, o: Seq<Seq<char>>, a: Seq<char>, b: Seq<char>, ia: int)
        requires
            self.wf(),
            self.walk(o, a, b),
            0 <= ia < self.names_view().len(),
            self.names_view()[ia] == a,
        ensures
            ({
                let q = Seq::new(o.len(), |k: int| self.position(o[k]));
                &&& ipath(self.adj_view(), q, ia, self.position(b))
                &&& 0 <= self.position(b) < self.names_view().len()
                &&& self.names_view()[self.position(b)] == b
            }),
            forall|k: int|
                0 <= k < o.len() ==> 0 <= #[trigger] self.position(o[k]) < self.names_view().len()
                    && self.names_view()[self.position(o[k])] == o[k],
    {
        let nv = self.names_view();
        let av = self.adj_view();
        let q = Seq::new(o.len(), |k: int| self.position(o[k]));
        assert forall|k: int| 0 <= k < o.len() implies 0 <= #[trigger] self.position(o[k]) < nv.len()
            && nv[self.position(o[k])] == o[k] by {
            if k == 0 {
                assert(nv[ia] == o[k]);
            } else {
                let j = k - 1;
                assert(self.link(o[j], o[j + 1]));
                let (i, e) = choose|i: int, e: int|
                    #![trigger av[i][e]]
                    0 <= i < av.len() && 0 <= e < av[i].len() && nv[i] == o[k - 1] && nv[av[i][e] as int] == o[k];
                assert(nv[av[i][e] as int] == o[k]);
            }
        }
        assert forall|k: int| 0 <= k < q.len() - 1 implies #[trigger] iedge(av, q[k], q[k + 1]) by {
            assert(self.link(o[k], o[k + 1]));
            let (i, e) = choose|i: int, e: int|
                #![trigger av[i][e]]
                0 <= i < av.len() && 0 <= e < av[i].len() && nv[i] == o[k] && nv[av[i][e] as int] == o[k + 1];
            assert(0 <= self.position(o[k]) < nv.len() && nv[self.position(o[k])] == o[k]);
            assert(0 <= self.position(o[k + 1]) < nv.len() && nv[self.position(o[k + 1])] == o[k + 1]);
            assert(i == q[k]);
            assert(av[i][e] as int == q[k + 1]);
        }
        assert(0 <= self.position(o[0]) < nv.len() && nv[self.position(o[0])] == o[0]);
        assert(q[0] == ia);
        assert(0 <= self.position(o[o.len() - 1]) < nv.len());
    }

    /// An index walk read as a name walk.
    proof fn lemma_indices_walk(&self, p: Seq<int>, s: int, t: int)
        requires
            self.wf(),
            ipath(self.adj_view(), p, s, t),
            0 <= s < self.names_view().len(),
            forall|k: int| 0 <= k < p.len() ==> 0 <= #[trigger] p[k] < self.names_view().len(),
        ensures
            self.walk(
                Seq::new(p.len(), |k: int| self.names_view()[p[k]]),
                self.names_view()[s],
                self.names_view()[t],
            ),
    {
        let nv = self.names_view();
        let av = self.adj_view();
        let r = Seq::new(p.len(), |k: int| nv[p[k]]);
        assert forall|k: int| 0 <= k < r.len() - 1 implies #[trigger] self.link(r[k], r[k + 1]) by {
            assert(iedge(av, p[k], p[k + 1]));
            let e = choose|e: int| 0 <= e < av[p[k]].len() && av[p[k]][e] == p[k + 1];
            assert(av[p[k]][e] == p[k + 1]);
        }
    }

    /// The position of `a` among the names, if it is one.
    pub fn find_name(&self, a: &str) -> (r: Option<usize>)
        ensures
            self.wf(),
            match r {
                Some(i) => i < self.names_view().len() && self.names_view()[i as int] == a@,
                None => forall|i: int| 0 <= i < self.names_view().len() ==> #[trigger] self.names_view()[i] != a@,
            },
    {
        proof {
            use_type_invariant(self);
        }
        let mut i: usize = 0;
        while i < self.names.len()
            invariant
                self.wf(),
                i <= self.names@.len(),
                forall|k: int| 0 <= k < i ==> (#[trigger] self.names@[k])@ != a@,
            decreases self.names@.len() - i,
        {
            if self.names[i] == a.to_owned() {
                return Some(i);
            }
            i = i + 1;
        }
        None
    }

    /// Whether `a` is a node.
    pub fn has_node(&self, a: &str) -> (b: bool)
        ensures
            b == self.is_node(a@),
    {
        proof {
            use_type_invariant(self);
        }
        match self.find_name(a) {
            Some(i) => self.listed[i],
            None => false,
        }
    }

    /// Number of nodes.
    pub fn node_count(&self) -> (n: usize)
        ensures
            n == count_true(self.listed_view()),
    {
        let mut n: usize = 0;
        let mut i: usize = 0;
        while i < self.listed.len()
            invariant
                i <= self.listed@.len(),
                n == count_true(self.listed@.take(i as int)),
                n <= i,
            decreases self.listed@.len() - i,
        {
            proof {
                assert(self.listed@.take(i + 1).drop_last() =~= self.listed@.take(i as int));
            }
            if self.listed[i] {
                n = n + 1;
            }
            i = i + 1;
        }
        proof {
            assert(self.listed@.take(self.listed@.len() as int) =~= self.listed@);
        }
        n
    }

    /// Whether there is an edge from `a` to `b`.
    pub fn has_link(&self, a: &str, b: &str) -> (r: bool)
        ensures
            r == self.link(a@, b@),
    {
        proof {
            use_type_invariant(self);
        }
        let ghost nv = self.names_view();
        let ghost av = self.adj_view();
        match self.find_name(a) {
            None => false,
            Some(i) => {
                let row = &self.graph.adj[i];
                let mut k: usize = 0;
                while k < row.len()
                    invariant
                        self.wf(),
                        nv == self.names_view(),
                        av == self.adj_view(),
                        i < nv.len(),
                        nv[i as int] == a@,
                        row@ == av[i as int],
                        k <= row@.len(),
                        forall|e: int| 0 <= e < k ==> nv[#[trigger] av[i as int][e] as int] != b@,
                    decreases row@.len() - k,
                {
                    if self.names[row[k]] == b.to_owned() {
                        proof {
                            assert(av[i as int][k as int] == row@[k as int]);
                        }
                        return true;
                    }
                    k = k + 1;
                }
                proof {
                    if self.link(a@, b@) {
                        let (i2, e) = choose|i2: int, e: int|
                            #![trigger av[i2][e]]
                            0 <= i2 < av.len() && 0 <= e < av[i2].len() && nv[i2] == a@ && nv[av[i2][e] as int] == b@;
                        assert(i2 == i);
                    }
                }
                false
            },
        }
    }

    /// `v` lists the successors of `a`, each once, in name order.
    pub open spec fn successor_list(&self, a: Seq<char>, v: Seq<Seq<char>>) -> bool {
        &&& forall|b: Seq<char>| #[trigger] self.link(a, b) <==> v.contains(b)
        &&& forall|x: int, y: int| 0 <= x < y < v.len() ==> lex_lt(#[trigger] v[x], #[trigger] v[y])
    }

    /// The successors of `a` in name order, or `None` when `a` is not a node.
    pub fn successors(&self, a: &str) -> (r: Option<Vec<String>>)
        ensures
            match r {
                None => !self.is_node(a@),
                Some(v) => self.is_node(a@) && self.successor_list(a@, v@.map_values(|s: String| s@)),
            },
    {
        proof {
            use_type_invariant(self);
        }
        let ghost nv = self.names_view();
        let ghost av = self.adj_view();
        let found = self.find_name(a);
        if found.is_none() {
            assert(!self.is_node(a@)) by {
                if self.is_node(a@) {
                    let i2 = choose|i2: int|
                        0 <= i2 < self.names_view().len() && #[trigger] self.names_view()[i2] == a@
                            && self.listed_view()[i2];
                    assert(self.names_view()[i2] != a@);
                }
            }
            return None;
        }
        let i = found.unwrap();
        if !self.listed[i] {
            assert(!self.is_node(a@)) by {
                if self.is_node(a@) {
                    let i2 = choose|i2: int|
                        0 <= i2 < self.names_view().len() && #[trigger] self.names_view()[i2] == a@
                            && self.listed_view()[i2];
                    assert(i2 == i);
                }
            }
            return None;
        }
        let row = &self.graph.adj[i];
        let mut out: Vec<String> = Vec::new();
        let mut k: usize = 0;
        while k < row.len()
            invariant
                self.wf(),
                nv == self.names_view(),
                av == self.adj_view(),
                i < nv.len(),
                nv[i as int] == a@,
                row@ == av[i as int],
                k <= row@.len(),
                out@.len() == k,
                forall|e: int| 0 <= e < k ==> (#[trigger] out@[e])@ == nv[av[i as int][e] as int],
            decreases row@.len() - k,
        {
            out.push(self.names[row[k]].clone());
            k = k + 1;
        }
        proof {
            assert(self.names_view()[i as int] == a@ && self.listed_view()[i as int]);
            assert(self.is_node(a@));
            let w = out@.map_values(|s: String| s@);
            assert forall|b: Seq<char>| #[trigger] self.link(a@, b) <==> w.contains(b) by {
                if self.link(a@, b) {
                    let (i2, e) = choose|i2: int, e: int|
                        #![trigger av[i2][e]]
                        0 <= i2 < av.len() && 0 <= e < av[i2].len() && nv[i2] == a@ && nv[av[i2][e] as int] == b;
                    assert(i2 == i);
                    assert(w[e] == b);
                }
                if w.contains(b) {
                    let e = choose|e: int| 0 <= e < w.len() && w[e] == b;
                    assert(out@[e]@ == b);
                    assert(av[i as int][e] == av[i as int][e]);
                }
            }
            assert forall|x: int, y: int| 0 <= x < y < w.len() implies lex_lt(#[trigger] w[x], #[trigger] w[y]) by {
                assert(w[x] == out@[x]@);
                assert(w[y] == out@[y]@);
                assert(av[i as int][x] < av[i as int][y]);
                assert(adj_ok(av));
                assert(av[i as int][y] < nv.len());
            }
        }
        Some(out)
    }

    /// A shortest walk from `a` to `b`, both ends included; `None` when
    /// either end is not a node or `b` cannot be reached from `a`.
    pub fn shortest_walk(&self, a: &str, b: &str) -> (r: Option<Vec<String>>)
        ensures
            match r {
                None => !(self.is_node(a@) && self.is_node(b@) && exists|o: Seq<Seq<char>>| #[trigger] self.walk(o, a@, b@)),
                Some(p) => {
                    let w = p@.map_values(|x: String| x@);
                    &&& self.is_node(a@)
                    &&& self.is_node(b@)
                    &&& self.walk(w, a@, b@)
                    &&& forall|o: Seq<Seq<char>>| #[trigger] self.walk(o, a@, b@) ==> o.len() >= w.len()
                    &&& forall|o: Seq<Seq<char>>|
                        #[trigger] self.walk(o, a@, b@) && o.len() == w.len() && o != w ==> names_before(w, o)
                    &&& w.len() <= self.names_view().len()
                },
            },
    {
        proof {
            use_type_invariant(self);
        }
        let ghost nv = self.names_view();
        let ghost av = self.adj_view();
        if !self.has_node(a) || !self.has_node(b) {
            return None;
        }
        let ia = match self.find_name(a) {
            Some(i) => i,
            None => {
                proof {
                    assert(false);
                }
                0
            },
        };
        let ib = match self.find_name(b) {
            Some(i) => i,
            None => {
                proof {
                    assert(false);
                }
                0
            },
        };
        assert(self.graph.view_adj() == av);
        match self.graph.first_shortest(ia, ib) {
            None => {
                proof {
                    if exists|o: Seq<Seq<char>>| #[trigger] self.walk(o, a@, b@) {
                        let o = choose|o: Seq<Seq<char>>| #[trigger] self.walk(o, a@, b@);
                        self.lemma_walk_indices(o, a@, b@, ia as int);
                        assert(self.position(b@) == ib);
                        let q = Seq::new(o.len(), |k: int| self.position(o[k]));
                        assert(reachable(av, ia as int, ib as int));
                    }
                }
                None
            },
            Some(p) => {
                let ghost q = ints(p@);
                let mut out: Vec<String> = Vec::new();
                let mut k: usize = 0;
                proof {
                    assert forall|e: int| 0 <= e < q.len() implies 0 <= #[trigger] q[e] < nv.len() by {
                        if e == 0 {
                        } else {
                            let j = e - 1;
                            let x = q[j];
                            let y = q[j + 1];
                            assert(iedge(av, q[j], q[j + 1]));
                            let f = choose|f: int| 0 <= f < av[x].len() && av[x][f] == y;
                            assert(av[x][f] < av.len());
                        }
                    }
                }
                while k < p.len()
                    invariant
                        self.wf(),
                        nv == self.names_view(),
                        q == ints(p@),
                        forall|e: int| 0 <= e < q.len() ==> 0 <= #[trigger] q[e] < nv.len(),
                        k <= p@.len(),
                        out@.len() == k,
                        forall|e: int| 0 <= e < k ==> (#[trigger] out@[e])@ == nv[q[e]],
                    decreases p@.len() - k,
                {
                    proof {
                        assert(0 <= q[k as int] < nv.len());
                    }
                    out.push(self.names[p[k]].clone());
                    k = k + 1;
                }
                proof {
                    let w = out@.map_values(|x: String| x@);
                    self.lemma_indices_walk(q, ia as int, ib as int);
                    assert(w =~= Seq::new(q.len(), |e: int| nv[q[e]]));
                    assert forall|o: Seq<Seq<char>>| #[trigger] self.walk(o, a@, b@) implies o.len() >= w.len() by {
                        self.lemma_walk_indices(o, a@, b@, ia as int);
                        assert(self.position(b@) == ib);
                        let oq = Seq::new(o.len(), |e: int| self.position(o[e]));
                        assert(ipath(av, oq, ia as int, ib as int));
                    }
                    assert forall|o: Seq<Seq<char>>|
                        #[trigger] self.walk(o, a@, b@) && o.len() == w.len() && o != w implies names_before(w, o) by {
                        self.lemma_walk_indices(o, a@, b@, ia as int);
                        assert(self.position(b@) == ib);
                        let oq = Seq::new(o.len(), |e: int| self.position(o[e]));
                        assert(ipath(av, oq, ia as int, ib as int));
                        if oq == q {
                            assert(o =~= w) by {
                                assert forall|e: int| 0 <= e < o.len() implies o[e] == w[e] by {
                                    assert(nv[self.position(o[e])] == o[e]);
                                    assert(oq[e] == q[e]);
                                }
                            }
                        }
                        assert(ilex_before(q, oq));
                        let j = choose|j: int| 0 <= j < q.len() && j < oq.len() && q.take(j) == oq.take(j) && #[trigger] q[j] < oq[j];
                        assert(w.take(j) =~= o.take(j)) by {
                            assert forall|e: int| 0 <= e < j implies w[e] == o[e] by {
                                assert(q.take(j)[e] == oq.take(j)[e]);
                                assert(nv[self.position(o[e])] == o[e]);
                            }
                        }
                        assert(0 <= self.position(o[j]) < nv.len());
                        assert(lex_lt(nv[q[j]], nv[oq[j]]));
                        assert(lex_lt(w[j], o[j]));
                    }
                }
                Some(out)
            },
        }
    }
}


impl NamedGraph {
    /// There is an edge from `a` to `b` with authored cost `c`.
    pub open spec fn costed_link(&self, a: Seq<char>, b: Seq<char>, c: int) -> bool {
        exists|i: int, k: int|
            #![trigger self.labels_view()[i][k]]
            0 <= i < self.adj_view().len() && 0 <= k < self.adj_view()[i].len() && self.names_view()[i] == a
                && self.names_view()[self.adj_view()[i][k] as int] == b && self.labels_view()[i][k] == Some(c as i32)
                && i32::MIN <= c <= i32::MAX
    }

    /// `o` is a walk from `a` to `b` along edges with authored costs `cs`.
    pub open spec fn costed_walk(&self, o: Seq<Seq<char>>, cs: Seq<int>, a: Seq<char>, b: Seq<char>) -> bool {
        &&& o.len() == cs.len() + 1
        &&& o[0] == a
        &&& o.last() == b
        &&& forall|j: int| 0 <= j < cs.len() ==> #[trigger] self.costed_link(o[j], o[j + 1], cs[j])
    }

    /// The graph's edges with their labels as costs.
    fn cost_graph(&self) -> (g: CostGraph)
        ensures
            g.av() == self.adj_view(),
            g.cv() == self.labels_view(),
            g.wf(),
    {
        proof {
            use_type_invariant(self);
        }
        let n = self.graph.adj.len();
        let mut adj: Vec<Vec<usize>> = Vec::new();
        let mut cost: Vec<Vec<Option<i32>>> = Vec::new();
        let mut i: usize = 0;
        while i < n
            invariant
                n == self.graph.adj@.len(),
                self.labels@.len() == n,
                i <= n,
                adj@.len() == i,
                cost@.len() == i,
                forall|j: int| 0 <= j < i ==> (#[trigger] adj@[j])@ == self.graph.adj@[j]@,
                forall|j: int| 0 <= j < i ==> (#[trigger] cost@[j])@ == self.labels@[j]@,
            decreases n - i,
        {
            let a = &self.graph.adj[i];
            let l = &self.labels[i];
            let mut va: Vec<usize> = Vec::new();
            let mut k: usize = 0;
            while k < a.len()
                invariant
                    k <= a@.len(),
                    va@ == a@.take(k as int),
                decreases a@.len() - k,
            {
                va.push(a[k]);
                k = k + 1;
                proof {
                    assert(a@.take(k as int) =~= a@.take(k - 1).push(a@[k - 1]));
                }
            }
            let mut vl: Vec<Option<i32>> = Vec::new();
            let mut k: usize = 0;
            while k < l.len()
                invariant
                    k <= l@.len(),
                    vl@ == l@.take(k as int),
                decreases l@.len() - k,
            {
                vl.push(l[k]);
                k = k + 1;
                proof {
                    assert(l@.take(k as int) =~= l@.take(k - 1).push(l@[k - 1]));
                }
            }
            proof {
                assert(a@.take(a@.len() as int) =~= a@);
                assert(l@.take(l@.len() as int) =~= l@);
            }
            adj.push(va);
            cost.push(vl);
            i = i + 1;
        }
        let g = CostGraph { adj, cost };
        proof {
            assert(g.av() =~= self.adj_view());
            assert(g.cv() =~= self.labels_view());
        }
        g
    }

    /// A name walk along costed edges read as an index walk.
    proof fn lemma_costed_indices(&self, o: Seq<Seq<char>>, cs: Seq<int>, a: Seq<char>, b: Seq<char>, ia: int, ib: int)
        requires
            self.wf(),
            self.costed_walk(o, cs, a, b),
            0 <= ia < self.names_view().len(),
            self.names_view()[ia] == a,
            0 <= ib < self.names_view().len(),
            self.names_view()[ib] == b,
        ensures
            cwalk(self.adj_view(), self.labels_view(), Seq::new(o.len(), |k: int| self.position(o[k])), cs, ia, ib),
    {
        let nv = self.names_view();
        let av = self.adj_view();
        let lv = self.labels_view();
        let q = Seq::new(o.len(), |k: int| self.position(o[k]));
        assert forall|k: int| 0 <= k < o.len() implies 0 <= #[trigger] self.position(o[k]) < nv.len()
            && nv[self.position(o[k])] == o[k] by {
            if k == 0 {
                assert(nv[ia] == o[k]);
            } else {
                let j = k - 1;
                assert(self.costed_link(o[j], o[j + 1], cs[j]));
                let (i, e) = choose|i: int, e: int|
                    #![trigger lv[i][e]]
                    0 <= i < av.len() && 0 <= e < av[i].len() && nv[i] == o[j] && nv[av[i][e] as int] == o[j + 1]
                        && lv[i][e] == Some(cs[j] as i32) && i32::MIN <= cs[j] <= i32::MAX;
                assert(av[i][e] < av.len());
                assert(nv[av[i][e] as int] == o[k]);
            }
        }
        assert forall|j: int| 0 <= j < cs.len() implies #[trigger] wedge(av, lv, q[j], q[j + 1], cs[j]) by {
            assert(self.costed_link(o[j], o[j + 1], cs[j]));
            let (i, e) = choose|i: int, e: int|
                #![trigger lv[i][e]]
                0 <= i < av.len() && 0 <= e < av[i].len() && nv[i] == o[j] && nv[av[i][e] as int] == o[j + 1]
                    && lv[i][e] == Some(cs[j] as i32) && i32::MIN <= cs[j] <= i32::MAX;
            assert(0 <= self.position(o[j]) < nv.len() && nv[self.position(o[j])] == o[j]);
            assert(0 <= self.position(o[j + 1]) < nv.len() && nv[self.position(o[j + 1])] == o[j + 1]);
            assert(av[i][e] < av.len());
            assert(i == q[j]);
            assert(av[i][e] as int == q[j + 1]);
        }
        assert(0 <= self.position(o[0]) < nv.len() && nv[self.position(o[0])] == o[0]);
        let last = o.len() - 1;
        assert(0 <= self.position(o[last]) < nv.len() && nv[self.position(o[last])] == o[last]);
        assert(q[0] == ia);
        assert(q.last() == ib);
    }

    /// A cheapest walk from `a` to `b` along edges with authored costs,
    /// both ends included, with its cost.  `None` when either end is not a
    /// node, when no walk is found, when the search meets a negative cost,
    /// or when the cheapest cost is beyond `i32`; with no negative cost,
    /// the walk is a cheapest one, and `None` for two nodes means that
    /// every walk between them costs more than `i32::MAX`, or there is none.
    pub fn cheapest_walk(&self, a: &str, b: &str) -> (r: Option<(i32, Vec<String>)>)
        requires
            self.names_view().len() <= 0x1_0000_0000,
        ensures
            r matches Some((d, p)) ==> {
                let w = p@.map_values(|x: String| x@);
                &&& self.is_node(a@)
                &&& self.is_node(b@)
                &&& exists|cs: Seq<int>| #[trigger] self.costed_walk(w, cs, a@, b@) && total(cs) == d
                &&& nonneg(self.labels_view()) ==> forall|o: Seq<Seq<char>>, cs: Seq<int>|
                    #[trigger] self.costed_walk(o, cs, a@, b@) ==> total(cs) >= d
            },
            r is None ==> !self.is_node(a@) || !self.is_node(b@) || (nonneg(self.labels_view()) ==> forall|
                o: Seq<Seq<char>>,
                cs: Seq<int>,
            | #[trigger] self.costed_walk(o, cs, a@, b@) ==> total(cs) > i32::MAX),
    {
        proof {
            use_type_invariant(self);
        }
        let ghost nv = self.names_view();
        let ghost av = self.adj_view();
        let ghost lv = self.labels_view();
        if !self.has_node(a) || !self.has_node(b) {
            return None;
        }
        let ia = match self.find_name(a) {
            Some(i) => i,
            None => {
                proof {
                    assert(false);
                }
                0
            },
        };
        let ib = match self.find_name(b) {
            Some(i) => i,
            None => {
                proof {
                    assert(false);
                }
                0
            },
        };
        let g = self.cost_graph();
        match g.cheapest(ia, ib) {
            None => {
                proof {
                    if nonneg(lv) {
                        assert forall|o: Seq<Seq<char>>, cs: Seq<int>| #[trigger] self.costed_walk(o, cs, a@, b@) implies total(cs)
                            > i32::MAX by {
                            self.lemma_costed_indices(o, cs, a@, b@, ia as int, ib as int);
                            let q = Seq::new(o.len(), |k: int| self.position(o[k]));
                            assert(cwalk(g.av(), g.cv(), q, cs, ia as int, ib as int));
                        }
                    }
                }
                None
            },
            Some((d, p)) => {
                let ghost q = ints(p@);
                let ghost cs0 = choose|cs: Seq<int>| #[trigger] cwalk(g.av(), g.cv(), ints(p@), cs, ia as int, ib as int) && total(cs) == d;
                proof {
                    assert(cwalk(av, lv, q, cs0, ia as int, ib as int));
                    assert forall|e: int| 0 <= e < q.len() implies 0 <= #[trigger] q[e] < nv.len() by {
                        if e > 0 {
                            let j = e - 1;
                            assert(wedge(av, lv, q[j], q[j + 1], cs0[j]));
                            let x = q[j];
                            let k = choose|k: int|
                                0 <= k < av[x].len() && av[x][k] == q[j + 1] && #[trigger] lv[x][k] == Some(cs0[j] as i32)
                                    && i32::MIN <= cs0[j] <= i32::MAX;
                            assert(av[x][k] < av.len());
                        }
                    }
                }
                let mut out: Vec<String> = Vec::new();
                let mut k: usize = 0;
                while k < p.len()
                    invariant
                        self.wf(),
                        nv == self.names_view(),
                        q == ints(p@),
                        forall|e: int| 0 <= e < q.len() ==> 0 <= #[trigger] q[e] < nv.len(),
                        k <= p@.len(),
                        out@.len() == k,
                        forall|e: int| 0 <= e < k ==> (#[trigger] out@[e])@ == nv[q[e]],
                    decreases p@.len() - k,
                {
                    proof {
                        assert(0 <= q[k as int] < nv.len());
                    }
                    out.push(self.names[p[k]].clone());
                    k = k + 1;
                }
                proof {
                    let w = out@.map_values(|x: String| x@);
                    assert forall|j: int| 0 <= j < cs0.len() implies #[trigger] self.costed_link(w[j], w[j + 1], cs0[j]) by {
                        assert(wedge(av, lv, q[j], q[j + 1], cs0[j]));
                        let x = q[j];
                        let e = choose|e: int|
                            0 <= e < av[x].len() && av[x][e] == q[j + 1] && #[trigger] lv[x][e] == Some(cs0[j] as i32)
                                && i32::MIN <= cs0[j] <= i32::MAX;
                        assert(lv[x][e] == Some(cs0[j] as i32));
                        assert(w[j] == nv[x]);
                        assert(w[j + 1] == nv[av[x][e] as int]);
                    }
                    assert(w[0] == a@);
                    assert(w.last() == b@);
                    assert(self.costed_walk(w, cs0, a@, b@));
                    if nonneg(lv) {
                        assert forall|o: Seq<Seq<char>>, cs: Seq<int>| #[trigger] self.costed_walk(o, cs, a@, b@) implies total(cs)
                            >= d by {
                            self.lemma_costed_indices(o, cs, a@, b@, ia as int, ib as int);
                            let q2 = Seq::new(o.len(), |k: int| self.position(o[k]));
                            assert(cwalk(g.av(), g.cv(), q2, cs, ia as int, ib as int));
                        }
                    }
                }
                let r = Some((d, out));
                proof {
                    assert(r matches Some((d2, p2)) && d2 == d && p2@ == out@);
                }
                r
            },
        }
    }
}

} // verus!
