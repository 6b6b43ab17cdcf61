//! Cheapest walks by integer edge cost (Dijkstra's algorithm).
//!
//! Edges without an authored cost cannot be used.  The search settles the
//! cheapest unsettled node next, the lowest-numbered one among equals, and
//! stops when the destination is settled; it gives up on meeting an edge
//! of negative cost.  Tentative costs are summed in 64 bits, so no sum of
//! at most 2^32 authored costs overflows; a cheapest cost beyond `i32` is
//! not reported.

use vstd::prelude::*;

use crate::graph::{adj_ok, count_true, lemma_count_bound, lemma_count_set};

verus! {

/// A directed graph on nodes `0..n` whose edges carry an optional cost.
pub struct CostGraph {
    pub adj: Vec<Vec<usize>>,
    pub cost: Vec<Vec<Option<i32>>>,
}

/// There is an edge from `u` to `v` with authored cost `c`.
pub open spec fn wedge(av: Seq<Seq<usize>>, cv: Seq<Seq<Option<i32>>>, u: int, v: int, c: int) -> bool {
    0 <= u < av.len() && exists|k: int|
        0 <= k < av[u].len() && av[u][k] == v && #[trigger] cv[u][k] == Some(c as i32) && i32::MIN <= c <= i32::MAX
}

/// `p` is a walk from `s` to `t` along authored edges, `cs` the costs of
/// its steps.
pub open spec fn cwalk(av: Seq<Seq<usize>>, cv: Seq<Seq<Option<i32>>>, p: Seq<int>, cs: Seq<int>, s: int, t: int) -> bool {
    &&& p.len() == cs.len() + 1
    &&& p[0] == s
    &&& p.last() == t
    &&& forall|j: int| 0 <= j < cs.len() ==> #[trigger] wedge(av, cv, p[j], p[j + 1], cs[j])
}

/// The sum of `cs`.
pub open spec fn total(cs: Seq<int>) -> int
    decreases cs.len(),
{
    if cs.len() == 0 {
        0
    } else {
        total(cs.drop_last()) + cs.last()
    }
}

/// No authored cost is negative.
pub open spec fn nonneg(cv: Seq<Seq<Option<i32>>>) -> bool {
    forall|i: int, k: int|
        0 <= i < cv.len() && 0 <= k < cv[i].len() ==> (#[trigger] cv[i][k] matches Some(c) ==> c >= 0)
}

impl CostGraph {
    pub open spec fn av(&self) -> Seq<Seq<usize>> {
        self.adj@.map_values(|l: Vec<usize>| l@)
    }

    pub open spec fn cv(&self) -> Seq<Seq<Option<i32>>> {
        self.cost@.map_values(|l: Vec<Option<i32>>| l@)
    }

    /// Costs run parallel to the successor lists, which name nodes only.
    pub open spec fn wf(&self) -> bool {
        &&& self.av().len() == self.cv().len()
        &&& forall|i: int| 0 <= i < self.av().len() ==> (#[trigger] self.av()[i]).len() == self.cv()[i].len()
        &&& adj_ok(self.av())
    }
}

pub proof fn lemma_total_push(cs: Seq<int>, c: int)
    ensures
        total(cs.push(c)) == total(cs) + c,
{
    assert(cs.push(c).drop_last() =~= cs);
}

pub proof fn lemma_total_prepend(c: int, cs: Seq<int>)
    ensures
        total(seq![c] + cs) == c + total(cs),
    decreases cs.len(),
{
    if cs.len() > 0 {
        assert((seq![c] + cs).drop_last() =~= seq![c] + cs.drop_last());
        assert((seq![c] + cs).last() == cs.last());
        lemma_total_prepend(c, cs.drop_last());
    } else {
        assert(seq![c] + cs =~= seq![c]);
        assert(seq![c].drop_last() =~= Seq::<int>::empty());
        assert(total(Seq::<int>::empty()) == 0);
    }
}

pub proof fn lemma_total_split(cs: Seq<int>, j: int)
    requires
        0 <= j <= cs.len(),
    ensures
        total(cs) == total(cs.take(j)) + total(cs.skip(j)),
    decreases cs.len(),
{
    if j == cs.len() {
        assert(cs.take(j) =~= cs);
        assert(cs.skip(j) =~= Seq::<int>::empty());
    } else {
        lemma_total_split(cs.drop_last(), j);
        assert(cs.drop_last().take(j) =~= cs.take(j));
        assert(cs.skip(j).drop_last() =~= cs.drop_last().skip(j));
        assert(cs.skip(j).last() == cs.last());
    }
}

pub proof fn lemma_total_nonneg(cs: Seq<int>)
    requires
        forall|j: int| 0 <= j < cs.len() ==> cs[j] >= 0,
    ensures
        total(cs) >= 0,
    decreases cs.len(),
{
    if cs.len() > 0 {
        lemma_total_nonneg(cs.drop_last());
    }
}

/// The steps of an authored walk cost nothing negative when no cost is.
proof fn lemma_walk_costs_nonneg(av: Seq<Seq<usize>>, cv: Seq<Seq<Option<i32>>>, p: Seq<int>, cs: Seq<int>, s: int, t: int)
    requires
        nonneg(cv),
        av.len() == cv.len(),
        forall|i: int| 0 <= i < av.len() ==> (#[trigger] av[i]).len() == cv[i].len(),
        cwalk(av, cv, p, cs, s, t),
    ensures
        forall|j: int| 0 <= j < cs.len() ==> cs[j] >= 0,
{
    assert forall|j: int| 0 <= j < cs.len() implies cs[j] >= 0 by {
        assert(wedge(av, cv, p[j], p[j + 1], cs[j]));
        let u = p[j];
        let k = choose|k: int|
            0 <= k < av[u].len() && av[u][k] == p[j + 1] && #[trigger] cv[u][k] == Some(cs[j] as i32) && i32::MIN
                <= cs[j] <= i32::MAX;
        assert(cv[u][k] matches Some(c) ==> c >= 0);
    }
}

/// The first `j + 1` nodes of an authored walk are an authored walk.
proof fn lemma_walk_prefix(av: Seq<Seq<usize>>, cv: Seq<Seq<Option<i32>>>, p: Seq<int>, cs: Seq<int>, s: int, t: int, j: int)
    requires
        cwalk(av, cv, p, cs, s, t),
        0 <= j < p.len(),
    ensures
        cwalk(av, cv, p.take(j + 1), cs.take(j), s, p[j]),
{
    assert forall|i: int| 0 <= i < cs.take(j).len() implies #[trigger] wedge(
        av,
        cv,
        p.take(j + 1)[i],
        p.take(j + 1)[i + 1],
        cs.take(j)[i],
    ) by {
        assert(wedge(av, cv, p[i], p[i + 1], cs[i]));
    }
}

/// The position of the first node of `p` not marked in `done`, given
/// that its last node is not.
proof fn lemma_first_unsettled(p: Seq<int>, done: Seq<bool>, from: int) -> (j: int)
    requires
        0 <= from < p.len(),
        forall|i: int| 0 <= i < p.len() ==> 0 <= #[trigger] p[i] < done.len(),
        !done[p.last()],
        forall|i: int| 0 <= i < from ==> done[#[trigger] p[i]],
    ensures
        from <= j < p.len(),
        !done[p[j]],
        forall|i: int| 0 <= i < j ==> done[#[trigger] p[i]],
    decreases p.len() - from,
{
    if !done[p[from]] {
        from
    } else {
        lemma_first_unsettled(p, done, from + 1)
    }
}


/// A list of node numbers as integers.
pub open spec fn ints(p: Seq<usize>) -> Seq<int> {
    p.map_values(|x: usize| x as int)
}

/// The bookkeeping of the search from `s`: `reached` marks nodes reached with
/// tentative cost `dist`, `done` the settled ones in the order `rank`;
/// `prev` links each reached node other than `s` to the settled node it
/// was reached from; tentative costs never exceed the settled count times
/// `i32::MAX`; and no settled node costs more than an unsettled one.
pub open spec fn search_ok(
    av: Seq<Seq<usize>>,
    cv: Seq<Seq<Option<i32>>>,
    s: int,
    dist: Seq<i64>,
    reached: Seq<bool>,
    done: Seq<bool>,
    prev: Seq<usize>,
    rank: Seq<int>,
) -> bool {
    let n = av.len();
    let cnt = count_true(done);
    &&& n > 0
    &&& av.len() == cv.len()
    &&& forall|i: int| 0 <= i < n ==> (#[trigger] av[i]).len() == cv[i].len()
    &&& adj_ok(av)
    &&& dist.len() == n && reached.len() == n && done.len() == n && prev.len() == n && rank.len() == n
    &&& 0 <= s < n
    &&& reached[s] && dist[s] == 0
    &&& forall|v: int| 0 <= v < n && #[trigger] done[v] ==> reached[v] && 0 <= rank[v] < cnt
    &&& forall|v: int| 0 <= v < n && #[trigger] reached[v] ==> 0 <= dist[v] <= cnt * (i32::MAX as int)
    &&& forall|v: int|
        0 <= v < n && #[trigger] reached[v] && v != s ==> {
            &&& prev[v] < n
            &&& done[prev[v] as int]
            &&& wedge(av, cv, prev[v] as int, v, dist[v] - dist[prev[v] as int])
            &&& done[v] ==> rank[prev[v] as int] < rank[v]
        }
    &&& forall|w: int, v: int|
        0 <= w < n && 0 <= v < n && #[trigger] done[w] && #[trigger] reached[v] && !done[v] ==> dist[w] <= dist[v]
}

/// Every authored edge out of a settled node other than `open` reached been
/// relaxed: its head is reached, at no more than the tail's cost plus the
/// edge's.  Of `open`'s edges, the first `kk` have been.
pub open spec fn relaxed(
    av: Seq<Seq<usize>>,
    cv: Seq<Seq<Option<i32>>>,
    dist: Seq<i64>,
    reached: Seq<bool>,
    done: Seq<bool>,
    open: int,
    kk: int,
) -> bool {
    forall|w: int, k: int|
        (0 <= w < av.len() && 0 <= k < av[w].len() && done[w] && (w != open || k < kk)) ==> (#[trigger] cv[w][k]
            matches Some(c) ==> reached[av[w][k] as int] && dist[av[w][k] as int] <= dist[w] + c)
}

/// Settled costs are the cheapest: every authored walk from `s` to a
/// settled node costs at least its settled cost.
pub open spec fn settled_cheapest(
    av: Seq<Seq<usize>>,
    cv: Seq<Seq<Option<i32>>>,
    s: int,
    dist: Seq<i64>,
    done: Seq<bool>,
) -> bool {
    forall|w: int, p: Seq<int>, cs: Seq<int>|
        0 <= w < done.len() && done[w] && #[trigger] cwalk(av, cv, p, cs, s, w) ==> total(cs) >= dist[w]
}

/// The node about to be settled is the cheapest reached one: no authored
/// walk reaches it more cheaply.
proof fn lemma_select_cheapest(
    av: Seq<Seq<usize>>,
    cv: Seq<Seq<Option<i32>>>,
    s: int,
    dist: Seq<i64>,
    reached: Seq<bool>,
    done: Seq<bool>,
    prev: Seq<usize>,
    rank: Seq<int>,
    u: int,
    p: Seq<int>,
    cs: Seq<int>,
)
    requires
        nonneg(cv),
        search_ok(av, cv, s, dist, reached, done, prev, rank),
        relaxed(av, cv, dist, reached, done, -1, 0),
        settled_cheapest(av, cv, s, dist, done),
        0 <= u < av.len(),
        reached[u],
        !done[u],
        forall|v: int| 0 <= v < av.len() && reached[v] && !done[v] ==> dist[u] <= dist[v],
        cwalk(av, cv, p, cs, s, u),
    ensures
        total(cs) >= dist[u],
{
    let n = av.len();
    assert forall|i: int| 0 <= i < p.len() implies 0 <= #[trigger] p[i] < done.len() by {
        if i > 0 {
            let j = i - 1;
            assert(wedge(av, cv, p[j], p[j + 1], cs[j]));
            let x = p[i - 1];
            let k = choose|k: int|
                0 <= k < av[x].len() && av[x][k] == p[i] && #[trigger] cv[x][k] == Some(cs[i - 1] as i32) && i32::MIN
                    <= cs[i - 1] <= i32::MAX;
            assert(av[x][k] < av.len());
        }
    }
    let j = lemma_first_unsettled(p, done, 0);
    lemma_walk_costs_nonneg(av, cv, p, cs, s, u);
    lemma_total_split(cs, j);
    assert forall|i: int| 0 <= i < cs.skip(j).len() implies cs.skip(j)[i] >= 0 by {
        assert(cs.skip(j)[i] == cs[j + i]);
    }
    lemma_total_nonneg(cs.skip(j));
    if j == 0 {
        assert(forall|i: int| 0 <= i < cs.take(0).len() ==> cs.take(0)[i] >= 0);
        lemma_total_nonneg(cs.take(0));
        assert(dist[u] <= dist[s]);
    } else {
        let w = p[j - 1];
        let v = p[j];
        assert(done[w]);
        lemma_walk_prefix(av, cv, p, cs, s, u, j - 1);
        assert(cwalk(av, cv, p.take(j), cs.take(j - 1), s, w));
        assert(total(cs.take(j - 1)) >= dist[w]);
        assert(wedge(av, cv, w, v, cs[j - 1]));
        let k = choose|k: int|
            0 <= k < av[w].len() && av[w][k] == v && #[trigger] cv[w][k] == Some(cs[j - 1] as i32) && i32::MIN
                <= cs[j - 1] <= i32::MAX;
        assert(reached[v] && dist[v] <= dist[w] + cs[j - 1]);
        assert(cs.take(j) =~= cs.take(j - 1).push(cs[j - 1]));
        lemma_total_push(cs.take(j - 1), cs[j - 1]);
    }
}

/// When no reached node is left unsettled, every node an authored walk
/// from `s` reaches is settled.
proof fn lemma_exhausted(
    av: Seq<Seq<usize>>,
    cv: Seq<Seq<Option<i32>>>,
    s: int,
    dist: Seq<i64>,
    reached: Seq<bool>,
    done: Seq<bool>,
    prev: Seq<usize>,
    rank: Seq<int>,
    p: Seq<int>,
    cs: Seq<int>,
    t: int,
    i: int,
)
    requires
        search_ok(av, cv, s, dist, reached, done, prev, rank),
        relaxed(av, cv, dist, reached, done, -1, 0),
        forall|v: int| 0 <= v < av.len() && reached[v] ==> done[v],
        cwalk(av, cv, p, cs, s, t),
        0 <= i < p.len(),
    ensures
        0 <= p[i] < av.len() && done[p[i]],
    decreases i,
{
    if i == 0 {
    } else {
        lemma_exhausted(av, cv, s, dist, reached, done, prev, rank, p, cs, t, i - 1);
        let w = p[i - 1];
        let j = i - 1;
        assert(wedge(av, cv, p[j], p[j + 1], cs[j]));
        let k = choose|k: int|
            0 <= k < av[w].len() && av[w][k] == p[i] && #[trigger] cv[w][k] == Some(cs[i - 1] as i32) && i32::MIN
                <= cs[i - 1] <= i32::MAX;
        assert(av[w][k] < av.len());
        assert(reached[av[w][k] as int]);
    }
}

impl CostGraph {
    /// Follows the `prev` links back from the settled node `t` to `s`.
    fn trace(
        &self,
        s: usize,
        t: usize,
        dist: &Vec<i64>,
        prev: &Vec<usize>,
        Ghost(reached): Ghost<Seq<bool>>,
        Ghost(done): Ghost<Seq<bool>>,
        Ghost(rank): Ghost<Seq<int>>,
    ) -> (p: Vec<usize>)
        requires
            self.wf(),
            search_ok(self.av(), self.cv(), s as int, dist@, reached, done, prev@, rank),
            t < self.av().len(),
            done[t as int],
        ensures
            exists|cs: Seq<int>| #[trigger] cwalk(self.av(), self.cv(), ints(p@), cs, s as int, t as int) && total(cs) == dist@[t as int],
    {
        let ghost av = self.av();
        let ghost cv = self.cv();
        let mut rev: Vec<usize> = Vec::new();
        let mut cur: usize = t;
        rev.push(t);
        let ghost mut q: Seq<int> = seq![t as int];
        let ghost mut css: Seq<int> = Seq::empty();
        proof {
            assert(cwalk(av, cv, q, css, t as int, t as int));
        }
        while cur != s
            invariant
                av == self.av(),
                cv == self.cv(),
                search_ok(av, cv, s as int, dist@, reached, done, prev@, rank),
                0 <= cur < av.len(),
                reached[cur as int],
                done[cur as int],
                cwalk(av, cv, q, css, cur as int, t as int),
                total(css) == dist@[t as int] - dist@[cur as int],
                q.len() == rev@.len(),
                forall|i: int| 0 <= i < q.len() ==> q[i] == rev@[rev@.len() - 1 - i] as int,
            decreases rank[cur as int],
        {
            let pv = prev[cur];
            let ghost c = dist@[cur as int] - dist@[pv as int];
            proof {
                let q2 = seq![pv as int] + q;
                let css2 = seq![c] + css;
                assert forall|j: int| 0 <= j < css2.len() implies #[trigger] wedge(av, cv, q2[j], q2[j + 1], css2[j]) by {
                    if j > 0 {
                        assert(q2[j] == q[j - 1] && q2[j + 1] == q[j] && css2[j] == css[j - 1]);
                        let jj = j - 1;
                        assert(wedge(av, cv, q[jj], q[jj + 1], css[jj]));
                    }
                }
                lemma_total_prepend(c, css);
                q = q2;
                css = css2;
            }
            rev.push(pv);
            cur = pv;
        }
        let n = rev.len();
        let mut out: Vec<usize> = Vec::new();
        let mut i: usize = n;
        while i > 0
            invariant
                n == rev@.len(),
                i <= n,
                out@.len() == n - i,
                forall|k: int| 0 <= k < n - i ==> out@[k] == rev@[n - 1 - k],
            decreases i,
        {
            out.push(rev[i - 1]);
            i = i - 1;
        }
        proof {
            assert(ints(out@) =~= q);
            assert(cwalk(av, cv, ints(out@), css, s as int, t as int));
        }
        out
    }

    /// A cheapest walk from `s` to `t` along edges with an authored cost,
    /// with its cost.  `None` when none is found, when the search meets an
    /// edge of negative cost, or when the cheapest cost is beyond `i32`.
    /// When no cost is negative, the walk is a cheapest one, and `None`
    /// means that every walk costs more than `i32::MAX`, or there is none.
    pub fn cheapest(&self, s: usize, t: usize) -> (r: Option<(i32, Vec<usize>)>)
        requires
            self.wf(),
            s < self.av().len(),
            t < self.av().len(),
            self.av().len() <= 0x1_0000_0000,
        ensures
            r matches Some((d, p)) ==> exists|cs: Seq<int>|
                #[trigger] cwalk(self.av(), self.cv(), ints(p@), cs, s as int, t as int) && total(cs) == d,
            r matches Some((d, p)) ==> (nonneg(self.cv()) ==> forall|q: Seq<int>, cs: Seq<int>|
                #[trigger] cwalk(self.av(), self.cv(), q, cs, s as int, t as int) ==> total(cs) >= d),
            r is None ==> (nonneg(self.cv()) ==> forall|q: Seq<int>, cs: Seq<int>|
                #[trigger] cwalk(self.av(), self.cv(), q, cs, s as int, t as int) ==> total(cs) > i32::MAX),
    {
        let ghost av = self.av();
        let ghost cv = self.cv();
        let n = self.adj.len();
        let ghost m: int = i32::MAX as int;
        let mut dist: Vec<i64> = Vec::new();
        let mut reached: Vec<bool> = Vec::new();
        let mut done: Vec<bool> = Vec::new();
        let mut prev: Vec<usize> = Vec::new();
        let mut i: usize = 0;
        while i < n
            invariant
                n == self.adj@.len(),
                i <= n,
                dist@.len() == i && reached@.len() == i && done@.len() == i && prev@.len() == i,
                forall|j: int| 0 <= j < i ==> !reached@[j] && !done@[j] && dist@[j] == 0,
            decreases n - i,
        {
            dist.push(0);
            reached.push(false);
            done.push(false);
            prev.push(0);
            i = i + 1;
        }
        reached.set(s, true);
        let ghost mut rank: Seq<int> = Seq::new(n as nat, |j: int| 0);
        proof {
            assert(done@ =~= Seq::new(n as nat, |j: int| false));
            assert(count_true(done@) == 0) by {
                lemma_zero_count(done@);
            }
            assert forall|v: int| 0 <= v < n && #[trigger] reached@[v] implies v == s as int by {}
        }
        loop
            invariant
                av == self.av(),
                cv == self.cv(),
                n == av.len(),
                n <= 0x1_0000_0000,
                self.wf(),
                s < n && t < n,
                m == i32::MAX as int,
                search_ok(av, cv, s as int, dist@, reached@, done@, prev@, rank),
                relaxed(av, cv, dist@, reached@, done@, -1, 0),
                nonneg(cv) ==> settled_cheapest(av, cv, s as int, dist@, done@),
                !done@[t as int],
            decreases n - count_true(done@),
        {
            // Pick the cheapest reached node not yet settled, the lowest-numbered among equals.
            let mut best: usize = n;
            let mut i: usize = 0;
            while i < n
                invariant
                    n == av.len(),
                    search_ok(av, cv, s as int, dist@, reached@, done@, prev@, rank),
                    i <= n,
                    best == n || (best < i && reached@[best as int] && !done@[best as int]),
                    best == n ==> forall|v: int| 0 <= v < i ==> !(reached@[v] && !done@[v]),
                    best < n ==> forall|v: int| 0 <= v < i && reached@[v] && !done@[v] ==> dist@[best as int] <= dist@[v],
                decreases n - i,
            {
                if reached[i] && !done[i] && (best == n || dist[i] < dist[best]) {
                    best = i;
                }
                i = i + 1;
            }
            if best == n {
                proof {
                    if nonneg(cv) {
                        assert forall|q: Seq<int>, cs: Seq<int>| #[trigger] cwalk(av, cv, q, cs, s as int, t as int) implies false by {
                            lemma_exhausted(av, cv, s as int, dist@, reached@, done@, prev@, rank, q, cs, t as int, q.len() - 1);
                        }
                    }
                }
                return None;
            }
            let u = best;
            let ghost cnt0 = count_true(done@);
            proof {
                if nonneg(cv) {
                    assert forall|q: Seq<int>, cs: Seq<int>| #[trigger] cwalk(av, cv, q, cs, s as int, u as int) implies total(cs)
                        >= dist@[u as int] by {
                        lemma_select_cheapest(av, cv, s as int, dist@, reached@, done@, prev@, rank, u as int, q, cs);
                    }
                }
                lemma_count_set(done@, u as int);
                lemma_count_bound(done@.update(u as int, true));
            }
            done.set(u, true);
            proof {
                rank = rank.update(u as int, cnt0 as int);
            }
            if u == t {
                let d = dist[u];
                if d > 0x7fff_ffff {
                    proof {
                        if nonneg(cv) {
                            assert forall|q: Seq<int>, cs: Seq<int>| #[trigger] cwalk(self.av(), self.cv(), q, cs, s as int, t as int) implies total(cs) > i32::MAX by {
                                assert(cwalk(av, cv, q, cs, s as int, u as int));
                            }
                        }
                    }
                    return None;
                }
                let d32 = d as i32;
                let p = self.trace(s, t, &dist, &prev, Ghost(reached@), Ghost(done@), Ghost(rank));
                proof {
                    let cs = choose|cs: Seq<int>| #[trigger] cwalk(av, cv, ints(p@), cs, s as int, t as int) && total(cs) == dist@[t as int];
                    assert(cwalk(self.av(), self.cv(), ints(p@), cs, s as int, t as int) && total(cs) == d32);
                    assert(exists|cs: Seq<int>| #[trigger] cwalk(self.av(), self.cv(), ints(p@), cs, s as int, t as int) && total(cs) == d32);
                    if nonneg(cv) {
                        assert forall|q: Seq<int>, cs2: Seq<int>| #[trigger] cwalk(self.av(), self.cv(), q, cs2, s as int, t as int) implies total(cs2) >= d32 by {
                            assert(cwalk(av, cv, q, cs2, s as int, u as int));
                        }
                    }
                }
                let r = Some((d32, p));
                proof {
                    assert(r matches Some((d2, p2)) && d2 == d32 && p2@ == p@);
                }
                return r;
            }
            // Relax the edges out of `u`.
            let du = dist[u];
            let cnt1 = Ghost(count_true(done@));
            proof {
                assert(cnt1@ <= n);
            }
            let mut k: usize = 0;
            while k < self.adj[u].len()
                invariant
                    av == self.av(),
                    cv == self.cv(),
                    n == av.len(),
                    n <= 0x1_0000_0000,
                    self.wf(),
                    s < n && t < n && u < n && u != t,
                    m == i32::MAX as int,
                    cnt1@ == count_true(done@),
                    cnt1@ <= n,
                    search_ok(av, cv, s as int, dist@, reached@, done@, prev@, rank),
                    relaxed(av, cv, dist@, reached@, done@, u as int, k as int),
                    nonneg(cv) ==> settled_cheapest(av, cv, s as int, dist@, done@),
                    !done@[t as int],
                    done@[u as int],
                    rank[u as int] == cnt1@ - 1,
                    dist@[u as int] == du,
                    0 <= du <= (cnt1@ - 1) * m,
                    forall|w: int| 0 <= w < n && done@[w] ==> dist@[w] <= du,
                    k <= av[u as int].len(),
                decreases av[u as int].len() - k,
            {
                let v = self.adj[u][k];
                match self.cost[u][k] {
                    None => {},
                    Some(c) => {
                        if c < 0 {
                            proof {
                                assert(cv[u as int][k as int] == Some(c));
                            }
                            return None;
                        }
                        proof {
                            assert(cv[u as int][k as int] == Some(c));
                            assert(du + c <= (cnt1@ as int) * m);
                            assert((cnt1@ as int) * m <= 0x1_0000_0000 * m);
                        }
                        let nd = du + c as i64;
                        if !reached[v] || nd < dist[v] {
                            proof {
                                if done@[v as int] {
                                    assert(dist@[v as int] <= du);
                                }
                                assert(wedge(av, cv, u as int, v as int, c as int));
                            }
                            dist.set(v, nd);
                            reached.set(v, true);
                            prev.set(v, u);
                        }
                    },
                }
                k = k + 1;
            }
        }
    }
}

proof fn lemma_zero_count(v: Seq<bool>)
    requires
        forall|i: int| 0 <= i < v.len() ==> !v[i],
    ensures
        count_true(v) == 0,
    decreases v.len(),
{
    if v.len() > 0 {
        lemma_zero_count(v.drop_last());
    }
}

} // verus!
