//! Movement validation and resolution.
//!
//! [`validate_order`] checks an order against a scenario and returns the
//! planned movement or the reason for rejection; [`resolve_order`] applies
//! an already-validated plan, mutates the scenario and returns the event.
//! Both are pure and deterministic.

use vstd::prelude::*;

use crate::events::{Event, ForcedMarchResolved, InterceptionQueued, MovementResolved, OrderRejected};
use crate::ids::{AreaId, CorpsId};
use crate::graph::names_before;
use crate::map::{area_names, land_link, land_node, MapGraph};
use crate::orders::Order;
use crate::scenario::{Corps, Scenario};
use crate::strmap::StrMap;
use crate::tables::{value_or, Maybe};
use crate::text::{decimal, push_signed, push_str, signed_decimal, string_from_chars};

verus! {

/// Reasons an order may be rejected before it enters the log.
#[derive(Debug, Clone, PartialEq, Eq)]
pub enum MovementRejection {
    UnknownCorps(String),
    UnknownArea(String),
    NotOwner { submitter: String, corps: String },
    Unreachable(String),
    OverBudget { hops: i32, budget: i32 },
    StackingLimit { limit: i32 },
    PlaceholderRule(&'static str),
}

/// The stable machine-readable code of a rejection.
pub open spec fn rejection_code(r: MovementRejection) -> Seq<char> {
    match r {
        MovementRejection::UnknownCorps(_) => "UNKNOWN_CORPS"@,
        MovementRejection::UnknownArea(_) => "UNKNOWN_AREA"@,
        MovementRejection::NotOwner { .. } => "NOT_OWNER"@,
        MovementRejection::Unreachable(_) => "UNREACHABLE"@,
        MovementRejection::OverBudget { .. } => "OVER_BUDGET"@,
        MovementRejection::StackingLimit { .. } => "STACKING_LIMIT"@,
        MovementRejection::PlaceholderRule(_) => "PLACEHOLDER_RULE"@,
    }
}

/// The human-readable text of a rejection.
pub open spec fn rejection_text(r: MovementRejection) -> Seq<char> {
    match r {
        MovementRejection::UnknownCorps(c) => "corps `"@ + c@ + "` does not exist"@,
        MovementRejection::UnknownArea(a) => "destination area `"@ + a@ + "` does not exist"@,
        MovementRejection::NotOwner { submitter, corps } => "submitter `"@ + submitter@
            + "` does not own corps `"@ + corps@ + "`"@,
        MovementRejection::Unreachable(a) => "destination unreachable: "@ + a@,
        MovementRejection::OverBudget { hops, budget } => "destination exceeds movement budget: "@
            + signed_decimal(hops as int) + " hops > "@ + signed_decimal(budget as int),
        MovementRejection::StackingLimit { limit } => "destination area is full (max "@
            + signed_decimal(limit as int) + ")"@,
        MovementRejection::PlaceholderRule(name) => "rules table value is placeholder: "@ + name@,
    }
}

impl MovementRejection {
    /// The stable machine-readable code of the rejection.
    pub fn code(&self) -> (s: &'static str)
        ensures
            s@ == rejection_code(*self),
    {
        match self {
            MovementRejection::UnknownCorps(_) => "UNKNOWN_CORPS",
            MovementRejection::UnknownArea(_) => "UNKNOWN_AREA",
            MovementRejection::NotOwner { .. } => "NOT_OWNER",
            MovementRejection::Unreachable(_) => "UNREACHABLE",
            MovementRejection::OverBudget { .. } => "OVER_BUDGET",
            MovementRejection::StackingLimit { .. } => "STACKING_LIMIT",
            MovementRejection::PlaceholderRule(_) => "PLACEHOLDER_RULE",
        }
    }

    /// The human-readable text of the rejection.
    pub fn message(&self) -> (s: String)
        ensures
            s@ == rejection_text(*self),
    {
        let mut v: Vec<char> = Vec::new();
        match self {
            MovementRejection::UnknownCorps(c) => {
                push_str(&mut v, "corps `");
                push_str(&mut v, c.as_str());
                push_str(&mut v, "` does not exist");
            },
            MovementRejection::UnknownArea(a) => {
                push_str(&mut v, "destination area `");
                push_str(&mut v, a.as_str());
                push_str(&mut v, "` does not exist");
            },
            MovementRejection::NotOwner { submitter, corps } => {
                push_str(&mut v, "submitter `");
                push_str(&mut v, submitter.as_str());
                push_str(&mut v, "` does not own corps `");
                push_str(&mut v, corps.as_str());
                push_str(&mut v, "`");
            },
            MovementRejection::Unreachable(a) => {
                push_str(&mut v, "destination unreachable: ");
                push_str(&mut v, a.as_str());
            },
            MovementRejection::OverBudget { hops, budget } => {
                push_str(&mut v, "destination exceeds movement budget: ");
                push_signed(*hops as i64, &mut v);
                push_str(&mut v, " hops > ");
                push_signed(*budget as i64, &mut v);
            },
            MovementRejection::StackingLimit { limit } => {
                push_str(&mut v, "destination area is full (max ");
                push_signed(*limit as i64, &mut v);
                push_str(&mut v, ")");
            },
            MovementRejection::PlaceholderRule(name) => {
                push_str(&mut v, "rules table value is placeholder: ");
                push_str(&mut v, name);
            },
        }
        proof {
            assert(v@ =~= rejection_text(*self));
        }
        string_from_chars(v.as_slice())
    }
}


/// `p` is a walk from `a` to `b` over the scenario's land adjacencies.
pub open spec fn land_walk(s: &Scenario, p: Seq<Seq<char>>, a: Seq<char>, b: Seq<char>) -> bool {
    &&& p.len() >= 1
    &&& p[0] == a
    &&& p.last() == b
    &&& forall|k: int| 0 <= k < p.len() - 1 ==> #[trigger] land_link(s, p[k], p[k + 1])
}

/// `p` is, of the shortest land walks from `a` to `b`, the first in name
/// order, compared area by area from `a`.
pub open spec fn first_land_walk(s: &Scenario, p: Seq<Seq<char>>, a: Seq<char>, b: Seq<char>) -> bool {
    &&& land_walk(s, p, a, b)
    &&& forall|o: Seq<Seq<char>>| #[trigger] land_walk(s, o, a, b) ==> o.len() >= p.len()
    &&& forall|o: Seq<Seq<char>>| #[trigger] land_walk(s, o, a, b) && o.len() == p.len() && o != p ==> names_before(p, o)
}

/// Both ends are areas of the land map and `b` can be reached from `a`.
pub open spec fn land_reachable(s: &Scenario, a: Seq<char>, b: Seq<char>) -> bool {
    land_node(s, a) && land_node(s, b) && exists|p: Seq<Seq<char>>| #[trigger] land_walk(s, p, a, b)
}

/// `d` is the hop count of a shortest land walk from `a` to `b`.
pub open spec fn hop_distance(s: &Scenario, a: Seq<char>, b: Seq<char>, d: int) -> bool {
    &&& land_reachable(s, a, b)
    &&& exists|p: Seq<Seq<char>>| #[trigger] land_walk(s, p, a, b) && p.len() == d + 1
    &&& forall|p: Seq<Seq<char>>| #[trigger] land_walk(s, p, a, b) ==> p.len() >= d + 1
}

/// Number of entries of `cs` whose corps stands in `a`.
pub open spec fn count_in_area(cs: Seq<(String, Corps)>, a: Seq<char>) -> nat
    decreases cs.len(),
{
    if cs.len() == 0 {
        0
    } else {
        count_in_area(cs.drop_last(), a) + if cs.last().1.area@ == a {
            1nat
        } else {
            0nat
        }
    }
}

/// Number of corps standing in `a`.
pub open spec fn occupants(s: &Scenario, a: Seq<char>) -> nat {
    count_in_area(s.corps.entries_view(), a)
}

/// Extra hops a forced march is allowed (one when not yet authored).
pub open spec fn forced_extra(s: &Scenario) -> int {
    match s.movement_rules.forced_march_extra_hops {
        Maybe::Value(v) => v as int,
        Maybe::Placeholder(_) => 1,
    }
}

/// Stacking limit of an area (unbounded when not yet authored).
pub open spec fn stacking_limit(s: &Scenario) -> int {
    match s.movement_rules.max_corps_per_area {
        Maybe::Value(v) => v as int,
        Maybe::Placeholder(_) => i32::MAX as int,
    }
}

/// The sizes and rules values that keep movement arithmetic in `i32`.
pub open spec fn movement_fits(s: &Scenario) -> bool {
    &&& s.areas.entries_view().len() + 4 * s.adjacency@.len() <= i32::MAX
    &&& s.corps.entries_view().len() < i32::MAX
    &&& match s.movement_rules.movement_hops_per_turn {
        Maybe::Value(v) => i32::MIN <= v + forced_extra(s) <= i32::MAX,
        Maybe::Placeholder(_) => true,
    }
}

/// Whether the scenario's sizes and movement rules keep movement
/// arithmetic in `i32`: [`movement_fits`], computed.
pub fn movement_fits_check(s: &Scenario) -> (b: bool)
    ensures
        b == movement_fits(s),
{
    let areas = s.areas.len() as u128;
    let links = s.adjacency.len() as u128;
    let corps = s.corps.len() as u128;
    let extra: i64 = match &s.movement_rules.forced_march_extra_hops {
        Maybe::Value(v) => *v as i64,
        Maybe::Placeholder(_) => 1,
    };
    let budget_fits = match &s.movement_rules.movement_hops_per_turn {
        Maybe::Value(v) => {
            let total = *v as i64 + extra;
            -2147483648i64 <= total && total <= 2147483647i64
        },
        Maybe::Placeholder(_) => true,
    };
    areas + 4 * links <= 2147483647u128 && corps < 2147483647u128 && budget_fits
}

/// Outcome of a successful validation; carries enough information that
/// [`resolve_order`] can be applied without recomputing the path.
#[derive(Debug, Clone, PartialEq, Eq)]
pub enum MovementPlan {
    Hold { at: AreaId },
    Move { path: Vec<AreaId>, hops: i32 },
    ForcedMarch { path: Vec<AreaId>, hops: i32 },
    InterceptionQueued { target: AreaId },
}

/// What planning a move of `extra` extra hops from `from` to `to` gives.
pub open spec fn plan_result(
    s: &Scenario,
    from: Seq<char>,
    to: Seq<char>,
    extra: int,
    r: Result<MovementPlan, MovementRejection>,
) -> bool {
    if !s.areas@.contains_key(to) {
        r matches Err(MovementRejection::UnknownArea(x)) && x@ == to
    } else if !land_reachable(s, from, to) {
        r matches Err(MovementRejection::Unreachable(x)) && x@ == to
    } else {
        match s.movement_rules.movement_hops_per_turn {
            Maybe::Placeholder(_) => r matches Err(MovementRejection::PlaceholderRule(x))
                && x@ == "movement_hops_per_turn"@,
            Maybe::Value(v) => {
                let budget = v + extra;
                forall|d: int|
                    #[trigger] hop_distance(s, from, to, d) ==> if d > budget {
                        r == Err::<MovementPlan, MovementRejection>(
                            MovementRejection::OverBudget { hops: d as i32, budget: budget as i32 },
                        )
                    } else if occupants(s, to) + 1 > stacking_limit(s) && from != to {
                        r == Err::<MovementPlan, MovementRejection>(
                            MovementRejection::StackingLimit { limit: stacking_limit(s) as i32 },
                        )
                    } else if extra > 0 {
                        r matches Ok(MovementPlan::ForcedMarch { path, hops }) && hops == d && path@.len() == d + 1
                            && first_land_walk(s, area_names(path@), from, to)
                    } else {
                        r matches Ok(MovementPlan::Move { path, hops }) && hops == d && path@.len() == d + 1
                            && first_land_walk(s, area_names(path@), from, to)
                    }
            },
        }
    }
}

/// What validating a movement order gives.
pub open spec fn validate_result(s: &Scenario, order: Order, r: Result<MovementPlan, MovementRejection>) -> bool {
    let cid = order.spec_corps()->Some_0;
    if !s.corps@.contains_key(cid@) {
        r matches Err(MovementRejection::UnknownCorps(x)) && x@ == cid@
    } else {
        let c = s.corps@[cid@];
        if c.owner@ != order.spec_submitter()@ {
            r matches Err(MovementRejection::NotOwner { submitter, corps }) && submitter@ == order.spec_submitter()@
                && corps@ == cid@
        } else {
            match order {
                Order::Hold(_) => r == Ok::<MovementPlan, MovementRejection>(MovementPlan::Hold { at: c.area }),
                Order::Move(o) => plan_result(s, c.area@, o.to@, 0, r),
                Order::ForcedMarch(o) => plan_result(s, c.area@, o.to@, forced_extra(s), r),
                Order::Interception(o) => if !s.areas@.contains_key(o.target_area@) {
                    r matches Err(MovementRejection::UnknownArea(x)) && x@ == o.target_area@
                } else {
                    r == Ok::<MovementPlan, MovementRejection>(
                        MovementPlan::InterceptionQueued { target: o.target_area },
                    )
                },
                _ => false,
            }
        }
    }
}

/// A graph walk of `g` built from `s` is exactly a land walk of `s`.
pub proof fn lemma_graph_walk(s: &Scenario, g: &MapGraph, p: Seq<Seq<char>>, a: Seq<char>, b: Seq<char>)
    requires
        forall|x: Seq<char>, y: Seq<char>| #[trigger] g.graph.link(x, y) <==> land_link(s, x, y),
    ensures
        g.graph.walk(p, a, b) <==> land_walk(s, p, a, b),
{
    if g.graph.walk(p, a, b) {
        assert forall|k: int| 0 <= k < p.len() - 1 implies #[trigger] land_link(s, p[k], p[k + 1]) by {
            assert(g.graph.link(p[k], p[k + 1]));
        }
    }
    if land_walk(s, p, a, b) {
        assert forall|k: int| 0 <= k < p.len() - 1 implies #[trigger] g.graph.link(p[k], p[k + 1]) by {
            assert(land_link(s, p[k], p[k + 1]));
        }
    }
}

/// Counts the corps standing in `area`.
fn count_occupants(corps: &StrMap<Corps>, area: &AreaId) -> (n: usize)
    ensures
        n == count_in_area(corps.entries_view(), area@),
        n <= corps.entries_view().len(),
{
    let len = corps.len();
    let mut n: usize = 0;
    let mut i: usize = 0;
    while i < len
        invariant
            len == corps.entries_view().len(),
            i <= len,
            n == count_in_area(corps.entries_view().take(i as int), area@),
            n <= i,
        decreases len - i,
    {
        proof {
            assert(corps.entries_view().take(i + 1).drop_last() =~= corps.entries_view().take(i as int));
        }
        if corps.value_at(i).area.same(area) {
            n = n + 1;
        }
        i = i + 1;
    }
    proof {
        assert(corps.entries_view().take(len as int) =~= corps.entries_view());
    }
    n
}

/// Plans a move of `extra` extra hops from `from` to `to`.
fn plan_move(s: &Scenario, from: &AreaId, to: &AreaId, extra_hops: i32) -> (r: Result<MovementPlan, MovementRejection>)
    requires
        movement_fits(s),
        extra_hops == 0 || extra_hops == forced_extra(s),
    ensures
        plan_result(s, from@, to@, extra_hops as int, r),
{
    if !s.areas.contains_key(to.as_str()) {
        return Err(MovementRejection::UnknownArea(to.to_string()));
    }
    let g = MapGraph::from_scenario(s);
    let path = match g.shortest_path_hops(from, to) {
        Some(p) => p,
        None => {
            proof {
                if land_reachable(s, from@, to@) {
                    let p = choose|p: Seq<Seq<char>>| #[trigger] land_walk(s, p, from@, to@);
                    lemma_graph_walk(s, &g, p, from@, to@);
                }
            }
            return Err(MovementRejection::Unreachable(to.to_string()));
        },
    };
    let hops: i32 = (path.len() - 1) as i32;
    proof {
        lemma_graph_walk(s, &g, area_names(path@), from@, to@);
        assert(land_walk(s, area_names(path@), from@, to@));
        assert forall|p: Seq<Seq<char>>| #[trigger] land_walk(s, p, from@, to@) implies p.len() >= hops + 1 by {
            lemma_graph_walk(s, &g, p, from@, to@);
        }
        assert forall|o: Seq<Seq<char>>|
            #[trigger] land_walk(s, o, from@, to@) && o.len() == area_names(path@).len() && o != area_names(path@)
                implies names_before(area_names(path@), o) by {
            lemma_graph_walk(s, &g, o, from@, to@);
        }
        assert(first_land_walk(s, area_names(path@), from@, to@));
        assert(hop_distance(s, from@, to@, hops as int));
        assert forall|d: int| #[trigger] hop_distance(s, from@, to@, d) implies d == hops by {
            let p = choose|p: Seq<Seq<char>>| #[trigger] land_walk(s, p, from@, to@) && p.len() == d + 1;
            assert(area_names(path@).len() == path@.len());
        }
    }
    let base = match &s.movement_rules.movement_hops_per_turn {
        Maybe::Value(v) => *v,
        Maybe::Placeholder(_) => {
            return Err(MovementRejection::PlaceholderRule("movement_hops_per_turn"));
        },
    };
    let budget = base + extra_hops;
    if hops > budget {
        return Err(MovementRejection::OverBudget { hops, budget });
    }
    let limit = match &s.movement_rules.max_corps_per_area {
        Maybe::Value(v) => *v,
        Maybe::Placeholder(_) => i32::MAX,
    };
    let occupants = count_occupants(&s.corps, to) as i32;
    if occupants as i64 + 1 > limit as i64 && !from.same(to) {
        return Err(MovementRejection::StackingLimit { limit });
    }
    if extra_hops > 0 {
        Ok(MovementPlan::ForcedMarch { path, hops })
    } else {
        Ok(MovementPlan::Move { path, hops })
    }
}

/// Checks a movement order against the scenario and returns the planned
/// movement, or the reason it is rejected.
pub fn validate_order(s: &Scenario, order: &Order) -> (r: Result<MovementPlan, MovementRejection>)
    requires
        order.is_movement(),
        movement_fits(s),
    ensures
        validate_result(s, *order, r),
{
    let corps_id = match order.corps() {
        Some(c) => c,
        None => {
            return Err(MovementRejection::UnknownCorps(String::new()));
        },
    };
    let corps = match s.corps.get(corps_id.as_str()) {
        Some(c) => c,
        None => {
            return Err(MovementRejection::UnknownCorps(corps_id.to_string()));
        },
    };
    if !corps.owner.same(order.submitter()) {
        return Err(
            MovementRejection::NotOwner { submitter: order.submitter().to_string(), corps: corps_id.to_string() },
        );
    }
    match order {
        Order::Hold(_) => Ok(MovementPlan::Hold { at: corps.area.duplicate() }),
        Order::Move(o) => plan_move(s, &corps.area, &o.to, 0),
        Order::ForcedMarch(o) => {
            let extra = match &s.movement_rules.forced_march_extra_hops {
                Maybe::Value(v) => *v,
                Maybe::Placeholder(_) => 1,
            };
            plan_move(s, &corps.area, &o.to, extra)
        },
        Order::Interception(o) => {
            if !s.areas.contains_key(o.target_area.as_str()) {
                return Err(MovementRejection::UnknownArea(o.target_area.to_string()));
            }
            Ok(MovementPlan::InterceptionQueued { target: o.target_area.duplicate() })
        },
        _ => Err(MovementRejection::UnknownCorps(String::new())),
    }
}


/// The corps table after `cid` has moved to `to` (unchanged when there is
/// no such corps).
pub open spec fn corps_moved(m: Map<Seq<char>, Corps>, cid: Seq<char>, to: AreaId) -> Map<Seq<char>, Corps> {
    if m.contains_key(cid) {
        m.insert(cid, Corps { area: to, ..m[cid] })
    } else {
        m
    }
}

/// Morale after a forced march costing `loss`, floored at zero.
pub open spec fn marched_morale(morale: int, loss: int) -> int {
    if morale - loss < 0 {
        0
    } else {
        morale - loss
    }
}

/// The corps table after `cid` has lost `loss` morale (unchanged when
/// there is no such corps).
pub open spec fn corps_tired(m: Map<Seq<char>, Corps>, cid: Seq<char>, loss: int) -> Map<Seq<char>, Corps> {
    if m.contains_key(cid) {
        m.insert(cid, Corps { morale_q4: marched_morale(m[cid].morale_q4 as int, loss) as i32, ..m[cid] })
    } else {
        m
    }
}

/// Morale lost on a forced march (nothing when not yet authored).
pub open spec fn march_loss(s: &Scenario) -> int {
    value_or(s.movement_rules.forced_march_morale_loss_q4, 0)
}

/// Moves corps `cid` to `to`, if it exists.
fn move_corps(s: &mut Scenario, cid: &CorpsId, to: &AreaId)
    ensures
        *final(s) == (Scenario { corps: final(s).corps, ..*old(s) }),
        final(s).corps@ == corps_moved(old(s).corps@, cid@, *to),
{
    match s.corps.find(cid.as_str()) {
        Some(i) => {
            let mut c = s.corps.value_at(i).duplicate();
            c.area = to.duplicate();
            proof {
                assert(old(s).corps@.contains_key(old(s).corps.entries_view()[i as int].0@));
            }
            s.corps.set_value_at(i, c);
        },
        None => {},
    }
}

/// Lowers the morale of corps `cid` by `loss`, never below zero.
fn tire_corps(s: &mut Scenario, cid: &CorpsId, loss: i32)
    requires
        old(s).corps@.contains_key(cid@) ==> old(s).corps@[cid@].morale_q4 - loss <= i32::MAX,
    ensures
        *final(s) == (Scenario { corps: final(s).corps, ..*old(s) }),
        final(s).corps@ == corps_tired(old(s).corps@, cid@, loss as int),
{
    match s.corps.find(cid.as_str()) {
        Some(i) => {
            let mut c = s.corps.value_at(i).duplicate();
            proof {
                assert(old(s).corps@.contains_key(old(s).corps.entries_view()[i as int].0@));
            }
            let m = c.morale_q4 as i64 - loss as i64;
            c.morale_q4 = if m < 0 {
                0
            } else {
                m as i32
            };
            s.corps.set_value_at(i, c);
        },
        None => {},
    }
}

/// The area of corps `cid`, or an empty ID when there is none.
fn corps_area_or_default(s: &Scenario, cid: &CorpsId) -> (a: AreaId)
    ensures
        a@ == if s.corps@.contains_key(cid@) {
            s.corps@[cid@].area@
        } else {
            Seq::<char>::empty()
        },
{
    match s.corps.get(cid.as_str()) {
        Some(c) => c.area.duplicate(),
        None => AreaId(String::new()),
    }
}

/// What resolving `plan` for `order` does: `s2` is the scenario after
/// the resolution of `s` and `e` the event that records it.
pub open spec fn resolution(s: Scenario, order: Order, plan: MovementPlan, e: Event, s2: Scenario) -> bool {
    let cid = order.spec_corps()->Some_0;
    match plan {
        MovementPlan::Hold { at } => {
            &&& s2 == s
            &&& e matches Event::MovementResolved(m) && m.corps == cid && m.from == at && m.to == at && m.hops == 0
                && m.path@.len() == 1 && m.path@[0]@ == (if s.corps@.contains_key(cid@) {
                s.corps@[cid@].area@
            } else {
                Seq::<char>::empty()
            })
        },
        MovementPlan::Move { path, hops } => {
            &&& s2 == (Scenario { corps: s2.corps, ..s })
            &&& s2.corps@ == corps_moved(s.corps@, cid@, path@.last())
            &&& e == Event::MovementResolved(
                MovementResolved { corps: cid, from: path@[0], to: path@.last(), hops, path },
            )
        },
        MovementPlan::ForcedMarch { path, hops } => {
            &&& s2 == (Scenario { corps: s2.corps, ..s })
            &&& s2.corps@ == corps_tired(
                corps_moved(s.corps@, cid@, path@.last()),
                cid@,
                march_loss(&s),
            )
            &&& e == Event::ForcedMarchResolved(
                ForcedMarchResolved {
                    corps: cid,
                    from: path@[0],
                    to: path@.last(),
                    hops,
                    path,
                    morale_loss_q4: march_loss(&s) as i32,
                },
            )
        },
        MovementPlan::InterceptionQueued { target } => {
            &&& s2 == s
            &&& e == Event::InterceptionQueued(InterceptionQueued { corps: cid, target_area: target })
        },
    }
}

/// Applies a validated plan to the scenario and returns the matching event.
pub fn resolve_order(s: &mut Scenario, order: &Order, plan: MovementPlan) -> (e: Event)
    requires
        order.is_movement(),
        plan matches MovementPlan::Move { path, .. } ==> path@.len() > 0,
        plan matches MovementPlan::ForcedMarch { path, .. } ==> path@.len() > 0,
        plan is ForcedMarch && old(s).corps@.contains_key(order.spec_corps()->Some_0@) ==> old(s).corps@[order.spec_corps()->Some_0@].morale_q4
            - march_loss(&*old(s)) <= i32::MAX,
    ensures
        resolution(*old(s), *order, plan, e, *final(s)),
{
    let cid = match order.corps() {
        Some(c) => c.duplicate(),
        None => CorpsId(String::new()),
    };
    match plan {
        MovementPlan::Hold { at } => {
            let here = corps_area_or_default(s, &cid);
            let mut path: Vec<AreaId> = Vec::new();
            path.push(here);
            Event::MovementResolved(MovementResolved { corps: cid, from: at.duplicate(), to: at, hops: 0, path })
        },
        MovementPlan::Move { path, hops } => {
            let from = path[0].duplicate();
            let to = path[path.len() - 1].duplicate();
            move_corps(s, &cid, &to);
            Event::MovementResolved(MovementResolved { corps: cid, from, to, hops, path })
        },
        MovementPlan::ForcedMarch { path, hops } => {
            let from = path[0].duplicate();
            let to = path[path.len() - 1].duplicate();
            move_corps(s, &cid, &to);
            let loss = match &s.movement_rules.forced_march_morale_loss_q4 {
                Maybe::Value(v) => *v,
                Maybe::Placeholder(_) => 0,
            };
            tire_corps(s, &cid, loss);
            Event::ForcedMarchResolved(
                ForcedMarchResolved { corps: cid, from, to, hops, path, morale_loss_q4: loss },
            )
        },
        MovementPlan::InterceptionQueued { target } => {
            Event::InterceptionQueued(InterceptionQueued { corps: cid, target_area: target })
        },
    }
}

/// Validates a movement order and turns a rejection into the
/// `OrderRejected` event that records it.
pub fn validate_or_reject(s: &Scenario, order: &Order) -> (r: Result<MovementPlan, Event>)
    requires
        order.is_movement(),
        movement_fits(s),
    ensures
        exists|v: Result<MovementPlan, MovementRejection>|
            #[trigger] validate_result(s, *order, v) && match v {
                Ok(p) => r == Ok::<MovementPlan, Event>(p),
                Err(j) => r matches Err(Event::OrderRejected(o)) && o.reason_code@ == rejection_code(j)
                    && o.message@ == rejection_text(j),
            },
{
    let v = validate_order(s, order);
    match v {
        Ok(p) => Ok(p),
        Err(j) => {
            let code = j.code().to_string();
            Err(Event::OrderRejected(OrderRejected { reason_code: code, message: j.message() }))
        },
    }
}

} // verus!
