//! Diplomatic order validation and resolution of the diplomacy phase.
//!
//! Relations are symmetric and stored once per pair; a pair with no entry
//! is neutral.  Within each step of the phase, orders are taken in
//! submitter order, and a submitter's own orders in the order given.

use vstd::prelude::*;

use crate::events::Event;
use crate::ids::PowerId;
use crate::orders::{BreakAllianceOrder, DeclareWarOrder, FormAllianceOrder, Order, ProposePeaceOrder};
use crate::scenario::{pair_key, pair_of, DiplomaticPairKey, DiplomaticState, PowerState, Scenario};
use crate::strmap::{lex_lt, str_less, text_order, StrMap};
use crate::tables::{Maybe, PpModifiersTable};
use crate::text::{push_str, string_from_chars};

verus! {

/// The relation between `a` and `b` in a relation table; neutral when the
/// pair has no entry.
pub open spec fn state_in(d: Map<Seq<char>, DiplomaticState>, a: Seq<char>, b: Seq<char>) -> DiplomaticState {
    if d.contains_key(pair_key(a, b)) {
        d[pair_key(a, b)]
    } else {
        DiplomaticState::Neutral
    }
}

/// The current symmetric relation between `a` and `b`; neutral when the
/// pair has no entry.
pub fn get_diplomatic_state(scenario: &Scenario, a: &PowerId, b: &PowerId) -> (r: DiplomaticState)
    ensures
        r == state_in(scenario.diplomacy@, a@, b@),
{
    let key = DiplomaticPairKey::new(a.duplicate(), b.duplicate()).text();
    match scenario.diplomacy.get(key.as_str()) {
        Some(st) => *st,
        None => DiplomaticState::Neutral,
    }
}

/// Records the relation between `a` and `b` under the pair's key,
/// replacing any earlier entry; nothing else changes.
pub fn set_diplomatic_state(scenario: &mut Scenario, a: &PowerId, b: &PowerId, state: DiplomaticState)
    ensures
        *final(scenario) == (Scenario { diplomacy: final(scenario).diplomacy, ..*old(scenario) }),
        final(scenario).diplomacy@ == old(scenario).diplomacy@.insert(pair_key(a@, b@), state),
{
    let key = DiplomaticPairKey::new(a.duplicate(), b.duplicate()).text();
    scenario.diplomacy.insert(key, state);
}

/// The message for an ID that names no power.
pub open spec fn unknown_power(p: Seq<char>) -> Seq<char> {
    "unknown power `"@ + p + "`"@
}

/// Why `sub` may not declare war on `tgt` under the relations `d`, if it
/// may not; `known` holds the IDs of the powers.
pub open spec fn war_verdict(
    known: Set<Seq<char>>,
    d: Map<Seq<char>, DiplomaticState>,
    sub: Seq<char>,
    tgt: Seq<char>,
) -> Option<Seq<char>> {
    if sub == tgt {
        Some("cannot declare war on self"@)
    } else if !known.contains(sub) {
        Some(unknown_power(sub))
    } else if !known.contains(tgt) {
        Some(unknown_power(tgt))
    } else if state_in(d, sub, tgt) == DiplomaticState::War {
        Some("powers are already at war"@)
    } else {
        None
    }
}

/// Why `sub` may not offer peace to `tgt`, if it may not.
pub open spec fn peace_verdict(d: Map<Seq<char>, DiplomaticState>, sub: Seq<char>, tgt: Seq<char>) -> Option<
    Seq<char>,
> {
    if state_in(d, sub, tgt) != DiplomaticState::War {
        Some("peace may only be proposed between powers currently at war"@)
    } else {
        None
    }
}

/// Why `sub` and `tgt` may not form an alliance, if they may not.
pub open spec fn alliance_verdict(d: Map<Seq<char>, DiplomaticState>, sub: Seq<char>, tgt: Seq<char>) -> Option<
    Seq<char>,
> {
    if state_in(d, sub, tgt) == DiplomaticState::Allied {
        Some("powers are already allied"@)
    } else if state_in(d, sub, tgt) == DiplomaticState::War {
        Some("powers at war cannot form an alliance"@)
    } else {
        None
    }
}

/// Why `sub` may not break an alliance with `tgt`, if it may not.
pub open spec fn break_verdict(d: Map<Seq<char>, DiplomaticState>, sub: Seq<char>, tgt: Seq<char>) -> Option<
    Seq<char>,
> {
    if state_in(d, sub, tgt) != DiplomaticState::Allied {
        Some("powers are not currently allied"@)
    } else {
        None
    }
}

/// `Ok` when the verdict finds nothing, else the error with its text.
pub open spec fn verdict_result(r: Result<(), String>, v: Option<Seq<char>>) -> bool {
    match v {
        None => r is Ok,
        Some(m) => r matches Err(e) && e@ == m,
    }
}

/// What validating a diplomatic order gives on a scenario.
pub open spec fn diplomatic_verdict(s: &Scenario, o: Order) -> Option<Seq<char>> {
    match o {
        Order::DeclareWar(w) => war_verdict(s.powers@.dom(), s.diplomacy@, w.submitter@, w.target@),
        Order::ProposePeace(p) => peace_verdict(s.diplomacy@, p.submitter@, p.target@),
        Order::FormAlliance(f) => alliance_verdict(s.diplomacy@, f.submitter@, f.target@),
        Order::BreakAlliance(b) => break_verdict(s.diplomacy@, b.submitter@, b.target@),
        _ => Some("not a diplomatic order"@),
    }
}

/// Checks a diplomatic order against the scenario; any other order is an
/// error.
pub fn validate_diplomatic_order(scenario: &Scenario, order: &Order) -> (r: Result<(), String>)
    ensures
        verdict_result(r, diplomatic_verdict(scenario, *order)),
{
    match order {
        Order::DeclareWar(o) => validate_declare_war(scenario, o),
        Order::ProposePeace(o) => validate_propose_peace(scenario, o),
        Order::FormAlliance(o) => validate_form_alliance(scenario, o),
        Order::BreakAlliance(o) => validate_break_alliance(scenario, o),
        _ => Err("not a diplomatic order".to_string()),
    }
}

/// The message for an unknown power, as a string.
fn unknown_power_message(p: &PowerId) -> (m: String)
    ensures
        m@ == unknown_power(p@),
{
    let mut v: Vec<char> = Vec::new();
    push_str(&mut v, "unknown power `");
    push_str(&mut v, p.as_str());
    push_str(&mut v, "`");
    proof {
        assert(v@ =~= unknown_power(p@));
    }
    string_from_chars(v.as_slice())
}

/// Checks a declaration of war.
pub fn validate_declare_war(scenario: &Scenario, order: &DeclareWarOrder) -> (r: Result<(), String>)
    ensures
        verdict_result(r, war_verdict(scenario.powers@.dom(), scenario.diplomacy@, order.submitter@, order.target@)),
{
    if order.submitter.same(&order.target) {
        return Err("cannot declare war on self".to_string());
    }
    if !scenario.powers.contains_key(order.submitter.as_str()) {
        return Err(unknown_power_message(&order.submitter));
    }
    if !scenario.powers.contains_key(order.target.as_str()) {
        return Err(unknown_power_message(&order.target));
    }
    if get_diplomatic_state(scenario, &order.submitter, &order.target) == DiplomaticState::War {
        return Err("powers are already at war".to_string());
    }
    Ok(())
}

/// Checks a peace proposal.
pub fn validate_propose_peace(scenario: &Scenario, order: &ProposePeaceOrder) -> (r: Result<(), String>)
    ensures
        verdict_result(r, peace_verdict(scenario.diplomacy@, order.submitter@, order.target@)),
{
    if get_diplomatic_state(scenario, &order.submitter, &order.target) != DiplomaticState::War {
        return Err("peace may only be proposed between powers currently at war".to_string());
    }
    Ok(())
}

/// Checks an alliance proposal.
pub fn validate_form_alliance(scenario: &Scenario, order: &FormAllianceOrder) -> (r: Result<(), String>)
    ensures
        verdict_result(r, alliance_verdict(scenario.diplomacy@, order.submitter@, order.target@)),
{
    let st = get_diplomatic_state(scenario, &order.submitter, &order.target);
    if st == DiplomaticState::Allied {
        return Err("powers are already allied".to_string());
    }
    if st == DiplomaticState::War {
        return Err("powers at war cannot form an alliance".to_string());
    }
    Ok(())
}

/// Checks the breaking of an alliance.
pub fn validate_break_alliance(scenario: &Scenario, order: &BreakAllianceOrder) -> (r: Result<(), String>)
    ensures
        verdict_result(r, break_verdict(scenario.diplomacy@, order.submitter@, order.target@)),
{
    if get_diplomatic_state(scenario, &order.submitter, &order.target) != DiplomaticState::Allied {
        return Err("powers are not currently allied".to_string());
    }
    Ok(())
}

/// The prestige change a table assigns to `key`, when it holds an
/// authored value there.
pub open spec fn table_delta(t: &PpModifiersTable, key: Seq<char>) -> Option<i32> {
    if t.events@.contains_key(key) {
        match t.events@[key] {
            Maybe::Value(v) => Some(v),
            Maybe::Placeholder(_) => None,
        }
    } else {
        None
    }
}

/// The prestige change for `key`; `None` when the table has no entry or a
/// placeholder there.
pub fn prestige_delta(tables: &PpModifiersTable, key: &str) -> (r: Option<i32>)
    ensures
        r == table_delta(tables, key@),
{
    match tables.events.get(key) {
        Some(Maybe::Value(value)) => Some(*value),
        _ => None,
    }
}


/// The steps of the diplomacy phase, in the order they are resolved.
#[derive(Debug, Clone, Copy, PartialEq, Eq, Structural)]
pub enum DiplomaticStep {
    DeclareWar,
    BreakAlliance,
    FormAlliance,
    ProposePeace,
}

/// The step an order is resolved in, for the four diplomatic orders.
pub open spec fn step_of(o: Order) -> Option<DiplomaticStep> {
    match o {
        Order::DeclareWar(_) => Some(DiplomaticStep::DeclareWar),
        Order::BreakAlliance(_) => Some(DiplomaticStep::BreakAlliance),
        Order::FormAlliance(_) => Some(DiplomaticStep::FormAlliance),
        Order::ProposePeace(_) => Some(DiplomaticStep::ProposePeace),
        _ => None,
    }
}

/// Where an order by `k` goes in a list `r` of order positions kept
/// sorted by submitter: after every order whose submitter is not later
/// than `k`.
pub open spec fn slot(r: Seq<int>, os: Seq<Order>, k: Seq<char>) -> int
    decreases r.len(),
{
    if r.len() == 0 {
        0
    } else if lex_lt(k, os[r.last()].spec_submitter()@) {
        slot(r.drop_last(), os, k)
    } else {
        r.len() as int
    }
}

/// The positions, among the first `n` orders, of the orders of `step`,
/// sorted by submitter; a submitter's own orders keep their order.
pub open spec fn grouped(os: Seq<Order>, step: DiplomaticStep, n: nat) -> Seq<int>
    decreases n,
{
    if n == 0 {
        Seq::empty()
    } else {
        let r = grouped(os, step, (n - 1) as nat);
        let i = n - 1;
        if step_of(os[i]) == Some(step) {
            r.insert(slot(r, os, os[i].spec_submitter()@), i)
        } else {
            r
        }
    }
}

proof fn lemma_slot_bounds(r: Seq<int>, os: Seq<Order>, k: Seq<char>)
    ensures
        0 <= slot(r, os, k) <= r.len(),
    decreases r.len(),
{
    if r.len() > 0 {
        lemma_slot_bounds(r.drop_last(), os, k);
    }
}

/// Every position listed for a step is a position of an order of that
/// step.
pub proof fn lemma_grouped_positions(os: Seq<Order>, step: DiplomaticStep, n: nat)
    requires
        n <= os.len(),
    ensures
        forall|j: int|
            0 <= j < grouped(os, step, n).len() ==> 0 <= #[trigger] grouped(os, step, n)[j] < n && step_of(
                os[grouped(os, step, n)[j]],
            ) == Some(step),
    decreases n,
{
    if n > 0 {
        lemma_grouped_positions(os, step, (n - 1) as nat);
        let r = grouped(os, step, (n - 1) as nat);
        lemma_slot_bounds(r, os, os[n - 1].spec_submitter()@);
    }
}

proof fn lemma_grouped_len(os: Seq<Order>, step: DiplomaticStep, n: nat)
    ensures
        grouped(os, step, n).len() <= n,
    decreases n,
{
    if n > 0 {
        lemma_grouped_len(os, step, (n - 1) as nat);
        lemma_slot_bounds(grouped(os, step, (n - 1) as nat), os, os[n - 1].spec_submitter()@);
    }
}

/// Whether `o` is resolved in `step`.
fn in_step(o: &Order, step: DiplomaticStep) -> (r: bool)
    ensures
        r == (step_of(*o) == Some(step)),
{
    match o {
        Order::DeclareWar(_) => step == DiplomaticStep::DeclareWar,
        Order::BreakAlliance(_) => step == DiplomaticStep::BreakAlliance,
        Order::FormAlliance(_) => step == DiplomaticStep::FormAlliance,
        Order::ProposePeace(_) => step == DiplomaticStep::ProposePeace,
        _ => false,
    }
}

/// The positions of the orders of `step`, sorted by submitter, each
/// submitter's orders in the order given.
pub fn grouped_positions(orders: &[Order], step: DiplomaticStep) -> (r: Vec<usize>)
    ensures
        r@.len() == grouped(orders@, step, orders@.len() as nat).len(),
        forall|j: int| 0 <= j < r@.len() ==> r@[j] as int == #[trigger] grouped(orders@, step, orders@.len() as nat)[j],
{
    let mut r: Vec<usize> = Vec::new();
    let mut i: usize = 0;
    while i < orders.len()
        invariant
            i <= orders@.len(),
            r@.len() == grouped(orders@, step, i as nat).len(),
            forall|j: int| 0 <= j < r@.len() ==> r@[j] as int == #[trigger] grouped(orders@, step, i as nat)[j],
        decreases orders@.len() - i,
    {
        proof {
            lemma_grouped_positions(orders@, step, i as nat);
        }
        if in_step(&orders[i], step) {
            let ghost g = grouped(orders@, step, i as nat);
            let ghost k = orders@[i as int].spec_submitter()@;
            let mut j: usize = r.len();
            assert(g.take(j as int) =~= g);
            while j > 0 && str_less(orders[i].submitter().as_str(), orders[r[j - 1]].submitter().as_str())
                invariant
                    i < orders@.len(),
                    j <= r@.len(),
                    r@.len() == g.len(),
                    forall|t: int| 0 <= t < r@.len() ==> r@[t] as int == #[trigger] g[t],
                    forall|t: int| 0 <= t < g.len() ==> 0 <= #[trigger] g[t] < i,
                    k == orders@[i as int].spec_submitter()@,
                    slot(g, orders@, k) == slot(g.take(j as int), orders@, k),
                decreases j,
            {
                assert(g.take(j as int).drop_last() =~= g.take(j - 1));
                j = j - 1;
            }
            proof {
                if j > 0 {
                    assert(g.take(j as int).last() == g[j - 1]);
                }
                assert(slot(g, orders@, k) == j);
            }
            r.insert(j, i);
            proof {
                let g2 = grouped(orders@, step, (i + 1) as nat);
                assert(orders@.len() > i);
                assert(g2 == g.insert(j as int, i as int));
            }
        } else {
            proof {
                assert(grouped(orders@, step, (i + 1) as nat) == grouped(orders@, step, i as nat));
            }
        }
        i = i + 1;
    }
    r
}

/// The declaration of war an order carries.
pub open spec fn as_war(o: Order) -> DeclareWarOrder {
    match o {
        Order::DeclareWar(w) => w,
        _ => vstd::pervasive::arbitrary(),
    }
}

/// The alliance breach an order carries.
pub open spec fn as_break(o: Order) -> BreakAllianceOrder {
    match o {
        Order::BreakAlliance(b) => b,
        _ => vstd::pervasive::arbitrary(),
    }
}

/// The alliance proposal an order carries.
pub open spec fn as_alliance(o: Order) -> FormAllianceOrder {
    match o {
        Order::FormAlliance(f) => f,
        _ => vstd::pervasive::arbitrary(),
    }
}

/// The peace proposal an order carries.
pub open spec fn as_peace(o: Order) -> ProposePeaceOrder {
    match o {
        Order::ProposePeace(p) => p,
        _ => vstd::pervasive::arbitrary(),
    }
}

/// The declarations of war among `os`, in resolution order.
pub open spec fn war_orders(os: Seq<Order>) -> Seq<DeclareWarOrder> {
    grouped(os, DiplomaticStep::DeclareWar, os.len() as nat).map_values(|i: int| as_war(os[i]))
}

/// The alliance breaches among `os`, in resolution order.
pub open spec fn break_orders(os: Seq<Order>) -> Seq<BreakAllianceOrder> {
    grouped(os, DiplomaticStep::BreakAlliance, os.len() as nat).map_values(|i: int| as_break(os[i]))
}

/// The alliance proposals among `os`, in resolution order.
pub open spec fn alliance_orders(os: Seq<Order>) -> Seq<FormAllianceOrder> {
    grouped(os, DiplomaticStep::FormAlliance, os.len() as nat).map_values(|i: int| as_alliance(os[i]))
}

/// The peace proposals among `os`, in resolution order.
pub open spec fn peace_orders(os: Seq<Order>) -> Seq<ProposePeaceOrder> {
    grouped(os, DiplomaticStep::ProposePeace, os.len() as nat).map_values(|i: int| as_peace(os[i]))
}

/// The declarations of war, sorted by submitter.
pub fn collect_declare_war_orders(orders: &[Order]) -> (r: Vec<&DeclareWarOrder>)
    ensures
        r@.len() == war_orders(orders@).len(),
        forall|j: int| 0 <= j < r@.len() ==> *r@[j] == #[trigger] war_orders(orders@)[j],
{
    let g = grouped_positions(orders, DiplomaticStep::DeclareWar);
    proof {
        lemma_grouped_positions(orders@, DiplomaticStep::DeclareWar, orders@.len() as nat);
    }
    let ghost want = war_orders(orders@);
    let mut r: Vec<&DeclareWarOrder> = Vec::new();
    let mut j: usize = 0;
    while j < g.len()
        invariant
            j <= g@.len(),
            g@.len() == want.len(),
            want == war_orders(orders@),
            forall|t: int| 0 <= t < g@.len() ==> g@[t] as int == #[trigger] grouped(orders@, DiplomaticStep::DeclareWar, orders@.len() as nat)[t],
            forall|t: int| 0 <= t < g@.len() ==> 0 <= #[trigger] grouped(orders@, DiplomaticStep::DeclareWar, orders@.len() as nat)[t] < orders@.len() && step_of(orders@[grouped(orders@, DiplomaticStep::DeclareWar, orders@.len() as nat)[t]]) == Some(DiplomaticStep::DeclareWar),
            r@.len() == j,
            forall|t: int| 0 <= t < j ==> *r@[t] == #[trigger] want[t],
        decreases g@.len() - j,
    {
        let ghost gi = grouped(orders@, DiplomaticStep::DeclareWar, orders@.len() as nat)[j as int];
        assert(g@[j as int] as int == gi);
        match &orders[g[j]] {
            Order::DeclareWar(w) => {
                r.push(w);
            },
            _ => {
                assert(false);
            },
        }
        j = j + 1;
    }
    r
}

/// The alliance breaches, sorted by submitter.
pub fn collect_break_alliance_orders(orders: &[Order]) -> (r: Vec<&BreakAllianceOrder>)
    ensures
        r@.len() == break_orders(orders@).len(),
        forall|j: int| 0 <= j < r@.len() ==> *r@[j] == #[trigger] break_orders(orders@)[j],
{
    let g = grouped_positions(orders, DiplomaticStep::BreakAlliance);
    proof {
        lemma_grouped_positions(orders@, DiplomaticStep::BreakAlliance, orders@.len() as nat);
    }
    let ghost want = break_orders(orders@);
    let mut r: Vec<&BreakAllianceOrder> = Vec::new();
    let mut j: usize = 0;
    while j < g.len()
        invariant
            j <= g@.len(),
            g@.len() == want.len(),
            want == break_orders(orders@),
            forall|t: int| 0 <= t < g@.len() ==> g@[t] as int == #[trigger] grouped(orders@, DiplomaticStep::BreakAlliance, orders@.len() as nat)[t],
            forall|t: int| 0 <= t < g@.len() ==> 0 <= #[trigger] grouped(orders@, DiplomaticStep::BreakAlliance, orders@.len() as nat)[t] < orders@.len() && step_of(orders@[grouped(orders@, DiplomaticStep::BreakAlliance, orders@.len() as nat)[t]]) == Some(DiplomaticStep::BreakAlliance),
            r@.len() == j,
            forall|t: int| 0 <= t < j ==> *r@[t] == #[trigger] want[t],
        decreases g@.len() - j,
    {
        let ghost gi = grouped(orders@, DiplomaticStep::BreakAlliance, orders@.len() as nat)[j as int];
        assert(g@[j as int] as int == gi);
        match &orders[g[j]] {
            Order::BreakAlliance(b) => {
                r.push(b);
            },
            _ => {
                assert(false);
            },
        }
        j = j + 1;
    }
    r
}

/// The alliance proposals, sorted by submitter.
pub fn collect_form_alliance_orders(orders: &[Order]) -> (r: Vec<&FormAllianceOrder>)
    ensures
        r@.len() == alliance_orders(orders@).len(),
        forall|j: int| 0 <= j < r@.len() ==> *r@[j] == #[trigger] alliance_orders(orders@)[j],
{
    let g = grouped_positions(orders, DiplomaticStep::FormAlliance);
    proof {
        lemma_grouped_positions(orders@, DiplomaticStep::FormAlliance, orders@.len() as nat);
    }
    let ghost want = alliance_orders(orders@);
    let mut r: Vec<&FormAllianceOrder> = Vec::new();
    let mut j: usize = 0;
    while j < g.len()
        invariant
            j <= g@.len(),
            g@.len() == want.len(),
            want == alliance_orders(orders@),
            forall|t: int| 0 <= t < g@.len() ==> g@[t] as int == #[trigger] grouped(orders@, DiplomaticStep::FormAlliance, orders@.len() as nat)[t],
            forall|t: int| 0 <= t < g@.len() ==> 0 <= #[trigger] grouped(orders@, DiplomaticStep::FormAlliance, orders@.len() as nat)[t] < orders@.len() && step_of(orders@[grouped(orders@, DiplomaticStep::FormAlliance, orders@.len() as nat)[t]]) == Some(DiplomaticStep::FormAlliance),
            r@.len() == j,
            forall|t: int| 0 <= t < j ==> *r@[t] == #[trigger] want[t],
        decreases g@.len() - j,
    {
        let ghost gi = grouped(orders@, DiplomaticStep::FormAlliance, orders@.len() as nat)[j as int];
        assert(g@[j as int] as int == gi);
        match &orders[g[j]] {
            Order::FormAlliance(f) => {
                r.push(f);
            },
            _ => {
                assert(false);
            },
        }
        j = j + 1;
    }
    r
}

/// The peace proposals, sorted by submitter.
pub fn collect_propose_peace_orders(orders: &[Order]) -> (r: Vec<&ProposePeaceOrder>)
    ensures
        r@.len() == peace_orders(orders@).len(),
        forall|j: int| 0 <= j < r@.len() ==> *r@[j] == #[trigger] peace_orders(orders@)[j],
{
    let g = grouped_positions(orders, DiplomaticStep::ProposePeace);
    proof {
        lemma_grouped_positions(orders@, DiplomaticStep::ProposePeace, orders@.len() as nat);
    }
    let ghost want = peace_orders(orders@);
    let mut r: Vec<&ProposePeaceOrder> = Vec::new();
    let mut j: usize = 0;
    while j < g.len()
        invariant
            j <= g@.len(),
            g@.len() == want.len(),
            want == peace_orders(orders@),
            forall|t: int| 0 <= t < g@.len() ==> g@[t] as int == #[trigger] grouped(orders@, DiplomaticStep::ProposePeace, orders@.len() as nat)[t],
            forall|t: int| 0 <= t < g@.len() ==> 0 <= #[trigger] grouped(orders@, DiplomaticStep::ProposePeace, orders@.len() as nat)[t] < orders@.len() && step_of(orders@[grouped(orders@, DiplomaticStep::ProposePeace, orders@.len() as nat)[t]]) == Some(DiplomaticStep::ProposePeace),
            r@.len() == j,
            forall|t: int| 0 <= t < j ==> *r@[t] == #[trigger] want[t],
        decreases g@.len() - j,
    {
        let ghost gi = grouped(orders@, DiplomaticStep::ProposePeace, orders@.len() as nat)[j as int];
        assert(g@[j as int] as int == gi);
        match &orders[g[j]] {
            Order::ProposePeace(p) => {
                r.push(p);
            },
            _ => {
                assert(false);
            },
        }
        j = j + 1;
    }
    r
}


/// The IDs of a list of powers.
pub open spec fn names(v: Seq<PowerId>) -> Seq<Seq<char>> {
    v.map_values(|p: PowerId| p@)
}

/// The other member of the relation stored under `k`, when that relation
/// is an alliance `p` is part of.
pub open spec fn partner_in(k: Seq<char>, st: DiplomaticState, p: Seq<char>) -> Option<Seq<char>> {
    if st != DiplomaticState::Allied {
        None
    } else {
        match pair_of(k) {
            Some(pq) => if pq.0 == p {
                Some(pq.1)
            } else if pq.1 == p {
                Some(pq.0)
            } else {
                None
            },
            None => None,
        }
    }
}

/// The allies of `p` found under the keys `ks` of `d`, in that order.
pub open spec fn partners_among(d: Map<Seq<char>, DiplomaticState>, ks: Seq<Seq<char>>, p: Seq<char>) -> Seq<
    Seq<char>,
>
    decreases ks.len(),
{
    if ks.len() == 0 {
        Seq::empty()
    } else {
        let r = partners_among(d, ks.drop_last(), p);
        match partner_in(ks.last(), d[ks.last()], p) {
            Some(q) => r.push(q),
            None => r,
        }
    }
}

/// The allies of `p`, in the order of the relation keys.
pub open spec fn allies_of(d: Map<Seq<char>, DiplomaticState>, p: Seq<char>) -> Seq<Seq<char>> {
    partners_among(d, d.dom().to_sorted_seq(text_order()), p)
}

/// The powers allied with `power`, walking the relations in key order.
pub fn allied_partners(scenario: &Scenario, power: &PowerId) -> (r: Vec<PowerId>)
    ensures
        names(r@) == allies_of(scenario.diplomacy@, power@),
{
    let m = &scenario.diplomacy;
    let n = m.len();
    proof {
        m.lemma_keys_in_text_order();
    }
    let ghost ks = m.keys_view();
    let mut r: Vec<PowerId> = Vec::new();
    let mut i: usize = 0;
    while i < n
        invariant
            n == m.entries_view().len(),
            m.well_formed(),
            ks == m.keys_view(),
            i <= n,
            names(r@) == partners_among(m@, ks.take(i as int), power@),
        decreases n - i,
    {
        let key = m.key_at(i);
        let st = m.value_at(i);
        proof {
            assert(ks.take(i + 1).drop_last() =~= ks.take(i as int));
            assert(ks[i as int] == key@);
            assert(m@.contains_key(m.entries_view()[i as int].0@));
            assert(m@[key@] == *st);
        }
        let ghost before = r@;
        if *st == DiplomaticState::Allied {
            match DiplomaticPairKey::parse(key.as_str()) {
                Some(pk) => {
                    let DiplomaticPairKey(lo, hi) = pk;
                    if lo.same(power) {
                        r.push(hi);
                    } else if hi.same(power) {
                        r.push(lo);
                    }
                },
                None => {},
            }
        }
        proof {
            if r@.len() > before.len() {
                assert(r@ == before.push(r@.last()));
                assert(names(before.push(r@.last())) =~= names(before).push(r@.last()@));
            } else {
                assert(r@ == before);
            }
        }
        i = i + 1;
    }
    proof {
        assert(ks.take(n as int) =~= ks);
    }
    r
}

/// What one step of the diplomacy phase announces, by power ID.
pub enum Announcement {
    WarDeclared { by: Seq<char>, against: Seq<char> },
    PrestigeChanged { power: Seq<char>, delta: int },
    AllianceCascade { new_belligerent: Seq<char>, against: Seq<char>, via_ally: Seq<char> },
    AllianceBroken { power_a: Seq<char>, power_b: Seq<char> },
    AllianceFormed { power_a: Seq<char>, power_b: Seq<char> },
    PeaceProposed { by: Seq<char>, to: Seq<char> },
}

/// The event `e` says what `a` announces; prestige changes give the
/// reason `declare_war`.
pub open spec fn announces(e: Event, a: Announcement) -> bool {
    match a {
        Announcement::WarDeclared { by, against } => (e matches Event::WarDeclared { by: x, against: y } && x@
            == by && y@ == against),
        Announcement::PrestigeChanged { power, delta } => (e matches Event::PrestigeChanged {
            power: p,
            delta: d,
            reason: r,
        } && p@ == power && d == delta && r@ == "declare_war"@),
        Announcement::AllianceCascade { new_belligerent, against, via_ally } => (e matches Event::AllianceCascade {
            new_belligerent: x,
            against: y,
            via_ally: z,
        } && x@ == new_belligerent && y@ == against && z@ == via_ally),
        Announcement::AllianceBroken { power_a, power_b } => (e matches Event::AllianceBroken {
            power_a: x,
            power_b: y,
        } && x@ == power_a && y@ == power_b),
        Announcement::AllianceFormed { power_a, power_b } => (e matches Event::AllianceFormed {
            power_a: x,
            power_b: y,
        } && x@ == power_a && y@ == power_b),
        Announcement::PeaceProposed { by, to } => (e matches Event::PeaceProposed { by: x, to: y } && x@ == by && y@
            == to),
    }
}

/// The events `es` are, one for one, the announcements `anns`.
pub open spec fn announced(es: Seq<Event>, anns: Seq<Announcement>) -> bool {
    &&& es.len() == anns.len()
    &&& forall|i: int| 0 <= i < es.len() ==> announces(#[trigger] es[i], anns[i])
}

/// Pulls the allies `ps` of `via` into the war of `att` on `tgt`: each
/// that is neither side and not yet at war with `att` goes to war with it.
/// Gives the relations, the powers pulled in, and the announcements.
pub open spec fn absorb(
    d: Map<Seq<char>, DiplomaticState>,
    att: Seq<char>,
    tgt: Seq<char>,
    via: Seq<char>,
    ps: Seq<Seq<char>>,
) -> (Map<Seq<char>, DiplomaticState>, Seq<Seq<char>>, Seq<Announcement>)
    decreases ps.len(),
{
    if ps.len() == 0 {
        (d, Seq::empty(), Seq::empty())
    } else {
        let prev = absorb(d, att, tgt, via, ps.drop_last());
        let a = ps.last();
        if a == att || a == tgt || state_in(prev.0, att, a) == DiplomaticState::War {
            prev
        } else {
            (
                prev.0.insert(pair_key(att, a), DiplomaticState::War),
                prev.1.push(a),
                prev.2.push(Announcement::AllianceCascade { new_belligerent: a, against: att, via_ally: via }),
            )
        }
    }
}

/// The cascade from position `i` of the queue `fr` on, taking each queued
/// power's allies in turn (at most `fuel` of them).
pub open spec fn spread(
    d: Map<Seq<char>, DiplomaticState>,
    att: Seq<char>,
    tgt: Seq<char>,
    fr: Seq<Seq<char>>,
    i: nat,
    fuel: nat,
) -> (Map<Seq<char>, DiplomaticState>, Seq<Announcement>)
    decreases fuel,
{
    if fuel == 0 || i >= fr.len() {
        (d, Seq::empty())
    } else {
        let step = absorb(d, att, tgt, fr[i as int], allies_of(d, fr[i as int]));
        let rest = spread(step.0, att, tgt, fr + step.1, i + 1, (fuel - 1) as nat);
        (rest.0, step.2 + rest.1)
    }
}

/// More queue positions than a cascade ever takes.
pub open spec fn cascade_bound(d: Map<Seq<char>, DiplomaticState>) -> nat {
    1 + 2 * d.dom().len()
}

/// The alliance cascade after `att` declares war on `tgt`: starting from
/// `tgt`, every ally of a power drawn in is drawn in too, breadth first.
pub open spec fn cascade(d: Map<Seq<char>, DiplomaticState>, att: Seq<char>, tgt: Seq<char>) -> (
    Map<Seq<char>, DiplomaticState>,
    Seq<Announcement>,
) {
    spread(d, att, tgt, seq![tgt], 0, cascade_bound(d))
}

/// `n` is one of the two powers of the relation stored under `k`.
pub open spec fn end_of(k: Seq<char>, n: Seq<char>) -> bool {
    match pair_of(k) {
        Some(pq) => pq.0 == n || pq.1 == n,
        None => false,
    }
}

/// The powers in some alliance of `d`.
pub open spec fn allied_names(d: Map<Seq<char>, DiplomaticState>) -> Set<Seq<char>> {
    Set::new(
        |n: Seq<char>|
            exists|k: Seq<char>| #[trigger] d.contains_key(k) && d[k] == DiplomaticState::Allied && end_of(k, n),
    )
}

/// Every alliance of `d` is an alliance of `d0`.
pub open spec fn alliances_within(d: Map<Seq<char>, DiplomaticState>, d0: Map<Seq<char>, DiplomaticState>) -> bool {
    forall|k: Seq<char>|
        #[trigger] d.contains_key(k) && d[k] == DiplomaticState::Allied ==> d0.contains_key(k) && d0[k]
            == DiplomaticState::Allied
}

spec fn first_end(k: Seq<char>) -> Seq<char> {
    match pair_of(k) {
        Some(pq) => pq.0,
        None => Seq::empty(),
    }
}

spec fn second_end(k: Seq<char>) -> Seq<char> {
    match pair_of(k) {
        Some(pq) => pq.1,
        None => Seq::empty(),
    }
}

proof fn lemma_allied_names_bound(d: Map<Seq<char>, DiplomaticState>)
    requires
        d.dom().finite(),
    ensures
        allied_names(d).finite(),
        allied_names(d).len() <= 2 * d.dom().len(),
{
    let f = |k: Seq<char>| first_end(k);
    let g = |k: Seq<char>| second_end(k);
    let a = d.dom().map(f);
    let b = d.dom().map(g);
    vstd::set_lib::lemma_map_size_bound(d.dom(), a, f);
    vstd::set_lib::lemma_map_size_bound(d.dom(), b, g);
    vstd::set_lib::lemma_len_union(a, b);
    vstd::set_lib::lemma_set_union_finite_iff(a, b);
    assert(allied_names(d).subset_of(a.union(b))) by {
        assert forall|n: Seq<char>| allied_names(d).contains(n) implies a.union(b).contains(n) by {
            let k = choose|k: Seq<char>| #[trigger] d.contains_key(k) && d[k] == DiplomaticState::Allied && end_of(k, n);
            assert(d.dom().contains(k));
            if first_end(k) == n {
                assert(a.contains(f(k)));
            } else {
                assert(b.contains(g(k)));
            }
        }
    }
    vstd::set_lib::lemma_len_subset(allied_names(d), a.union(b));
}

proof fn lemma_sorted_keys_in_dom(d: Map<Seq<char>, DiplomaticState>)
    requires
        d.dom().finite(),
    ensures
        forall|i: int|
            0 <= i < d.dom().to_sorted_seq(text_order()).len() ==> d.contains_key(
                #[trigger] d.dom().to_sorted_seq(text_order())[i],
            ),
{
    crate::strmap::lemma_text_order_total();
    d.dom().to_seq().lemma_sort_by_ensures(text_order());
    d.dom().lemma_to_seq_to_set_id();
    assert forall|i: int| 0 <= i < d.dom().to_sorted_seq(text_order()).len() implies d.contains_key(
        #[trigger] d.dom().to_sorted_seq(text_order())[i],
    ) by {
        let x = d.dom().to_sorted_seq(text_order())[i];
        assert(d.dom().to_sorted_seq(text_order()).contains(x));
        assert(d.dom().to_seq().contains(x));
        assert(d.dom().to_seq().to_set().contains(x));
    }
}

proof fn lemma_partners_allied(d: Map<Seq<char>, DiplomaticState>, ks: Seq<Seq<char>>, p: Seq<char>)
    requires
        forall|i: int| 0 <= i < ks.len() ==> d.contains_key(#[trigger] ks[i]),
    ensures
        forall|j: int|
            0 <= j < partners_among(d, ks, p).len() ==> allied_names(d).contains(
                #[trigger] partners_among(d, ks, p)[j],
            ),
    decreases ks.len(),
{
    if ks.len() > 0 {
        let r = partners_among(d, ks.drop_last(), p);
        assert forall|i: int| 0 <= i < ks.drop_last().len() implies d.contains_key(#[trigger] ks.drop_last()[i]) by {
            assert(ks.drop_last()[i] == ks[i]);
        }
        lemma_partners_allied(d, ks.drop_last(), p);
        let k = ks.last();
        assert(d.contains_key(k));
        match partner_in(k, d[k], p) {
            Some(q) => {
                assert(end_of(k, q));
                assert(allied_names(d).contains(q));
                assert forall|j: int| 0 <= j < r.push(q).len() implies allied_names(d).contains(#[trigger] r.push(q)[j]) by {
                    if j < r.len() {
                        assert(r.push(q)[j] == r[j]);
                    }
                }
            },
            None => {},
        }
    }
}

/// Every ally of a power is a power of some alliance.
proof fn lemma_allies_allied(d: Map<Seq<char>, DiplomaticState>, p: Seq<char>)
    requires
        d.dom().finite(),
    ensures
        forall|j: int| 0 <= j < allies_of(d, p).len() ==> allied_names(d).contains(#[trigger] allies_of(d, p)[j]),
{
    lemma_sorted_keys_in_dom(d);
    lemma_partners_allied(d, d.dom().to_sorted_seq(text_order()), p);
}

proof fn lemma_allied_names_within(d: Map<Seq<char>, DiplomaticState>, d0: Map<Seq<char>, DiplomaticState>)
    requires
        alliances_within(d, d0),
    ensures
        allied_names(d).subset_of(allied_names(d0)),
{
    assert forall|n: Seq<char>| allied_names(d).contains(n) implies allied_names(d0).contains(n) by {
        let k = choose|k: Seq<char>| #[trigger] d.contains_key(k) && d[k] == DiplomaticState::Allied && end_of(k, n);
        assert(d0.contains_key(k));
    }
}

proof fn lemma_queue_bound(d0: Map<Seq<char>, DiplomaticState>, fr: Seq<Seq<char>>)
    requires
        d0.dom().finite(),
        fr.len() >= 1,
        fr.drop_first().no_duplicates(),
        forall|j: int| 1 <= j < fr.len() ==> allied_names(d0).contains(#[trigger] fr[j]),
    ensures
        fr.len() <= cascade_bound(d0),
{
    let t = fr.drop_first();
    t.unique_seq_to_set();
    lemma_allied_names_bound(d0);
    assert(t.to_set().subset_of(allied_names(d0))) by {
        assert forall|n: Seq<char>| t.to_set().contains(n) implies allied_names(d0).contains(n) by {
            let i = choose|i: int| 0 <= i < t.len() && t[i] == n;
            assert(fr[i + 1] == n);
        }
    }
    vstd::set_lib::lemma_len_subset(t.to_set(), allied_names(d0));
}


/// Draws allies into a new war: starting from `initial_target`, each ally
/// of a power drawn in (other than the two sides, and other than a power
/// already at war with `attacker`) goes to war with `attacker`, breadth
/// first, with an event for each.
pub fn apply_alliance_cascade(
    scenario: &mut Scenario,
    attacker: &PowerId,
    initial_target: &PowerId,
    events: &mut Vec<Event>,
)
    ensures
        *final(scenario) == (Scenario { diplomacy: final(scenario).diplomacy, ..*old(scenario) }),
        final(scenario).diplomacy@ == cascade(old(scenario).diplomacy@, attacker@, initial_target@).0,
        final(events)@.len() == old(events)@.len() + cascade(old(scenario).diplomacy@, attacker@, initial_target@).1.len(),
        final(events)@.take(old(events)@.len() as int) == old(events)@,
        announced(
            final(events)@.skip(old(events)@.len() as int),
            cascade(old(scenario).diplomacy@, attacker@, initial_target@).1,
        ),
{
    let ghost d0 = scenario.diplomacy@;
    let ghost ev0 = events@;
    let ghost att = attacker@;
    let ghost tgt = initial_target@;
    let ghost bound = cascade_bound(d0);
    let _ = scenario.diplomacy.len();
    let mut frontier: Vec<PowerId> = Vec::new();
    frontier.push(initial_target.duplicate());
    let mut index: usize = 0;
    let ghost mut anns: Seq<Announcement> = Seq::empty();
    proof {
        assert(names(frontier@) =~= seq![tgt]);
        assert(names(frontier@).drop_first() =~= Seq::<Seq<char>>::empty());
        assert(events@.take(ev0.len() as int) =~= ev0);
        assert(events@.skip(ev0.len() as int) =~= Seq::<Event>::empty());
        assert(anns + cascade(d0, att, tgt).1 =~= cascade(d0, att, tgt).1);
    }
    while index < frontier.len()
        invariant
            *scenario == (Scenario { diplomacy: scenario.diplomacy, ..*old(scenario) }),
            d0 == old(scenario).diplomacy@,
            d0.dom().finite(),
            scenario.diplomacy@.dom().finite(),
            ev0 == old(events)@,
            att == attacker@,
            tgt == initial_target@,
            bound == cascade_bound(d0),
            1 <= frontier@.len() <= bound,
            names(frontier@)[0] == tgt,
            index <= frontier@.len(),
            names(frontier@).drop_first().no_duplicates(),
            forall|j: int|
                1 <= j < frontier@.len() ==> allied_names(d0).contains(#[trigger] names(frontier@)[j])
                    && state_in(scenario.diplomacy@, att, names(frontier@)[j]) == DiplomaticState::War
                    && names(frontier@)[j] != tgt && names(frontier@)[j] != att,
            alliances_within(scenario.diplomacy@, d0),
            events@.len() == ev0.len() + anns.len(),
            events@.take(ev0.len() as int) == ev0,
            announced(events@.skip(ev0.len() as int), anns),
            spread(scenario.diplomacy@, att, tgt, names(frontier@), index as nat, (bound - index) as nat).0
                == cascade(d0, att, tgt).0,
            anns + spread(scenario.diplomacy@, att, tgt, names(frontier@), index as nat, (bound - index) as nat).1
                == cascade(d0, att, tgt).1,
        decreases bound - index,
    {
        let current = frontier[index].duplicate();
        let ghost i0 = index as nat;
        let ghost fuel = (bound - index) as nat;
        index = index + 1;
        let allies = allied_partners(scenario, &current);
        let ghost d_start = scenario.diplomacy@;
        let ghost fr_start = names(frontier@);
        let ghost anns_start = anns;
        let ghost ps = names(allies@);
        proof {
            assert(fr_start[i0 as int] == current@);
            lemma_allies_allied(d_start, current@);
            lemma_allied_names_within(d_start, d0);
            assert(fr_start + Seq::<Seq<char>>::empty() =~= fr_start);
            assert(anns_start + Seq::<Announcement>::empty() =~= anns_start);
            assert(ps.take(0) =~= Seq::<Seq<char>>::empty());
        }
        let mut j: usize = 0;
        while j < allies.len()
            invariant
                *scenario == (Scenario { diplomacy: scenario.diplomacy, ..*old(scenario) }),
                d0 == old(scenario).diplomacy@,
                d0.dom().finite(),
                scenario.diplomacy@.dom().finite(),
                ev0 == old(events)@,
                att == attacker@,
                tgt == initial_target@,
                bound == cascade_bound(d0),
                1 <= frontier@.len() <= bound,
                names(frontier@)[0] == tgt,
                index <= frontier@.len(),
                names(frontier@).drop_first().no_duplicates(),
                forall|t: int|
                    1 <= t < frontier@.len() ==> allied_names(d0).contains(#[trigger] names(frontier@)[t])
                        && state_in(scenario.diplomacy@, att, names(frontier@)[t]) == DiplomaticState::War
                        && names(frontier@)[t] != tgt && names(frontier@)[t] != att,
                alliances_within(scenario.diplomacy@, d0),
                events@.len() == ev0.len() + anns.len(),
                events@.take(ev0.len() as int) == ev0,
                announced(events@.skip(ev0.len() as int), anns),
                ps == names(allies@),
                ps == allies_of(d_start, current@),
                forall|t: int| 0 <= t < ps.len() ==> allied_names(d0).contains(#[trigger] ps[t]),
                j <= allies@.len(),
                scenario.diplomacy@ == absorb(d_start, att, tgt, current@, ps.take(j as int)).0,
                names(frontier@) == fr_start + absorb(d_start, att, tgt, current@, ps.take(j as int)).1,
                anns == anns_start + absorb(d_start, att, tgt, current@, ps.take(j as int)).2,
            decreases allies@.len() - j,
        {
            let ally = &allies[j];
            let ghost a = ally@;
            let ghost prev = absorb(d_start, att, tgt, current@, ps.take(j as int));
            proof {
                assert(ps.take(j + 1).drop_last() =~= ps.take(j as int));
                assert(ps.take(j + 1).last() == a);
            }
            if ally.same(attacker) || ally.same(initial_target) {
            } else if get_diplomatic_state(scenario, attacker, ally) == DiplomaticState::War {
            } else {
                let ghost fr_before = names(frontier@);
                let ghost ev_before = events@;
                set_diplomatic_state(scenario, attacker, ally, DiplomaticState::War);
                events.push(
                    Event::AllianceCascade {
                        new_belligerent: ally.duplicate(),
                        against: attacker.duplicate(),
                        via_ally: current.duplicate(),
                    },
                );
                frontier.push(ally.duplicate());
                proof {
                    let ann = Announcement::AllianceCascade { new_belligerent: a, against: att, via_ally: current@ };
                    anns = anns.push(ann);
                    assert(names(frontier@) =~= fr_before.push(a));
                    assert(names(frontier@).drop_first() =~= fr_before.drop_first().push(a));
                    assert(!fr_before.drop_first().contains(a)) by {
                        if fr_before.drop_first().contains(a) {
                            let t = choose|t: int| 0 <= t < fr_before.drop_first().len() && fr_before.drop_first()[t] == a;
                            assert(fr_before[t + 1] == a);
                        }
                    }
                    assert(names(frontier@).drop_first().no_duplicates()) by {
                        let q = fr_before.drop_first();
                        assert forall|x: int, y: int|
                            0 <= x < q.push(a).len() && 0 <= y < q.push(a).len() && x != y implies q.push(a)[x]
                            != q.push(a)[y] by {
                            if x == q.len() {
                                assert(q.contains(q[y]));
                            } else if y == q.len() {
                                assert(q.contains(q[x]));
                            }
                        }
                    }
                    assert forall|t: int| 1 <= t < frontier@.len() implies allied_names(d0).contains(
                        #[trigger] names(frontier@)[t],
                    ) && state_in(scenario.diplomacy@, att, names(frontier@)[t]) == DiplomaticState::War
                        && names(frontier@)[t] != tgt && names(frontier@)[t] != att by {
                        if t < fr_before.len() {
                            assert(names(frontier@)[t] == fr_before[t]);
                        } else {
                            assert(names(frontier@)[t] == a);
                            assert(ps[j as int] == a);
                        }
                    }
                    lemma_queue_bound(d0, names(frontier@));
                    assert(events@.take(ev0.len() as int) =~= ev0) by {
                        assert(ev_before.take(ev0.len() as int) == ev0);
                        assert(events@ =~= ev_before.push(events@.last()));
                    }
                    assert(events@.skip(ev0.len() as int) =~= ev_before.skip(ev0.len() as int).push(events@.last()));
                    assert(fr_start + prev.1.push(a) =~= (fr_start + prev.1).push(a));
                    assert(anns_start + prev.2.push(ann) =~= (anns_start + prev.2).push(ann));
                }
            }
            j = j + 1;
        }
        proof {
            assert(ps.take(allies@.len() as int) =~= ps);
            let step = absorb(d_start, att, tgt, fr_start[i0 as int], allies_of(d_start, fr_start[i0 as int]));
            assert(i0 < fr_start.len());
            assert(fuel > 0);
            assert(spread(d_start, att, tgt, fr_start, i0, fuel) == {
                let rest = spread(step.0, att, tgt, fr_start + step.1, i0 + 1, (fuel - 1) as nat);
                (rest.0, step.2 + rest.1)
            });
            let rest = spread(step.0, att, tgt, fr_start + step.1, i0 + 1, (fuel - 1) as nat);
            assert(anns_start + (step.2 + rest.1) =~= (anns_start + step.2) + rest.1);
        }
    }
    proof {
        assert(anns + Seq::<Announcement>::empty() =~= anns);
    }
}


/// The running state of the diplomacy phase.
pub struct PhaseState {
    pub relations: Map<Seq<char>, DiplomaticState>,
    pub powers: Map<Seq<char>, PowerState>,
    pub news: Seq<Announcement>,
}

/// `ps` with `delta` added to the prestige of `p`, when `p` has a state.
pub open spec fn with_prestige(ps: Map<Seq<char>, PowerState>, p: Seq<char>, delta: i32) -> Map<Seq<char>, PowerState> {
    if ps.contains_key(p) {
        ps.insert(p, PowerState { prestige: (ps[p].prestige + delta) as i32, ..ps[p] })
    } else {
        ps
    }
}

/// One declaration of war: refused ones change nothing; an accepted one
/// sets the pair at war, announces it, applies and announces the prestige
/// change when the table has one, then draws allies in.
pub open spec fn war_step(known: Set<Seq<char>>, delta: Option<i32>, st: PhaseState, o: DeclareWarOrder) -> PhaseState {
    let sub = o.submitter@;
    let tgt = o.target@;
    if war_verdict(known, st.relations, sub, tgt) is Some {
        st
    } else {
        let d1 = st.relations.insert(pair_key(sub, tgt), DiplomaticState::War);
        let n1 = st.news.push(Announcement::WarDeclared { by: sub, against: tgt });
        let ps2 = match delta {
            Some(x) => with_prestige(st.powers, sub, x),
            None => st.powers,
        };
        let n2 = match delta {
            Some(x) => n1.push(Announcement::PrestigeChanged { power: sub, delta: x as int }),
            None => n1,
        };
        let c = cascade(d1, sub, tgt);
        PhaseState { relations: c.0, powers: ps2, news: n2 + c.1 }
    }
}

/// The declarations of war `ws`, in turn.
pub open spec fn wars(known: Set<Seq<char>>, delta: Option<i32>, st: PhaseState, ws: Seq<DeclareWarOrder>) -> PhaseState
    decreases ws.len(),
{
    if ws.len() == 0 {
        st
    } else {
        war_step(known, delta, wars(known, delta, st, ws.drop_last()), ws.last())
    }
}

/// One alliance breach: an accepted one leaves the pair neutral.
pub open spec fn break_step(st: PhaseState, o: BreakAllianceOrder) -> PhaseState {
    let sub = o.submitter@;
    let tgt = o.target@;
    if break_verdict(st.relations, sub, tgt) is Some {
        st
    } else {
        PhaseState {
            relations: st.relations.insert(pair_key(sub, tgt), DiplomaticState::Neutral),
            powers: st.powers,
            news: st.news.push(Announcement::AllianceBroken { power_a: sub, power_b: tgt }),
        }
    }
}

/// The alliance breaches `bs`, in turn.
pub open spec fn breaks(st: PhaseState, bs: Seq<BreakAllianceOrder>) -> PhaseState
    decreases bs.len(),
{
    if bs.len() == 0 {
        st
    } else {
        break_step(breaks(st, bs.drop_last()), bs.last())
    }
}

/// One alliance proposal: an accepted one makes the pair allies.
pub open spec fn alliance_step(st: PhaseState, o: FormAllianceOrder) -> PhaseState {
    let sub = o.submitter@;
    let tgt = o.target@;
    if alliance_verdict(st.relations, sub, tgt) is Some {
        st
    } else {
        PhaseState {
            relations: st.relations.insert(pair_key(sub, tgt), DiplomaticState::Allied),
            powers: st.powers,
            news: st.news.push(Announcement::AllianceFormed { power_a: sub, power_b: tgt }),
        }
    }
}

/// The alliance proposals `fs`, in turn.
pub open spec fn alliances(st: PhaseState, fs: Seq<FormAllianceOrder>) -> PhaseState
    decreases fs.len(),
{
    if fs.len() == 0 {
        st
    } else {
        alliance_step(alliances(st, fs.drop_last()), fs.last())
    }
}

/// One peace proposal: an accepted one is only announced.
pub open spec fn peace_step(st: PhaseState, o: ProposePeaceOrder) -> PhaseState {
    let sub = o.submitter@;
    let tgt = o.target@;
    if peace_verdict(st.relations, sub, tgt) is Some {
        st
    } else {
        PhaseState {
            relations: st.relations,
            powers: st.powers,
            news: st.news.push(Announcement::PeaceProposed { by: sub, to: tgt }),
        }
    }
}

/// The peace proposals `qs`, in turn.
pub open spec fn peaces(st: PhaseState, qs: Seq<ProposePeaceOrder>) -> PhaseState
    decreases qs.len(),
{
    if qs.len() == 0 {
        st
    } else {
        peace_step(peaces(st, qs.drop_last()), qs.last())
    }
}

/// The state after the war step of the phase.
pub open spec fn after_wars(s: &Scenario, t: &PpModifiersTable, os: Seq<Order>) -> PhaseState {
    wars(
        s.powers@.dom(),
        table_delta(t, "declare_war"@),
        PhaseState { relations: s.diplomacy@, powers: s.power_state@, news: Seq::empty() },
        war_orders(os),
    )
}

/// The whole diplomacy phase: wars, then breaches, then alliances, then
/// peace proposals.
pub open spec fn diplomatic_phase(s: &Scenario, t: &PpModifiersTable, os: Seq<Order>) -> PhaseState {
    peaces(alliances(breaks(after_wars(s, t, os), break_orders(os)), alliance_orders(os)), peace_orders(os))
}

/// Prestige stays within `i32` however many of the `n` orders declare
/// war.
pub open spec fn prestige_fits(s: &Scenario, t: &PpModifiersTable, n: int) -> bool {
    match table_delta(t, "declare_war"@) {
        Some(x) => forall|p: Seq<char>|
            #[trigger] s.power_state@.contains_key(p) ==> i32::MIN <= s.power_state@[p].prestige + n * x
                <= i32::MAX,
        None => true,
    }
}

/// `v` lies between `v0` and `v0 + i * x`.
pub open spec fn drifted(v: int, v0: int, i: int, x: int) -> bool {
    if x >= 0 {
        v0 <= v <= v0 + i * x
    } else {
        v0 + i * x <= v <= v0
    }
}

/// Resolves the diplomacy phase: declarations of war (each with its
/// prestige change and alliance cascade), then alliance breaches, then
/// new alliances, then peace proposals; each step takes its orders by
/// submitter, and skips orders that fail validation at their turn.
pub fn resolve_diplomatic_phase(scenario: &mut Scenario, tables: &PpModifiersTable, orders: &[Order]) -> (events: Vec<
    Event,
>)
    requires
        prestige_fits(&*old(scenario), tables, orders@.len() as int),
    ensures
        *final(scenario) == (Scenario {
            diplomacy: final(scenario).diplomacy,
            power_state: final(scenario).power_state,
            ..*old(scenario)
        }),
        final(scenario).diplomacy@ == diplomatic_phase(&*old(scenario), tables, orders@).relations,
        final(scenario).power_state@ == diplomatic_phase(&*old(scenario), tables, orders@).powers,
        announced(events@, diplomatic_phase(&*old(scenario), tables, orders@).news),
{
    let ghost s0 = *scenario;
    let ghost known = scenario.powers@.dom();
    let ghost p0 = scenario.power_state@;
    let ghost n = orders@.len() as int;
    let ghost st0 = PhaseState { relations: scenario.diplomacy@, powers: scenario.power_state@, news: Seq::empty() };
    let delta = prestige_delta(tables, "declare_war");
    let mut events: Vec<Event> = Vec::new();

    // Declarations of war.
    let ws = collect_declare_war_orders(orders);
    let ghost wl = war_orders(orders@);
    let ghost dx = table_delta(tables, "declare_war"@);
    let mut i: usize = 0;
    proof {
        lemma_grouped_len(orders@, DiplomaticStep::DeclareWar, orders@.len() as nat);
        assert(wl.take(0) =~= Seq::<DeclareWarOrder>::empty());
        assert forall|p: Seq<char>| #[trigger] scenario.power_state@.contains_key(p) implies (match dx {
            Some(x) => drifted(scenario.power_state@[p].prestige as int, p0[p].prestige as int, 0, x as int),
            None => true,
        }) by {
            match dx {
                Some(x) => {
                    assert(0 * (x as int) == 0) by (nonlinear_arith);
                },
                None => {},
            }
        }
    }
    while i < ws.len()
        invariant
            *scenario == (Scenario {
                diplomacy: scenario.diplomacy,
                power_state: scenario.power_state,
                ..s0
            }),
            s0 == *old(scenario),
            known == s0.powers@.dom(),
            p0 == s0.power_state@,
            n == orders@.len(),
            st0 == (PhaseState { relations: s0.diplomacy@, powers: s0.power_state@, news: Seq::empty() }),
            dx == table_delta(tables, "declare_war"@),
            delta == dx,
            prestige_fits(&s0, tables, n),
            wl == war_orders(orders@),
            ws@.len() == wl.len(),
            wl.len() <= n,
            forall|t: int| 0 <= t < ws@.len() ==> *ws@[t] == #[trigger] wl[t],
            i <= ws@.len(),
            scenario.diplomacy@ == wars(known, dx, st0, wl.take(i as int)).relations,
            scenario.power_state@ == wars(known, dx, st0, wl.take(i as int)).powers,
            announced(events@, wars(known, dx, st0, wl.take(i as int)).news),
            scenario.power_state@.dom() == p0.dom(),
            forall|p: Seq<char>| #[trigger] scenario.power_state@.contains_key(p) ==> (match dx {
                Some(x) => drifted(scenario.power_state@[p].prestige as int, p0[p].prestige as int, i as int, x as int),
                None => true,
            }),
        decreases ws@.len() - i,
    {
        let order = ws[i];
        let ghost before = wars(known, dx, st0, wl.take(i as int));
        proof {
            assert(wl.take(i + 1).drop_last() =~= wl.take(i as int));
            assert(wl.take(i + 1).last() == *order);
        }
        if validate_declare_war(scenario, order).is_ok() {
            let ghost ev_before = events@;
            set_diplomatic_state(scenario, &order.submitter, &order.target, DiplomaticState::War);
            events.push(Event::WarDeclared { by: order.submitter.duplicate(), against: order.target.duplicate() });
            let ghost ann = Announcement::WarDeclared { by: order.submitter@, against: order.target@ };
            proof {
                assert forall|t: int| 0 <= t < events@.len() implies announces(
                    #[trigger] events@[t],
                    before.news.push(ann)[t],
                ) by {
                    if t < ev_before.len() {
                        assert(events@[t] == ev_before[t]);
                    }
                }
            }
            let ghost mid_news = before.news.push(ann);
            let ghost ps_before = scenario.power_state@;
            match delta {
                Some(d) => {
                    match scenario.power_state.find(order.submitter.as_str()) {
                        Some(j) => {
                            let st = *scenario.power_state.value_at(j);
                            proof {
                                let k = scenario.power_state.entries_view()[j as int].0@;
                                assert(k == order.submitter@);
                                assert(scenario.power_state@.contains_key(k));
                                assert(st == scenario.power_state@[k]);
                                assert(p0.contains_key(k));
                                assert(prestige_fits(&s0, tables, n));
                                assert(s0.power_state@.contains_key(k));
                                let v0 = p0[k].prestige as int;
                                let xi = d as int;
                                assert(i + 1 <= n);
                                if xi >= 0 {
                                    assert((i as int) * xi + xi <= n * xi) by (nonlinear_arith)
                                        requires
                                            i + 1 <= n,
                                            xi >= 0,
                                    ;
                                } else {
                                    assert((i as int) * xi + xi >= n * xi) by (nonlinear_arith)
                                        requires
                                            i + 1 <= n,
                                            xi < 0,
                                    ;
                                }
                            }
                            scenario.power_state.set_value_at(j, PowerState { prestige: st.prestige + d, ..st });
                        },
                        None => {},
                    }
                    let ghost ev_mid = events@;
                    events.push(
                        Event::PrestigeChanged {
                            power: order.submitter.duplicate(),
                            delta: d,
                            reason: "declare_war".to_string(),
                        },
                    );
                    proof {
                        let ann2 = Announcement::PrestigeChanged { power: order.submitter@, delta: d as int };
                        assert forall|t: int| 0 <= t < events@.len() implies announces(
                            #[trigger] events@[t],
                            mid_news.push(ann2)[t],
                        ) by {
                            if t < ev_mid.len() {
                                assert(events@[t] == ev_mid[t]);
                            }
                        }
                        assert(scenario.power_state@ =~= with_prestige(ps_before, order.submitter@, d));
                    }
                },
                None => {},
            }
            let ghost news2 = match dx {
                Some(x) => mid_news.push(Announcement::PrestigeChanged { power: order.submitter@, delta: x as int }),
                None => mid_news,
            };
            let ghost ev_pre = events@;
            apply_alliance_cascade(scenario, &order.submitter, &order.target, &mut events);
            proof {
                let c = cascade(before.relations.insert(pair_key(order.submitter@, order.target@), DiplomaticState::War), order.submitter@, order.target@);
                assert(announced(ev_pre, news2));
                assert forall|t: int| 0 <= t < events@.len() implies announces(#[trigger] events@[t], (news2 + c.1)[t]) by {
                    if t < ev_pre.len() {
                        assert(events@.take(ev_pre.len() as int)[t] == events@[t]);
                        assert(events@[t] == ev_pre[t]);
                    } else {
                        assert(events@[t] == events@.skip(ev_pre.len() as int)[t - ev_pre.len()]);
                    }
                }
                assert forall|p: Seq<char>| #[trigger] scenario.power_state@.contains_key(p) implies (match dx {
                    Some(x) => drifted(scenario.power_state@[p].prestige as int, p0[p].prestige as int, i + 1, x as int),
                    None => true,
                }) by {
                    match dx {
                        Some(x) => {
                            let xi = x as int;
                            if xi >= 0 {
                                assert((i as int) * xi <= (i as int) * xi + xi);
                                assert((i as int + 1) * xi == (i as int) * xi + xi) by (nonlinear_arith);
                            } else {
                                assert((i as int + 1) * xi == (i as int) * xi + xi) by (nonlinear_arith);
                            }
                            assert(ps_before.contains_key(p));
                        },
                        None => {},
                    }
                }
            }
        } else {
            proof {
                assert forall|p: Seq<char>| #[trigger] scenario.power_state@.contains_key(p) implies (match dx {
                    Some(x) => drifted(scenario.power_state@[p].prestige as int, p0[p].prestige as int, i + 1, x as int),
                    None => true,
                }) by {
                    match dx {
                        Some(x) => {
                            let xi = x as int;
                            assert((i as int + 1) * xi == (i as int) * xi + xi) by (nonlinear_arith);
                        },
                        None => {},
                    }
                }
            }
        }
        i = i + 1;
    }
    proof {
        assert(wl.take(ws@.len() as int) =~= wl);
    }
    let ghost st1 = after_wars(&s0, tables, orders@);

    // Alliance breaches.
    let bs = collect_break_alliance_orders(orders);
    let ghost bl = break_orders(orders@);
    let mut i: usize = 0;
    proof {
        assert(bl.take(0) =~= Seq::<BreakAllianceOrder>::empty());
    }
    while i < bs.len()
        invariant
            *scenario == (Scenario {
                diplomacy: scenario.diplomacy,
                power_state: scenario.power_state,
                ..s0
            }),
            bl == break_orders(orders@),
            bs@.len() == bl.len(),
            forall|t: int| 0 <= t < bs@.len() ==> *bs@[t] == #[trigger] bl[t],
            i <= bs@.len(),
            scenario.diplomacy@ == breaks(st1, bl.take(i as int)).relations,
            scenario.power_state@ == breaks(st1, bl.take(i as int)).powers,
            announced(events@, breaks(st1, bl.take(i as int)).news),
        decreases bs@.len() - i,
    {
        let order = bs[i];
        let ghost before = breaks(st1, bl.take(i as int));
        proof {
            assert(bl.take(i + 1).drop_last() =~= bl.take(i as int));
            assert(bl.take(i + 1).last() == *order);
        }
        if validate_break_alliance(scenario, order).is_ok() {
            let ghost ev_before = events@;
            set_diplomatic_state(scenario, &order.submitter, &order.target, DiplomaticState::Neutral);
            events.push(Event::AllianceBroken { power_a: order.submitter.duplicate(), power_b: order.target.duplicate() });
            proof {
                let ann = Announcement::AllianceBroken { power_a: order.submitter@, power_b: order.target@ };
                assert forall|t: int| 0 <= t < events@.len() implies announces(#[trigger] events@[t], before.news.push(ann)[t]) by {
                    if t < ev_before.len() {
                        assert(events@[t] == ev_before[t]);
                    }
                }
            }
        }
        i = i + 1;
    }
    proof {
        assert(bl.take(bs@.len() as int) =~= bl);
    }
    let ghost st2 = breaks(st1, bl);

    // New alliances.
    let fs = collect_form_alliance_orders(orders);
    let ghost fl = alliance_orders(orders@);
    let mut i: usize = 0;
    proof {
        assert(fl.take(0) =~= Seq::<FormAllianceOrder>::empty());
    }
    while i < fs.len()
        invariant
            *scenario == (Scenario {
                diplomacy: scenario.diplomacy,
                power_state: scenario.power_state,
                ..s0
            }),
            fl == alliance_orders(orders@),
            fs@.len() == fl.len(),
            forall|t: int| 0 <= t < fs@.len() ==> *fs@[t] == #[trigger] fl[t],
            i <= fs@.len(),
            scenario.diplomacy@ == alliances(st2, fl.take(i as int)).relations,
            scenario.power_state@ == alliances(st2, fl.take(i as int)).powers,
            announced(events@, alliances(st2, fl.take(i as int)).news),
        decreases fs@.len() - i,
    {
        let order = fs[i];
        let ghost before = alliances(st2, fl.take(i as int));
        proof {
            assert(fl.take(i + 1).drop_last() =~= fl.take(i as int));
            assert(fl.take(i + 1).last() == *order);
        }
        if validate_form_alliance(scenario, order).is_ok() {
            let ghost ev_before = events@;
            set_diplomatic_state(scenario, &order.submitter, &order.target, DiplomaticState::Allied);
            events.push(Event::AllianceFormed { power_a: order.submitter.duplicate(), power_b: order.target.duplicate() });
            proof {
                let ann = Announcement::AllianceFormed { power_a: order.submitter@, power_b: order.target@ };
                assert forall|t: int| 0 <= t < events@.len() implies announces(#[trigger] events@[t], before.news.push(ann)[t]) by {
                    if t < ev_before.len() {
                        assert(events@[t] == ev_before[t]);
                    }
                }
            }
        }
        i = i + 1;
    }
    proof {
        assert(fl.take(fs@.len() as int) =~= fl);
    }
    let ghost st3 = alliances(st2, fl);

    // Peace proposals, announced only.
    let qs = collect_propose_peace_orders(orders);
    let ghost ql = peace_orders(orders@);
    let mut i: usize = 0;
    proof {
        assert(ql.take(0) =~= Seq::<ProposePeaceOrder>::empty());
    }
    while i < qs.len()
        invariant
            *scenario == (Scenario {
                diplomacy: scenario.diplomacy,
                power_state: scenario.power_state,
                ..s0
            }),
            ql == peace_orders(orders@),
            qs@.len() == ql.len(),
            forall|t: int| 0 <= t < qs@.len() ==> *qs@[t] == #[trigger] ql[t],
            i <= qs@.len(),
            scenario.diplomacy@ == peaces(st3, ql.take(i as int)).relations,
            scenario.power_state@ == peaces(st3, ql.take(i as int)).powers,
            announced(events@, peaces(st3, ql.take(i as int)).news),
        decreases qs@.len() - i,
    {
        let order = qs[i];
        let ghost before = peaces(st3, ql.take(i as int));
        proof {
            assert(ql.take(i + 1).drop_last() =~= ql.take(i as int));
            assert(ql.take(i + 1).last() == *order);
        }
        if validate_propose_peace(scenario, order).is_ok() {
            let ghost ev_before = events@;
            events.push(Event::PeaceProposed { by: order.submitter.duplicate(), to: order.target.duplicate() });
            proof {
                let ann = Announcement::PeaceProposed { by: order.submitter@, to: order.target@ };
                assert forall|t: int| 0 <= t < events@.len() implies announces(#[trigger] events@[t], before.news.push(ann)[t]) by {
                    if t < ev_before.len() {
                        assert(events@[t] == ev_before[t]);
                    }
                }
            }
        }
        i = i + 1;
    }
    proof {
        assert(ql.take(qs@.len() as int) =~= ql);
    }
    events
}


/// Relations are symmetric: the relation between `a` and `b` is the
/// relation between `b` and `a`.
pub proof fn lemma_relation_symmetric(d: Map<Seq<char>, DiplomaticState>, a: Seq<char>, b: Seq<char>)
    ensures
        state_in(d, a, b) == state_in(d, b, a),
{
    crate::scenario::lemma_pair_key_symmetric(a, b);
}

/// Reading a relation back after recording it gives what was recorded,
/// whichever order the two powers are named in.
pub proof fn lemma_set_then_get(
    d: Map<Seq<char>, DiplomaticState>,
    a: Seq<char>,
    b: Seq<char>,
    st: DiplomaticState,
)
    ensures
        state_in(d.insert(pair_key(a, b), st), a, b) == st,
        state_in(d.insert(pair_key(a, b), st), b, a) == st,
{
    crate::scenario::lemma_pair_key_symmetric(a, b);
}

/// Pulling allies in never ends a war already recorded.
proof fn lemma_absorb_keeps_wars(
    d: Map<Seq<char>, DiplomaticState>,
    att: Seq<char>,
    tgt: Seq<char>,
    via: Seq<char>,
    ps: Seq<Seq<char>>,
)
    ensures
        forall|k: Seq<char>|
            d.contains_key(k) && d[k] == DiplomaticState::War ==> #[trigger] absorb(d, att, tgt, via, ps).0.contains_key(k)
                && absorb(d, att, tgt, via, ps).0[k] == DiplomaticState::War,
    decreases ps.len(),
{
    if ps.len() > 0 {
        lemma_absorb_keeps_wars(d, att, tgt, via, ps.drop_last());
    }
}

proof fn lemma_spread_keeps_wars(
    d: Map<Seq<char>, DiplomaticState>,
    att: Seq<char>,
    tgt: Seq<char>,
    fr: Seq<Seq<char>>,
    i: nat,
    fuel: nat,
)
    ensures
        forall|k: Seq<char>|
            d.contains_key(k) && d[k] == DiplomaticState::War ==> #[trigger] spread(d, att, tgt, fr, i, fuel).0.contains_key(k)
                && spread(d, att, tgt, fr, i, fuel).0[k] == DiplomaticState::War,
    decreases fuel,
{
    if fuel > 0 && i < fr.len() {
        let step = absorb(d, att, tgt, fr[i as int], allies_of(d, fr[i as int]));
        lemma_absorb_keeps_wars(d, att, tgt, fr[i as int], allies_of(d, fr[i as int]));
        lemma_spread_keeps_wars(step.0, att, tgt, fr + step.1, i + 1, (fuel - 1) as nat);
    }
}

/// A declaration of war that passes validation leaves the two powers at
/// war, whatever allies it draws in.
pub proof fn lemma_declared_war_holds(known: Set<Seq<char>>, delta: Option<i32>, st: PhaseState, o: DeclareWarOrder)
    requires
        war_verdict(known, st.relations, o.submitter@, o.target@) is None,
    ensures
        state_in(war_step(known, delta, st, o).relations, o.submitter@, o.target@) == DiplomaticState::War,
        state_in(war_step(known, delta, st, o).relations, o.target@, o.submitter@) == DiplomaticState::War,
{
    let sub = o.submitter@;
    let tgt = o.target@;
    let d1 = st.relations.insert(pair_key(sub, tgt), DiplomaticState::War);
    lemma_spread_keeps_wars(d1, sub, tgt, seq![tgt], 0, cascade_bound(d1));
    assert(d1.contains_key(pair_key(sub, tgt)));
    crate::scenario::lemma_pair_key_symmetric(sub, tgt);
}

/// A phase with no orders changes nothing and announces nothing.
pub proof fn lemma_no_orders_no_change(s: &Scenario, t: &PpModifiersTable)
    ensures
        diplomatic_phase(s, t, Seq::empty()).relations == s.diplomacy@,
        diplomatic_phase(s, t, Seq::empty()).powers == s.power_state@,
        diplomatic_phase(s, t, Seq::empty()).news.len() == 0,
{
    let os = Seq::<Order>::empty();
    assert(war_orders(os).len() == 0);
    assert(break_orders(os).len() == 0);
    assert(alliance_orders(os).len() == 0);
    assert(peace_orders(os).len() == 0);
}

} // verus!
