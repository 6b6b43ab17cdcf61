//! Economic phase: income, maintenance, replacements, production and
//! subsidies, in that order, for every power in key order; and the
//! validation and application of economic orders.
//!
//! Money is `i64`; fractions are fixed point (tax multipliers have
//! denominator 10000).  A table value still a placeholder falls back to a
//! documented neutral value.

use vstd::prelude::*;

use crate::combat::trunc_div;
use crate::events::{Event, OrderRejected};
use crate::ids::{AreaId, CorpsId, FleetId, PowerId};
use crate::orders::Order;
use crate::scenario::{
    relation, Area, Corps, CorpsComposition, DiplomaticState, Fleet, Owner, PendingSubsidy, PowerState,
    ProductionItem, ProductionKind, ReplacementItem, Scenario, TaxPolicy,
};
use crate::strmap::StrMap;
use crate::tables::{value_or, EconomyTable, Maybe};
use crate::text::{decimal, push_decimal, push_str, string_from_chars};

verus! {

/// Whether `x` is representable as an `i64`.
pub open spec fn fits64(x: int) -> bool {
    i64::MIN <= x <= i64::MAX
}

// ─── Income ────────────────────────────────────────────────────────────

/// The money an area yields to `p`: its authored yield when `p` owns it
/// and it is not blockaded, otherwise nothing.
pub open spec fn area_income(a: Area, p: Seq<char>) -> int {
    match a.owner {
        Owner::Power(slot) => if slot.power@ == p && !a.blockaded {
            value_or(a.money_yield, 0)
        } else {
            0
        },
        _ => 0,
    }
}

/// Summed yield to `p` over the areas listed in `es`.
pub open spec fn gross_of(es: Seq<(String, Area)>, p: Seq<char>) -> int
    decreases es.len(),
{
    if es.len() == 0 {
        0
    } else {
        gross_of(es.drop_last(), p) + area_income(es.last().1, p)
    }
}

/// Every partial sum of [`gross_of`] fits an `i64`.
pub open spec fn gross_fits(es: Seq<(String, Area)>, p: Seq<char>) -> bool
    decreases es.len(),
{
    if es.len() == 0 {
        true
    } else {
        gross_fits(es.drop_last(), p) && fits64(gross_of(es, p))
    }
}

/// Listing one more area adds its authored money yield to the gross of the
/// power that owns it, when it is not blockaded; a blockaded area, one
/// whose yield is not yet authored, or one of another owner adds nothing.
pub proof fn lemma_gross_push(es: Seq<(String, Area)>, k: String, a: Area, p: Seq<char>)
    ensures
        gross_of(es.push((k, a)), p) == gross_of(es, p) + (if (a.owner matches Owner::Power(slot) && slot.power@
            == p) && !a.blockaded && a.money_yield is Value {
            a.money_yield->Value_0 as int
        } else {
            0
        }),
{
    assert(es.push((k, a)).drop_last() =~= es);
}

/// Net income is gross income times the policy's tax multiplier in
/// ten-thousandths, rounded toward zero; while the policy's multiplier is
/// not yet authored, net income equals gross income.
pub proof fn lemma_net_income(s: &Scenario, t: &EconomyTable, p: Seq<char>, pol: TaxPolicy)
    ensures
        ({
            let entry = match pol {
                TaxPolicy::Low => t.tax_policy_multiplier_low_q4,
                TaxPolicy::Standard => t.tax_policy_multiplier_standard_q4,
                TaxPolicy::Heavy => t.tax_policy_multiplier_heavy_q4,
            };
            let g = gross_income(s, p);
            &&& entry is Placeholder ==> net_income(s, t, p, pol) == g
            &&& entry is Value && g * (entry->Value_0 as int) >= 0 ==> net_income(s, t, p, pol) == (g * (
                entry->Value_0 as int)) / 10000
            &&& entry is Value && g * (entry->Value_0 as int) < 0 ==> net_income(s, t, p, pol) == -((-(g * (
                entry->Value_0 as int))) / 10000)
        }),
{
    let g = gross_income(s, p);
    assert((g * 10000) / 10000 == g) by (nonlinear_arith);
    assert((-(g * 10000)) / 10000 == -g) by (nonlinear_arith);
}

/// Tax multiplier (denominator 10000) of a policy; identity when the table
/// value is not yet authored.
pub open spec fn multiplier(t: &EconomyTable, pol: TaxPolicy) -> int {
    value_or(
        match pol {
            TaxPolicy::Low => t.tax_policy_multiplier_low_q4,
            TaxPolicy::Standard => t.tax_policy_multiplier_standard_q4,
            TaxPolicy::Heavy => t.tax_policy_multiplier_heavy_q4,
        },
        10000,
    )
}

/// Gross income of power `p`.
pub open spec fn gross_income(s: &Scenario, p: Seq<char>) -> int {
    gross_of(s.areas.entries_view(), p)
}

/// Net income of power `p` under tax policy `pol`.
pub open spec fn net_income(s: &Scenario, t: &EconomyTable, p: Seq<char>, pol: TaxPolicy) -> int {
    trunc_div(gross_income(s, p) * multiplier(t, pol), 10000)
}

/// A power's state after income.
pub open spec fn after_income(s: &Scenario, t: &EconomyTable, p: Seq<char>, st: PowerState) -> PowerState {
    PowerState { treasury: (st.treasury + net_income(s, t, p, st.tax_policy)) as i64, ..st }
}

/// Income arithmetic of power `p` stays within `i64`.
pub open spec fn income_fits(s: &Scenario, t: &EconomyTable, p: Seq<char>, st: PowerState) -> bool {
    &&& gross_fits(s.areas.entries_view(), p)
    &&& fits64(gross_income(s, p) * multiplier(t, st.tax_policy))
    &&& fits64(st.treasury + net_income(s, t, p, st.tax_policy))
}

/// The income event of the `j`-th power.
pub open spec fn income_event(s: &Scenario, t: &EconomyTable, e: (String, PowerState)) -> Event {
    Event::IncomePaid {
        power: PowerId(e.0),
        gross: gross_income(s, e.0@) as i64,
        net: net_income(s, t, e.0@, e.1.tax_policy) as i64,
        tax_policy: e.1.tax_policy,
    }
}

// ─── Maintenance ───────────────────────────────────────────────────────

/// Summed strength of `p`'s corps listed in `es`.
pub open spec fn corps_sp_of(es: Seq<(String, Corps)>, p: Seq<char>) -> int
    decreases es.len(),
{
    if es.len() == 0 {
        0
    } else {
        corps_sp_of(es.drop_last(), p) + if es.last().1.owner@ == p {
            crate::combat::corps_total(es.last().1)
        } else {
            0
        }
    }
}

/// Every step of [`corps_sp_of`] is computed without overflow.
pub open spec fn corps_sp_fits(es: Seq<(String, Corps)>, p: Seq<char>) -> bool
    decreases es.len(),
{
    if es.len() == 0 {
        true
    } else {
        &&& corps_sp_fits(es.drop_last(), p)
        &&& fits64(corps_sp_of(es, p))
        &&& es.last().1.owner@ == p ==> crate::combat::total_fits(es.last().1)
    }
}

/// Ships in a fleet.
pub open spec fn fleet_size(f: Fleet) -> int {
    f.ships_of_the_line as int + f.frigates as int + f.transports as int
}

/// Summed ships of `p`'s fleets listed in `es`.
pub open spec fn ships_of(es: Seq<(String, Fleet)>, p: Seq<char>) -> int
    decreases es.len(),
{
    if es.len() == 0 {
        0
    } else {
        ships_of(es.drop_last(), p) + if es.last().1.owner@ == p {
            fleet_size(es.last().1)
        } else {
            0
        }
    }
}

/// Every step of [`ships_of`] is computed without overflow.
pub open spec fn ships_fit(es: Seq<(String, Fleet)>, p: Seq<char>) -> bool
    decreases es.len(),
{
    if es.len() == 0 {
        true
    } else {
        &&& ships_fit(es.drop_last(), p)
        &&& fits64(ships_of(es, p))
        &&& es.last().1.owner@ == p ==> crate::combat::fits(
            es.last().1.ships_of_the_line as int + es.last().1.frigates as int,
        ) && crate::combat::fits(fleet_size(es.last().1))
    }
}

/// Listing one more fleet adds its ships of the line, frigates and
/// transports to its owner's ship count, and nothing to any other power's.
pub proof fn lemma_ships_of_push(es: Seq<(String, Fleet)>, k: String, f: Fleet, p: Seq<char>)
    ensures
        ships_of(es.push((k, f)), p) == ships_of(es, p) + (if f.owner@ == p {
            f.ships_of_the_line as int + f.frigates as int + f.transports as int
        } else {
            0
        }),
{
    assert(es.push((k, f)).drop_last() =~= es);
}

/// Listing one more corps adds its infantry, cavalry and artillery strength
/// to its owner's strength, and nothing to any other power's.
pub proof fn lemma_corps_sp_of_push(es: Seq<(String, Corps)>, k: String, c: Corps, p: Seq<char>)
    ensures
        corps_sp_of(es.push((k, c)), p) == corps_sp_of(es, p) + (if c.owner@ == p {
            c.infantry_sp as int + c.cavalry_sp as int + c.artillery_sp as int
        } else {
            0
        }),
{
    assert(es.push((k, c)).drop_last() =~= es);
}

/// One more frigate in a fleet of `p`, all else alike, raises `p`'s ship
/// count by exactly one.
pub proof fn lemma_one_more_frigate(es: Seq<(String, Fleet)>, i: int, f: Fleet, p: Seq<char>)
    requires
        0 <= i < es.len(),
        es[i].1.owner@ == p,
        f.owner == es[i].1.owner,
        f.ships_of_the_line == es[i].1.ships_of_the_line,
        f.frigates == es[i].1.frigates + 1,
        f.transports == es[i].1.transports,
    ensures
        ships_of(es.update(i, (es[i].0, f)), p) == ships_of(es, p) + 1,
    decreases es.len(),
{
    let es2 = es.update(i, (es[i].0, f));
    if i == es.len() - 1 {
        assert(es2.drop_last() =~= es.drop_last());
    } else {
        lemma_one_more_frigate(es.drop_last(), i, f, p);
        assert(es2.drop_last() =~= es.drop_last().update(i, (es[i].0, f)));
    }
}

/// A power's fleet upkeep is the per-ship rate times the ships of the line,
/// frigates and transports of its fleets: one more frigate in one of its
/// fleets, the rest of the fleet table alike, raises it by exactly the rate.
pub proof fn lemma_frigate_raises_fleet_cost(
    s1: &Scenario,
    s2: &Scenario,
    t: &EconomyTable,
    p: Seq<char>,
    i: int,
    f: Fleet,
)
    requires
        0 <= i < s1.fleets.entries_view().len(),
        s1.fleets.entries_view()[i].1.owner@ == p,
        f.owner == s1.fleets.entries_view()[i].1.owner,
        f.ships_of_the_line == s1.fleets.entries_view()[i].1.ships_of_the_line,
        f.frigates == s1.fleets.entries_view()[i].1.frigates + 1,
        f.transports == s1.fleets.entries_view()[i].1.transports,
        s2.fleets.entries_view() == s1.fleets.entries_view().update(i, (s1.fleets.entries_view()[i].0, f)),
    ensures
        fleet_cost(s2, t, p) == fleet_cost(s1, t, p) + match t.fleet_maintenance_per_ship {
            Maybe::Value(rate) => rate as int,
            Maybe::Placeholder(_) => 0,
        },
{
    lemma_one_more_frigate(s1.fleets.entries_view(), i, f, p);
    let n = ships_of(s1.fleets.entries_view(), p);
    match t.fleet_maintenance_per_ship {
        Maybe::Value(rate) => {
            assert((n + 1) * rate == n * rate + rate) by (nonlinear_arith);
        },
        Maybe::Placeholder(_) => {},
    }
}

/// Upkeep of `p`'s corps.
pub open spec fn corps_cost(s: &Scenario, t: &EconomyTable, p: Seq<char>) -> int {
    match t.corps_maintenance_per_sp {
        Maybe::Value(rate) => corps_sp_of(s.corps.entries_view(), p) * rate,
        Maybe::Placeholder(_) => 0,
    }
}

/// Upkeep of `p`'s fleets.
pub open spec fn fleet_cost(s: &Scenario, t: &EconomyTable, p: Seq<char>) -> int {
    match t.fleet_maintenance_per_ship {
        Maybe::Value(rate) => ships_of(s.fleets.entries_view(), p) * rate,
        Maybe::Placeholder(_) => 0,
    }
}

/// Total upkeep of `p`.
pub open spec fn upkeep(s: &Scenario, t: &EconomyTable, p: Seq<char>) -> int {
    corps_cost(s, t, p) + fleet_cost(s, t, p)
}

/// A power's state after paying upkeep: the treasury is clamped at zero
/// when it cannot pay.
pub open spec fn after_upkeep(s: &Scenario, t: &EconomyTable, p: Seq<char>, st: PowerState) -> PowerState {
    if upkeep(s, t, p) > st.treasury {
        PowerState { treasury: 0, ..st }
    } else {
        PowerState { treasury: (st.treasury - upkeep(s, t, p)) as i64, ..st }
    }
}

/// Upkeep arithmetic of power `p` stays within `i64`.
pub open spec fn upkeep_fits(s: &Scenario, t: &EconomyTable, p: Seq<char>, st: PowerState) -> bool {
    &&& corps_sp_fits(s.corps.entries_view(), p)
    &&& ships_fit(s.fleets.entries_view(), p)
    &&& fits64(corps_cost(s, t, p))
    &&& fits64(fleet_cost(s, t, p))
    &&& fits64(upkeep(s, t, p))
    &&& fits64(upkeep(s, t, p) - st.treasury)
    &&& fits64(st.treasury - upkeep(s, t, p))
}

/// The upkeep events of one power, given its state after income.
pub open spec fn upkeep_events(s: &Scenario, t: &EconomyTable, k: String, st: PowerState) -> Seq<Event> {
    let p = k@;
    let paid = Event::MaintenancePaid {
        power: PowerId(k),
        corps_cost: corps_cost(s, t, p) as i64,
        fleet_cost: fleet_cost(s, t, p) as i64,
    };
    if upkeep(s, t, p) > st.treasury {
        seq![paid, Event::TreasuryInDeficit { power: PowerId(k), shortfall: (upkeep(s, t, p) - st.treasury) as i64 }]
    } else if t.corps_maintenance_per_sp is Placeholder && t.fleet_maintenance_per_ship is Placeholder {
        Seq::empty()
    } else {
        seq![paid]
    }
}

/// The upkeep events of the first `j` powers listed in `es` with their
/// states after income, in order.
pub open spec fn all_upkeep_events(s: &Scenario, t: &EconomyTable, es: Seq<(String, PowerState)>, j: nat) -> Seq<Event>
    decreases j,
{
    if j == 0 || j > es.len() {
        Seq::empty()
    } else {
        all_upkeep_events(s, t, es, (j - 1) as nat) + upkeep_events(s, t, es[j - 1].0, es[j - 1].1)
    }
}

// ─── Replacements ──────────────────────────────────────────────────────

/// Power states after the first `j` queued replacements due this turn
/// have arrived.
pub open spec fn replaced(m: Map<Seq<char>, PowerState>, q: Seq<ReplacementItem>, turn: u32, j: nat) -> Map<
    Seq<char>,
    PowerState,
>
    decreases j,
{
    if j == 0 || j > q.len() {
        m
    } else {
        let m1 = replaced(m, q, turn, (j - 1) as nat);
        let it = q[j - 1];
        if it.eta_turn == turn && m1.contains_key(it.owner@) {
            m1.insert(it.owner@, PowerState { manpower: (m1[it.owner@].manpower + it.sp_amount) as i32, ..m1[it.owner@] })
        } else {
            m1
        }
    }
}

/// Every arrival of [`replaced`] keeps manpower within `i32`.
pub open spec fn replaced_fits(m: Map<Seq<char>, PowerState>, q: Seq<ReplacementItem>, turn: u32, j: nat) -> bool
    decreases j,
{
    if j == 0 || j > q.len() {
        true
    } else {
        let m1 = replaced(m, q, turn, (j - 1) as nat);
        let it = q[j - 1];
        &&& replaced_fits(m, q, turn, (j - 1) as nat)
        &&& (it.eta_turn == turn && m1.contains_key(it.owner@)) ==> crate::combat::fits(
            m1[it.owner@].manpower + it.sp_amount,
        )
    }
}

/// Arrival events of the first `j` queued replacements.
pub open spec fn replacement_events(q: Seq<ReplacementItem>, turn: u32, j: nat) -> Seq<Event>
    decreases j,
{
    if j == 0 || j > q.len() {
        Seq::empty()
    } else {
        let rest = replacement_events(q, turn, (j - 1) as nat);
        if q[j - 1].eta_turn == turn {
            rest.push(Event::ReplacementsArrived { owner: q[j - 1].owner, sp_amount: q[j - 1].sp_amount })
        } else {
            rest
        }
    }
}

/// The first `j` queued items that are not due this turn, in order.
pub open spec fn not_due<T>(q: Seq<T>, due: spec_fn(T) -> bool, j: nat) -> Seq<T>
    decreases j,
{
    if j == 0 || j > q.len() {
        Seq::empty()
    } else {
        let rest = not_due(q, due, (j - 1) as nat);
        if due(q[j - 1]) {
            rest
        } else {
            rest.push(q[j - 1])
        }
    }
}

// ─── Subsidies ─────────────────────────────────────────────────────────

/// The amount a subsidy actually moves: what was pledged, capped by the
/// sender's treasury (nothing from an unknown sender).
pub open spec fn subsidy_paid(m: Map<Seq<char>, PowerState>, sub: PendingSubsidy) -> int {
    if m.contains_key(sub.from@) {
        if sub.amount < m[sub.from@].treasury {
            sub.amount as int
        } else {
            m[sub.from@].treasury as int
        }
    } else {
        0
    }
}

/// Power states after the first `j` subsidies.
pub open spec fn subsidized(m: Map<Seq<char>, PowerState>, q: Seq<PendingSubsidy>, j: nat) -> Map<Seq<char>, PowerState>
    decreases j,
{
    if j == 0 || j > q.len() {
        m
    } else {
        let m1 = subsidized(m, q, (j - 1) as nat);
        let sub = q[j - 1];
        let amt = subsidy_paid(m1, sub);
        if amt > 0 {
            let m2 = m1.insert(sub.from@, PowerState { treasury: (m1[sub.from@].treasury - amt) as i64, ..m1[sub.from@] });
            if m2.contains_key(sub.to@) {
                m2.insert(sub.to@, PowerState { treasury: (m2[sub.to@].treasury + amt) as i64, ..m2[sub.to@] })
            } else {
                m2
            }
        } else {
            m1
        }
    }
}

/// Every transfer of [`subsidized`] keeps treasuries within `i64`.
pub open spec fn subsidies_fit(m: Map<Seq<char>, PowerState>, q: Seq<PendingSubsidy>, j: nat) -> bool
    decreases j,
{
    if j == 0 || j > q.len() {
        true
    } else {
        let m1 = subsidized(m, q, (j - 1) as nat);
        let sub = q[j - 1];
        let amt = subsidy_paid(m1, sub);
        let m2 = m1.insert(sub.from@, PowerState { treasury: (m1[sub.from@].treasury - amt) as i64, ..m1[sub.from@] });
        &&& subsidies_fit(m, q, (j - 1) as nat)
        &&& amt > 0 ==> fits64(m1[sub.from@].treasury - amt)
        &&& (amt > 0 && m2.contains_key(sub.to@)) ==> fits64(m2[sub.to@].treasury + amt)
    }
}

/// Transfer events of the first `j` subsidies.
pub open spec fn subsidy_events(m: Map<Seq<char>, PowerState>, q: Seq<PendingSubsidy>, j: nat) -> Seq<Event>
    decreases j,
{
    if j == 0 || j > q.len() {
        Seq::empty()
    } else {
        let sub = q[j - 1];
        subsidy_events(m, q, (j - 1) as nat).push(
            Event::SubsidyTransferred {
                from: sub.from,
                to: sub.to,
                amount: subsidy_paid(subsidized(m, q, (j - 1) as nat), sub) as i64,
            },
        )
    }
}


// ─── Production ────────────────────────────────────────────────────────

/// `a` with every `AREA_` removed, scanning left to right.
pub open spec fn strip_area(a: Seq<char>) -> Seq<char>
    decreases a.len(),
{
    if a.len() >= 5 && a.subrange(0, 5) == "AREA_"@ {
        strip_area(a.subrange(5, a.len() as int))
    } else if a.len() == 0 {
        Seq::empty()
    } else {
        seq![a[0]] + strip_area(a.subrange(1, a.len() as int))
    }
}

/// The ID a unit built by `item` this `turn` receives, after `prefix`.
pub open spec fn unit_key(prefix: Seq<char>, item: ProductionItem, turn: u32) -> Seq<char> {
    prefix + item.owner@ + "_T"@ + decimal(turn as nat) + "_"@ + strip_area(item.area@)
}

/// The ID of a corps built by `item` this `turn`.
pub open spec fn corps_key(item: ProductionItem, turn: u32) -> Seq<char> {
    unit_key("CORPS_"@, item, turn)
}

/// The ID of a fleet built by `item` this `turn`.
pub open spec fn fleet_key(item: ProductionItem, turn: u32) -> Seq<char> {
    unit_key("FLEET_"@, item, turn)
}

/// The item is due this turn.
pub open spec fn due_now(item: ProductionItem, turn: u32) -> bool {
    item.eta_turn == turn
}

/// The last of the first `j` items that builds, this turn, the corps
/// named `k`.
pub open spec fn corps_source(q: Seq<ProductionItem>, turn: u32, k: Seq<char>, j: nat) -> Option<ProductionItem>
    decreases j,
{
    if j == 0 || j > q.len() {
        None
    } else if due_now(q[j - 1], turn) && q[j - 1].kind == ProductionKind::Corps && corps_key(q[j - 1], turn) == k {
        Some(q[j - 1])
    } else {
        corps_source(q, turn, k, (j - 1) as nat)
    }
}

/// The last of the first `j` items that builds, this turn, the fleet
/// named `k`.
pub open spec fn fleet_source(q: Seq<ProductionItem>, turn: u32, k: Seq<char>, j: nat) -> Option<ProductionItem>
    decreases j,
{
    if j == 0 || j > q.len() {
        None
    } else if due_now(q[j - 1], turn) && q[j - 1].kind == ProductionKind::Fleet && fleet_key(q[j - 1], turn) == k {
        Some(q[j - 1])
    } else {
        fleet_source(q, turn, k, (j - 1) as nat)
    }
}

/// The composition a new corps gets: the pre-paid one, or four infantry,
/// one cavalry and one artillery.
pub open spec fn build_composition(item: ProductionItem) -> CorpsComposition {
    match item.corps_composition {
        Some(c) => c,
        None => CorpsComposition { infantry_sp: 4, cavalry_sp: 1, artillery_sp: 1 },
    }
}

/// `c` is the corps `item` builds.
pub open spec fn corps_built(c: Corps, item: ProductionItem, t: &EconomyTable) -> bool {
    &&& c.display_name@ == "New Corps ("@ + item.owner@ + ")"@
    &&& c.owner == item.owner
    &&& c.area == item.area
    &&& c.infantry_sp == build_composition(item).infantry_sp
    &&& c.cavalry_sp == build_composition(item).cavalry_sp
    &&& c.artillery_sp == build_composition(item).artillery_sp
    &&& c.morale_q4 == value_or(t.new_corps_morale_q4, 0)
    &&& c.supplied
    &&& c.leader is None
}

/// `f` is the fleet `item` builds: one ship of the line, in port.
pub open spec fn fleet_built(f: Fleet, item: ProductionItem) -> bool {
    &&& f.display_name@ == "New Fleet ("@ + item.owner@ + ")"@
    &&& f.owner == item.owner
    &&& f.at_port == Some(item.area)
    &&& f.at_sea is None
    &&& f.ships_of_the_line == 1
    &&& f.frigates == 0
    &&& f.transports == 0
    &&& f.morale_q4 == 10000
    &&& f.admiral is None
    &&& f.embarked_corps@.len() == 0
}

/// The corps table after the first `j` due items built theirs: new IDs
/// added, an ID built twice holding the later corps.
pub open spec fn corps_after_production(
    old: Map<Seq<char>, Corps>,
    new: Map<Seq<char>, Corps>,
    q: Seq<ProductionItem>,
    turn: u32,
    t: &EconomyTable,
    j: nat,
) -> bool {
    &&& forall|k: Seq<char>| #[trigger] new.contains_key(k) <==> (old.contains_key(k) || corps_source(q, turn, k, j) is Some)
    &&& forall|k: Seq<char>|
        #[trigger] new.contains_key(k) ==> match corps_source(q, turn, k, j) {
            Some(item) => corps_built(new[k], item, t),
            None => new[k] == old[k],
        }
}

/// The fleet table after the first `j` due items built theirs.
pub open spec fn fleets_after_production(
    old: Map<Seq<char>, Fleet>,
    new: Map<Seq<char>, Fleet>,
    q: Seq<ProductionItem>,
    turn: u32,
    j: nat,
) -> bool {
    &&& forall|k: Seq<char>| #[trigger] new.contains_key(k) <==> (old.contains_key(k) || fleet_source(q, turn, k, j) is Some)
    &&& forall|k: Seq<char>|
        #[trigger] new.contains_key(k) ==> match fleet_source(q, turn, k, j) {
            Some(item) => fleet_built(new[k], item),
            None => new[k] == old[k],
        }
}

/// Events for the units the first `j` due items built.
pub open spec fn production_events(q: Seq<ProductionItem>, turn: u32, j: nat) -> Seq<Event>
    decreases j,
{
    if j == 0 || j > q.len() {
        Seq::empty()
    } else {
        let rest = production_events(q, turn, (j - 1) as nat);
        let it = q[j - 1];
        if due_now(it, turn) && it.kind != ProductionKind::Depot {
            rest.push(Event::UnitProduced { owner: it.owner, area: it.area, unit_kind: it.kind })
        } else {
            rest
        }
    }
}


// ─── Phase implementations ─────────────────────────────────────────────

/// `a / b` rounded toward zero, for a positive `b`.
fn div_trunc64(a: i64, b: i64) -> (r: i64)
    requires
        b > 0,
    ensures
        r == trunc_div(a as int, b as int),
{
    let a2 = a as i128;
    let b2 = b as i128;
    let q: i128 = if a2 >= 0 {
        a2 / b2
    } else {
        -((-a2) / b2)
    };
    proof {
        if a2 >= 0 {
            assert(a2 / b2 <= a2) by (nonlinear_arith)
                requires
                    a2 >= 0,
                    b2 >= 1,
            ;
        } else {
            let na: int = -(a2 as int);
            assert(na / (b2 as int) <= na) by (nonlinear_arith)
                requires
                    na >= 0,
                    b2 >= 1,
            ;
        }
    }
    q as i64
}

/// Gross income of `p` from the areas it owns.
fn income_gross(areas: &StrMap<Area>, p: &str) -> (g: i64)
    requires
        gross_fits(areas.entries_view(), p@),
    ensures
        g == gross_of(areas.entries_view(), p@),
{
    let ghost es = areas.entries_view();
    let n = areas.len();
    let mut acc: i64 = 0;
    let mut i: usize = 0;
    while i < n
        invariant
            es == areas.entries_view(),
            n == es.len(),
            gross_fits(es, p@),
            i <= n,
            acc == gross_of(es.take(i as int), p@),
        decreases n - i,
    {
        proof {
            lemma_gross_prefix(es, p@, i + 1);
            assert(es.take(i + 1).drop_last() =~= es.take(i as int));
            assert(es.take(i + 1).last() == es[i as int]);
        }
        let a = areas.value_at(i);
        let y: i64 = match &a.owner {
            Owner::Power(slot) => {
                if slot.power.0 == p.to_owned() && !a.blockaded {
                    match &a.money_yield {
                        Maybe::Value(v) => *v as i64,
                        Maybe::Placeholder(_) => 0,
                    }
                } else {
                    0
                }
            },
            _ => 0,
        };
        acc = acc + y;
        i = i + 1;
    }
    proof {
        assert(es.take(n as int) =~= es);
    }
    acc
}

proof fn lemma_gross_prefix(es: Seq<(String, Area)>, p: Seq<char>, i: int)
    requires
        gross_fits(es, p),
        0 <= i <= es.len(),
    ensures
        gross_fits(es.take(i), p),
    decreases es.len(),
{
    if i == es.len() {
        assert(es.take(i) =~= es);
    } else {
        assert(es.drop_last().take(i) =~= es.take(i));
        lemma_gross_prefix(es.drop_last(), p, i);
    }
}

/// The tax multiplier of a policy.
fn tax_multiplier(t: &EconomyTable, pol: TaxPolicy) -> (m: i64)
    ensures
        m == multiplier(t, pol),
{
    let v = match pol {
        TaxPolicy::Low => &t.tax_policy_multiplier_low_q4,
        TaxPolicy::Standard => &t.tax_policy_multiplier_standard_q4,
        TaxPolicy::Heavy => &t.tax_policy_multiplier_heavy_q4,
    };
    match v {
        Maybe::Value(x) => *x as i64,
        Maybe::Placeholder(_) => 10000,
    }
}

/// Facts tying a map's view to entries that differ from its old ones only
/// in values: same keys in the same order.
proof fn lemma_same_keys<V>(old: &StrMap<V>, new: &StrMap<V>, f: spec_fn(Seq<char>, V) -> V)
    requires
        old.well_formed(),
        new.well_formed(),
        new.entries_view().len() == old.entries_view().len(),
        forall|j: int|
            0 <= j < old.entries_view().len() ==> (#[trigger] new.entries_view()[j]).0 == old.entries_view()[j].0
                && new.entries_view()[j].1 == f(old.entries_view()[j].0@, old.entries_view()[j].1),
    ensures
        new@ == Map::new(|k: Seq<char>| old@.contains_key(k), |k: Seq<char>| f(k, old@[k])),
{
    let target = Map::new(|k: Seq<char>| old@.contains_key(k), |k: Seq<char>| f(k, old@[k]));
    assert forall|k: Seq<char>| #[trigger] new@.contains_key(k) <==> target.contains_key(k) by {
        if new@.contains_key(k) {
            let j = choose|j: int| 0 <= j < new.entries_view().len() && #[trigger] new.entries_view()[j].0@ == k;
            assert(old@.contains_key(old.entries_view()[j].0@));
        }
        if old@.contains_key(k) {
            let j = choose|j: int| 0 <= j < old.entries_view().len() && #[trigger] old.entries_view()[j].0@ == k;
            assert(new@.contains_key(new.entries_view()[j].0@));
        }
    }
    assert forall|k: Seq<char>| #[trigger] new@.contains_key(k) implies new@[k] == target[k] by {
        let j = choose|j: int| 0 <= j < new.entries_view().len() && #[trigger] new.entries_view()[j].0@ == k;
        assert(new@[new.entries_view()[j].0@] == new.entries_view()[j].1);
        assert(old@.contains_key(old.entries_view()[j].0@));
        assert(old@[old.entries_view()[j].0@] == old.entries_view()[j].1);
    }
    assert(new@ =~= target);
}

/// Pays every power its income, in key order.
fn income_phase(s: &mut Scenario, t: &EconomyTable) -> (ev: Vec<Event>)
    requires
        forall|j: int|
            0 <= j < old(s).power_state.entries_view().len() ==> income_fits(
                &*old(s),
                t,
                (#[trigger] old(s).power_state.entries_view()[j]).0@,
                old(s).power_state.entries_view()[j].1,
            ),
    ensures
        *final(s) == (Scenario { power_state: final(s).power_state, ..*old(s) }),
        final(s).power_state.well_formed(),
        final(s).power_state.entries_view().len() == old(s).power_state.entries_view().len(),
        forall|j: int|
            0 <= j < old(s).power_state.entries_view().len() ==> (#[trigger] final(s).power_state.entries_view()[j]).0
                == old(s).power_state.entries_view()[j].0 && final(s).power_state.entries_view()[j].1 == after_income(
                &*old(s),
                t,
                old(s).power_state.entries_view()[j].0@,
                old(s).power_state.entries_view()[j].1,
            ),
        final(s).power_state@ == Map::new(
            |k: Seq<char>| old(s).power_state@.contains_key(k),
            |k: Seq<char>| after_income(&*old(s), t, k, old(s).power_state@[k]),
        ),
        ev@ == Seq::new(
            old(s).power_state.entries_view().len(),
            |j: int| income_event(&*old(s), t, old(s).power_state.entries_view()[j]),
        ),
{
    let ghost s0 = *s;
    let ghost e0 = s.power_state.entries_view();
    let n = s.power_state.len();
    let mut events: Vec<Event> = Vec::new();
    let mut i: usize = 0;
    while i < n
        invariant
            n == e0.len(),
            e0 == s0.power_state.entries_view(),
            forall|j: int| 0 <= j < e0.len() ==> income_fits(&s0, t, (#[trigger] e0[j]).0@, e0[j].1),
            *s == (Scenario { power_state: s.power_state, ..s0 }),
            s.power_state.well_formed(),
            s.power_state.entries_view().len() == n,
            i <= n,
            forall|j: int|
                0 <= j < n ==> (#[trigger] s.power_state.entries_view()[j]).0 == e0[j].0 && s.power_state.entries_view()[j].1
                    == if j < i {
                    after_income(&s0, t, e0[j].0@, e0[j].1)
                } else {
                    e0[j].1
                },
            events@ == Seq::new(i as nat, |j: int| income_event(&s0, t, e0[j])),
        decreases n - i,
    {
        let key = s.power_state.key_at(i).clone();
        let st = *s.power_state.value_at(i);
        proof {
            assert(income_fits(&s0, t, e0[i as int].0@, e0[i as int].1));
        }
        let gross = income_gross(&s.areas, key.as_str());
        let mult = tax_multiplier(t, st.tax_policy);
        let net = div_trunc64(gross * mult, 10000);
        let updated = PowerState { treasury: st.treasury + net, ..st };
        let ghost before = s.power_state.entries_view();
        s.power_state.set_value_at(i, updated);
        events.push(Event::IncomePaid { power: PowerId(key), gross, net, tax_policy: st.tax_policy });
        proof {
            assert forall|j: int|
                0 <= j < n implies (#[trigger] s.power_state.entries_view()[j]).0 == e0[j].0
                    && s.power_state.entries_view()[j].1 == if j < i + 1 {
                    after_income(&s0, t, e0[j].0@, e0[j].1)
                } else {
                    e0[j].1
                } by {
                if j != i {
                    assert(s.power_state.entries_view()[j] == before[j]);
                }
            }
            assert(events@ =~= Seq::new((i + 1) as nat, |j: int| income_event(&s0, t, e0[j])));
        }
        i = i + 1;
    }
    proof {
        lemma_same_keys(&s0.power_state, &s.power_state, |k: Seq<char>, st: PowerState| after_income(&s0, t, k, st));
    }
    events
}


proof fn lemma_corps_sp_prefix(es: Seq<(String, Corps)>, p: Seq<char>, i: int)
    requires
        corps_sp_fits(es, p),
        0 <= i <= es.len(),
    ensures
        corps_sp_fits(es.take(i), p),
    decreases es.len(),
{
    if i == es.len() {
        assert(es.take(i) =~= es);
    } else {
        assert(es.drop_last().take(i) =~= es.take(i));
        lemma_corps_sp_prefix(es.drop_last(), p, i);
    }
}

proof fn lemma_ships_prefix(es: Seq<(String, Fleet)>, p: Seq<char>, i: int)
    requires
        ships_fit(es, p),
        0 <= i <= es.len(),
    ensures
        ships_fit(es.take(i), p),
    decreases es.len(),
{
    if i == es.len() {
        assert(es.take(i) =~= es);
    } else {
        assert(es.drop_last().take(i) =~= es.take(i));
        lemma_ships_prefix(es.drop_last(), p, i);
    }
}

/// Summed strength of `p`'s corps.
fn corps_sp_total(corps: &StrMap<Corps>, p: &str) -> (r: i64)
    requires
        corps_sp_fits(corps.entries_view(), p@),
    ensures
        r == corps_sp_of(corps.entries_view(), p@),
{
    let ghost es = corps.entries_view();
    let n = corps.len();
    let mut acc: i64 = 0;
    let mut i: usize = 0;
    while i < n
        invariant
            es == corps.entries_view(),
            n == es.len(),
            corps_sp_fits(es, p@),
            i <= n,
            acc == corps_sp_of(es.take(i as int), p@),
        decreases n - i,
    {
        proof {
            lemma_corps_sp_prefix(es, p@, i + 1);
            assert(es.take(i + 1).drop_last() =~= es.take(i as int));
            assert(es.take(i + 1).last() == es[i as int]);
        }
        let c = corps.value_at(i);
        if c.owner.0 == p.to_owned() {
            acc = acc + (c.infantry_sp + c.cavalry_sp + c.artillery_sp) as i64;
        }
        i = i + 1;
    }
    proof {
        assert(es.take(n as int) =~= es);
    }
    acc
}

/// Summed ships of `p`'s fleets.
fn ship_total(fleets: &StrMap<Fleet>, p: &str) -> (r: i64)
    requires
        ships_fit(fleets.entries_view(), p@),
    ensures
        r == ships_of(fleets.entries_view(), p@),
{
    let ghost es = fleets.entries_view();
    let n = fleets.len();
    let mut acc: i64 = 0;
    let mut i: usize = 0;
    while i < n
        invariant
            es == fleets.entries_view(),
            n == es.len(),
            ships_fit(es, p@),
            i <= n,
            acc == ships_of(es.take(i as int), p@),
        decreases n - i,
    {
        proof {
            lemma_ships_prefix(es, p@, i + 1);
            assert(es.take(i + 1).drop_last() =~= es.take(i as int));
            assert(es.take(i + 1).last() == es[i as int]);
        }
        let f = fleets.value_at(i);
        if f.owner.0 == p.to_owned() {
            acc = acc + (f.ships_of_the_line + f.frigates + f.transports) as i64;
        }
        i = i + 1;
    }
    proof {
        assert(es.take(n as int) =~= es);
    }
    acc
}

/// Deducts every power's upkeep, in key order.
fn maintenance_phase(s: &mut Scenario, t: &EconomyTable) -> (ev: Vec<Event>)
    requires
        forall|j: int|
            0 <= j < old(s).power_state.entries_view().len() ==> upkeep_fits(
                &*old(s),
                t,
                (#[trigger] old(s).power_state.entries_view()[j]).0@,
                old(s).power_state.entries_view()[j].1,
            ),
    ensures
        *final(s) == (Scenario { power_state: final(s).power_state, ..*old(s) }),
        final(s).power_state.well_formed(),
        final(s).power_state@ == Map::new(
            |k: Seq<char>| old(s).power_state@.contains_key(k),
            |k: Seq<char>| after_upkeep(&*old(s), t, k, old(s).power_state@[k]),
        ),
        ev@ == all_upkeep_events(
            &*old(s),
            t,
            old(s).power_state.entries_view(),
            old(s).power_state.entries_view().len(),
        ),
{
    let ghost s0 = *s;
    let ghost e0 = s.power_state.entries_view();
    let n = s.power_state.len();
    let mut events: Vec<Event> = Vec::new();
    let mut i: usize = 0;
    while i < n
        invariant
            n == e0.len(),
            e0 == s0.power_state.entries_view(),
            s0.power_state.well_formed(),
            forall|j: int| 0 <= j < e0.len() ==> upkeep_fits(&s0, t, (#[trigger] e0[j]).0@, e0[j].1),
            *s == (Scenario { power_state: s.power_state, ..s0 }),
            s.power_state.well_formed(),
            s.power_state.entries_view().len() == n,
            i <= n,
            forall|j: int|
                0 <= j < n ==> (#[trigger] s.power_state.entries_view()[j]).0 == e0[j].0 && s.power_state.entries_view()[j].1
                    == if j < i {
                    after_upkeep(&s0, t, e0[j].0@, e0[j].1)
                } else {
                    e0[j].1
                },
            events@ == all_upkeep_events(&s0, t, e0, i as nat),
        decreases n - i,
    {
        let key = s.power_state.key_at(i).clone();
        let st = *s.power_state.value_at(i);
        proof {
            assert(upkeep_fits(&s0, t, e0[i as int].0@, e0[i as int].1));
        }
        let sp = corps_sp_total(&s.corps, key.as_str());
        let ships = ship_total(&s.fleets, key.as_str());
        let corps_cost: i64 = match &t.corps_maintenance_per_sp {
            Maybe::Value(rate) => sp * (*rate as i64),
            Maybe::Placeholder(_) => 0,
        };
        let fleet_cost: i64 = match &t.fleet_maintenance_per_ship {
            Maybe::Value(rate) => ships * (*rate as i64),
            Maybe::Placeholder(_) => 0,
        };
        let placeholder = t.corps_maintenance_per_sp.is_placeholder() && t.fleet_maintenance_per_ship.is_placeholder();
        let total = corps_cost + fleet_cost;
        let ghost before = s.power_state.entries_view();
        let ghost ev_before = events@;
        if total > st.treasury {
            let shortfall = total - st.treasury;
            s.power_state.set_value_at(i, PowerState { treasury: 0, ..st });
            events.push(Event::MaintenancePaid { power: PowerId(key.clone()), corps_cost, fleet_cost });
            events.push(Event::TreasuryInDeficit { power: PowerId(key), shortfall });
        } else {
            s.power_state.set_value_at(i, PowerState { treasury: st.treasury - total, ..st });
            if !placeholder {
                events.push(Event::MaintenancePaid { power: PowerId(key), corps_cost, fleet_cost });
            }
        }
        proof {
            assert forall|j: int|
                0 <= j < n implies (#[trigger] s.power_state.entries_view()[j]).0 == e0[j].0
                    && s.power_state.entries_view()[j].1 == if j < i + 1 {
                    after_upkeep(&s0, t, e0[j].0@, e0[j].1)
                } else {
                    e0[j].1
                } by {
                if j != i {
                    assert(s.power_state.entries_view()[j] == before[j]);
                }
            }
            assert(events@ =~= ev_before + upkeep_events(&s0, t, e0[i as int].0, e0[i as int].1));
        }
        i = i + 1;
    }
    proof {
        lemma_same_keys(&s0.power_state, &s.power_state, |k: Seq<char>, st: PowerState| after_upkeep(&s0, t, k, st));
    }
    events
}


/// An equal copy of a queued replacement.
fn copy_replacement(r: &ReplacementItem) -> (c: ReplacementItem)
    ensures
        c == *r,
{
    ReplacementItem { owner: r.owner.duplicate(), sp_amount: r.sp_amount, eta_turn: r.eta_turn }
}

/// An equal copy of a queued production item.
fn copy_production(p: &ProductionItem) -> (c: ProductionItem)
    ensures
        c == *p,
{
    ProductionItem {
        owner: p.owner.duplicate(),
        area: p.area.duplicate(),
        kind: p.kind,
        eta_turn: p.eta_turn,
        corps_composition: p.corps_composition,
    }
}

/// An equal copy of a pending subsidy.
fn copy_subsidy(p: &PendingSubsidy) -> (c: PendingSubsidy)
    ensures
        c == *p,
{
    PendingSubsidy { from: p.from.duplicate(), to: p.to.duplicate(), amount: p.amount }
}

/// Delivers the replacements due this turn and keeps the others queued.
fn replacement_phase(s: &mut Scenario) -> (ev: Vec<Event>)
    requires
        replaced_fits(old(s).power_state@, old(s).replacement_queue@, old(s).current_turn, old(s).replacement_queue@.len()),
    ensures
        *final(s) == (Scenario {
            power_state: final(s).power_state,
            replacement_queue: final(s).replacement_queue,
            ..*old(s)
        }),
        final(s).power_state@ == replaced(
            old(s).power_state@,
            old(s).replacement_queue@,
            old(s).current_turn,
            old(s).replacement_queue@.len(),
        ),
        final(s).replacement_queue@ == not_due(
            old(s).replacement_queue@,
            |it: ReplacementItem| it.eta_turn == old(s).current_turn,
            old(s).replacement_queue@.len(),
        ),
        ev@ == replacement_events(old(s).replacement_queue@, old(s).current_turn, old(s).replacement_queue@.len()),
{
    let ghost s0 = *s;
    let ghost q = s.replacement_queue@;
    let turn = s.current_turn;
    let ghost due = |it: ReplacementItem| it.eta_turn == turn;
    let n = s.replacement_queue.len();
    let mut remaining: Vec<ReplacementItem> = Vec::new();
    let mut events: Vec<Event> = Vec::new();
    let mut i: usize = 0;
    while i < n
        invariant
            n == q.len(),
            q == s0.replacement_queue@,
            turn == s0.current_turn,
            due == |it: ReplacementItem| it.eta_turn == turn,
            replaced_fits(s0.power_state@, q, turn, n as nat),
            *s == (Scenario { power_state: s.power_state, ..s0 }),
            i <= n,
            s.power_state@ == replaced(s0.power_state@, q, turn, i as nat),
            remaining@ == not_due(q, due, i as nat),
            events@ == replacement_events(q, turn, i as nat),
        decreases n - i,
    {
        proof {
            lemma_replaced_fits_prefix(s0.power_state@, q, turn, n as nat, (i + 1) as nat);
        }
        let item = copy_replacement(&s.replacement_queue[i]);
        if item.eta_turn == turn {
            match s.power_state.find(item.owner.as_str()) {
                Some(j) => {
                    let mut st = *s.power_state.value_at(j);
                    proof {
                        assert(s.power_state@.contains_key(s.power_state.entries_view()[j as int].0@));
                    }
                    st.manpower = st.manpower + item.sp_amount;
                    s.power_state.set_value_at(j, st);
                },
                None => {},
            }
            events.push(Event::ReplacementsArrived { owner: item.owner, sp_amount: item.sp_amount });
        } else {
            remaining.push(item);
        }
        i = i + 1;
    }
    s.replacement_queue = remaining;
    events
}

proof fn lemma_replaced_fits_prefix(m: Map<Seq<char>, PowerState>, q: Seq<ReplacementItem>, turn: u32, k: nat, j: nat)
    requires
        replaced_fits(m, q, turn, k),
        j <= k <= q.len(),
    ensures
        replaced_fits(m, q, turn, j),
    decreases k,
{
    if j < k {
        lemma_replaced_fits_prefix(m, q, turn, (k - 1) as nat, j);
    }
}

proof fn lemma_subsidies_fit_prefix(m: Map<Seq<char>, PowerState>, q: Seq<PendingSubsidy>, k: nat, j: nat)
    requires
        subsidies_fit(m, q, k),
        j <= k <= q.len(),
    ensures
        subsidies_fit(m, q, j),
    decreases k,
{
    if j < k {
        lemma_subsidies_fit_prefix(m, q, (k - 1) as nat, j);
    }
}

/// Moves each pending subsidy, capped by the sender's treasury, and
/// empties the queue.
fn subsidy_phase(s: &mut Scenario) -> (ev: Vec<Event>)
    requires
        subsidies_fit(old(s).power_state@, old(s).subsidy_queue@, old(s).subsidy_queue@.len()),
    ensures
        *final(s) == (Scenario { power_state: final(s).power_state, subsidy_queue: final(s).subsidy_queue, ..*old(s) }),
        final(s).power_state@ == subsidized(old(s).power_state@, old(s).subsidy_queue@, old(s).subsidy_queue@.len()),
        final(s).subsidy_queue@.len() == 0,
        ev@ == subsidy_events(old(s).power_state@, old(s).subsidy_queue@, old(s).subsidy_queue@.len()),
{
    let ghost s0 = *s;
    let ghost q = s.subsidy_queue@;
    let n = s.subsidy_queue.len();
    let mut events: Vec<Event> = Vec::new();
    let mut i: usize = 0;
    while i < n
        invariant
            n == q.len(),
            q == s0.subsidy_queue@,
            subsidies_fit(s0.power_state@, q, n as nat),
            *s == (Scenario { power_state: s.power_state, ..s0 }),
            i <= n,
            s.power_state@ == subsidized(s0.power_state@, q, i as nat),
            events@ == subsidy_events(s0.power_state@, q, i as nat),
        decreases n - i,
    {
        proof {
            lemma_subsidies_fit_prefix(s0.power_state@, q, n as nat, (i + 1) as nat);
        }
        let sub = copy_subsidy(&s.subsidy_queue[i]);
        let actual: i64 = match s.power_state.get(sub.from.as_str()) {
            Some(st) => if sub.amount < st.treasury {
                sub.amount
            } else {
                st.treasury
            },
            None => 0,
        };
        if actual > 0 {
            match s.power_state.find(sub.from.as_str()) {
                Some(j) => {
                    let mut st = *s.power_state.value_at(j);
                    proof {
                        assert(s.power_state@.contains_key(s.power_state.entries_view()[j as int].0@));
                    }
                    st.treasury = st.treasury - actual;
                    s.power_state.set_value_at(j, st);
                },
                None => {},
            }
            match s.power_state.find(sub.to.as_str()) {
                Some(j) => {
                    let mut st = *s.power_state.value_at(j);
                    proof {
                        assert(s.power_state@.contains_key(s.power_state.entries_view()[j as int].0@));
                    }
                    st.treasury = st.treasury + actual;
                    s.power_state.set_value_at(j, st);
                },
                None => {},
            }
        }
        events.push(Event::SubsidyTransferred { from: sub.from, to: sub.to, amount: actual });
        i = i + 1;
    }
    s.subsidy_queue = Vec::new();
    events
}


/// Whether `AREA_` starts at position `i` of `v`.
fn area_prefix_at(v: &Vec<char>, i: usize) -> (r: bool)
    requires
        i <= v@.len(),
    ensures
        r == (i + 5 <= v@.len() && v@.subrange(i as int, i + 5) == "AREA_"@),
{
    proof {
        reveal_strlit("AREA_");
    }
    if v.len() - i < 5 {
        return false;
    }
    let r = v[i] == 'A' && v[i + 1] == 'R' && v[i + 2] == 'E' && v[i + 3] == 'A' && v[i + 4] == '_';
    proof {
        if r {
            assert(v@.subrange(i as int, i + 5) =~= "AREA_"@);
        } else {
            if v@.subrange(i as int, i + 5) == "AREA_"@ {
                assert(v@.subrange(i as int, i + 5)[0] == 'A');
                assert(v@.subrange(i as int, i + 5)[1] == 'R');
                assert(v@.subrange(i as int, i + 5)[2] == 'E');
                assert(v@.subrange(i as int, i + 5)[3] == 'A');
                assert(v@.subrange(i as int, i + 5)[4] == '_');
            }
        }
    }
    r
}

/// Appends `a` with every `AREA_` removed.
fn push_stripped(out: &mut Vec<char>, a: &str)
    ensures
        final(out)@ == old(out)@ + strip_area(a@),
{
    let v = crate::text::chars_of(a);
    let n = v.len();
    let mut i: usize = 0;
    proof {
        assert(v@.subrange(0, n as int) =~= a@);
    }
    while i < n
        invariant
            n == v@.len(),
            v@ == a@,
            i <= n,
            out@ + strip_area(v@.subrange(i as int, n as int)) == old(out)@ + strip_area(a@),
        decreases n - i,
    {
        let ghost rest = v@.subrange(i as int, n as int);
        if area_prefix_at(&v, i) {
            proof {
                assert(rest.subrange(0, 5) =~= v@.subrange(i as int, i + 5));
                assert(rest.subrange(5, rest.len() as int) =~= v@.subrange(i + 5, n as int));
            }
            i = i + 5;
        } else {
            proof {
                if rest.len() >= 5 {
                    assert(rest.subrange(0, 5) =~= v@.subrange(i as int, i + 5));
                }
                assert(rest.subrange(1, rest.len() as int) =~= v@.subrange(i + 1, n as int));
                assert(rest[0] == v@[i as int]);
            }
            let ghost before = out@;
            out.push(v[i]);
            proof {
                assert(out@ + strip_area(v@.subrange(i + 1, n as int)) =~= before + (seq![v@[i as int]] + strip_area(
                    v@.subrange(i + 1, n as int),
                )));
            }
            i = i + 1;
        }
    }
    proof {
        assert(v@.subrange(n as int, n as int) =~= Seq::<char>::empty());
        assert(out@ + strip_area(Seq::<char>::empty()) =~= out@);
    }
}

/// The ID a unit built by `item` this `turn` receives.
fn unit_id(prefix: &str, item: &ProductionItem, turn: u32) -> (r: String)
    ensures
        r@ == unit_key(prefix@, *item, turn),
{
    let mut v: Vec<char> = Vec::new();
    push_str(&mut v, prefix);
    push_str(&mut v, item.owner.as_str());
    push_str(&mut v, "_T");
    push_decimal(turn as u64, &mut v);
    push_str(&mut v, "_");
    push_stripped(&mut v, item.area.as_str());
    string_from_chars(v.as_slice())
}

/// `"<what> (<owner>)"`.
fn unit_name(what: &str, owner: &PowerId) -> (r: String)
    ensures
        r@ == what@ + " ("@ + owner@ + ")"@,
{
    let mut v: Vec<char> = Vec::new();
    push_str(&mut v, what);
    push_str(&mut v, " (");
    push_str(&mut v, owner.as_str());
    push_str(&mut v, ")");
    string_from_chars(v.as_slice())
}

/// Builds the units due this turn and keeps the other items queued.
fn production_phase(s: &mut Scenario, t: &EconomyTable) -> (ev: Vec<Event>)
    ensures
        *final(s) == (Scenario {
            corps: final(s).corps,
            fleets: final(s).fleets,
            production_queue: final(s).production_queue,
            ..*old(s)
        }),
        corps_after_production(
            old(s).corps@,
            final(s).corps@,
            old(s).production_queue@,
            old(s).current_turn,
            t,
            old(s).production_queue@.len(),
        ),
        fleets_after_production(
            old(s).fleets@,
            final(s).fleets@,
            old(s).production_queue@,
            old(s).current_turn,
            old(s).production_queue@.len(),
        ),
        final(s).production_queue@ == not_due(
            old(s).production_queue@,
            |it: ProductionItem| due_now(it, old(s).current_turn),
            old(s).production_queue@.len(),
        ),
        ev@ == production_events(old(s).production_queue@, old(s).current_turn, old(s).production_queue@.len()),
{
    let ghost s0 = *s;
    let ghost q = s.production_queue@;
    let turn = s.current_turn;
    let ghost due = |it: ProductionItem| due_now(it, turn);
    let n = s.production_queue.len();
    let morale: i32 = match &t.new_corps_morale_q4 {
        Maybe::Value(v) => *v,
        Maybe::Placeholder(_) => 0,
    };
    let mut remaining: Vec<ProductionItem> = Vec::new();
    let mut events: Vec<Event> = Vec::new();
    let mut i: usize = 0;
    while i < n
        invariant
            n == q.len(),
            q == s0.production_queue@,
            turn == s0.current_turn,
            due == |it: ProductionItem| due_now(it, turn),
            morale == value_or(t.new_corps_morale_q4, 0),
            *s == (Scenario { corps: s.corps, fleets: s.fleets, ..s0 }),
            i <= n,
            corps_after_production(s0.corps@, s.corps@, q, turn, t, i as nat),
            fleets_after_production(s0.fleets@, s.fleets@, q, turn, i as nat),
            remaining@ == not_due(q, due, i as nat),
            events@ == production_events(q, turn, i as nat),
        decreases n - i,
    {
        let item = copy_production(&s.production_queue[i]);
        proof {
            assert(item == q[i as int]);
        }
        if item.eta_turn == turn {
            match item.kind {
                ProductionKind::Corps => {
                    let key = unit_id("CORPS_", &item, turn);
                    let comp = match item.corps_composition {
                        Some(c) => c,
                        None => CorpsComposition { infantry_sp: 4, cavalry_sp: 1, artillery_sp: 1 },
                    };
                    let c = Corps {
                        display_name: unit_name("New Corps", &item.owner),
                        owner: item.owner.duplicate(),
                        area: item.area.duplicate(),
                        infantry_sp: comp.infantry_sp,
                        cavalry_sp: comp.cavalry_sp,
                        artillery_sp: comp.artillery_sp,
                        morale_q4: morale,
                        supplied: true,
                        leader: None,
                    };
                    proof {
                        reveal_strlit("New Corps");
                        reveal_strlit(" (");
                        reveal_strlit("New Corps (");
                        assert("New Corps"@ + " ("@ =~= "New Corps ("@);
                    }
                    let ghost before = s.corps@;
                    s.corps.insert(key, c);
                    proof {
                        let k0 = corps_key(item, turn);
                        assert forall|k: Seq<char>| #[trigger] s.corps@.contains_key(k) <==> (s0.corps@.contains_key(k)
                            || corps_source(q, turn, k, (i + 1) as nat) is Some) by {
                            if k != k0 {
                                assert(corps_source(q, turn, k, (i + 1) as nat) == corps_source(q, turn, k, i as nat));
                            }
                        }
                        assert forall|k: Seq<char>| #[trigger] s.corps@.contains_key(k) implies match corps_source(
                            q,
                            turn,
                            k,
                            (i + 1) as nat,
                        ) {
                            Some(it) => corps_built(s.corps@[k], it, t),
                            None => s.corps@[k] == s0.corps@[k],
                        } by {
                            if k != k0 {
                                assert(corps_source(q, turn, k, (i + 1) as nat) == corps_source(q, turn, k, i as nat));
                                assert(before.contains_key(k));
                            }
                        }
                        assert forall|k: Seq<char>| #[trigger] s.fleets@.contains_key(k) implies fleet_source(
                            q,
                            turn,
                            k,
                            (i + 1) as nat,
                        ) == fleet_source(q, turn, k, i as nat) by {}
                        assert forall|k: Seq<char>| fleet_source(q, turn, k, (i + 1) as nat) == fleet_source(
                            q,
                            turn,
                            k,
                            i as nat,
                        ) by {}
                    }
                    events.push(Event::UnitProduced { owner: item.owner, area: item.area, unit_kind: ProductionKind::Corps });
                },
                ProductionKind::Fleet => {
                    let key = unit_id("FLEET_", &item, turn);
                    let f = Fleet {
                        display_name: unit_name("New Fleet", &item.owner),
                        owner: item.owner.duplicate(),
                        at_port: Some(item.area.duplicate()),
                        at_sea: None,
                        ships_of_the_line: 1,
                        frigates: 0,
                        transports: 0,
                        morale_q4: 10000,
                        admiral: None,
                        embarked_corps: Vec::new(),
                    };
                    proof {
                        reveal_strlit("New Fleet");
                        reveal_strlit(" (");
                        reveal_strlit("New Fleet (");
                        assert("New Fleet"@ + " ("@ =~= "New Fleet ("@);
                    }
                    let ghost before = s.fleets@;
                    s.fleets.insert(key, f);
                    proof {
                        let k0 = fleet_key(item, turn);
                        assert forall|k: Seq<char>| #[trigger] s.fleets@.contains_key(k) <==> (s0.fleets@.contains_key(k)
                            || fleet_source(q, turn, k, (i + 1) as nat) is Some) by {
                            if k != k0 {
                                assert(fleet_source(q, turn, k, (i + 1) as nat) == fleet_source(q, turn, k, i as nat));
                            }
                        }
                        assert forall|k: Seq<char>| #[trigger] s.fleets@.contains_key(k) implies match fleet_source(
                            q,
                            turn,
                            k,
                            (i + 1) as nat,
                        ) {
                            Some(it) => fleet_built(s.fleets@[k], it),
                            None => s.fleets@[k] == s0.fleets@[k],
                        } by {
                            if k != k0 {
                                assert(fleet_source(q, turn, k, (i + 1) as nat) == fleet_source(q, turn, k, i as nat));
                                assert(before.contains_key(k));
                            }
                        }
                        assert forall|k: Seq<char>| corps_source(q, turn, k, (i + 1) as nat) == corps_source(
                            q,
                            turn,
                            k,
                            i as nat,
                        ) by {}
                    }
                    events.push(Event::UnitProduced { owner: item.owner, area: item.area, unit_kind: ProductionKind::Fleet });
                },
                ProductionKind::Depot => {
                    proof {
                        assert forall|k: Seq<char>| corps_source(q, turn, k, (i + 1) as nat) == corps_source(
                            q,
                            turn,
                            k,
                            i as nat,
                        ) by {}
                        assert forall|k: Seq<char>| fleet_source(q, turn, k, (i + 1) as nat) == fleet_source(
                            q,
                            turn,
                            k,
                            i as nat,
                        ) by {}
                    }
                },
            }
        } else {
            proof {
                assert forall|k: Seq<char>| corps_source(q, turn, k, (i + 1) as nat) == corps_source(q, turn, k, i as nat) by {}
                assert forall|k: Seq<char>| fleet_source(q, turn, k, (i + 1) as nat) == fleet_source(q, turn, k, i as nat) by {}
            }
            remaining.push(item);
        }
        i = i + 1;
    }
    s.production_queue = remaining;
    events
}


/// Upkeep reads only the corps and fleets.
proof fn lemma_upkeep_events_frame(s0: &Scenario, s1: &Scenario, t: &EconomyTable, es: Seq<(String, PowerState)>, j: nat)
    requires
        s0.corps == s1.corps,
        s0.fleets == s1.fleets,
    ensures
        all_upkeep_events(s0, t, es, j) == all_upkeep_events(s1, t, es, j),
    decreases j,
{
    if j > 0 && j <= es.len() {
        lemma_upkeep_events_frame(s0, s1, t, es, (j - 1) as nat);
    }
}

/// The power states after income and upkeep.
pub open spec fn after_income_and_upkeep(s: &Scenario, t: &EconomyTable) -> Map<Seq<char>, PowerState> {
    Map::new(
        |k: Seq<char>| s.power_state@.contains_key(k),
        |k: Seq<char>| after_upkeep(s, t, k, after_income(s, t, k, s.power_state@[k])),
    )
}

/// The power states after income, upkeep and replacements.
pub open spec fn before_subsidies(s: &Scenario, t: &EconomyTable) -> Map<Seq<char>, PowerState> {
    replaced(after_income_and_upkeep(s, t), s.replacement_queue@, s.current_turn, s.replacement_queue@.len())
}

/// The powers with their states after income, in key order.
pub open spec fn income_entries(s: &Scenario, t: &EconomyTable) -> Seq<(String, PowerState)> {
    Seq::new(
        s.power_state.entries_view().len(),
        |j: int| (s.power_state.entries_view()[j].0, after_income(s, t, s.power_state.entries_view()[j].0@, s.power_state.entries_view()[j].1)),
    )
}

/// The arithmetic of the whole phase stays within the integer types.
pub open spec fn economy_fits(s: &Scenario, t: &EconomyTable) -> bool {
    let es = s.power_state.entries_view();
    &&& forall|j: int| 0 <= j < es.len() ==> income_fits(s, t, (#[trigger] es[j]).0@, es[j].1)
    &&& forall|j: int| 0 <= j < es.len() ==> upkeep_fits(s, t, (#[trigger] es[j]).0@, after_income(s, t, es[j].0@, es[j].1))
    &&& replaced_fits(after_income_and_upkeep(s, t), s.replacement_queue@, s.current_turn, s.replacement_queue@.len())
    &&& subsidies_fit(before_subsidies(s, t), s.subsidy_queue@, s.subsidy_queue@.len())
}

/// Runs the economic phase: income, upkeep, replacements, production and
/// subsidies, each for every power in key order, and returns the events
/// in that order.
pub fn resolve_economic_phase(s: &mut Scenario, t: &EconomyTable) -> (ev: Vec<Event>)
    requires
        economy_fits(&*old(s), t),
    ensures
        *final(s) == (Scenario {
            power_state: final(s).power_state,
            corps: final(s).corps,
            fleets: final(s).fleets,
            production_queue: final(s).production_queue,
            replacement_queue: final(s).replacement_queue,
            subsidy_queue: final(s).subsidy_queue,
            ..*old(s)
        }),
        final(s).power_state@ == subsidized(before_subsidies(&*old(s), t), old(s).subsidy_queue@, old(s).subsidy_queue@.len()),
        corps_after_production(
            old(s).corps@,
            final(s).corps@,
            old(s).production_queue@,
            old(s).current_turn,
            t,
            old(s).production_queue@.len(),
        ),
        fleets_after_production(
            old(s).fleets@,
            final(s).fleets@,
            old(s).production_queue@,
            old(s).current_turn,
            old(s).production_queue@.len(),
        ),
        final(s).replacement_queue@ == not_due(
            old(s).replacement_queue@,
            |it: ReplacementItem| it.eta_turn == old(s).current_turn,
            old(s).replacement_queue@.len(),
        ),
        final(s).production_queue@ == not_due(
            old(s).production_queue@,
            |it: ProductionItem| due_now(it, old(s).current_turn),
            old(s).production_queue@.len(),
        ),
        final(s).subsidy_queue@.len() == 0,
        ev@ == Seq::new(old(s).power_state.entries_view().len(), |j: int| income_event(&*old(s), t, old(s).power_state.entries_view()[j]))
            + all_upkeep_events(&*old(s), t, income_entries(&*old(s), t), old(s).power_state.entries_view().len())
            + replacement_events(old(s).replacement_queue@, old(s).current_turn, old(s).replacement_queue@.len())
            + production_events(old(s).production_queue@, old(s).current_turn, old(s).production_queue@.len())
            + subsidy_events(before_subsidies(&*old(s), t), old(s).subsidy_queue@, old(s).subsidy_queue@.len()),
{
    let ghost s0 = *s;
    let mut events = income_phase(s, t);
    let ghost s1 = *s;
    proof {
        assert(s1.power_state.entries_view() =~= income_entries(&s0, t));
        assert forall|j: int|
            0 <= j < s1.power_state.entries_view().len() implies upkeep_fits(
                &s1,
                t,
                (#[trigger] s1.power_state.entries_view()[j]).0@,
                s1.power_state.entries_view()[j].1,
            ) by {
            assert(upkeep_fits(&s0, t, s0.power_state.entries_view()[j].0@, after_income(&s0, t, s0.power_state.entries_view()[j].0@, s0.power_state.entries_view()[j].1)));
        }
    }
    let mut e2 = maintenance_phase(s, t);
    proof {
        lemma_upkeep_events_frame(&s1, &s0, t, s1.power_state.entries_view(), s1.power_state.entries_view().len());
        assert(s.power_state@ =~= after_income_and_upkeep(&s0, t));
    }
    events.append(&mut e2);
    let mut e3 = replacement_phase(s);
    events.append(&mut e3);
    let mut e4 = production_phase(s, t);
    events.append(&mut e4);
    proof {
        assert(s.power_state@ == before_subsidies(&s0, t));
    }
    let mut e5 = subsidy_phase(s);
    events.append(&mut e5);
    events
}


// ─── Economic orders ───────────────────────────────────────────────────

/// The name of an order's kind.
pub open spec fn order_kind(o: Order) -> Seq<char> {
    match o {
        Order::Hold(_) => "Hold"@,
        Order::Move(_) => "Move"@,
        Order::ForcedMarch(_) => "ForcedMarch"@,
        Order::Interception(_) => "Interception"@,
        Order::SetTaxPolicy(_) => "SetTaxPolicy"@,
        Order::BuildCorps(_) => "BuildCorps"@,
        Order::BuildFleet(_) => "BuildFleet"@,
        Order::Subsidize(_) => "Subsidize"@,
        Order::Attack(_) => "Attack"@,
        Order::Bombard(_) => "Bombard"@,
        Order::MoveFleet(_) => "MoveFleet"@,
        Order::NavalAttack(_) => "NavalAttack"@,
        Order::Embark(_) => "Embark"@,
        Order::Disembark(_) => "Disembark"@,
        Order::DeclareWar(_) => "DeclareWar"@,
        Order::FormAlliance(_) => "FormAlliance"@,
        Order::BreakAlliance(_) => "BreakAlliance"@,
        Order::ProposePeace(_) => "ProposePeace"@,
    }
}

/// The name of an order's kind.
fn order_kind_name(o: &Order) -> (r: &'static str)
    ensures
        r@ == order_kind(*o),
{
    match o {
        Order::Hold(_) => "Hold",
        Order::Move(_) => "Move",
        Order::ForcedMarch(_) => "ForcedMarch",
        Order::Interception(_) => "Interception",
        Order::SetTaxPolicy(_) => "SetTaxPolicy",
        Order::BuildCorps(_) => "BuildCorps",
        Order::BuildFleet(_) => "BuildFleet",
        Order::Subsidize(_) => "Subsidize",
        Order::Attack(_) => "Attack",
        Order::Bombard(_) => "Bombard",
        Order::MoveFleet(_) => "MoveFleet",
        Order::NavalAttack(_) => "NavalAttack",
        Order::Embark(_) => "Embark",
        Order::Disembark(_) => "Disembark",
        Order::DeclareWar(_) => "DeclareWar",
        Order::FormAlliance(_) => "FormAlliance",
        Order::BreakAlliance(_) => "BreakAlliance",
        Order::ProposePeace(_) => "ProposePeace",
    }
}

/// `p`'s treasury, or zero for an unknown power.
pub open spec fn treasury_of(s: &Scenario, p: Seq<char>) -> int {
    if s.power_state@.contains_key(p) {
        s.power_state@[p].treasury as int
    } else {
        0
    }
}

/// `p`'s manpower, or zero for an unknown power.
pub open spec fn manpower_of(s: &Scenario, p: Seq<char>) -> int {
    if s.power_state@.contains_key(p) {
        s.power_state@[p].manpower as int
    } else {
        0
    }
}

/// `a` is `p`'s capital or one of its mobilization areas.
pub open spec fn can_raise_in(s: &Scenario, p: Seq<char>, a: Seq<char>) -> bool {
    let setup = s.powers@[p];
    setup.capital@ == a || exists|i: int| 0 <= i < setup.mobilization_areas@.len() && #[trigger] setup.mobilization_areas@[i]@ == a
}

/// The verdict on where a unit is raised.
pub open spec fn raise_verdict(s: &Scenario, p: Seq<char>, a: Seq<char>) -> Option<Seq<char>> {
    if !s.powers@.contains_key(p) {
        Some("unknown power `"@ + p + "`"@)
    } else if !can_raise_in(s, p, a) {
        Some("area `"@ + a + "` is not the capital or a mobilization area of `"@ + p + "`"@)
    } else {
        None
    }
}

/// What validating an economic order gives: `Ok` or the text of the first
/// failed check.
pub open spec fn economic_verdict(s: &Scenario, t: &EconomyTable, o: Order) -> Result<(), Seq<char>> {
    match o {
        Order::SetTaxPolicy(_) => Ok(()),
        Order::BuildCorps(b) => {
            let p = b.submitter@;
            match raise_verdict(s, p, b.area@) {
                Some(m) => Err(m),
                None => match (t.corps_build_cost_money, t.corps_build_cost_manpower) {
                    (Maybe::Value(c), _) if treasury_of(s, p) < c => Err(
                        "`"@ + p + "` cannot afford corps build: treasury="@ + crate::text::signed_decimal(
                            treasury_of(s, p),
                        ) + " cost="@ + crate::text::signed_decimal(c as int),
                    ),
                    (_, Maybe::Value(c)) if manpower_of(s, p) < c => Err(
                        "`"@ + p + "` cannot afford corps build: manpower="@ + crate::text::signed_decimal(
                            manpower_of(s, p),
                        ) + " required="@ + crate::text::signed_decimal(c as int),
                    ),
                    _ => Ok(()),
                },
            }
        },
        Order::BuildFleet(b) => {
            let p = b.submitter@;
            match raise_verdict(s, p, b.area@) {
                Some(m) => Err(m),
                None => match t.fleet_build_cost_money {
                    Maybe::Value(c) if treasury_of(s, p) < c => Err(
                        "`"@ + p + "` cannot afford fleet build: treasury="@ + crate::text::signed_decimal(
                            treasury_of(s, p),
                        ) + " cost="@ + crate::text::signed_decimal(c as int),
                    ),
                    _ => Ok(()),
                },
            }
        },
        Order::Subsidize(o) => {
            let p = o.submitter@;
            let r = o.recipient@;
            if o.amount <= 0 {
                Err("subsidy amount must be positive, got "@ + crate::text::signed_decimal(o.amount as int))
            } else if p == r {
                Err("cannot subsidize yourself"@)
            } else if treasury_of(s, p) < o.amount {
                Err("`"@ + p + "` cannot afford subsidy: treasury="@ + crate::text::signed_decimal(treasury_of(s, p))
                    + " amount="@ + crate::text::signed_decimal(o.amount as int))
            } else if relation(s, p, r) == Some(DiplomaticState::War) {
                Err("`"@ + p + "` and `"@ + r + "` are at war; subsidies forbidden"@)
            } else {
                Ok(())
            }
        },
        _ => Err("order kind `"@ + order_kind(o) + "` is not an economic order"@),
    }
}

/// `p`'s treasury, or zero for an unknown power.
fn treasury_or_zero(s: &Scenario, p: &PowerId) -> (r: i64)
    ensures
        r == treasury_of(s, p@),
{
    match s.power_state.get(p.as_str()) {
        Some(st) => st.treasury,
        None => 0,
    }
}

/// `p`'s manpower, or zero for an unknown power.
fn manpower_or_zero(s: &Scenario, p: &PowerId) -> (r: i32)
    ensures
        r == manpower_of(s, p@),
{
    match s.power_state.get(p.as_str()) {
        Some(st) => st.manpower,
        None => 0,
    }
}

/// Checks where a unit is raised.
fn check_raise(s: &Scenario, p: &PowerId, a: &AreaId) -> (r: Option<String>)
    ensures
        match r {
            None => raise_verdict(s, p@, a@) is None,
            Some(m) => raise_verdict(s, p@, a@) == Some(m@),
        },
{
    let setup = match s.powers.get(p.as_str()) {
        Some(x) => x,
        None => {
            let mut v: Vec<char> = Vec::new();
            push_str(&mut v, "unknown power `");
            push_str(&mut v, p.as_str());
            push_str(&mut v, "`");
            return Some(string_from_chars(v.as_slice()));
        },
    };
    if setup.capital.same(a) {
        return None;
    }
    let mut i: usize = 0;
    while i < setup.mobilization_areas.len()
        invariant
            s.powers@.contains_key(p@),
            *setup == s.powers@[p@],
            setup.capital@ != a@,
            i <= setup.mobilization_areas@.len(),
            forall|j: int| 0 <= j < i ==> (#[trigger] setup.mobilization_areas@[j])@ != a@,
        decreases setup.mobilization_areas@.len() - i,
    {
        if setup.mobilization_areas[i].same(a) {
            proof {
                assert(setup.mobilization_areas@[i as int]@ == a@);
            }
            return None;
        }
        i = i + 1;
    }
    let mut v: Vec<char> = Vec::new();
    push_str(&mut v, "area `");
    push_str(&mut v, a.as_str());
    push_str(&mut v, "` is not the capital or a mobilization area of `");
    push_str(&mut v, p.as_str());
    push_str(&mut v, "`");
    Some(string_from_chars(v.as_slice()))
}

/// `` `p` cannot afford <what>: <label>=<have> <need_label>=<need> ``.
fn cannot_afford(p: &PowerId, what: &str, label: &str, have: i64, need_label: &str, need: i64) -> (r: String)
    ensures
        r@ == "`"@ + p@ + "` cannot afford "@ + what@ + ": "@ + label@ + "="@ + crate::text::signed_decimal(have as int)
            + " "@ + need_label@ + "="@ + crate::text::signed_decimal(need as int),
{
    let mut v: Vec<char> = Vec::new();
    push_str(&mut v, "`");
    push_str(&mut v, p.as_str());
    push_str(&mut v, "` cannot afford ");
    push_str(&mut v, what);
    push_str(&mut v, ": ");
    push_str(&mut v, label);
    push_str(&mut v, "=");
    crate::text::push_signed(have, &mut v);
    push_str(&mut v, " ");
    push_str(&mut v, need_label);
    push_str(&mut v, "=");
    crate::text::push_signed(need, &mut v);
    string_from_chars(v.as_slice())
}

/// Checks an economic order against the scenario without changing it.
pub fn validate_economic_order(s: &Scenario, t: &EconomyTable, order: &Order) -> (r: Result<(), String>)
    ensures
        match r {
            Ok(()) => economic_verdict(s, t, *order) == Ok::<(), Seq<char>>(()),
            Err(m) => economic_verdict(s, t, *order) == Err::<(), Seq<char>>(m@),
        },
{
    proof {
        reveal_strlit("`");
        reveal_strlit("` cannot afford ");
        reveal_strlit("corps build");
        reveal_strlit("fleet build");
        reveal_strlit("subsidy");
        reveal_strlit(": ");
        reveal_strlit("treasury");
        reveal_strlit("manpower");
        reveal_strlit("=");
        reveal_strlit(" ");
        reveal_strlit("cost");
        reveal_strlit("required");
        reveal_strlit("amount");
        reveal_strlit("` cannot afford corps build: treasury=");
        reveal_strlit("` cannot afford corps build: manpower=");
        reveal_strlit("` cannot afford fleet build: treasury=");
        reveal_strlit("` cannot afford subsidy: treasury=");
        reveal_strlit(" cost=");
        reveal_strlit(" required=");
        reveal_strlit(" amount=");
    }
    match order {
        Order::SetTaxPolicy(_) => Ok(()),
        Order::BuildCorps(b) => {
            match check_raise(s, &b.submitter, &b.area) {
                Some(m) => {
                    return Err(m);
                },
                None => {},
            }
            match &t.corps_build_cost_money {
                Maybe::Value(c) => {
                    let tr = treasury_or_zero(s, &b.submitter);
                    if tr < *c as i64 {
                        let m = cannot_afford(&b.submitter, "corps build", "treasury", tr, "cost", *c as i64);
                        proof {
                            assert(m@ =~= "`"@ + b.submitter@ + "` cannot afford corps build: treasury="@
                                + crate::text::signed_decimal(tr as int) + " cost="@ + crate::text::signed_decimal(*c as int));
                        }
                        return Err(m);
                    }
                },
                Maybe::Placeholder(_) => {},
            }
            match &t.corps_build_cost_manpower {
                Maybe::Value(c) => {
                    let mp = manpower_or_zero(s, &b.submitter);
                    if mp < *c {
                        let m = cannot_afford(&b.submitter, "corps build", "manpower", mp as i64, "required", *c as i64);
                        proof {
                            assert(m@ =~= "`"@ + b.submitter@ + "` cannot afford corps build: manpower="@
                                + crate::text::signed_decimal(mp as int) + " required="@ + crate::text::signed_decimal(
                                *c as int,
                            ));
                        }
                        return Err(m);
                    }
                },
                Maybe::Placeholder(_) => {},
            }
            Ok(())
        },
        Order::BuildFleet(b) => {
            match check_raise(s, &b.submitter, &b.area) {
                Some(m) => {
                    return Err(m);
                },
                None => {},
            }
            match &t.fleet_build_cost_money {
                Maybe::Value(c) => {
                    let tr = treasury_or_zero(s, &b.submitter);
                    if tr < *c as i64 {
                        let m = cannot_afford(&b.submitter, "fleet build", "treasury", tr, "cost", *c as i64);
                        proof {
                            assert(m@ =~= "`"@ + b.submitter@ + "` cannot afford fleet build: treasury="@
                                + crate::text::signed_decimal(tr as int) + " cost="@ + crate::text::signed_decimal(*c as int));
                        }
                        return Err(m);
                    }
                },
                Maybe::Placeholder(_) => {},
            }
            Ok(())
        },
        Order::Subsidize(o) => {
            if o.amount <= 0 {
                let mut v: Vec<char> = Vec::new();
                push_str(&mut v, "subsidy amount must be positive, got ");
                crate::text::push_signed(o.amount, &mut v);
                return Err(string_from_chars(v.as_slice()));
            }
            if o.submitter.same(&o.recipient) {
                return Err("cannot subsidize yourself".to_string());
            }
            let tr = treasury_or_zero(s, &o.submitter);
            if tr < o.amount {
                let m = cannot_afford(&o.submitter, "subsidy", "treasury", tr, "amount", o.amount);
                proof {
                    assert(m@ =~= "`"@ + o.submitter@ + "` cannot afford subsidy: treasury="@
                        + crate::text::signed_decimal(tr as int) + " amount="@ + crate::text::signed_decimal(o.amount as int));
                }
                return Err(m);
            }
            match crate::scenario::diplomatic_state(s, &o.submitter, &o.recipient) {
                Some(DiplomaticState::War) => {
                    let mut v: Vec<char> = Vec::new();
                    push_str(&mut v, "`");
                    push_str(&mut v, o.submitter.as_str());
                    push_str(&mut v, "` and `");
                    push_str(&mut v, o.recipient.as_str());
                    push_str(&mut v, "` are at war; subsidies forbidden");
                    return Err(string_from_chars(v.as_slice()));
                },
                _ => {},
            }
            Ok(())
        },
        _ => {
            let mut v: Vec<char> = Vec::new();
            push_str(&mut v, "order kind `");
            push_str(&mut v, order_kind_name(order));
            push_str(&mut v, "` is not an economic order");
            Err(string_from_chars(v.as_slice()))
        },
    }
}


/// Power states after `p` pays `cost` in money, when it is authored.
pub open spec fn pay_money(m: Map<Seq<char>, PowerState>, p: Seq<char>, cost: Maybe<i32>) -> Map<Seq<char>, PowerState> {
    match cost {
        Maybe::Value(c) => if m.contains_key(p) {
            m.insert(p, PowerState { treasury: (m[p].treasury - c) as i64, ..m[p] })
        } else {
            m
        },
        Maybe::Placeholder(_) => m,
    }
}

/// Power states after `p` pays `cost` in manpower, when it is authored.
pub open spec fn pay_men(m: Map<Seq<char>, PowerState>, p: Seq<char>, cost: Maybe<i32>) -> Map<Seq<char>, PowerState> {
    match cost {
        Maybe::Value(c) => if m.contains_key(p) {
            m.insert(p, PowerState { manpower: (m[p].manpower - c) as i32, ..m[p] })
        } else {
            m
        },
        Maybe::Placeholder(_) => m,
    }
}

/// A production delay in turns (none when not yet authored).
pub open spec fn lag_of(m: Maybe<i32>) -> u32 {
    match m {
        Maybe::Value(l) => l as u32,
        Maybe::Placeholder(_) => 0,
    }
}

/// Paying for and scheduling an order stays within the integer types.
pub open spec fn order_fits(s: &Scenario, t: &EconomyTable, o: Order) -> bool {
    match o {
        Order::BuildCorps(b) => {
            let p = b.submitter@;
            let m1 = pay_money(s.power_state@, p, t.corps_build_cost_money);
            &&& t.corps_build_cost_money matches Maybe::Value(c) ==> (s.power_state@.contains_key(p) ==> fits64(
                s.power_state@[p].treasury - c,
            ))
            &&& t.corps_build_cost_manpower matches Maybe::Value(c) ==> (m1.contains_key(p) ==> crate::combat::fits(
                m1[p].manpower - c,
            ))
            &&& s.current_turn + lag_of(t.corps_production_lag_turns) <= u32::MAX
        },
        Order::BuildFleet(b) => {
            let p = b.submitter@;
            &&& t.fleet_build_cost_money matches Maybe::Value(c) ==> (s.power_state@.contains_key(p) ==> fits64(
                s.power_state@[p].treasury - c,
            ))
            &&& s.current_turn + lag_of(t.fleet_production_lag_turns) <= u32::MAX
        },
        _ => true,
    }
}

/// `e` is the rejection-shaped notice with this code and text.
pub open spec fn notice(e: Event, code: Seq<char>, text: Seq<char>) -> bool {
    e matches Event::OrderRejected(x) && x.reason_code@ == code && x.message@ == text
}

/// What applying an economic order does to the scenario and which event
/// it returns.
pub open spec fn economic_effect(s0: &Scenario, s1: &Scenario, t: &EconomyTable, o: Order, e: Event) -> bool {
    match o {
        Order::SetTaxPolicy(x) => {
            let p = x.submitter@;
            &&& *s1 == (Scenario { power_state: s1.power_state, ..*s0 })
            &&& s1.power_state@ == if s0.power_state@.contains_key(p) {
                s0.power_state@.insert(p, PowerState { tax_policy: x.policy, ..s0.power_state@[p] })
            } else {
                s0.power_state@
            }
            &&& e == Event::TaxPolicySet { power: x.submitter, new_policy: x.policy }
        },
        Order::BuildCorps(b) => {
            let p = b.submitter@;
            let eta = (s0.current_turn + lag_of(t.corps_production_lag_turns)) as u32;
            &&& *s1 == (Scenario { power_state: s1.power_state, production_queue: s1.production_queue, ..*s0 })
            &&& s1.power_state@ == pay_men(
                pay_money(s0.power_state@, p, t.corps_build_cost_money),
                p,
                t.corps_build_cost_manpower,
            )
            &&& s1.production_queue@ == s0.production_queue@.push(
                ProductionItem {
                    owner: b.submitter,
                    area: b.area,
                    kind: ProductionKind::Corps,
                    eta_turn: eta,
                    corps_composition: Some(b.composition),
                },
            )
            &&& notice(
                e,
                "BUILD_CORPS_QUEUED"@,
                "Corps build queued for "@ + p + " at "@ + b.area@ + ", ETA turn "@ + decimal(eta as nat),
            )
        },
        Order::BuildFleet(b) => {
            let p = b.submitter@;
            let eta = (s0.current_turn + lag_of(t.fleet_production_lag_turns)) as u32;
            &&& *s1 == (Scenario { power_state: s1.power_state, production_queue: s1.production_queue, ..*s0 })
            &&& s1.power_state@ == pay_money(s0.power_state@, p, t.fleet_build_cost_money)
            &&& s1.production_queue@ == s0.production_queue@.push(
                ProductionItem {
                    owner: b.submitter,
                    area: b.area,
                    kind: ProductionKind::Fleet,
                    eta_turn: eta,
                    corps_composition: None,
                },
            )
            &&& notice(
                e,
                "BUILD_FLEET_QUEUED"@,
                "Fleet build queued for "@ + p + " at "@ + b.area@ + ", ETA turn "@ + decimal(eta as nat),
            )
        },
        Order::Subsidize(x) => {
            &&& *s1 == (Scenario { subsidy_queue: s1.subsidy_queue, ..*s0 })
            &&& s1.subsidy_queue@ == s0.subsidy_queue@.push(
                PendingSubsidy { from: x.submitter, to: x.recipient, amount: x.amount },
            )
            &&& notice(
                e,
                "SUBSIDY_QUEUED"@,
                "Subsidy of "@ + crate::text::signed_decimal(x.amount as int) + " from "@ + x.submitter@ + " to "@
                    + x.recipient@ + " queued for next economic phase"@,
            )
        },
        _ => {
            &&& *s1 == *s0
            &&& notice(e, "NOT_ECONOMIC_ORDER"@, "order `"@ + order_kind(o) + "` is not handled by the economic phase"@)
        },
    }
}

/// Deducts `cost` from `p`'s treasury, when it is authored and `p` known.
fn charge_money(s: &mut Scenario, p: &PowerId, cost: &Maybe<i32>)
    requires
        *cost matches Maybe::Value(c) ==> (old(s).power_state@.contains_key(p@) ==> fits64(
            old(s).power_state@[p@].treasury - c,
        )),
    ensures
        *final(s) == (Scenario { power_state: final(s).power_state, ..*old(s) }),
        final(s).power_state@ == pay_money(old(s).power_state@, p@, *cost),
{
    match cost {
        Maybe::Value(c) => {
            match s.power_state.find(p.as_str()) {
                Some(j) => {
                    let mut st = *s.power_state.value_at(j);
                    proof {
                        assert(s.power_state@.contains_key(s.power_state.entries_view()[j as int].0@));
                    }
                    st.treasury = st.treasury - *c as i64;
                    s.power_state.set_value_at(j, st);
                },
                None => {},
            }
        },
        Maybe::Placeholder(_) => {},
    }
}

/// Deducts `cost` from `p`'s manpower, when it is authored and `p` known.
fn charge_men(s: &mut Scenario, p: &PowerId, cost: &Maybe<i32>)
    requires
        *cost matches Maybe::Value(c) ==> (old(s).power_state@.contains_key(p@) ==> crate::combat::fits(
            old(s).power_state@[p@].manpower - c,
        )),
    ensures
        *final(s) == (Scenario { power_state: final(s).power_state, ..*old(s) }),
        final(s).power_state@ == pay_men(old(s).power_state@, p@, *cost),
{
    match cost {
        Maybe::Value(c) => {
            match s.power_state.find(p.as_str()) {
                Some(j) => {
                    let mut st = *s.power_state.value_at(j);
                    proof {
                        assert(s.power_state@.contains_key(s.power_state.entries_view()[j as int].0@));
                    }
                    st.manpower = st.manpower - *c;
                    s.power_state.set_value_at(j, st);
                },
                None => {},
            }
        },
        Maybe::Placeholder(_) => {},
    }
}

/// `"<what> build queued for <p> at <a>, ETA turn <eta>"`.
fn queued_text(what: &str, p: &PowerId, a: &AreaId, eta: u32) -> (r: String)
    ensures
        r@ == what@ + " build queued for "@ + p@ + " at "@ + a@ + ", ETA turn "@ + decimal(eta as nat),
{
    let mut v: Vec<char> = Vec::new();
    push_str(&mut v, what);
    push_str(&mut v, " build queued for ");
    push_str(&mut v, p.as_str());
    push_str(&mut v, " at ");
    push_str(&mut v, a.as_str());
    push_str(&mut v, ", ETA turn ");
    push_decimal(eta as u64, &mut v);
    string_from_chars(v.as_slice())
}

/// Applies a validated economic order and returns the event it records.
pub fn apply_economic_order(s: &mut Scenario, t: &EconomyTable, order: &Order) -> (e: Event)
    requires
        order_fits(&*old(s), t, *order),
    ensures
        economic_effect(&*old(s), &*final(s), t, *order, e),
{
    match order {
        Order::SetTaxPolicy(o) => {
            match s.power_state.find(o.submitter.as_str()) {
                Some(j) => {
                    let mut st = *s.power_state.value_at(j);
                    proof {
                        assert(s.power_state@.contains_key(s.power_state.entries_view()[j as int].0@));
                    }
                    st.tax_policy = o.policy;
                    s.power_state.set_value_at(j, st);
                },
                None => {},
            }
            Event::TaxPolicySet { power: o.submitter.duplicate(), new_policy: o.policy }
        },
        Order::BuildCorps(o) => {
            charge_money(s, &o.submitter, &t.corps_build_cost_money);
            charge_men(s, &o.submitter, &t.corps_build_cost_manpower);
            let lag: u32 = match &t.corps_production_lag_turns {
                Maybe::Value(l) => *l as u32,
                Maybe::Placeholder(_) => 0,
            };
            let eta = s.current_turn + lag;
            s.production_queue.push(
                ProductionItem {
                    owner: o.submitter.duplicate(),
                    area: o.area.duplicate(),
                    kind: ProductionKind::Corps,
                    eta_turn: eta,
                    corps_composition: Some(o.composition),
                },
            );
            let m = queued_text("Corps", &o.submitter, &o.area, eta);
            proof {
                reveal_strlit("Corps");
                reveal_strlit(" build queued for ");
                reveal_strlit("Corps build queued for ");
                assert("Corps"@ + " build queued for "@ =~= "Corps build queued for "@);
            }
            Event::OrderRejected(OrderRejected { reason_code: "BUILD_CORPS_QUEUED".to_string(), message: m })
        },
        Order::BuildFleet(o) => {
            charge_money(s, &o.submitter, &t.fleet_build_cost_money);
            let lag: u32 = match &t.fleet_production_lag_turns {
                Maybe::Value(l) => *l as u32,
                Maybe::Placeholder(_) => 0,
            };
            let eta = s.current_turn + lag;
            s.production_queue.push(
                ProductionItem {
                    owner: o.submitter.duplicate(),
                    area: o.area.duplicate(),
                    kind: ProductionKind::Fleet,
                    eta_turn: eta,
                    corps_composition: None,
                },
            );
            let m = queued_text("Fleet", &o.submitter, &o.area, eta);
            proof {
                reveal_strlit("Fleet");
                reveal_strlit(" build queued for ");
                reveal_strlit("Fleet build queued for ");
                assert("Fleet"@ + " build queued for "@ =~= "Fleet build queued for "@);
            }
            Event::OrderRejected(OrderRejected { reason_code: "BUILD_FLEET_QUEUED".to_string(), message: m })
        },
        Order::Subsidize(o) => {
            s.subsidy_queue.push(
                PendingSubsidy { from: o.submitter.duplicate(), to: o.recipient.duplicate(), amount: o.amount },
            );
            let mut v: Vec<char> = Vec::new();
            push_str(&mut v, "Subsidy of ");
            crate::text::push_signed(o.amount, &mut v);
            push_str(&mut v, " from ");
            push_str(&mut v, o.submitter.as_str());
            push_str(&mut v, " to ");
            push_str(&mut v, o.recipient.as_str());
            push_str(&mut v, " queued for next economic phase");
            Event::OrderRejected(
                OrderRejected { reason_code: "SUBSIDY_QUEUED".to_string(), message: string_from_chars(v.as_slice()) },
            )
        },
        _ => {
            let mut v: Vec<char> = Vec::new();
            push_str(&mut v, "order `");
            push_str(&mut v, order_kind_name(order));
            push_str(&mut v, "` is not handled by the economic phase");
            Event::OrderRejected(
                OrderRejected { reason_code: "NOT_ECONOMIC_ORDER".to_string(), message: string_from_chars(v.as_slice()) },
            )
        },
    }
}

} // verus!
