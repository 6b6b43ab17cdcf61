//! Political phase: prestige changes, revolts and abdication.
//!
//! The revolt and abdication thresholds are structural placeholders until
//! the designer authors real values.

use vstd::prelude::*;

use crate::events::Event;
use crate::ids::PowerId;
use crate::scenario::{Area, Owner, PowerState, Scenario};
use crate::tables::{Maybe, PpModifiersTable};

verus! {

/// Prestige below which an area with manpower revolts against its owner.
pub const REVOLT_PRESTIGE_THRESHOLD: i32 = 0;

/// Prestige below which a power's ruler is forced to abdicate.
pub const ABDICATION_PRESTIGE_THRESHOLD: i32 = -50;

/// The delta actually applied for `reason`: the authored table value when
/// there is one, else the delta passed in.
pub open spec fn effective_delta(tables: &PpModifiersTable, reason: Seq<char>, delta: i32) -> i32 {
    if tables.events@.contains_key(reason) && tables.events@[reason] is Value {
        tables.events@[reason]->Value_0
    } else {
        delta
    }
}

/// Adds a prestige delta to a power (the table value for `reason`
/// overrides the passed delta when authored) and returns the
/// `PrestigeAwarded` event.  A power without a state is left alone.
pub fn apply_pp_delta(s: &mut Scenario, power: &PowerId, delta: i32, reason: &str, tables: &PpModifiersTable) -> (ev: Event)
    requires
        old(s).power_state@.contains_key(power@) ==> i32::MIN <= old(s).power_state@[power@].prestige
            + effective_delta(tables, reason@, delta) <= i32::MAX,
    ensures
        ({
            let d = effective_delta(tables, reason@, delta);
            &&& ev matches Event::PrestigeAwarded { power: p, delta: e, reason: r } && p == *power && e == d && r@
                == reason@
            &&& *final(s) == (Scenario { power_state: final(s).power_state, ..*old(s) })
            &&& final(s).power_state@ == if old(s).power_state@.contains_key(power@) {
                old(s).power_state@.insert(
                    power@,
                    (PowerState { prestige: (old(s).power_state@[power@].prestige + d) as i32, ..old(s).power_state@[power@] }),
                )
            } else {
                old(s).power_state@
            }
        }),
{
    let effective = match tables.events.get(reason) {
        Some(Maybe::Value(v)) => *v,
        _ => delta,
    };
    match s.power_state.find(power.as_str()) {
        Some(j) => {
            proof {
                assert(s.power_state@.contains_key(s.power_state.entries_view()[j as int].0@));
            }
            let mut ps = *s.power_state.value_at(j);
            ps.prestige = ps.prestige + effective;
            s.power_state.set_value_at(j, ps);
        },
        None => {},
    }
    Event::PrestigeAwarded { power: power.duplicate(), delta: effective, reason: reason.to_owned() }
}

/// The area has an authored, positive manpower yield and is owned by a
/// power whose prestige is below the revolt threshold.
pub open spec fn revolts(s: &Scenario, a: Area) -> bool {
    &&& a.manpower_yield matches Maybe::Value(y) && y > 0
    &&& a.owner matches Owner::Power(slot) && s.power_state@.contains_key(slot.power@) && s.power_state@[slot.power@].prestige
        < REVOLT_PRESTIGE_THRESHOLD
}

/// The revolts among the areas, in area order, as (area, owner) names.
pub open spec fn revolt_list(s: &Scenario, es: Seq<(String, Area)>) -> Seq<(Seq<char>, Seq<char>)>
    decreases es.len(),
{
    if es.len() == 0 {
        Seq::empty()
    } else {
        let prev = revolt_list(s, es.drop_last());
        if revolts(s, es.last().1) {
            prev.push((es.last().0@, es.last().1.owner->Power_0.power@))
        } else {
            prev
        }
    }
}

/// `ev` is the revolt event of an (area, owner) pair.
pub open spec fn is_revolt(ev: Event, r: (Seq<char>, Seq<char>)) -> bool {
    ev matches Event::RevoltTriggered { area, owner } && area@ == r.0 && owner@ == r.1
}

/// One `RevoltTriggered` event per area that revolts, in area order.
pub fn check_revolts(s: &Scenario) -> (ev: Vec<Event>)
    ensures
        ev@.len() == revolt_list(s, s.areas.entries_view()).len(),
        forall|i: int| 0 <= i < ev@.len() ==> is_revolt(#[trigger] ev@[i], revolt_list(s, s.areas.entries_view())[i]),
{
    let n = s.areas.len();
    let ghost es = s.areas.entries_view();
    let mut events: Vec<Event> = Vec::new();
    let mut i: usize = 0;
    while i < n
        invariant
            es == s.areas.entries_view(),
            n == es.len(),
            i <= n,
            events@.len() == revolt_list(s, es.take(i as int)).len(),
            forall|j: int| 0 <= j < events@.len() ==> is_revolt(#[trigger] events@[j], revolt_list(s, es.take(i as int))[j]),
        decreases n - i,
    {
        proof {
            assert(es.take(i + 1).drop_last() =~= es.take(i as int));
        }
        let a = s.areas.value_at(i);
        let has_manpower = match &a.manpower_yield {
            Maybe::Value(y) => *y > 0,
            _ => false,
        };
        if has_manpower {
            match &a.owner {
                Owner::Power(slot) => {
                    match s.power_state.get(slot.power.as_str()) {
                        Some(ps) => {
                            if ps.prestige < REVOLT_PRESTIGE_THRESHOLD {
                                events.push(
                                    Event::RevoltTriggered {
                                        area: crate::ids::AreaId(s.areas.key_at(i).clone()),
                                        owner: slot.power.duplicate(),
                                    },
                                );
                            }
                        },
                        None => {},
                    }
                },
                _ => {},
            }
        }
        i = i + 1;
    }
    proof {
        assert(es.take(n as int) =~= es);
    }
    events
}

/// The powers, in key order, whose prestige is below the abdication
/// threshold.
pub open spec fn abdication_list(es: Seq<(String, PowerState)>) -> Seq<Seq<char>>
    decreases es.len(),
{
    if es.len() == 0 {
        Seq::empty()
    } else if es.last().1.prestige < ABDICATION_PRESTIGE_THRESHOLD {
        abdication_list(es.drop_last()).push(es.last().0@)
    } else {
        abdication_list(es.drop_last())
    }
}

/// `ev` is the abdication event of power `p`.
pub open spec fn is_abdication(ev: Event, p: Seq<char>) -> bool {
    ev matches Event::AbdicationForced { power } && power@ == p
}

/// One `AbdicationForced` event per power below the abdication threshold,
/// in power order.
pub fn check_abdication(s: &Scenario) -> (ev: Vec<Event>)
    ensures
        ev@.len() == abdication_list(s.power_state.entries_view()).len(),
        forall|i: int|
            0 <= i < ev@.len() ==> is_abdication(#[trigger] ev@[i], abdication_list(s.power_state.entries_view())[i]),
{
    let n = s.power_state.len();
    let ghost es = s.power_state.entries_view();
    let mut events: Vec<Event> = Vec::new();
    let mut i: usize = 0;
    while i < n
        invariant
            es == s.power_state.entries_view(),
            n == es.len(),
            i <= n,
            events@.len() == abdication_list(es.take(i as int)).len(),
            forall|j: int|
                0 <= j < events@.len() ==> is_abdication(#[trigger] events@[j], abdication_list(es.take(i as int))[j]),
        decreases n - i,
    {
        proof {
            assert(es.take(i + 1).drop_last() =~= es.take(i as int));
        }
        if s.power_state.value_at(i).prestige < ABDICATION_PRESTIGE_THRESHOLD {
            events.push(Event::AbdicationForced { power: PowerId(s.power_state.key_at(i).clone()) });
        }
        i = i + 1;
    }
    proof {
        assert(es.take(n as int) =~= es);
    }
    events
}

/// The political phase: the revolt events, then the abdication events.
/// The scenario is not changed.
pub fn resolve_political_phase(s: &mut Scenario, tables: &PpModifiersTable) -> (ev: Vec<Event>)
    ensures
        *final(s) == *old(s),
        ({
            let rs = revolt_list(&*old(s), old(s).areas.entries_view());
            let ab = abdication_list(old(s).power_state.entries_view());
            &&& ev@.len() == rs.len() + ab.len()
            &&& forall|i: int| 0 <= i < rs.len() ==> is_revolt(#[trigger] ev@[i], rs[i])
            &&& forall|i: int|
                rs.len() <= i < ev@.len() ==> is_abdication(#[trigger] ev@[i], ab[i - rs.len()])
        }),
{
    let mut events = check_revolts(s);
    let mut more = check_abdication(s);
    events.append(&mut more);
    events
}

} // verus!
