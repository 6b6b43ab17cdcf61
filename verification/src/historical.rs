//! Scripted historical events: date and territory triggers, the choices a
//! player is offered, and the effects of each choice.

use vstd::prelude::*;

use crate::canonical::{json_string, write_json_string};
use crate::ids::{AreaId, MarshalId, PowerId};
use crate::marshals::MarshalTrait;
use crate::text::{decimal, push_decimal, push_signed, push_str, signed_decimal, string_from_chars};

verus! {

/// Unique event identifier.
pub type EventId = u32;

/// How an event is triggered.
#[derive(Debug, Clone, PartialEq, Eq)]
pub enum EventTrigger {
    DateReached { year: u16, month: u8, day: u8 },
    TerritoryLost(AreaId),
    TerritoryGained(AreaId),
    AlwaysTrue,
}

/// A gameplay effect applied when the player picks an option.
#[derive(Debug, Clone, PartialEq, Eq)]
pub enum EventEffect {
    ManpowerChange(i32),
    TreasuryChange(i32),
    RelationChange { power: PowerId, delta: i32 },
    DeclareWar(PowerId),
    PeaceOffer(PowerId),
    AddTrait(MarshalId, MarshalTrait),
    NewsMessage(String),
}

impl EventEffect {
    /// An equal, independently owned effect.
    pub fn duplicate(&self) -> (r: Self)
        ensures
            r == *self,
    {
        match self {
            EventEffect::ManpowerChange(n) => EventEffect::ManpowerChange(*n),
            EventEffect::TreasuryChange(n) => EventEffect::TreasuryChange(*n),
            EventEffect::RelationChange { power, delta } => EventEffect::RelationChange {
                power: power.duplicate(),
                delta: *delta,
            },
            EventEffect::DeclareWar(p) => EventEffect::DeclareWar(p.duplicate()),
            EventEffect::PeaceOffer(p) => EventEffect::PeaceOffer(p.duplicate()),
            EventEffect::AddTrait(m, t) => EventEffect::AddTrait(m.duplicate(), *t),
            EventEffect::NewsMessage(s) => EventEffect::NewsMessage(s.clone()),
        }
    }
}

/// One player-facing choice within an event.
#[derive(Debug, Clone)]
pub struct EventOption {
    pub label: &'static str,
    pub effects: Vec<EventEffect>,
}

/// A historical event that can fire once (or repeatedly).
#[derive(Debug, Clone)]
pub struct HistoricalEvent {
    pub id: EventId,
    pub title: &'static str,
    pub description: &'static str,
    pub trigger: EventTrigger,
    pub options: Vec<EventOption>,
    pub fires_for: PowerId,
    pub repeatable: bool,
    pub fired: bool,
}

/// The events, kept in increasing order of their IDs.
#[derive(Debug)]
pub struct EventRegistry {
    pub events: Vec<HistoricalEvent>,
}

/// Every ID comes strictly before the next.
pub open spec fn ids_increasing(es: Seq<HistoricalEvent>) -> bool {
    forall|i: int, j: int| 0 <= i < j < es.len() ==> (#[trigger] es[i]).id < (#[trigger] es[j]).id
}

/// The events by ID.
pub open spec fn by_id(es: Seq<HistoricalEvent>) -> Map<EventId, HistoricalEvent> {
    Map::new(
        |id: EventId| exists|i: int| 0 <= i < es.len() && #[trigger] es[i].id == id,
        |id: EventId| es[choose|i: int| 0 <= i < es.len() && #[trigger] es[i].id == id],
    )
}

/// The event can fire: it never fired, or it may fire again.
pub open spec fn can_fire(e: HistoricalEvent) -> bool {
    !e.fired || e.repeatable
}

/// The date `(year, month, day)` is on or after the event's date trigger,
/// or the event always triggers.
pub open spec fn date_due(e: HistoricalEvent, year: u16, month: u8, day: u8) -> bool {
    match e.trigger {
        EventTrigger::DateReached { year: y, month: m, day: d } => year >= y && (year > y || month > m || (
        month == m && day >= d)),
        EventTrigger::AlwaysTrue => true,
        _ => false,
    }
}

/// The IDs, in order, of the events among `es` that can fire and are due
/// on the date.
pub open spec fn due_ids(es: Seq<HistoricalEvent>, year: u16, month: u8, day: u8) -> Seq<EventId>
    decreases es.len(),
{
    if es.len() == 0 {
        Seq::empty()
    } else if can_fire(es.last()) && date_due(es.last(), year, month, day) {
        due_ids(es.drop_last(), year, month, day).push(es.last().id)
    } else {
        due_ids(es.drop_last(), year, month, day)
    }
}

/// The event triggers on `area` being gained (or, when `gained` is false,
/// lost).
pub open spec fn territory_due(e: HistoricalEvent, area: Seq<char>, gained: bool) -> bool {
    match e.trigger {
        EventTrigger::TerritoryGained(a) => gained && a@ == area,
        EventTrigger::TerritoryLost(a) => !gained && a@ == area,
        _ => false,
    }
}

/// The IDs, in order, of the events among `es` that can fire and trigger
/// on the territory change.
pub open spec fn territory_ids(es: Seq<HistoricalEvent>, area: Seq<char>, gained: bool) -> Seq<EventId>
    decreases es.len(),
{
    if es.len() == 0 {
        Seq::empty()
    } else if can_fire(es.last()) && territory_due(es.last(), area, gained) {
        territory_ids(es.drop_last(), area, gained).push(es.last().id)
    } else {
        territory_ids(es.drop_last(), area, gained)
    }
}

/// Position of the first event with ID `id`, or -1.
pub open spec fn event_index(es: Seq<HistoricalEvent>, id: EventId) -> int
    decreases es.len(),
{
    if es.len() == 0 {
        -1
    } else if es[0].id == id {
        0
    } else {
        let r = event_index(es.drop_first(), id);
        if r < 0 {
            -1
        } else {
            r + 1
        }
    }
}

/// Position of the first event with ID `id`, if any.
fn find_event(es: &Vec<HistoricalEvent>, id: EventId) -> (r: Option<usize>)
    ensures
        match r {
            Some(i) => i as int == event_index(es@, id) && i < es@.len(),
            None => event_index(es@, id) == -1,
        },
{
    let mut i: usize = 0;
    proof {
        assert(es@.skip(0) =~= es@);
    }
    while i < es.len()
        invariant
            i <= es@.len(),
            event_index(es@, id) == if event_index(es@.skip(i as int), id) < 0 {
                -1
            } else {
                event_index(es@.skip(i as int), id) + i
            },
        decreases es@.len() - i,
    {
        proof {
            assert(es@.skip(i as int)[0] == es@[i as int]);
            assert(es@.skip(i as int).drop_first() =~= es@.skip(i + 1));
        }
        if es[i].id == id {
            return Some(i);
        }
        i = i + 1;
    }
    None
}

/// In an ID-ordered list the first event with an ID is the only one.
proof fn lemma_event_index_sorted(es: Seq<HistoricalEvent>, id: EventId)
    requires
        ids_increasing(es),
    ensures
        event_index(es, id) == -1 <==> !(exists|i: int| 0 <= i < es.len() && #[trigger] es[i].id == id),
        event_index(es, id) != -1 ==> 0 <= event_index(es, id) < es.len() && es[event_index(es, id)].id == id,
    decreases es.len(),
{
    if es.len() > 0 {
        lemma_event_index_sorted(es.drop_first(), id);
        if es[0].id != id {
            if exists|i: int| 0 <= i < es.len() && #[trigger] es[i].id == id {
                let i = choose|i: int| 0 <= i < es.len() && #[trigger] es[i].id == id;
                assert(es.drop_first()[i - 1].id == id);
            }
            if event_index(es.drop_first(), id) != -1 {
                let k = event_index(es.drop_first(), id);
                assert(es[k + 1].id == id);
            }
        }
    }
}

/// In an ID-ordered list an event is what its ID maps to.
proof fn lemma_by_id_at(es: Seq<HistoricalEvent>, i: int)
    requires
        ids_increasing(es),
        0 <= i < es.len(),
    ensures
        by_id(es).contains_key(es[i].id),
        by_id(es)[es[i].id] == es[i],
{
    assert(es[i].id == es[i].id);
    let j = choose|j: int| 0 <= j < es.len() && #[trigger] es[j].id == es[i].id;
    if j < i {
        assert(es[j].id < es[i].id);
    } else if j > i {
        assert(es[i].id < es[j].id);
    }
}

/// The text of a non-negative count with its sign, as effect summaries
/// write it: `+` before values that are not negative.
pub open spec fn signed_count(n: int) -> Seq<char> {
    if n >= 0 {
        seq!['+'] + signed_decimal(n)
    } else {
        signed_decimal(n)
    }
}

/// The name of a marshal trait as it is printed.
pub open spec fn trait_name(t: MarshalTrait) -> Seq<char> {
    match t {
        MarshalTrait::DefensiveGenius => "DefensiveGenius"@,
        MarshalTrait::Aggressive => "Aggressive"@,
        MarshalTrait::CavalryMaster => "CavalryMaster"@,
        MarshalTrait::Tactician => "Tactician"@,
        MarshalTrait::Logistics => "Logistics"@,
        MarshalTrait::Siege => "Siege"@,
        MarshalTrait::NavalCommander => "NavalCommander"@,
        MarshalTrait::InspirationalLeader => "InspirationalLeader"@,
    }
}

/// The one-line summary of an effect shown to the player.
pub open spec fn effect_text(e: EventEffect) -> Seq<char> {
    match e {
        EventEffect::ManpowerChange(n) => signed_count(n as int) + " manpower"@,
        EventEffect::TreasuryChange(n) => signed_count(n as int) + " treasury"@,
        EventEffect::RelationChange { power, delta } => signed_count(delta as int) + " relations with "@ + power@,
        EventEffect::DeclareWar(p) => "Declare war on "@ + p@,
        EventEffect::PeaceOffer(p) => "Peace offer to "@ + p@,
        EventEffect::AddTrait(m, t) => "Add "@ + trait_name(t) + " to "@ + m@,
        EventEffect::NewsMessage(msg) => msg@,
    }
}

fn push_signed_count(n: i32, out: &mut Vec<char>)
    ensures
        final(out)@ == old(out)@ + signed_count(n as int),
{
    if n >= 0 {
        out.push('+');
    }
    push_signed(n as i64, out);
    proof {
        assert(out@ =~= old(out)@ + signed_count(n as int));
    }
}

fn trait_str(t: MarshalTrait) -> (s: &'static str)
    ensures
        s@ == trait_name(t),
{
    match t {
        MarshalTrait::DefensiveGenius => "DefensiveGenius",
        MarshalTrait::Aggressive => "Aggressive",
        MarshalTrait::CavalryMaster => "CavalryMaster",
        MarshalTrait::Tactician => "Tactician",
        MarshalTrait::Logistics => "Logistics",
        MarshalTrait::Siege => "Siege",
        MarshalTrait::NavalCommander => "NavalCommander",
        MarshalTrait::InspirationalLeader => "InspirationalLeader",
    }
}

/// Appends the summary of an effect.
fn push_effect_text(effect: &EventEffect, out: &mut Vec<char>)
    ensures
        final(out)@ == old(out)@ + effect_text(*effect),
{
    match effect {
        EventEffect::ManpowerChange(n) => {
            push_signed_count(*n, out);
            push_str(out, " manpower");
        },
        EventEffect::TreasuryChange(n) => {
            push_signed_count(*n, out);
            push_str(out, " treasury");
        },
        EventEffect::RelationChange { power, delta } => {
            push_signed_count(*delta, out);
            push_str(out, " relations with ");
            push_str(out, power.as_str());
        },
        EventEffect::DeclareWar(p) => {
            push_str(out, "Declare war on ");
            push_str(out, p.as_str());
        },
        EventEffect::PeaceOffer(p) => {
            push_str(out, "Peace offer to ");
            push_str(out, p.as_str());
        },
        EventEffect::AddTrait(m, t) => {
            push_str(out, "Add ");
            push_str(out, trait_str(*t));
            push_str(out, " to ");
            push_str(out, m.as_str());
        },
        EventEffect::NewsMessage(msg) => {
            push_str(out, msg.as_str());
        },
    }
    proof {
        assert(out@ =~= old(out)@ + effect_text(*effect));
    }
}

/// The human-readable summary of an effect.
pub fn effect_summary(effect: &EventEffect) -> (s: String)
    ensures
        s@ == effect_text(*effect),
{
    let mut v: Vec<char> = Vec::new();
    push_effect_text(effect, &mut v);
    proof {
        assert(v@ =~= effect_text(*effect));
    }
    string_from_chars(v.as_slice())
}

/// An equal, independently owned list of effects.
fn copy_effects(v: &Vec<EventEffect>) -> (r: Vec<EventEffect>)
    ensures
        r@ == v@,
{
    let mut r: Vec<EventEffect> = Vec::new();
    let mut i: usize = 0;
    while i < v.len()
        invariant
            i <= v@.len(),
            r@ == v@.take(i as int),
        decreases v@.len() - i,
    {
        r.push(v[i].duplicate());
        proof {
            assert(v@.take(i + 1) =~= v@.take(i as int).push(v@[i as int]));
        }
        i = i + 1;
    }
    proof {
        assert(v@.take(v@.len() as int) =~= v@);
    }
    r
}

/// The events among `es` named by `ids`, in the order of `ids`, that fire
/// for `power` and can still fire.
pub open spec fn pending_for(es: Seq<HistoricalEvent>, power: Seq<char>, ids: Seq<EventId>) -> Seq<HistoricalEvent>
    decreases ids.len(),
{
    if ids.len() == 0 {
        Seq::empty()
    } else {
        let prev = pending_for(es, power, ids.drop_last());
        let k = event_index(es, ids.last());
        if k >= 0 && es[k].fires_for@ == power && can_fire(es[k]) {
            prev.push(es[k])
        } else {
            prev
        }
    }
}

impl EventRegistry {
    /// An empty registry.
    pub fn new() -> (r: Self)
        ensures
            r.events@.len() == 0,
    {
        EventRegistry { events: Vec::new() }
    }

    /// Adds an event, replacing the one with the same ID.
    pub fn add(&mut self, event: HistoricalEvent)
        ensures
            ids_increasing(old(self).events@) ==> ids_increasing(final(self).events@) && by_id(final(self).events@)
                == by_id(old(self).events@).insert(event.id, event),
    {
        let ghost old_es = self.events@;
        let mut p: usize = 0;
        while p < self.events.len() && self.events[p].id < event.id
            invariant
                self.events@ == old_es,
                p <= old_es.len(),
                forall|k: int| 0 <= k < p ==> (#[trigger] old_es[k]).id < event.id,
            decreases old_es.len() - p,
        {
            p = p + 1;
        }
        let ghost e = event;
        let replace = p < self.events.len() && self.events[p].id == event.id;
        if replace {
            self.events.set(p, event);
        } else {
            self.events.insert(p, event);
        }
        proof {
            if ids_increasing(old_es) {
                let n = self.events@;
                if replace {
                    assert(n =~= old_es.update(p as int, e));
                } else {
                    assert(n =~= old_es.insert(p as int, e));
                    if p < old_es.len() {
                        assert(e.id < old_es[p as int].id);
                    }
                }
                assert forall|i: int, j: int| 0 <= i < j < n.len() implies (#[trigger] n[i]).id < (#[trigger] n[j]).id by {
                    if replace {
                        if i != p && j != p {
                            assert(old_es[i].id < old_es[j].id);
                        } else if i == p {
                            assert(old_es[i].id < old_es[j].id);
                        } else {
                            assert(old_es[i].id < old_es[j].id);
                        }
                    } else {
                        if j < p {
                            assert(old_es[i].id < old_es[j].id);
                        } else if j == p {
                            assert(old_es[i].id < e.id);
                        } else if i < p {
                            assert(old_es[i].id < old_es[j - 1].id);
                        } else if i == p {
                            if p < j - 1 {
                                assert(old_es[p as int].id < old_es[j - 1].id);
                            }
                        } else {
                            assert(old_es[i - 1].id < old_es[j - 1].id);
                        }
                    }
                }
                let target = by_id(old_es).insert(e.id, e);
                assert forall|id: EventId| #[trigger] by_id(n).contains_key(id) <==> target.contains_key(id) by {
                    if by_id(n).contains_key(id) {
                        let i = choose|i: int| 0 <= i < n.len() && #[trigger] n[i].id == id;
                        if id != e.id {
                            if replace {
                                assert(old_es[i].id == id);
                            } else if i < p {
                                assert(old_es[i].id == id);
                            } else if i > p {
                                assert(old_es[i - 1].id == id);
                            }
                        }
                    }
                    if target.contains_key(id) {
                        if id == e.id {
                            assert(n[p as int].id == id);
                        } else {
                            let i = choose|i: int| 0 <= i < old_es.len() && #[trigger] old_es[i].id == id;
                            if replace || i < p {
                                assert(n[i].id == id);
                            } else {
                                assert(n[i + 1].id == id);
                            }
                        }
                    }
                }
                assert forall|id: EventId| #[trigger] by_id(n).contains_key(id) implies by_id(n)[id] == target[id] by {
                    let i = choose|i: int| 0 <= i < n.len() && #[trigger] n[i].id == id;
                    lemma_by_id_at(n, i);
                    if id != e.id {
                        if replace || i < p {
                            lemma_by_id_at(old_es, i);
                        } else {
                            lemma_by_id_at(old_es, i - 1);
                        }
                    } else {
                        assert(n[p as int].id == id);
                        lemma_by_id_at(n, p as int);
                    }
                }
                assert(by_id(n) =~= target);
            }
        }
    }

    /// The IDs, in registry order, of the events that can fire and whose
    /// date trigger is reached on `(year, month, day)` (events that always
    /// trigger included).  The registry is not changed.
    pub fn advance_triggers(&mut self, year: u16, month: u8, day: u8) -> (r: Vec<EventId>)
        ensures
            final(self).events@ == old(self).events@,
            r@ == due_ids(old(self).events@, year, month, day),
    {
        let mut out: Vec<EventId> = Vec::new();
        let mut i: usize = 0;
        proof {
            assert(self.events@.take(0) =~= Seq::<HistoricalEvent>::empty());
        }
        while i < self.events.len()
            invariant
                self.events@ == old(self).events@,
                i <= self.events@.len(),
                out@ == due_ids(self.events@.take(i as int), year, month, day),
            decreases self.events@.len() - i,
        {
            proof {
                assert(self.events@.take(i + 1).drop_last() =~= self.events@.take(i as int));
            }
            let e = &self.events[i];
            if !e.fired || e.repeatable {
                let due = match &e.trigger {
                    EventTrigger::DateReached { year: y, month: m, day: d } => year >= *y && (year > *y || month > *m
                        || (month == *m && day >= *d)),
                    EventTrigger::AlwaysTrue => true,
                    _ => false,
                };
                if due {
                    out.push(e.id);
                }
            }
            i = i + 1;
        }
        proof {
            assert(self.events@.take(self.events@.len() as int) =~= self.events@);
        }
        out
    }

    /// The IDs, in registry order, of the events that can fire and trigger
    /// on `area` being gained (`gained`) or lost.  The registry is not
    /// changed.
    pub fn check_territory_trigger(&mut self, area: &AreaId, gained: bool) -> (r: Vec<EventId>)
        ensures
            final(self).events@ == old(self).events@,
            r@ == territory_ids(old(self).events@, area@, gained),
    {
        let mut out: Vec<EventId> = Vec::new();
        let mut i: usize = 0;
        proof {
            assert(self.events@.take(0) =~= Seq::<HistoricalEvent>::empty());
        }
        while i < self.events.len()
            invariant
                self.events@ == old(self).events@,
                i <= self.events@.len(),
                out@ == territory_ids(self.events@.take(i as int), area@, gained),
            decreases self.events@.len() - i,
        {
            proof {
                assert(self.events@.take(i + 1).drop_last() =~= self.events@.take(i as int));
            }
            let e = &self.events[i];
            if !e.fired || e.repeatable {
                let due = match &e.trigger {
                    EventTrigger::TerritoryGained(a) => gained && a.same(area),
                    EventTrigger::TerritoryLost(a) => !gained && a.same(area),
                    _ => false,
                };
                if due {
                    out.push(e.id);
                }
            }
            i = i + 1;
        }
        proof {
            assert(self.events@.take(self.events@.len() as int) =~= self.events@);
        }
        out
    }

    /// The events named by `fired_ids`, in that order, that fire for
    /// `power` and can still fire.
    pub fn get_pending_for_power(&self, power: &PowerId, fired_ids: &[EventId]) -> (r: Vec<&HistoricalEvent>)
        ensures
            r@.len() == pending_for(self.events@, power@, fired_ids@).len(),
            forall|i: int| 0 <= i < r@.len() ==> *(#[trigger] r@[i]) == pending_for(self.events@, power@, fired_ids@)[i],
    {
        let mut out: Vec<&HistoricalEvent> = Vec::new();
        let mut i: usize = 0;
        proof {
            assert(fired_ids@.take(0) =~= Seq::<EventId>::empty());
        }
        while i < fired_ids.len()
            invariant
                i <= fired_ids@.len(),
                out@.len() == pending_for(self.events@, power@, fired_ids@.take(i as int)).len(),
                forall|j: int|
                    0 <= j < out@.len() ==> *(#[trigger] out@[j]) == pending_for(
                        self.events@,
                        power@,
                        fired_ids@.take(i as int),
                    )[j],
            decreases fired_ids@.len() - i,
        {
            proof {
                assert(fired_ids@.take(i + 1).drop_last() =~= fired_ids@.take(i as int));
            }
            match find_event(&self.events, fired_ids[i]) {
                Some(k) => {
                    let e = &self.events[k];
                    if e.fires_for.same(power) && (!e.fired || e.repeatable) {
                        out.push(e);
                    }
                },
                None => {},
            }
            i = i + 1;
        }
        proof {
            assert(fired_ids@.take(fired_ids@.len() as int) =~= fired_ids@);
        }
        out
    }

    /// Resolves a player's choice: marks the event fired and returns the
    /// effects of the chosen option.
    pub fn resolve(&mut self, event_id: EventId, option_index: u8) -> (r: Result<Vec<EventEffect>, String>)
        ensures
            ({
                let es = old(self).events@;
                let k = event_index(es, event_id);
                if k == -1 {
                    &&& r is Err
                    &&& r->Err_0@ == "event "@ + decimal(event_id as nat) + " not found"@
                    &&& final(self).events@ == es
                } else if option_index >= es[k].options@.len() {
                    &&& r is Err
                    &&& r->Err_0@ == "option index "@ + decimal(option_index as nat) + " out of range (event has "@
                        + decimal(es[k].options@.len()) + " options)"@
                    &&& final(self).events@ == es
                } else {
                    &&& r is Ok
                    &&& r->Ok_0@ == es[k].options@[option_index as int].effects@
                    &&& final(self).events@ == es.update(k, (HistoricalEvent { fired: true, ..es[k] }))
                }
            }),
    {
        let k = match find_event(&self.events, event_id) {
            Some(k) => k,
            None => {
                let mut v: Vec<char> = Vec::new();
                push_str(&mut v, "event ");
                push_decimal(event_id as u64, &mut v);
                push_str(&mut v, " not found");
                return Err(string_from_chars(v.as_slice()));
            },
        };
        let idx = option_index as usize;
        if idx >= self.events[k].options.len() {
            let mut v: Vec<char> = Vec::new();
            push_str(&mut v, "option index ");
            push_decimal(idx as u64, &mut v);
            push_str(&mut v, " out of range (event has ");
            push_decimal(self.events[k].options.len() as u64, &mut v);
            push_str(&mut v, " options)");
            return Err(string_from_chars(v.as_slice()));
        }
        let ghost es = self.events@;
        let mut e = self.events.remove(k);
        e.fired = true;
        let effects = copy_effects(&e.options[idx].effects);
        self.events.insert(k, e);
        proof {
            assert(self.events@ =~= es.update(k as int, (HistoricalEvent { fired: true, ..es[k as int] })));
        }
        Ok(effects)
    }
}

/// The parts, separated by commas.
pub open spec fn joined(parts: Seq<Seq<char>>) -> Seq<char>
    decreases parts.len(),
{
    if parts.len() == 0 {
        Seq::empty()
    } else if parts.len() == 1 {
        parts[0]
    } else {
        joined(parts.drop_last()) + seq![','] + parts.last()
    }
}

proof fn lemma_joined_step(parts: Seq<Seq<char>>, i: int)
    requires
        0 <= i < parts.len(),
    ensures
        joined(parts.take(i + 1)) == if i == 0 {
            parts[0]
        } else {
            joined(parts.take(i)) + seq![','] + parts[i]
        },
{
    assert(parts.take(i + 1).drop_last() =~= parts.take(i));
}

/// The effect summaries of an option as JSON strings.
pub open spec fn effect_parts(es: Seq<EventEffect>) -> Seq<Seq<char>> {
    es.map_values(|e: EventEffect| json_string(effect_text(e)))
}

/// An option as a JSON object.
pub open spec fn option_json(o: EventOption) -> Seq<char> {
    "{\"effects\":["@ + joined(effect_parts(o.effects@)) + "],\"label\":"@ + json_string(o.label@) + "}"@
}

/// The options of an event as JSON objects.
pub open spec fn option_parts(os: Seq<EventOption>) -> Seq<Seq<char>> {
    os.map_values(|o: EventOption| option_json(o))
}

/// An event as a JSON object, keys in text order.
pub open spec fn event_json(e: HistoricalEvent) -> Seq<char> {
    "{\"description\":"@ + json_string(e.description@) + ",\"firesFor\":"@ + json_string(e.fires_for@) + ",\"id\":"@
        + decimal(e.id as nat) + ",\"options\":["@ + joined(option_parts(e.options@)) + "],\"title\":"@ + json_string(
        e.title@,
    ) + "}"@
}

/// Events as JSON objects.
pub open spec fn event_parts(es: Seq<HistoricalEvent>) -> Seq<Seq<char>> {
    es.map_values(|e: HistoricalEvent| event_json(e))
}

fn push_option_json(o: &EventOption, out: &mut Vec<char>)
    ensures
        final(out)@ == old(out)@ + option_json(*o),
{
    push_str(out, "{\"effects\":[");
    let ghost start = out@;
    let ghost parts = effect_parts(o.effects@);
    let mut i: usize = 0;
    proof {
        assert(parts.take(0) =~= Seq::<Seq<char>>::empty());
    }
    while i < o.effects.len()
        invariant
            parts == effect_parts(o.effects@),
            i <= o.effects@.len(),
            out@ == start + joined(parts.take(i as int)),
        decreases o.effects@.len() - i,
    {
        proof {
            lemma_joined_step(parts, i as int);
        }
        if i > 0 {
            out.push(',');
        }
        let t = effect_summary(&o.effects[i]);
        write_json_string(t.as_str(), out);
        proof {
            if i == 0 {
                assert(out@ =~= start + joined(parts.take(i + 1)));
            } else {
                assert(out@ =~= start + joined(parts.take(i + 1)));
            }
        }
        i = i + 1;
    }
    proof {
        assert(parts.take(parts.len() as int) =~= parts);
    }
    push_str(out, "],\"label\":");
    write_json_string(o.label, out);
    push_str(out, "}");
    proof {
        assert(out@ =~= old(out)@ + option_json(*o));
    }
}

fn push_event_json(e: &HistoricalEvent, out: &mut Vec<char>)
    ensures
        final(out)@ == old(out)@ + event_json(*e),
{
    push_str(out, "{\"description\":");
    write_json_string(e.description, out);
    push_str(out, ",\"firesFor\":");
    write_json_string(e.fires_for.as_str(), out);
    push_str(out, ",\"id\":");
    push_decimal(e.id as u64, out);
    push_str(out, ",\"options\":[");
    let ghost start = out@;
    let ghost parts = option_parts(e.options@);
    let mut i: usize = 0;
    proof {
        assert(parts.take(0) =~= Seq::<Seq<char>>::empty());
    }
    while i < e.options.len()
        invariant
            parts == option_parts(e.options@),
            i <= e.options@.len(),
            out@ == start + joined(parts.take(i as int)),
        decreases e.options@.len() - i,
    {
        proof {
            lemma_joined_step(parts, i as int);
        }
        if i > 0 {
            out.push(',');
        }
        push_option_json(&e.options[i], out);
        proof {
            assert(out@ =~= start + joined(parts.take(i + 1)));
        }
        i = i + 1;
    }
    proof {
        assert(parts.take(parts.len() as int) =~= parts);
    }
    push_str(out, "],\"title\":");
    write_json_string(e.title, out);
    push_str(out, "}");
    proof {
        assert(out@ =~= old(out)@ + event_json(*e));
    }
}

impl EventRegistry {
    /// The pending events for `power` among `fired_ids` as a JSON array of
    /// objects with keys `description`, `firesFor`, `id`, `options` (each
    /// with `effects`, the effect summaries, and `label`) and `title`,
    /// written without whitespace and keys in text order.
    pub fn pending_events_json(&self, power: &PowerId, fired_ids: &[EventId]) -> (s: String)
        ensures
            s@ == seq!['['] + joined(event_parts(pending_for(self.events@, power@, fired_ids@))) + seq![']'],
    {
        let pending = self.get_pending_for_power(power, fired_ids);
        let ghost ps = pending_for(self.events@, power@, fired_ids@);
        let ghost parts = event_parts(ps);
        let mut out: Vec<char> = Vec::new();
        out.push('[');
        let ghost start = out@;
        let mut i: usize = 0;
        proof {
            assert(parts.take(0) =~= Seq::<Seq<char>>::empty());
        }
        while i < pending.len()
            invariant
                parts == event_parts(ps),
                pending@.len() == ps.len(),
                forall|j: int| 0 <= j < pending@.len() ==> *(#[trigger] pending@[j]) == ps[j],
                i <= pending@.len(),
                out@ == start + joined(parts.take(i as int)),
            decreases pending@.len() - i,
        {
            proof {
                lemma_joined_step(parts, i as int);
                assert(*pending@[i as int] == ps[i as int]);
            }
            if i > 0 {
                out.push(',');
            }
            push_event_json(pending[i], &mut out);
            proof {
                assert(out@ =~= start + joined(parts.take(i + 1)));
            }
            i = i + 1;
        }
        proof {
            assert(parts.take(parts.len() as int) =~= parts);
        }
        out.push(']');
        proof {
            assert(out@ =~= seq!['['] + joined(parts) + seq![']']);
        }
        string_from_chars(out.as_slice())
    }
}

// ─── The historical events ─────────────────────────────────────────────

fn fra() -> (p: PowerId)
    ensures
        p@ == "FRA"@,
{
    PowerId::new("FRA")
}

fn gbr() -> (p: PowerId)
    ensures
        p@ == "GBR"@,
{
    PowerId::new("GBR")
}

fn rus() -> (p: PowerId)
    ensures
        p@ == "RUS"@,
{
    PowerId::new("RUS")
}

fn aus() -> (p: PowerId)
    ensures
        p@ == "AUS"@,
{
    PowerId::new("AUS")
}

fn pru() -> (p: PowerId)
    ensures
        p@ == "PRU"@,
{
    PowerId::new("PRU")
}

fn spa() -> (p: PowerId)
    ensures
        p@ == "SPA"@,
{
    PowerId::new("SPA")
}


/// How an event is triggered, by value.
pub enum TriggerView {
    DateReached { year: u16, month: u8, day: u8 },
    TerritoryLost(Seq<char>),
    TerritoryGained(Seq<char>),
    AlwaysTrue,
}

/// An effect, by value.
pub enum EventEffectView {
    ManpowerChange(i32),
    TreasuryChange(i32),
    RelationChange { power: Seq<char>, delta: i32 },
    DeclareWar(Seq<char>),
    PeaceOffer(Seq<char>),
    AddTrait(Seq<char>, MarshalTrait),
    NewsMessage(Seq<char>),
}

/// An option, by value.
#[verifier::ext_equal]
pub struct OptionView {
    pub label: Seq<char>,
    pub effects: Seq<EventEffectView>,
}

/// An event, by value.
#[verifier::ext_equal]
pub struct EventView {
    pub id: EventId,
    pub title: Seq<char>,
    pub description: Seq<char>,
    pub trigger: TriggerView,
    pub options: Seq<OptionView>,
    pub fires_for: Seq<char>,
    pub repeatable: bool,
    pub fired: bool,
}

/// The view of a trigger.
pub open spec fn trigger_view(t: EventTrigger) -> TriggerView {
    match t {
        EventTrigger::DateReached { year, month, day } => TriggerView::DateReached { year, month, day },
        EventTrigger::TerritoryLost(a) => TriggerView::TerritoryLost(a@),
        EventTrigger::TerritoryGained(a) => TriggerView::TerritoryGained(a@),
        EventTrigger::AlwaysTrue => TriggerView::AlwaysTrue,
    }
}

/// The view of an effect.
pub open spec fn effect_view(e: EventEffect) -> EventEffectView {
    match e {
        EventEffect::ManpowerChange(n) => EventEffectView::ManpowerChange(n),
        EventEffect::TreasuryChange(n) => EventEffectView::TreasuryChange(n),
        EventEffect::RelationChange { power, delta } => EventEffectView::RelationChange { power: power@, delta },
        EventEffect::DeclareWar(p) => EventEffectView::DeclareWar(p@),
        EventEffect::PeaceOffer(p) => EventEffectView::PeaceOffer(p@),
        EventEffect::AddTrait(m, t) => EventEffectView::AddTrait(m@, t),
        EventEffect::NewsMessage(s) => EventEffectView::NewsMessage(s@),
    }
}

/// The view of an option.
pub open spec fn option_view(o: EventOption) -> OptionView {
    OptionView { label: o.label@, effects: o.effects@.map_values(|e: EventEffect| effect_view(e)) }
}

/// The view of an event.
pub open spec fn event_view(e: HistoricalEvent) -> EventView {
    EventView {
        id: e.id,
        title: e.title@,
        description: e.description@,
        trigger: trigger_view(e.trigger),
        options: e.options@.map_values(|o: EventOption| option_view(o)),
        fires_for: e.fires_for@,
        repeatable: e.repeatable,
        fired: e.fired,
    }
}

/// The views of a list of events.
pub open spec fn events_view(es: Seq<HistoricalEvent>) -> Seq<EventView> {
    es.map_values(|e: HistoricalEvent| event_view(e))
}

/// The scripted historical events, by value, with IDs 1 to 25 in order.
pub open spec fn historical_event_table() -> Seq<EventView> {
    seq![
        EventView {
            id: 1,
            title: "The Emperor Crowns Himself"@,
            description: "In the Cathedral of Notre-Dame, Napoleon Bonaparte takes the crown from \
                the Pope's hands and places it upon his own head. The assembled dignitaries watch \
                in stunned silence as a new era begins for France."@,
            trigger: TriggerView::DateReached { year: 1804u16, month: 12u8, day: 2u8 },
            options: seq![
                OptionView {
                    label: "Grand Ceremony"@,
                    effects: seq![
                        EventEffectView::ManpowerChange(5i32),
                        EventEffectView::TreasuryChange(-10i32),
                        EventEffectView::NewsMessage("Napoleon crowned Emperor in grand ceremony!"@),
                    ],
                },
                OptionView {
                    label: "Simple Ceremony"@,
                    effects: seq![
                        EventEffectView::TreasuryChange(15i32),
                        EventEffectView::NewsMessage("Napoleon crowned Emperor in modest ceremony."@),
                    ],
                },
            ],
            fires_for: "FRA"@,
            repeatable: false,
            fired: false,
        },
        EventView {
            id: 2,
            title: "The Continental System"@,
            description: "Napoleon decrees that all European ports under French influence shall be \
                closed to British trade. The Berlin Decree aims to strangle Britain's economy, \
                but enforcing it will strain relations with every continental power."@,
            trigger: TriggerView::DateReached { year: 1806u16, month: 11u8, day: 21u8 },
            options: seq![
                OptionView {
                    label: "Enforce Strictly"@,
                    effects: seq![
                        EventEffectView::RelationChange { power: "GBR"@, delta: -30i32 },
                        EventEffectView::RelationChange { power: "AUS"@, delta: -10i32 },
                        EventEffectView::RelationChange { power: "PRU"@, delta: -10i32 },
                        EventEffectView::RelationChange { power: "RUS"@, delta: -10i32 },
                        EventEffectView::TreasuryChange(20i32),
                    ],
                },
                OptionView {
                    label: "Partial Enforcement"@,
                    effects: seq![
                        EventEffectView::RelationChange { power: "GBR"@, delta: -15i32 },
                        EventEffectView::TreasuryChange(5i32),
                    ],
                },
            ],
            fires_for: "FRA"@,
            repeatable: false,
            fired: false,
        },
        EventView {
            id: 3,
            title: "Tilsit Negotiations"@,
            description: "On a raft in the middle of the Niemen River, Napoleon meets Tsar \
                Alexander I. The two emperors discuss the future of Europe — a historic moment \
                that could reshape the continental balance of power."@,
            trigger: TriggerView::DateReached { year: 1807u16, month: 6u8, day: 25u8 },
            options: seq![
                OptionView {
                    label: "Generous Terms"@,
                    effects: seq![
                        EventEffectView::RelationChange { power: "RUS"@, delta: 30i32 },
                        EventEffectView::PeaceOffer("RUS"@),
                    ],
                },
                OptionView {
                    label: "Harsh Terms"@,
                    effects: seq![
                        EventEffectView::RelationChange { power: "RUS"@, delta: -10i32 },
                        EventEffectView::ManpowerChange(10i32),
                    ],
                },
            ],
            fires_for: "FRA"@,
            repeatable: false,
            fired: false,
        },
        EventView {
            id: 4,
            title: "Spain Succession Crisis"@,
            description: "The Bourbon dynasty in Spain is in turmoil. Napoleon sees an opportunity \
                to extend French influence over the Iberian Peninsula, but installing his brother \
                Joseph on the Spanish throne risks igniting fierce resistance."@,
            trigger: TriggerView::DateReached { year: 1808u16, month: 3u8, day: 15u8 },
            options: seq![
                OptionView {
                    label: "Place Joseph on Throne"@,
                    effects: seq![
                        EventEffectView::RelationChange { power: "SPA"@, delta: -40i32 },
                        EventEffectView::DeclareWar("SPA"@),
                        EventEffectView::ManpowerChange(-5i32),
                    ],
                },
                OptionView {
                    label: "Support Spanish King"@,
                    effects: seq![
                        EventEffectView::RelationChange { power: "SPA"@, delta: 15i32 }
                    ],
                },
            ],
            fires_for: "FRA"@,
            repeatable: false,
            fired: false,
        },
        EventView {
            id: 5,
            title: "The Grande Armée Marches East"@,
            description: "Six hundred thousand men cross the Niemen into Russian territory — the \
                largest army Europe has ever seen. The fate of the Empire hangs on the coming \
                campaign against the vast Russian interior."@,
            trigger: TriggerView::DateReached { year: 1812u16, month: 6u8, day: 24u8 },
            options: seq![
                OptionView {
                    label: "Full Invasion"@,
                    effects: seq![
                        EventEffectView::ManpowerChange(-20i32),
                        EventEffectView::DeclareWar("RUS"@),
                        EventEffectView::NewsMessage("The Grande Armée invades Russia!"@),
                    ],
                },
                OptionView {
                    label: "Probe Only"@,
                    effects: seq![
                        EventEffectView::ManpowerChange(-5i32),
                        EventEffectView::RelationChange { power: "RUS"@, delta: -20i32 }
                    ],
                },
            ],
            fires_for: "FRA"@,
            repeatable: false,
            fired: false,
        },
        EventView {
            id: 6,
            title: "Trafalgar Aftermath"@,
            description: "The combined Franco-Spanish fleet has been shattered off Cape Trafalgar. \
                Admiral Villeneuve is captured, and French naval power lies broken. The Emperor \
                must decide how to respond to this catastrophe at sea."@,
            trigger: TriggerView::DateReached { year: 1805u16, month: 10u8, day: 21u8 },
            options: seq![
                OptionView {
                    label: "Rebuild the Fleet"@,
                    effects: seq![
                        EventEffectView::TreasuryChange(-30i32),
                        EventEffectView::NewsMessage("France begins massive naval rebuilding program."@),
                    ],
                },
                OptionView {
                    label: "Accept Naval Inferiority"@,
                    effects: seq![
                        EventEffectView::ManpowerChange(10i32),
                        EventEffectView::NewsMessage("France focuses resources on the army."@),
                    ],
                },
            ],
            fires_for: "FRA"@,
            repeatable: false,
            fired: false,
        },
        EventView {
            id: 7,
            title: "Marshals Demand Pay"@,
            description: "Several of your most senior marshals have presented themselves at court, \
                demanding their promised estates and back pay. Their loyalty is not in question — \
                yet — but their patience wears thin."@,
            trigger: TriggerView::AlwaysTrue,
            options: seq![
                OptionView {
                    label: "Pay Them"@,
                    effects: seq![
                        EventEffectView::TreasuryChange(-20i32),
                        EventEffectView::NewsMessage("The marshals are satisfied with their rewards."@),
                    ],
                },
                OptionView {
                    label: "Deny Payment"@,
                    effects: seq![
                        EventEffectView::ManpowerChange(-3i32),
                        EventEffectView::NewsMessage("Disgruntled marshals mutter in the corridors."@),
                    ],
                },
            ],
            fires_for: "FRA"@,
            repeatable: false,
            fired: false,
        },
        EventView {
            id: 8,
            title: "Conscription Resistance"@,
            description: "Reports pour in from the provinces: young men are fleeing to the hills \
                rather than answer the call to arms. The prefects demand stronger enforcement, \
                while nobles petition for exemptions."@,
            trigger: TriggerView::AlwaysTrue,
            options: seq![
                OptionView {
                    label: "Enforce Conscription"@,
                    effects: seq![
                        EventEffectView::ManpowerChange(15i32),
                        EventEffectView::TreasuryChange(-5i32),
                    ],
                },
                OptionView {
                    label: "Exempt Nobles"@,
                    effects: seq![
                        EventEffectView::ManpowerChange(5i32),
                        EventEffectView::TreasuryChange(5i32),
                    ],
                },
            ],
            fires_for: "FRA"@,
            repeatable: false,
            fired: false,
        },
        EventView {
            id: 9,
            title: "Trafalgar Victory"@,
            description: "The Royal Navy has won a decisive victory off Cape Trafalgar, shattering \
                the Franco-Spanish fleet. But the triumph is bittersweet — Admiral Lord Nelson \
                has fallen on the deck of HMS Victory."@,
            trigger: TriggerView::DateReached { year: 1805u16, month: 10u8, day: 21u8 },
            options: seq![
                OptionView {
                    label: "Honor Nelson"@,
                    effects: seq![
                        EventEffectView::ManpowerChange(5i32),
                        EventEffectView::TreasuryChange(-10i32),
                        EventEffectView::NewsMessage("The nation mourns Nelson and celebrates victory."@),
                    ],
                },
                OptionView {
                    label: "Focus on Victory"@,
                    effects: seq![
                        EventEffectView::TreasuryChange(10i32),
                        EventEffectView::NewsMessage("Britannia rules the waves!"@),
                    ],
                },
            ],
            fires_for: "GBR"@,
            repeatable: false,
            fired: false,
        },
        EventView {
            id: 10,
            title: "Subsidize the Coalition"@,
            description: "Parliament debates funding for Britain's continental allies. Gold shipped \
                to Vienna and Berlin could keep armies in the field against Napoleon — but the \
                Treasury warns of mounting debts from the endless war."@,
            trigger: TriggerView::AlwaysTrue,
            options: seq![
                OptionView {
                    label: "Fund Austria & Prussia"@,
                    effects: seq![
                        EventEffectView::TreasuryChange(-25i32),
                        EventEffectView::RelationChange { power: "AUS"@, delta: 20i32 },
                        EventEffectView::RelationChange { power: "PRU"@, delta: 20i32 }
                    ],
                },
                OptionView {
                    label: "Save the Money"@,
                    effects: seq![
                        EventEffectView::TreasuryChange(10i32),
                        EventEffectView::RelationChange { power: "AUS"@, delta: -5i32 }
                    ],
                },
            ],
            fires_for: "GBR"@,
            repeatable: false,
            fired: false,
        },
        EventView {
            id: 11,
            title: "Orders in Council"@,
            description: "The Cabinet issues the Orders in Council, declaring a blockade of all \
                ports from which the British flag is excluded. Neutral shipping must submit to \
                Royal Navy inspection or face seizure."@,
            trigger: TriggerView::DateReached { year: 1807u16, month: 1u8, day: 7u8 },
            options: seq![
                OptionView {
                    label: "Strict Blockade"@,
                    effects: seq![
                        EventEffectView::TreasuryChange(15i32),
                        EventEffectView::RelationChange { power: "FRA"@, delta: -20i32 }
                    ],
                },
                OptionView {
                    label: "Lenient Enforcement"@,
                    effects: seq![
                        EventEffectView::TreasuryChange(5i32),
                        EventEffectView::RelationChange { power: "FRA"@, delta: -5i32 }
                    ],
                },
            ],
            fires_for: "GBR"@,
            repeatable: false,
            fired: false,
        },
        EventView {
            id: 12,
            title: "Peninsula Opportunity"@,
            description: "Spain is in open revolt against French occupation. The Iberian Peninsula \
                offers a second front — a chance to bleed Napoleon's armies in a brutal guerrilla \
                war. Wellington stands ready with an expeditionary force."@,
            trigger: TriggerView::DateReached { year: 1808u16, month: 8u8, day: 1u8 },
            options: seq![
                OptionView {
                    label: "Send Wellington"@,
                    effects: seq![
                        EventEffectView::ManpowerChange(-10i32),
                        EventEffectView::TreasuryChange(-15i32),
                        EventEffectView::RelationChange { power: "SPA"@, delta: 25i32 },
                        EventEffectView::AddTrait("MARSHAL_WELLINGTON"@, MarshalTrait::Tactician),
                    ],
                },
                OptionView {
                    label: "Support from Sea Only"@,
                    effects: seq![
                        EventEffectView::TreasuryChange(-5i32),
                        EventEffectView::RelationChange { power: "SPA"@, delta: 10i32 }
                    ],
                },
            ],
            fires_for: "GBR"@,
            repeatable: false,
            fired: false,
        },
        EventView {
            id: 13,
            title: "Kutuzov Takes Command"@,
            description: "The Tsar's advisors urge him to replace the cautious Barclay de Tolly \
                with the aging but beloved Mikhail Kutuzov. The one-eyed veteran promises to \
                stop Napoleon — through patience, attrition, and Russian winter."@,
            trigger: TriggerView::DateReached { year: 1812u16, month: 8u8, day: 29u8 },
            options: seq![
                OptionView {
                    label: "Appoint Kutuzov"@,
                    effects: seq![
                        EventEffectView::AddTrait("MARSHAL_KUTUZOV"@, MarshalTrait::DefensiveGenius),
                        EventEffectView::ManpowerChange(5i32),
                        EventEffectView::NewsMessage("Kutuzov takes supreme command of Russian forces."@),
                    ],
                },
                OptionView {
                    label: "Keep Barclay"@,
                    effects: seq![
                        EventEffectView::AddTrait("MARSHAL_BARCLAY"@, MarshalTrait::Logistics),
                    ],
                },
            ],
            fires_for: "RUS"@,
            repeatable: false,
            fired: false,
        },
        EventView {
            id: 14,
            title: "Scorched Earth Policy"@,
            description: "As Napoleon's Grande Armée advances deeper into Russia, the generals \
                propose a terrible strategy: burn everything. Leave nothing for the enemy — \
                no food, no shelter, no forage. Mother Russia herself will be the weapon."@,
            trigger: TriggerView::AlwaysTrue,
            options: seq![
                OptionView {
                    label: "Burn Everything"@,
                    effects: seq![
                        EventEffectView::ManpowerChange(-10i32),
                        EventEffectView::TreasuryChange(-15i32),
                        EventEffectView::NewsMessage("Russian forces adopt scorched earth tactics."@),
                    ],
                },
                OptionView {
                    label: "Hold Ground"@,
                    effects: seq![
                        EventEffectView::ManpowerChange(-5i32),
                    ],
                },
            ],
            fires_for: "RUS"@,
            repeatable: false,
            fired: false,
        },
        EventView {
            id: 15,
            title: "Peace Party vs War Party"@,
            description: "The Russian court is split. The peace faction, led by influential nobles, \
                argues that accommodation with Napoleon is the only rational course. The war \
                party demands Russia stand firm against the Corsican tyrant."@,
            trigger: TriggerView::AlwaysTrue,
            options: seq![
                OptionView {
                    label: "Negotiate with Napoleon"@,
                    effects: seq![
                        EventEffectView::RelationChange { power: "FRA"@, delta: 20i32 },
                        EventEffectView::PeaceOffer("FRA"@),
                    ],
                },
                OptionView {
                    label: "Fight On"@,
                    effects: seq![
                        EventEffectView::ManpowerChange(10i32),
                        EventEffectView::RelationChange { power: "FRA"@, delta: -15i32 }
                    ],
                },
            ],
            fires_for: "RUS"@,
            repeatable: false,
            fired: false,
        },
        EventView {
            id: 16,
            title: "Austerlitz Aftermath"@,
            description: "The Battle of the Three Emperors has ended in catastrophe. The Austrian \
                and Russian armies are shattered, and Napoleon stands triumphant. The Habsburg \
                Empire must now choose between humiliating peace and desperate resistance."@,
            trigger: TriggerView::DateReached { year: 1805u16, month: 12u8, day: 2u8 },
            options: seq![
                OptionView {
                    label: "Seek Peace"@,
                    effects: seq![
                        EventEffectView::PeaceOffer("FRA"@),
                        EventEffectView::TreasuryChange(-20i32),
                        EventEffectView::RelationChange { power: "FRA"@, delta: 15i32 }
                    ],
                },
                OptionView {
                    label: "Fight On"@,
                    effects: seq![
                        EventEffectView::ManpowerChange(10i32),
                        EventEffectView::TreasuryChange(-10i32),
                    ],
                },
            ],
            fires_for: "AUS"@,
            repeatable: false,
            fired: false,
        },
        EventView {
            id: 17,
            title: "Habsburg Marriage Alliance"@,
            description: "Napoleon seeks to legitimize his dynasty through marriage to Archduchess \
                Marie Louise of Austria. The Habsburgs face a bitter choice: sacrifice a princess \
                for peace, or refuse the upstart Emperor and risk renewed war."@,
            trigger: TriggerView::DateReached { year: 1809u16, month: 10u8, day: 14u8 },
            options: seq![
                OptionView {
                    label: "Accept the Marriage"@,
                    effects: seq![
                        EventEffectView::RelationChange { power: "FRA"@, delta: 30i32 },
                        EventEffectView::PeaceOffer("FRA"@),
                        EventEffectView::NewsMessage("Marie Louise weds Napoleon — a new alliance."@),
                    ],
                },
                OptionView {
                    label: "Refuse"@,
                    effects: seq![
                        EventEffectView::RelationChange { power: "FRA"@, delta: -20i32 },
                        EventEffectView::ManpowerChange(5i32),
                    ],
                },
            ],
            fires_for: "AUS"@,
            repeatable: false,
            fired: false,
        },
        EventView {
            id: 18,
            title: "Jena Disaster"@,
            description: "The twin battles of Jena and Auerstedt have annihilated the Prussian \
                army. In a single day, the proud military legacy of Frederick the Great has been \
                swept away. Berlin lies open to French occupation."@,
            trigger: TriggerView::DateReached { year: 1806u16, month: 10u8, day: 14u8 },
            options: seq![
                OptionView {
                    label: "Capitulate"@,
                    effects: seq![
                        EventEffectView::PeaceOffer("FRA"@),
                        EventEffectView::TreasuryChange(-25i32),
                        EventEffectView::ManpowerChange(-15i32),
                    ],
                },
                OptionView {
                    label: "Guerrilla War"@,
                    effects: seq![
                        EventEffectView::ManpowerChange(-5i32),
                        EventEffectView::RelationChange { power: "FRA"@, delta: -20i32 },
                        EventEffectView::NewsMessage("Prussian partisans take to the hills."@),
                    ],
                },
            ],
            fires_for: "PRU"@,
            repeatable: false,
            fired: false,
        },
        EventView {
            id: 19,
            title: "Reform Movement"@,
            description: "Scharnhorst, Gneisenau, and the reformers present their plan to modernize \
                the Prussian military. They propose abolishing the old caste system, introducing \
                universal conscription, and training a new generation of officers."@,
            trigger: TriggerView::AlwaysTrue,
            options: seq![
                OptionView {
                    label: "Accept Modernization"@,
                    effects: seq![
                        EventEffectView::ManpowerChange(10i32),
                        EventEffectView::TreasuryChange(-10i32),
                        EventEffectView::NewsMessage("Prussia embarks on sweeping military reforms."@),
                    ],
                },
                OptionView {
                    label: "Keep Old Ways"@,
                    effects: seq![
                        EventEffectView::TreasuryChange(5i32),
                    ],
                },
            ],
            fires_for: "PRU"@,
            repeatable: false,
            fired: false,
        },
        EventView {
            id: 20,
            title: "Plague Outbreak"@,
            description: "A virulent plague has broken out among the camp followers and is spreading \
                to the ranks. Army surgeons are overwhelmed, and the stench of the field hospitals \
                carries for miles. Decisive action is needed."@,
            trigger: TriggerView::AlwaysTrue,
            options: seq![
                OptionView {
                    label: "Quarantine"@,
                    effects: seq![
                        EventEffectView::ManpowerChange(-8i32),
                        EventEffectView::NewsMessage("Strict quarantine measures slow the plague."@),
                    ],
                },
                OptionView {
                    label: "Ignore It"@,
                    effects: seq![
                        EventEffectView::ManpowerChange(-3i32),
                        EventEffectView::TreasuryChange(-5i32),
                    ],
                },
            ],
            fires_for: "FRA"@,
            repeatable: false,
            fired: false,
        },
        EventView {
            id: 21,
            title: "Harvest Failure"@,
            description: "A wet summer followed by early frost has devastated the harvest across \
                the countryside. Bread prices soar in the cities, and the army's commissariat \
                reports dwindling stores. Hunger stalks the land."@,
            trigger: TriggerView::AlwaysTrue,
            options: seq![
                OptionView {
                    label: "Import Grain"@,
                    effects: seq![
                        EventEffectView::TreasuryChange(-15i32),
                        EventEffectView::NewsMessage("Emergency grain imports stabilize food supply."@),
                    ],
                },
                OptionView {
                    label: "Requisition from Populace"@,
                    effects: seq![
                        EventEffectView::ManpowerChange(-5i32),
                        EventEffectView::TreasuryChange(-5i32),
                    ],
                },
            ],
            fires_for: "GBR"@,
            repeatable: false,
            fired: false,
        },
        EventView {
            id: 22,
            title: "Noble Conspiracy"@,
            description: "Your intelligence service has uncovered a conspiracy among disaffected \
                nobles. They plot to overthrow the current government and install a regent more \
                amenable to their interests. The evidence is damning."@,
            trigger: TriggerView::AlwaysTrue,
            options: seq![
                OptionView {
                    label: "Purge the Nobles"@,
                    effects: seq![
                        EventEffectView::TreasuryChange(10i32),
                        EventEffectView::ManpowerChange(-3i32),
                    ],
                },
                OptionView {
                    label: "Appease Them"@,
                    effects: seq![
                        EventEffectView::TreasuryChange(-10i32),
                        EventEffectView::ManpowerChange(2i32),
                    ],
                },
            ],
            fires_for: "RUS"@,
            repeatable: false,
            fired: false,
        },
        EventView {
            id: 23,
            title: "Foreign Volunteers"@,
            description: "Word of your cause has spread abroad, and foreign volunteers are arriving \
                at the borders offering their services. Some are seasoned veterans, others are \
                idealistic youths. All seek glory under your banner."@,
            trigger: TriggerView::AlwaysTrue,
            options: seq![
                OptionView {
                    label: "Accept Volunteers"@,
                    effects: seq![
                        EventEffectView::ManpowerChange(8i32),
                        EventEffectView::TreasuryChange(-5i32),
                    ],
                },
                OptionView {
                    label: "Refuse Them"@,
                    effects: seq![
                        EventEffectView::TreasuryChange(2i32),
                    ],
                },
            ],
            fires_for: "AUS"@,
            repeatable: false,
            fired: false,
        },
        EventView {
            id: 24,
            title: "Winter Logistics Crisis"@,
            description: "Winter has arrived with a vengeance, and supply wagons are mired in frozen \
                mud. Horses collapse from exhaustion and cold, soldiers strip the dead for warm \
                clothing, and the quartermasters report critical shortages."@,
            trigger: TriggerView::AlwaysTrue,
            options: seq![
                OptionView {
                    label: "Prioritize Supply"@,
                    effects: seq![
                        EventEffectView::TreasuryChange(-10i32),
                        EventEffectView::NewsMessage("Supply lines reorganized for winter operations."@),
                    ],
                },
                OptionView {
                    label: "Push On"@,
                    effects: seq![
                        EventEffectView::ManpowerChange(-8i32),
                        EventEffectView::NewsMessage("The army presses forward through the bitter cold."@),
                    ],
                },
            ],
            fires_for: "PRU"@,
            repeatable: false,
            fired: false,
        },
        EventView {
            id: 25,
            title: "War Exhaustion"@,
            description: "Years of ceaseless conflict have taken their toll. The populace grows \
                weary of war, mothers curse the recruiting sergeants, and even veteran soldiers \
                speak openly of peace. Something must give."@,
            trigger: TriggerView::AlwaysTrue,
            options: seq![
                OptionView {
                    label: "Seek Peace"@,
                    effects: seq![
                        EventEffectView::ManpowerChange(5i32),
                        EventEffectView::NewsMessage("Peace feelers are quietly extended."@),
                    ],
                },
                OptionView {
                    label: "Propaganda Campaign"@,
                    effects: seq![
                        EventEffectView::TreasuryChange(-15i32),
                        EventEffectView::ManpowerChange(3i32),
                        EventEffectView::NewsMessage("Patriotic fervor is rekindled through propaganda."@),
                    ],
                },
            ],
            fires_for: "FRA"@,
            repeatable: false,
            fired: false,
        },
    ]
}

/// The scripted historical events, with IDs 1 to 25 in order; none has
/// fired yet and each offers at least one option. Each event's title,
/// description, trigger, options (labels and effects), power and
/// repeatability are those of `historical_event_table`.
#[verifier::rlimit(60)]
pub fn all_historical_events() -> (r: Vec<HistoricalEvent>)
    ensures
        events_view(r@) == historical_event_table(),
        r@.len() == 25,
        forall|i: int| 0 <= i < 25 ==> (#[trigger] r@[i]).id == i + 1 && !r@[i].fired && r@[i].options@.len() > 0,
{
    let r = vec![
        // ── FRANCE ──────────────────────────────────────────────────
        // 1. The Emperor Crowns Himself
        HistoricalEvent {
            id: 1,
            title: "The Emperor Crowns Himself",
            description: "In the Cathedral of Notre-Dame, Napoleon Bonaparte takes the crown from \
                the Pope's hands and places it upon his own head. The assembled dignitaries watch \
                in stunned silence as a new era begins for France.",
            trigger: EventTrigger::DateReached { year: 1804, month: 12, day: 2 },
            options: vec![
                EventOption {
                    label: "Grand Ceremony",
                    effects: vec![
                        EventEffect::ManpowerChange(5),
                        EventEffect::TreasuryChange(-10),
                        EventEffect::NewsMessage("Napoleon crowned Emperor in grand ceremony!".to_owned()),
                    ],
                },
                EventOption {
                    label: "Simple Ceremony",
                    effects: vec![
                        EventEffect::TreasuryChange(15),
                        EventEffect::NewsMessage("Napoleon crowned Emperor in modest ceremony.".to_owned()),
                    ],
                },
            ],
            fires_for: fra(),
            repeatable: false,
            fired: false,
        },
        // 2. The Continental System
        HistoricalEvent {
            id: 2,
            title: "The Continental System",
            description: "Napoleon decrees that all European ports under French influence shall be \
                closed to British trade. The Berlin Decree aims to strangle Britain's economy, \
                but enforcing it will strain relations with every continental power.",
            trigger: EventTrigger::DateReached { year: 1806, month: 11, day: 21 },
            options: vec![
                EventOption {
                    label: "Enforce Strictly",
                    effects: vec![
                        EventEffect::RelationChange { power: gbr(), delta: -30 },
                        EventEffect::RelationChange { power: aus(), delta: -10 },
                        EventEffect::RelationChange { power: pru(), delta: -10 },
                        EventEffect::RelationChange { power: rus(), delta: -10 },
                        EventEffect::TreasuryChange(20),
                    ],
                },
                EventOption {
                    label: "Partial Enforcement",
                    effects: vec![
                        EventEffect::RelationChange { power: gbr(), delta: -15 },
                        EventEffect::TreasuryChange(5),
                    ],
                },
            ],
            fires_for: fra(),
            repeatable: false,
            fired: false,
        },
        // 3. Tilsit Negotiations
        HistoricalEvent {
            id: 3,
            title: "Tilsit Negotiations",
            description: "On a raft in the middle of the Niemen River, Napoleon meets Tsar \
                Alexander I. The two emperors discuss the future of Europe — a historic moment \
                that could reshape the continental balance of power.",
            trigger: EventTrigger::DateReached { year: 1807, month: 6, day: 25 },
            options: vec![
                EventOption {
                    label: "Generous Terms",
                    effects: vec![
                        EventEffect::RelationChange { power: rus(), delta: 30 },
                        EventEffect::PeaceOffer(rus()),
                    ],
                },
                EventOption {
                    label: "Harsh Terms",
                    effects: vec![
                        EventEffect::RelationChange { power: rus(), delta: -10 },
                        EventEffect::ManpowerChange(10),
                    ],
                },
            ],
            fires_for: fra(),
            repeatable: false,
            fired: false,
        },
        // 4. Spain Succession Crisis
        HistoricalEvent {
            id: 4,
            title: "Spain Succession Crisis",
            description: "The Bourbon dynasty in Spain is in turmoil. Napoleon sees an opportunity \
                to extend French influence over the Iberian Peninsula, but installing his brother \
                Joseph on the Spanish throne risks igniting fierce resistance.",
            trigger: EventTrigger::DateReached { year: 1808, month: 3, day: 15 },
            options: vec![
                EventOption {
                    label: "Place Joseph on Throne",
                    effects: vec![
                        EventEffect::RelationChange { power: spa(), delta: -40 },
                        EventEffect::DeclareWar(spa()),
                        EventEffect::ManpowerChange(-5),
                    ],
                },
                EventOption {
                    label: "Support Spanish King",
                    effects: vec![
                        EventEffect::RelationChange { power: spa(), delta: 15 },
                    ],
                },
            ],
            fires_for: fra(),
            repeatable: false,
            fired: false,
        },
        // 5. The Grande Armée Marches East
        HistoricalEvent {
            id: 5,
            title: "The Grande Armée Marches East",
            description: "Six hundred thousand men cross the Niemen into Russian territory — the \
                largest army Europe has ever seen. The fate of the Empire hangs on the coming \
                campaign against the vast Russian interior.",
            trigger: EventTrigger::DateReached { year: 1812, month: 6, day: 24 },
            options: vec![
                EventOption {
                    label: "Full Invasion",
                    effects: vec![
                        EventEffect::ManpowerChange(-20),
                        EventEffect::DeclareWar(rus()),
                        EventEffect::NewsMessage("The Grande Armée invades Russia!".to_owned()),
                    ],
                },
                EventOption {
                    label: "Probe Only",
                    effects: vec![
                        EventEffect::ManpowerChange(-5),
                        EventEffect::RelationChange { power: rus(), delta: -20 },
                    ],
                },
            ],
            fires_for: fra(),
            repeatable: false,
            fired: false,
        },
        // 6. Trafalgar Aftermath
        HistoricalEvent {
            id: 6,
            title: "Trafalgar Aftermath",
            description: "The combined Franco-Spanish fleet has been shattered off Cape Trafalgar. \
                Admiral Villeneuve is captured, and French naval power lies broken. The Emperor \
                must decide how to respond to this catastrophe at sea.",
            trigger: EventTrigger::DateReached { year: 1805, month: 10, day: 21 },
            options: vec![
                EventOption {
                    label: "Rebuild the Fleet",
                    effects: vec![
                        EventEffect::TreasuryChange(-30),
                        EventEffect::NewsMessage("France begins massive naval rebuilding program.".to_owned()),
                    ],
                },
                EventOption {
                    label: "Accept Naval Inferiority",
                    effects: vec![
                        EventEffect::ManpowerChange(10),
                        EventEffect::NewsMessage("France focuses resources on the army.".to_owned()),
                    ],
                },
            ],
            fires_for: fra(),
            repeatable: false,
            fired: false,
        },
        // 7. Marshals Demand Pay
        HistoricalEvent {
            id: 7,
            title: "Marshals Demand Pay",
            description: "Several of your most senior marshals have presented themselves at court, \
                demanding their promised estates and back pay. Their loyalty is not in question — \
                yet — but their patience wears thin.",
            trigger: EventTrigger::AlwaysTrue,
            options: vec![
                EventOption {
                    label: "Pay Them",
                    effects: vec![
                        EventEffect::TreasuryChange(-20),
                        EventEffect::NewsMessage("The marshals are satisfied with their rewards.".to_owned()),
                    ],
                },
                EventOption {
                    label: "Deny Payment",
                    effects: vec![
                        EventEffect::ManpowerChange(-3),
                        EventEffect::NewsMessage("Disgruntled marshals mutter in the corridors.".to_owned()),
                    ],
                },
            ],
            fires_for: fra(),
            repeatable: false,
            fired: false,
        },
        // 8. Conscription Resistance
        HistoricalEvent {
            id: 8,
            title: "Conscription Resistance",
            description: "Reports pour in from the provinces: young men are fleeing to the hills \
                rather than answer the call to arms. The prefects demand stronger enforcement, \
                while nobles petition for exemptions.",
            trigger: EventTrigger::AlwaysTrue,
            options: vec![
                EventOption {
                    label: "Enforce Conscription",
                    effects: vec![
                        EventEffect::ManpowerChange(15),
                        EventEffect::TreasuryChange(-5),
                    ],
                },
                EventOption {
                    label: "Exempt Nobles",
                    effects: vec![
                        EventEffect::ManpowerChange(5),
                        EventEffect::TreasuryChange(5),
                    ],
                },
            ],
            fires_for: fra(),
            repeatable: false,
            fired: false,
        },

        // ── BRITAIN ─────────────────────────────────────────────────
        // 9. Trafalgar Victory
        HistoricalEvent {
            id: 9,
            title: "Trafalgar Victory",
            description: "The Royal Navy has won a decisive victory off Cape Trafalgar, shattering \
                the Franco-Spanish fleet. But the triumph is bittersweet — Admiral Lord Nelson \
                has fallen on the deck of HMS Victory.",
            trigger: EventTrigger::DateReached { year: 1805, month: 10, day: 21 },
            options: vec![
                EventOption {
                    label: "Honor Nelson",
                    effects: vec![
                        EventEffect::ManpowerChange(5),
                        EventEffect::TreasuryChange(-10),
                        EventEffect::NewsMessage("The nation mourns Nelson and celebrates victory.".to_owned()),
                    ],
                },
                EventOption {
                    label: "Focus on Victory",
                    effects: vec![
                        EventEffect::TreasuryChange(10),
                        EventEffect::NewsMessage("Britannia rules the waves!".to_owned()),
                    ],
                },
            ],
            fires_for: gbr(),
            repeatable: false,
            fired: false,
        },
        // 10. Subsidize Coalition
        HistoricalEvent {
            id: 10,
            title: "Subsidize the Coalition",
            description: "Parliament debates funding for Britain's continental allies. Gold shipped \
                to Vienna and Berlin could keep armies in the field against Napoleon — but the \
                Treasury warns of mounting debts from the endless war.",
            trigger: EventTrigger::AlwaysTrue,
            options: vec![
                EventOption {
                    label: "Fund Austria & Prussia",
                    effects: vec![
                        EventEffect::TreasuryChange(-25),
                        EventEffect::RelationChange { power: aus(), delta: 20 },
                        EventEffect::RelationChange { power: pru(), delta: 20 },
                    ],
                },
                EventOption {
                    label: "Save the Money",
                    effects: vec![
                        EventEffect::TreasuryChange(10),
                        EventEffect::RelationChange { power: aus(), delta: -5 },
                    ],
                },
            ],
            fires_for: gbr(),
            repeatable: false,
            fired: false,
        },
        // 11. Orders in Council
        HistoricalEvent {
            id: 11,
            title: "Orders in Council",
            description: "The Cabinet issues the Orders in Council, declaring a blockade of all \
                ports from which the British flag is excluded. Neutral shipping must submit to \
                Royal Navy inspection or face seizure.",
            trigger: EventTrigger::DateReached { year: 1807, month: 1, day: 7 },
            options: vec![
                EventOption {
                    label: "Strict Blockade",
                    effects: vec![
                        EventEffect::TreasuryChange(15),
                        EventEffect::RelationChange { power: fra(), delta: -20 },
                    ],
                },
                EventOption {
                    label: "Lenient Enforcement",
                    effects: vec![
                        EventEffect::TreasuryChange(5),
                        EventEffect::RelationChange { power: fra(), delta: -5 },
                    ],
                },
            ],
            fires_for: gbr(),
            repeatable: false,
            fired: false,
        },
        // 12. Peninsula Opportunity
        HistoricalEvent {
            id: 12,
            title: "Peninsula Opportunity",
            description: "Spain is in open revolt against French occupation. The Iberian Peninsula \
                offers a second front — a chance to bleed Napoleon's armies in a brutal guerrilla \
                war. Wellington stands ready with an expeditionary force.",
            trigger: EventTrigger::DateReached { year: 1808, month: 8, day: 1 },
            options: vec![
                EventOption {
                    label: "Send Wellington",
                    effects: vec![
                        EventEffect::ManpowerChange(-10),
                        EventEffect::TreasuryChange(-15),
                        EventEffect::RelationChange { power: spa(), delta: 25 },
                        EventEffect::AddTrait(
                            MarshalId::new("MARSHAL_WELLINGTON"),
                            MarshalTrait::Tactician,
                        ),
                    ],
                },
                EventOption {
                    label: "Support from Sea Only",
                    effects: vec![
                        EventEffect::TreasuryChange(-5),
                        EventEffect::RelationChange { power: spa(), delta: 10 },
                    ],
                },
            ],
            fires_for: gbr(),
            repeatable: false,
            fired: false,
        },

        // ── RUSSIA ──────────────────────────────────────────────────
        // 13. Kutuzov Takes Command
        HistoricalEvent {
            id: 13,
            title: "Kutuzov Takes Command",
            description: "The Tsar's advisors urge him to replace the cautious Barclay de Tolly \
                with the aging but beloved Mikhail Kutuzov. The one-eyed veteran promises to \
                stop Napoleon — through patience, attrition, and Russian winter.",
            trigger: EventTrigger::DateReached { year: 1812, month: 8, day: 29 },
            options: vec![
                EventOption {
                    label: "Appoint Kutuzov",
                    effects: vec![
                        EventEffect::AddTrait(
                            MarshalId::new("MARSHAL_KUTUZOV"),
                            MarshalTrait::DefensiveGenius,
                        ),
                        EventEffect::ManpowerChange(5),
                        EventEffect::NewsMessage("Kutuzov takes supreme command of Russian forces.".to_owned()),
                    ],
                },
                EventOption {
                    label: "Keep Barclay",
                    effects: vec![
                        EventEffect::AddTrait(
                            MarshalId::new("MARSHAL_BARCLAY"),
                            MarshalTrait::Logistics,
                        ),
                    ],
                },
            ],
            fires_for: rus(),
            repeatable: false,
            fired: false,
        },
        // 14. Scorched Earth Policy
        HistoricalEvent {
            id: 14,
            title: "Scorched Earth Policy",
            description: "As Napoleon's Grande Armée advances deeper into Russia, the generals \
                propose a terrible strategy: burn everything. Leave nothing for the enemy — \
                no food, no shelter, no forage. Mother Russia herself will be the weapon.",
            trigger: EventTrigger::AlwaysTrue,
            options: vec![
                EventOption {
                    label: "Burn Everything",
                    effects: vec![
                        EventEffect::ManpowerChange(-10),
                        EventEffect::TreasuryChange(-15),
                        EventEffect::NewsMessage("Russian forces adopt scorched earth tactics.".to_owned()),
                    ],
                },
                EventOption {
                    label: "Hold Ground",
                    effects: vec![
                        EventEffect::ManpowerChange(-5),
                    ],
                },
            ],
            fires_for: rus(),
            repeatable: false,
            fired: false,
        },
        // 15. Peace Party vs War Party
        HistoricalEvent {
            id: 15,
            title: "Peace Party vs War Party",
            description: "The Russian court is split. The peace faction, led by influential nobles, \
                argues that accommodation with Napoleon is the only rational course. The war \
                party demands Russia stand firm against the Corsican tyrant.",
            trigger: EventTrigger::AlwaysTrue,
            options: vec![
                EventOption {
                    label: "Negotiate with Napoleon",
                    effects: vec![
                        EventEffect::RelationChange { power: fra(), delta: 20 },
                        EventEffect::PeaceOffer(fra()),
                    ],
                },
                EventOption {
                    label: "Fight On",
                    effects: vec![
                        EventEffect::ManpowerChange(10),
                        EventEffect::RelationChange { power: fra(), delta: -15 },
                    ],
                },
            ],
            fires_for: rus(),
            repeatable: false,
            fired: false,
        },

        // ── AUSTRIA ─────────────────────────────────────────────────
        // 16. Austerlitz Aftermath
        HistoricalEvent {
            id: 16,
            title: "Austerlitz Aftermath",
            description: "The Battle of the Three Emperors has ended in catastrophe. The Austrian \
                and Russian armies are shattered, and Napoleon stands triumphant. The Habsburg \
                Empire must now choose between humiliating peace and desperate resistance.",
            trigger: EventTrigger::DateReached { year: 1805, month: 12, day: 2 },
            options: vec![
                EventOption {
                    label: "Seek Peace",
                    effects: vec![
                        EventEffect::PeaceOffer(fra()),
                        EventEffect::TreasuryChange(-20),
                        EventEffect::RelationChange { power: fra(), delta: 15 },
                    ],
                },
                EventOption {
                    label: "Fight On",
                    effects: vec![
                        EventEffect::ManpowerChange(10),
                        EventEffect::TreasuryChange(-10),
                    ],
                },
            ],
            fires_for: aus(),
            repeatable: false,
            fired: false,
        },
        // 17. Habsburg Marriage Alliance
        HistoricalEvent {
            id: 17,
            title: "Habsburg Marriage Alliance",
            description: "Napoleon seeks to legitimize his dynasty through marriage to Archduchess \
                Marie Louise of Austria. The Habsburgs face a bitter choice: sacrifice a princess \
                for peace, or refuse the upstart Emperor and risk renewed war.",
            trigger: EventTrigger::DateReached { year: 1809, month: 10, day: 14 },
            options: vec![
                EventOption {
                    label: "Accept the Marriage",
                    effects: vec![
                        EventEffect::RelationChange { power: fra(), delta: 30 },
                        EventEffect::PeaceOffer(fra()),
                        EventEffect::NewsMessage("Marie Louise weds Napoleon — a new alliance.".to_owned()),
                    ],
                },
                EventOption {
                    label: "Refuse",
                    effects: vec![
                        EventEffect::RelationChange { power: fra(), delta: -20 },
                        EventEffect::ManpowerChange(5),
                    ],
                },
            ],
            fires_for: aus(),
            repeatable: false,
            fired: false,
        },

        // ── PRUSSIA ─────────────────────────────────────────────────
        // 18. Jena Disaster
        HistoricalEvent {
            id: 18,
            title: "Jena Disaster",
            description: "The twin battles of Jena and Auerstedt have annihilated the Prussian \
                army. In a single day, the proud military legacy of Frederick the Great has been \
                swept away. Berlin lies open to French occupation.",
            trigger: EventTrigger::DateReached { year: 1806, month: 10, day: 14 },
            options: vec![
                EventOption {
                    label: "Capitulate",
                    effects: vec![
                        EventEffect::PeaceOffer(fra()),
                        EventEffect::TreasuryChange(-25),
                        EventEffect::ManpowerChange(-15),
                    ],
                },
                EventOption {
                    label: "Guerrilla War",
                    effects: vec![
                        EventEffect::ManpowerChange(-5),
                        EventEffect::RelationChange { power: fra(), delta: -20 },
                        EventEffect::NewsMessage("Prussian partisans take to the hills.".to_owned()),
                    ],
                },
            ],
            fires_for: pru(),
            repeatable: false,
            fired: false,
        },
        // 19. Reform Movement
        HistoricalEvent {
            id: 19,
            title: "Reform Movement",
            description: "Scharnhorst, Gneisenau, and the reformers present their plan to modernize \
                the Prussian military. They propose abolishing the old caste system, introducing \
                universal conscription, and training a new generation of officers.",
            trigger: EventTrigger::AlwaysTrue,
            options: vec![
                EventOption {
                    label: "Accept Modernization",
                    effects: vec![
                        EventEffect::ManpowerChange(10),
                        EventEffect::TreasuryChange(-10),
                        EventEffect::NewsMessage("Prussia embarks on sweeping military reforms.".to_owned()),
                    ],
                },
                EventOption {
                    label: "Keep Old Ways",
                    effects: vec![
                        EventEffect::TreasuryChange(5),
                    ],
                },
            ],
            fires_for: pru(),
            repeatable: false,
            fired: false,
        },

        // ── ALL POWERS (misc) ───────────────────────────────────────
        // 20–25: These fire for FRA by default, but are designed as generic.
        // In a full implementation each would be duplicated per power.

        // 20. Plague Outbreak
        HistoricalEvent {
            id: 20,
            title: "Plague Outbreak",
            description: "A virulent plague has broken out among the camp followers and is spreading \
                to the ranks. Army surgeons are overwhelmed, and the stench of the field hospitals \
                carries for miles. Decisive action is needed.",
            trigger: EventTrigger::AlwaysTrue,
            options: vec![
                EventOption {
                    label: "Quarantine",
                    effects: vec![
                        EventEffect::ManpowerChange(-8),
                        EventEffect::NewsMessage("Strict quarantine measures slow the plague.".to_owned()),
                    ],
                },
                EventOption {
                    label: "Ignore It",
                    effects: vec![
                        EventEffect::ManpowerChange(-3),
                        EventEffect::TreasuryChange(-5),
                    ],
                },
            ],
            fires_for: fra(),
            repeatable: false,
            fired: false,
        },
        // 21. Harvest Failure
        HistoricalEvent {
            id: 21,
            title: "Harvest Failure",
            description: "A wet summer followed by early frost has devastated the harvest across \
                the countryside. Bread prices soar in the cities, and the army's commissariat \
                reports dwindling stores. Hunger stalks the land.",
            trigger: EventTrigger::AlwaysTrue,
            options: vec![
                EventOption {
                    label: "Import Grain",
                    effects: vec![
                        EventEffect::TreasuryChange(-15),
                        EventEffect::NewsMessage("Emergency grain imports stabilize food supply.".to_owned()),
                    ],
                },
                EventOption {
                    label: "Requisition from Populace",
                    effects: vec![
                        EventEffect::ManpowerChange(-5),
                        EventEffect::TreasuryChange(-5),
                    ],
                },
            ],
            fires_for: gbr(),
            repeatable: false,
            fired: false,
        },
        // 22. Noble Conspiracy
        HistoricalEvent {
            id: 22,
            title: "Noble Conspiracy",
            description: "Your intelligence service has uncovered a conspiracy among disaffected \
                nobles. They plot to overthrow the current government and install a regent more \
                amenable to their interests. The evidence is damning.",
            trigger: EventTrigger::AlwaysTrue,
            options: vec![
                EventOption {
                    label: "Purge the Nobles",
                    effects: vec![
                        EventEffect::TreasuryChange(10),
                        EventEffect::ManpowerChange(-3),
                    ],
                },
                EventOption {
                    label: "Appease Them",
                    effects: vec![
                        EventEffect::TreasuryChange(-10),
                        EventEffect::ManpowerChange(2),
                    ],
                },
            ],
            fires_for: rus(),
            repeatable: false,
            fired: false,
        },
        // 23. Foreign Volunteers
        HistoricalEvent {
            id: 23,
            title: "Foreign Volunteers",
            description: "Word of your cause has spread abroad, and foreign volunteers are arriving \
                at the borders offering their services. Some are seasoned veterans, others are \
                idealistic youths. All seek glory under your banner.",
            trigger: EventTrigger::AlwaysTrue,
            options: vec![
                EventOption {
                    label: "Accept Volunteers",
                    effects: vec![
                        EventEffect::ManpowerChange(8),
                        EventEffect::TreasuryChange(-5),
                    ],
                },
                EventOption {
                    label: "Refuse Them",
                    effects: vec![
                        EventEffect::TreasuryChange(2),
                    ],
                },
            ],
            fires_for: aus(),
            repeatable: false,
            fired: false,
        },
        // 24. Winter Logistics Crisis
        HistoricalEvent {
            id: 24,
            title: "Winter Logistics Crisis",
            description: "Winter has arrived with a vengeance, and supply wagons are mired in frozen \
                mud. Horses collapse from exhaustion and cold, soldiers strip the dead for warm \
                clothing, and the quartermasters report critical shortages.",
            trigger: EventTrigger::AlwaysTrue,
            options: vec![
                EventOption {
                    label: "Prioritize Supply",
                    effects: vec![
                        EventEffect::TreasuryChange(-10),
                        EventEffect::NewsMessage("Supply lines reorganized for winter operations.".to_owned()),
                    ],
                },
                EventOption {
                    label: "Push On",
                    effects: vec![
                        EventEffect::ManpowerChange(-8),
                        EventEffect::NewsMessage("The army presses forward through the bitter cold.".to_owned()),
                    ],
                },
            ],
            fires_for: pru(),
            repeatable: false,
            fired: false,
        },
        // 25. War Exhaustion
        HistoricalEvent {
            id: 25,
            title: "War Exhaustion",
            description: "Years of ceaseless conflict have taken their toll. The populace grows \
                weary of war, mothers curse the recruiting sergeants, and even veteran soldiers \
                speak openly of peace. Something must give.",
            trigger: EventTrigger::AlwaysTrue,
            options: vec![
                EventOption {
                    label: "Seek Peace",
                    effects: vec![
                        EventEffect::ManpowerChange(5),
                        EventEffect::NewsMessage("Peace feelers are quietly extended.".to_owned()),
                    ],
                },
                EventOption {
                    label: "Propaganda Campaign",
                    effects: vec![
                        EventEffect::TreasuryChange(-15),
                        EventEffect::ManpowerChange(3),
                        EventEffect::NewsMessage("Patriotic fervor is rekindled through propaganda.".to_owned()),
                    ],
                },
            ],
            fires_for: fra(),
            repeatable: false,
            fired: false,
        },
    ];
    proof {
        assert(events_view(r@) =~~= historical_event_table());
    }
    r
}

impl EventRegistry {
    /// A registry holding all the historical events, in ID order.
    pub fn with_historical() -> (r: Self)
        ensures
            events_view(r.events@) == historical_event_table(),
            r.events@.len() == 25,
            ids_increasing(r.events@),
            forall|i: int| 0 <= i < 25 ==> (#[trigger] r.events@[i]).id == i + 1 && !r.events@[i].fired
                && r.events@[i].options@.len() > 0,
    {
        EventRegistry { events: all_historical_events() }
    }
}

} // verus!
