//! Replay support: a replay is the fold of the ordered events over the
//! initial scenario.  Reconstruction reads the events and updates the
//! treasury, corps positions and turn counter; it never reruns the
//! resolvers.

use vstd::prelude::*;

use crate::canonical::{blake3_hex_text, canon, canonical_hash, JsonValue};
use crate::dup::{copy_scenario, same_apart_from_play};
use crate::events::{Event, MovementResolved};
use crate::scenario::{copy_corps_map, Corps, PowerState, Scenario};
use crate::strmap::StrMap;
use crate::text::{decimal, push_decimal, push_str, string_from_chars};
use vstd::utf8::encode_utf8;

verus! {

/// Replay format version.
pub const REPLAY_SCHEMA_VERSION: u32 = 1;

/// The hash of the reconstructed scenario after a seekable turn.
#[derive(Debug, Clone, PartialEq, Eq)]
pub struct TurnHash {
    pub turn: u32,
    /// 64-character hex BLAKE3 of the canonical scenario state.
    pub hash: String,
}

/// A recorded game: its first state, its events, and a hash per turn.
#[derive(Debug, Clone)]
pub struct ReplayFile {
    pub schema_version: u32,
    pub game_id: String,
    pub initial_scenario: Scenario,
    pub events: Vec<Event>,
    /// Hashes of the reconstructed scenario after each seekable turn.
    pub turn_hashes: Vec<TurnHash>,
}

/// A replay being watched, and the turn shown.
#[derive(Debug, Clone)]
pub struct ReplayPlayer {
    pub file: ReplayFile,
    pub current_turn: usize,
}

/// A new replay of `initial_scenario` with no events yet.
pub fn create_replay(game_id: &str, initial_scenario: Scenario) -> (r: ReplayFile)
    ensures
        r.schema_version == REPLAY_SCHEMA_VERSION,
        r.game_id@ == game_id@,
        r.initial_scenario == initial_scenario,
        r.events@.len() == 0,
        r.turn_hashes@.len() == 0,
{
    ReplayFile {
        schema_version: REPLAY_SCHEMA_VERSION,
        game_id: game_id.to_owned(),
        initial_scenario,
        events: Vec::new(),
        turn_hashes: Vec::new(),
    }
}

/// Appends a turn's events and records the hash of the scenario after it,
/// given as JSON.
pub fn append_events(replay: &mut ReplayFile, events: Vec<Event>, turn: u32, scenario_after: &JsonValue)
    requires
        canon(*scenario_after) is Ok,
    ensures
        final(replay).schema_version == old(replay).schema_version,
        final(replay).game_id == old(replay).game_id,
        final(replay).initial_scenario == old(replay).initial_scenario,
        final(replay).events@ == old(replay).events@ + events@,
        final(replay).turn_hashes@.len() == old(replay).turn_hashes@.len() + 1,
        final(replay).turn_hashes@.drop_last() == old(replay).turn_hashes@,
        final(replay).turn_hashes@.last().turn == turn,
        final(replay).turn_hashes@.last().hash@ == blake3_hex_text(encode_utf8(canon(*scenario_after)->Ok_0)),
{
    let mut events = events;
    let ghost added = events@;
    replay.events.append(&mut events);
    let hash = match canonical_hash(scenario_after) {
        Ok(h) => h,
        Err(_) => String::new(),
    };
    replay.turn_hashes.push(TurnHash { turn, hash });
    proof {
        assert(replay.turn_hashes@.drop_last() =~= old(replay).turn_hashes@);
    }
}

/// The part of a scenario a replay reconstructs: the power states, the
/// corps, and the turn counter.
pub open spec fn replay_view(s: Scenario) -> (Map<Seq<char>, PowerState>, Map<Seq<char>, Corps>, u32) {
    (s.power_state@, s.corps@, s.current_turn)
}

/// The message for an event naming a power without a state.
pub open spec fn missing_power_text(p: Seq<char>) -> Seq<char> {
    "missing power state for "@ + p
}

/// Applying `e` stays within the integer ranges of the fields it changes.
pub open spec fn event_fits(st: (Map<Seq<char>, PowerState>, Map<Seq<char>, Corps>, u32), e: Event) -> bool {
    match e {
        Event::IncomePaid { power, net, .. } => st.0.contains_key(power@) ==> i64::MIN <= st.0[power@].treasury
            + net <= i64::MAX,
        Event::MaintenancePaid { power, corps_cost, fleet_cost } => i64::MIN <= corps_cost + fleet_cost <= i64::MAX
            && (st.0.contains_key(power@) ==> i64::MIN <= st.0[power@].treasury - (corps_cost + fleet_cost)
            <= i64::MAX),
        Event::TurnCompleted { turn, .. } => turn < u32::MAX,
        _ => true,
    }
}

/// The reconstructed part after applying `e`, or the error message.
pub open spec fn step(st: (Map<Seq<char>, PowerState>, Map<Seq<char>, Corps>, u32), e: Event) -> Result<
    (Map<Seq<char>, PowerState>, Map<Seq<char>, Corps>, u32),
    Seq<char>,
> {
    match e {
        Event::IncomePaid { power, net, .. } => if st.0.contains_key(power@) {
            let ps = st.0[power@];
            Ok((st.0.insert(power@, PowerState { treasury: (ps.treasury + net) as i64, ..ps }), st.1, st.2))
        } else {
            Err(missing_power_text(power@))
        },
        Event::MaintenancePaid { power, corps_cost, fleet_cost } => if st.0.contains_key(power@) {
            let ps = st.0[power@];
            Ok(
                (
                    st.0.insert(power@, PowerState { treasury: (ps.treasury - (corps_cost + fleet_cost)) as i64, ..ps }),
                    st.1,
                    st.2,
                ),
            )
        } else {
            Err(missing_power_text(power@))
        },
        Event::TreasuryInDeficit { power, .. } => if st.0.contains_key(power@) {
            Ok((st.0.insert(power@, PowerState { treasury: 0, ..st.0[power@] }), st.1, st.2))
        } else {
            Err(missing_power_text(power@))
        },
        Event::MovementResolved(m) => if st.1.contains_key(m.corps@) {
            Ok((st.0, st.1.insert(m.corps@, Corps { area: m.to, ..st.1[m.corps@] }), st.2))
        } else {
            Err("missing corps "@ + m.corps@)
        },
        Event::TurnCompleted { turn, .. } => Ok((st.0, st.1, (turn + 1) as u32)),
        _ => Ok(st),
    }
}

/// Applies one event to the scenario.
pub fn apply_event(s: &mut Scenario, e: &Event) -> (r: Result<(), String>)
    requires
        event_fits(replay_view(*old(s)), *e),
    ensures
        match step(replay_view(*old(s)), *e) {
            Ok(st) => r is Ok && replay_view(*final(s)) == st,
            Err(m) => r is Err && r->Err_0@ == m && replay_view(*final(s)) == replay_view(*old(s)),
        },
        *final(s) == (Scenario {
            power_state: final(s).power_state,
            corps: final(s).corps,
            current_turn: final(s).current_turn,
            ..*old(s)
        }),
{
    match e {
        Event::IncomePaid { power, net, .. } => {
            match s.power_state.find(power.as_str()) {
                Some(j) => {
                    proof {
                        assert(s.power_state@.contains_key(s.power_state.entries_view()[j as int].0@));
                    }
                    let mut ps = *s.power_state.value_at(j);
                    ps.treasury = ps.treasury + *net;
                    s.power_state.set_value_at(j, ps);
                    Ok(())
                },
                None => {
                    let mut v: Vec<char> = Vec::new();
                    push_str(&mut v, "missing power state for ");
                    push_str(&mut v, power.as_str());
                    Err(string_from_chars(v.as_slice()))
                },
            }
        },
        Event::MaintenancePaid { power, corps_cost, fleet_cost } => {
            match s.power_state.find(power.as_str()) {
                Some(j) => {
                    proof {
                        assert(s.power_state@.contains_key(s.power_state.entries_view()[j as int].0@));
                    }
                    let mut ps = *s.power_state.value_at(j);
                    ps.treasury = ps.treasury - (*corps_cost + *fleet_cost);
                    s.power_state.set_value_at(j, ps);
                    Ok(())
                },
                None => {
                    let mut v: Vec<char> = Vec::new();
                    push_str(&mut v, "missing power state for ");
                    push_str(&mut v, power.as_str());
                    Err(string_from_chars(v.as_slice()))
                },
            }
        },
        Event::TreasuryInDeficit { power, .. } => {
            match s.power_state.find(power.as_str()) {
                Some(j) => {
                    proof {
                        assert(s.power_state@.contains_key(s.power_state.entries_view()[j as int].0@));
                    }
                    let mut ps = *s.power_state.value_at(j);
                    ps.treasury = 0;
                    s.power_state.set_value_at(j, ps);
                    Ok(())
                },
                None => {
                    let mut v: Vec<char> = Vec::new();
                    push_str(&mut v, "missing power state for ");
                    push_str(&mut v, power.as_str());
                    Err(string_from_chars(v.as_slice()))
                },
            }
        },
        Event::MovementResolved(m) => {
            match s.corps.find(m.corps.as_str()) {
                Some(j) => {
                    proof {
                        assert(s.corps@.contains_key(s.corps.entries_view()[j as int].0@));
                    }
                    let mut c = s.corps.value_at(j).duplicate();
                    c.area = m.to.duplicate();
                    s.corps.set_value_at(j, c);
                    Ok(())
                },
                None => {
                    let mut v: Vec<char> = Vec::new();
                    push_str(&mut v, "missing corps ");
                    push_str(&mut v, m.corps.as_str());
                    Err(string_from_chars(v.as_slice()))
                },
            }
        },
        Event::TurnCompleted { turn, .. } => {
            s.current_turn = *turn + 1;
            Ok(())
        },
        _ => Ok(()),
    }
}

/// The message when the events run out before the marker of the turn.
pub open spec fn missing_marker_text(target: u32) -> Seq<char> {
    "replay ended before reaching turn "@ + decimal(target as nat) + "; missing TurnCompleted marker"@
}

/// `e` ends the turn before `target`.
pub open spec fn ends_turn_before(e: Event, target: u32) -> bool {
    e matches Event::TurnCompleted { turn, .. } && turn + 1 == target
}

/// The reconstructed part at the marker ending the turn before `target`,
/// folding `es` from `st`; or the first error.
pub open spec fn seek_view(st: (Map<Seq<char>, PowerState>, Map<Seq<char>, Corps>, u32), es: Seq<Event>, target: u32) -> Result<
    (Map<Seq<char>, PowerState>, Map<Seq<char>, Corps>, u32),
    Seq<char>,
>
    decreases es.len(),
{
    if es.len() == 0 {
        Err(missing_marker_text(target))
    } else {
        match step(st, es[0]) {
            Err(m) => Err(m),
            Ok(next) => if ends_turn_before(es[0], target) {
                Ok(next)
            } else {
                seek_view(next, es.drop_first(), target)
            },
        }
    }
}

/// Every event the fold of [`seek_view`] applies stays within range.
pub open spec fn seek_fits(st: (Map<Seq<char>, PowerState>, Map<Seq<char>, Corps>, u32), es: Seq<Event>, target: u32) -> bool
    decreases es.len(),
{
    es.len() == 0 || (event_fits(st, es[0]) && match step(st, es[0]) {
        Err(_) => true,
        Ok(next) => ends_turn_before(es[0], target) || seek_fits(next, es.drop_first(), target),
    })
}

/// Some recorded hash is for turn `target`.
pub open spec fn has_turn(r: ReplayFile, target: u32) -> bool {
    exists|i: int| 0 <= i < r.turn_hashes@.len() && #[trigger] r.turn_hashes@[i].turn == target
}

/// The scenario at the start of turn `target`: the initial one for turn 0,
/// else the initial one with the events folded in up to the marker that
/// ends turn `target - 1`.  Turns without a recorded hash are refused.
/// Every part a replay does not reconstruct is that of the initial
/// scenario.
pub fn seek_to_turn(replay: &ReplayFile, target_turn: u32) -> (r: Result<Scenario, String>)
    requires
        target_turn != 0 && has_turn(*replay, target_turn) ==> seek_fits(
            replay_view(replay.initial_scenario),
            replay.events@,
            target_turn,
        ),
    ensures
        r is Ok ==> same_apart_from_play(&replay.initial_scenario, &r->Ok_0),
        target_turn == 0 ==> r is Ok && replay_view(r->Ok_0) == replay_view(replay.initial_scenario),
        target_turn != 0 && !has_turn(*replay, target_turn) ==> r is Err && r->Err_0@ == "unknown replay turn "@
            + decimal(target_turn as nat),
        target_turn != 0 && has_turn(*replay, target_turn) ==> match seek_view(
            replay_view(replay.initial_scenario),
            replay.events@,
            target_turn,
        ) {
            Ok(st) => r is Ok && replay_view(r->Ok_0) == st,
            Err(m) => r is Err && r->Err_0@ == m,
        },
{
    let init = &replay.initial_scenario;
    let mut sc = copy_scenario(init);
    if target_turn == 0 {
        return Ok(sc);
    }
    let mut found = false;
    let mut k: usize = 0;
    while k < replay.turn_hashes.len()
        invariant
            k <= replay.turn_hashes@.len(),
            found == exists|i: int| 0 <= i < k && #[trigger] replay.turn_hashes@[i].turn == target_turn,
        decreases replay.turn_hashes@.len() - k,
    {
        if replay.turn_hashes[k].turn == target_turn {
            found = true;
        }
        k = k + 1;
    }
    if !found {
        let mut v: Vec<char> = Vec::new();
        push_str(&mut v, "unknown replay turn ");
        push_decimal(target_turn as u64, &mut v);
        return Err(string_from_chars(v.as_slice()));
    }
    let ghost es = replay.events@;
    let ghost v0 = replay_view(*init);
    proof {
        assert(es.skip(0) =~= es);
    }
    let mut i: usize = 0;
    while i < replay.events.len()
        invariant
            es == replay.events@,
            v0 == replay_view(replay.initial_scenario),
            target_turn != 0,
            has_turn(*replay, target_turn),
            same_apart_from_play(&replay.initial_scenario, &sc),
            i <= es.len(),
            seek_view(v0, es, target_turn) == seek_view(replay_view(sc), es.skip(i as int), target_turn),
            seek_fits(replay_view(sc), es.skip(i as int), target_turn),
        decreases es.len() - i,
    {
        proof {
            assert(es.skip(i as int)[0] == es[i as int]);
            assert(es.skip(i as int).drop_first() =~= es.skip(i + 1));
        }
        let e = &replay.events[i];
        let ghost before = replay_view(sc);
        proof {
            assert(*e == es.skip(i as int)[0]);
        }
        match apply_event(&mut sc, e) {
            Err(m) => {
                proof {
                    assert(seek_view(before, es.skip(i as int), target_turn) == Err::<
                        (Map<Seq<char>, PowerState>, Map<Seq<char>, Corps>, u32),
                        Seq<char>,
                    >(m@));
                }
                return Err(m);
            },
            Ok(()) => {},
        }
        let stop = match e {
            Event::TurnCompleted { turn, .. } => *turn + 1 == target_turn,
            _ => false,
        };
        if stop {
            proof {
                assert(ends_turn_before(*e, target_turn));
                assert(seek_view(before, es.skip(i as int), target_turn) == Ok::<
                    (Map<Seq<char>, PowerState>, Map<Seq<char>, Corps>, u32),
                    Seq<char>,
                >(replay_view(sc)));
            }
            return Ok(sc);
        }
        i = i + 1;
    }
    proof {
        assert(es.skip(i as int).len() == 0);
    }
    let mut v: Vec<char> = Vec::new();
    push_str(&mut v, "replay ended before reaching turn ");
    push_decimal(target_turn as u64, &mut v);
    push_str(&mut v, "; missing TurnCompleted marker");
    Err(string_from_chars(v.as_slice()))
}

/// Compares a recorded turn hash with the hash of the reconstructed
/// scenario.
pub fn check_turn_hash(expected: &TurnHash, actual: &str) -> (r: Result<(), String>)
    ensures
        r is Ok <==> expected.hash@ == actual@,
        r is Err ==> r->Err_0@ == "integrity check failed at turn "@ + decimal(expected.turn as nat) + ": expected "@
            + expected.hash@ + ", got "@ + actual@,
{
    if expected.hash == actual.to_owned() {
        return Ok(());
    }
    let mut v: Vec<char> = Vec::new();
    push_str(&mut v, "integrity check failed at turn ");
    push_decimal(expected.turn as u64, &mut v);
    push_str(&mut v, ": expected ");
    push_str(&mut v, expected.hash.as_str());
    push_str(&mut v, ", got ");
    push_str(&mut v, actual);
    Err(string_from_chars(v.as_slice()))
}


/// Whether applying `e` to `s` stays within the integer ranges of the
/// fields it changes: [`event_fits`], computed.
fn event_fits_check(s: &Scenario, e: &Event) -> (b: bool)
    ensures
        b == event_fits(replay_view(*s), *e),
{
    match e {
        Event::IncomePaid { power, net, .. } => match s.power_state.get(power.as_str()) {
            Some(ps) => ps.treasury.checked_add(*net).is_some(),
            None => true,
        },
        Event::MaintenancePaid { power, corps_cost, fleet_cost } => match corps_cost.checked_add(*fleet_cost) {
            None => false,
            Some(cost) => match s.power_state.get(power.as_str()) {
                Some(ps) => ps.treasury.checked_sub(cost).is_some(),
                None => true,
            },
        },
        Event::TurnCompleted { turn, .. } => *turn < u32::MAX,
        _ => true,
    }
}

/// Whether reconstructing the scenario at turn `target_turn` stays within
/// the integer ranges of the fields it changes: [`seek_fits`] over the
/// replay's events from its initial scenario, computed.
pub fn seek_fits_check(replay: &ReplayFile, target_turn: u32) -> (b: bool)
    ensures
        b == seek_fits(replay_view(replay.initial_scenario), replay.events@, target_turn),
{
    let mut sc = copy_scenario(&replay.initial_scenario);
    let ghost es = replay.events@;
    let ghost v0 = replay_view(replay.initial_scenario);
    proof {
        assert(es.skip(0) =~= es);
    }
    let mut i: usize = 0;
    while i < replay.events.len()
        invariant
            es == replay.events@,
            v0 == replay_view(replay.initial_scenario),
            i <= es.len(),
            seek_fits(v0, es, target_turn) == seek_fits(replay_view(sc), es.skip(i as int), target_turn),
        decreases es.len() - i,
    {
        proof {
            assert(es.skip(i as int)[0] == es[i as int]);
            assert(es.skip(i as int).drop_first() =~= es.skip(i + 1));
        }
        let e = &replay.events[i];
        if !event_fits_check(&sc, e) {
            return false;
        }
        match apply_event(&mut sc, e) {
            Err(_) => {
                return true;
            },
            Ok(()) => {},
        }
        let stop = match e {
            Event::TurnCompleted { turn, .. } => *turn as u64 + 1 == target_turn as u64,
            _ => false,
        };
        if stop {
            return true;
        }
        i = i + 1;
    }
    true
}

} // verus!
