//! Naval combat helpers.

use vstd::prelude::*;

use crate::combat::fits;
use crate::economy::fleet_size;
use crate::events::{Event, OrderRejected};
use crate::ids::{CorpsId, FleetId, PowerId, SeaZoneId};
use crate::naval_types::NavalOutcome;
use crate::graph::{lists_edge, lists_name, lists_source, NamedGraph};
use crate::ids::AreaId;
use crate::orders::{DisembarkOrder, EmbarkOrder, MoveFleetOrder, NavalAttackOrder};
use crate::scenario::Owner;
use crate::scenario::{relation, Corps, DiplomaticState, Fleet, Scenario};
use crate::strmap::{lemma_lex_total, lemma_lex_transitive, lemma_text_order_total, lex_lt, str_less, text_order, StrMap};
use crate::scenario::copy_corps_ids;
use vstd::relations::sorted_by;
use vstd::seq_lib::{lemma_sorted_unique, to_multiset_build, to_multiset_insert};
use crate::tables::{Maybe, NavalCombatTable, NavalResult};
use crate::text::{push_str, string_from_chars};

verus! {

/// The naval ratio bucket for the given ship counts: `2:1` when the
/// defender has no ships or the attacker has at least twice as many,
/// `1:1` when the attacker has at least as many, otherwise `1:2`.
pub open spec fn naval_bucket(attacker: int, defender: int) -> Seq<char> {
    if defender <= 0 || attacker >= 2 * defender {
        "2:1"@
    } else if attacker >= defender {
        "1:1"@
    } else {
        "1:2"@
    }
}

/// The naval ratio bucket for the given ship counts.
pub fn naval_ratio_bucket(attacker: i32, defender: i32) -> (b: &'static str)
    ensures
        b@ == naval_bucket(attacker as int, defender as int),
{
    if defender <= 0 || attacker as i64 >= 2 * (defender as i64) {
        "2:1"
    } else if attacker >= defender {
        "1:1"
    } else {
        "1:2"
    }
}

/// A naval attack against no ships, or with at least twice the
/// defender's ships, reads the 2:1 row; with at least as many, the 1:1
/// row; with fewer, the 1:2 row.
pub proof fn lemma_naval_buckets(att: int, def: int)
    ensures
        def <= 0 ==> naval_bucket(att, def) == "2:1"@,
        att >= 2 * def ==> naval_bucket(att, def) == "2:1"@,
        0 < def <= att < 2 * def ==> naval_bucket(att, def) == "1:1"@,
        att < def && def > 0 ==> naval_bucket(att, def) == "1:2"@,
{
}

// ─── Naval battle ──────────────────────────────────────────────────────

/// The smaller of two integers.
pub open spec fn imin(a: int, b: int) -> int {
    if a < b {
        a
    } else {
        b
    }
}

/// A fleet after losing `loss` ships: ships of the line first, then
/// frigates, then transports.
pub open spec fn after_ship_loss(f: Fleet, loss: int) -> Fleet {
    let s1 = imin(f.ships_of_the_line as int, loss);
    let l1 = loss - s1;
    let f1 = Fleet { ships_of_the_line: (f.ships_of_the_line - s1) as i32, ..f };
    if l1 > 0 {
        let s2 = imin(f.frigates as int, l1);
        let l2 = l1 - s2;
        let f2 = Fleet { frigates: (f.frigates - s2) as i32, ..f1 };
        if l2 > 0 {
            Fleet { transports: (f.transports - imin(f.transports as int, l2)) as i32, ..f2 }
        } else {
            f2
        }
    } else {
        f1
    }
}

/// A fleet that loses `loss` ships keeps exactly what is left of its
/// ships, none when the loss exceeds them: ships of the line go first,
/// then frigates, then transports, and nothing else about the fleet
/// changes.
pub proof fn lemma_ship_loss_order(f: Fleet, loss: int)
    requires
        f.ships_of_the_line >= 0,
        f.frigates >= 0,
        f.transports >= 0,
        loss >= 0,
        ship_loss_fits(f, loss),
    ensures
        ({
            let r = after_ship_loss(f, loss);
            let line = f.ships_of_the_line as int;
            let frig = f.frigates as int;
            let left = line + frig + f.transports as int - loss;
            &&& r.ships_of_the_line as int + r.frigates as int + r.transports as int == (if left < 0 {
                0
            } else {
                left
            })
            &&& loss <= line ==> r.ships_of_the_line == line - loss && r.frigates == f.frigates && r.transports
                == f.transports
            &&& line < loss <= line + frig ==> r.ships_of_the_line == 0 && r.frigates == line + frig - loss
                && r.transports == f.transports
            &&& line + frig < loss ==> r.ships_of_the_line == 0 && r.frigates == 0
            &&& r == (Fleet {
                ships_of_the_line: r.ships_of_the_line,
                frigates: r.frigates,
                transports: r.transports,
                ..f
            })
        }),
{
}

/// Losing ships stays within `i32`.
pub open spec fn ship_loss_fits(f: Fleet, loss: int) -> bool {
    let s1 = imin(f.ships_of_the_line as int, loss);
    let l1 = loss - s1;
    let s2 = imin(f.frigates as int, l1);
    let l2 = l1 - s2;
    &&& fits(f.ships_of_the_line - s1)
    &&& fits(l1)
    &&& l1 > 0 ==> fits(f.frigates - s2) && fits(l2)
    &&& (l1 > 0 && l2 > 0) ==> fits(f.transports - imin(f.transports as int, l2))
}

/// The fleet table after fleet `k` lost `loss` ships (unchanged when it is
/// missing).
pub open spec fn fleet_hit(m: Map<Seq<char>, Fleet>, k: Seq<char>, loss: int) -> Map<Seq<char>, Fleet> {
    if m.contains_key(k) {
        m.insert(k, after_ship_loss(m[k], loss))
    } else {
        m
    }
}

/// The loss of the `i`-th defending fleet: an equal share, one more for
/// the first `rem`.
pub open spec fn naval_share(i: int, base: int, rem: int) -> int {
    if i < rem {
        base + 1
    } else {
        base
    }
}

/// The fleet table after the first `j` listed fleets took their shares.
pub open spec fn fleet_losses(m: Map<Seq<char>, Fleet>, ks: Seq<Seq<char>>, j: nat, base: int, rem: int) -> Map<Seq<char>, Fleet>
    decreases j,
{
    if j == 0 || j > ks.len() {
        m
    } else {
        fleet_hit(fleet_losses(m, ks, (j - 1) as nat, base, rem), ks[j - 1], naval_share(j - 1, base, rem))
    }
}

/// Every step of [`fleet_losses`] stays within `i32`.
pub open spec fn fleet_losses_fit(m: Map<Seq<char>, Fleet>, ks: Seq<Seq<char>>, j: nat, base: int, rem: int) -> bool
    decreases j,
{
    if j == 0 || j > ks.len() {
        true
    } else {
        let m1 = fleet_losses(m, ks, (j - 1) as nat, base, rem);
        &&& fleet_losses_fit(m, ks, (j - 1) as nat, base, rem)
        &&& m1.contains_key(ks[j - 1]) ==> ship_loss_fits(m1[ks[j - 1]], naval_share(j - 1, base, rem))
    }
}

/// The fleet table after `total` ship losses are spread over the listed
/// fleets.
pub open spec fn ships_spread(m: Map<Seq<char>, Fleet>, ks: Seq<Seq<char>>, total: int) -> Map<Seq<char>, Fleet> {
    if ks.len() == 0 || total <= 0 {
        m
    } else {
        fleet_losses(m, ks, ks.len(), total / (ks.len() as int), total % (ks.len() as int))
    }
}

/// Spreading the loss stays within `i32`.
pub open spec fn ships_spread_fits(m: Map<Seq<char>, Fleet>, ks: Seq<Seq<char>>, total: int) -> bool {
    ks.len() == 0 || total <= 0 || (ks.len() <= i32::MAX && fleet_losses_fit(
        m,
        ks,
        ks.len(),
        total / (ks.len() as int),
        total % (ks.len() as int),
    ))
}

/// Summed ships of the listed fleets that exist.
pub open spec fn listed_ships(m: Map<Seq<char>, Fleet>, ks: Seq<Seq<char>>) -> int
    decreases ks.len(),
{
    if ks.len() == 0 {
        0
    } else {
        listed_ships(m, ks.drop_last()) + if m.contains_key(ks.last()) {
            fleet_size(m[ks.last()])
        } else {
            0
        }
    }
}

/// Every partial sum of [`listed_ships`] fits an `i32`.
pub open spec fn listed_ships_fit(m: Map<Seq<char>, Fleet>, ks: Seq<Seq<char>>) -> bool
    decreases ks.len(),
{
    if ks.len() == 0 {
        true
    } else {
        &&& listed_ships_fit(m, ks.drop_last())
        &&& fits(listed_ships(m, ks))
        &&& m.contains_key(ks.last()) ==> fits(m[ks.last()].ships_of_the_line as int + m[ks.last()].frigates as int)
            && fits(fleet_size(m[ks.last()]))
    }
}

/// The fleet stands in sea zone `z`.
pub open spec fn at_sea_in(f: Fleet, z: Seq<char>) -> bool {
    f.at_sea matches Some(x) && x@ == z
}

/// Names, in key order, of the fleets in `z` of powers `p` is at war with.
pub open spec fn naval_defender_ids(s: &Scenario, es: Seq<(String, Fleet)>, z: Seq<char>, p: Seq<char>) -> Seq<Seq<char>>
    decreases es.len(),
{
    if es.len() == 0 {
        Seq::empty()
    } else {
        let rest = naval_defender_ids(s, es.drop_last(), z, p);
        let f = es.last().1;
        if f.owner@ != p && at_sea_in(f, z) && relation(s, p, f.owner@) == Some(DiplomaticState::War) {
            rest.push(es.last().0@)
        } else {
            rest
        }
    }
}

/// The defending fleets of a naval attack.
pub open spec fn naval_defenders(s: &Scenario, o: NavalAttackOrder) -> Seq<Seq<char>> {
    naval_defender_ids(s, s.fleets.entries_view(), o.target_zone@, o.submitter@)
}

/// Ships of the attacking fleet.
pub open spec fn attacker_ships(s: &Scenario, o: NavalAttackOrder) -> int {
    fleet_size(s.fleets@[o.fleet@])
}

/// The naval results cell a battle reads, when every lookup finds an
/// authored value.
pub open spec fn naval_cell(s: &Scenario, t: &NavalCombatTable, seed: u64, o: NavalAttackOrder) -> Option<NavalResult> {
    let b = naval_bucket(attacker_ships(s, o), listed_ships(s.fleets@, naval_defenders(s, o)));
    if !t.results@.contains_key(b) {
        None
    } else {
        let col = (seed % (t.die_faces as u64)) as int;
        if col >= t.results@[b]@.len() {
            None
        } else {
            match t.results@[b]@[col] {
                Maybe::Value(r) => Some(r),
                Maybe::Placeholder(_) => None,
            }
        }
    }
}

/// The attacking fleet is a known fleet of the submitter standing in the
/// target zone, and there is a defender.
pub open spec fn naval_ready(s: &Scenario, o: NavalAttackOrder) -> bool {
    &&& s.fleets@.contains_key(o.fleet@)
    &&& s.fleets@[o.fleet@].owner@ == o.submitter@
    &&& at_sea_in(s.fleets@[o.fleet@], o.target_zone@)
    &&& naval_defenders(s, o).len() > 0
}

/// Fleet table after both sides' losses.
pub open spec fn naval_after(s: &Scenario, o: NavalAttackOrder, r: NavalResult) -> Map<Seq<char>, Fleet> {
    let att = attacker_ships(s, o);
    let ds = naval_defenders(s, o);
    let def = listed_ships(s.fleets@, ds);
    ships_spread(fleet_hit(s.fleets@, o.fleet@, imin(r.attacker_ship_loss as int, att)), ds, imin(r.defender_ship_loss as int, def))
}

/// The arithmetic of the battle stays within `i32` and its lookups are
/// defined.
pub open spec fn naval_fits(s: &Scenario, t: &NavalCombatTable, seed: u64, o: NavalAttackOrder) -> bool {
    let ds = naval_defenders(s, o);
    let m0 = s.fleets@;
    naval_ready(s, o) ==> {
        &&& fits(s.fleets@[o.fleet@].ships_of_the_line as int + s.fleets@[o.fleet@].frigates as int)
        &&& fits(attacker_ships(s, o))
        &&& listed_ships_fit(m0, ds)
        &&& ds.len() <= i32::MAX
        &&& t.results@.contains_key(naval_bucket(attacker_ships(s, o), listed_ships(m0, ds))) ==> t.die_faces > 0
        &&& naval_cell(s, t, seed, o) matches Some(r) ==> {
            let att = attacker_ships(s, o);
            let m1 = fleet_hit(m0, o.fleet@, imin(r.attacker_ship_loss as int, att));
            let m2 = naval_after(s, o, r);
            &&& ship_loss_fits(m0[o.fleet@], imin(r.attacker_ship_loss as int, att))
            &&& ships_spread_fits(m1, ds, imin(r.defender_ship_loss as int, listed_ships(m0, ds)))
            &&& fits(fleet_size(m2[o.fleet@])) && fits(m2[o.fleet@].ships_of_the_line as int + m2[o.fleet@].frigates as int)
            &&& listed_ships_fit(m2, ds)
            &&& fits(att - fleet_size(m2[o.fleet@]))
            &&& fits(listed_ships(m0, ds) - listed_ships(m2, ds))
        }
    }
}

/// What resolving a naval battle does and which event it returns.
pub open spec fn naval_result(s0: &Scenario, s1: &Scenario, t: &NavalCombatTable, seed: u64, o: NavalAttackOrder, ev: Seq<Event>) -> bool {
    let m0 = s0.fleets@;
    let f = o.fleet@;
    let z = o.target_zone@;
    let p = o.submitter@;
    let reject = |code: Seq<char>, text: Seq<char>|
        *s1 == *s0 && ev.len() == 1 && (ev[0] matches Event::OrderRejected(x) && x.reason_code@ == code && x.message@ == text);
    if !m0.contains_key(f) {
        reject("UNKNOWN_FLEET"@, "unknown fleet `"@ + f + "`"@)
    } else if m0[f].owner@ != p {
        reject("FLEET_NOT_OWNER"@, "fleet `"@ + f + "` is owned by `"@ + m0[f].owner@ + "`, not `"@ + p + "`"@)
    } else if !at_sea_in(m0[f], z) {
        reject("FLEET_NOT_IN_TARGET_ZONE"@, "fleet `"@ + f + "` is not in target zone `"@ + z + "`"@)
    } else if naval_defenders(s0, o).len() == 0 {
        reject("NO_NAVAL_DEFENDER"@, "no enemy fleet in `"@ + z + "`"@)
    } else {
        let ds = naval_defenders(s0, o);
        let att = attacker_ships(s0, o);
        let def = listed_ships(m0, ds);
        let b = naval_bucket(att, def);
        let col = (seed % (t.die_faces as u64)) as int;
        if !t.results@.contains_key(b) {
            reject("NAVAL_TABLE_PLACEHOLDER"@, "naval combat bucket `"@ + b + "` missing or placeholder"@)
        } else if col >= t.results@[b]@.len() {
            reject("NAVAL_TABLE_PLACEHOLDER"@, "naval combat die result missing or placeholder"@)
        } else if t.results@[b]@[col] is Placeholder {
            reject("NAVAL_TABLE_PLACEHOLDER"@, "naval combat values are PLACEHOLDER"@)
        } else {
            let r = t.results@[b]@[col]->Value_0;
            let m2 = naval_after(s0, o, r);
            let att_after = fleet_size(m2[f]);
            let def_after = listed_ships(m2, ds);
            let outcome = if def_after == 0 {
                NavalOutcome::DefenderSunk
            } else if att_after < att && def_after < def {
                NavalOutcome::MutualLoss
            } else {
                NavalOutcome::AttackerRepulsed
            };
            &&& *s1 == (Scenario { fleets: s1.fleets, ..*s0 })
            &&& s1.fleets@ == m2
            &&& ev.len() == 1
            &&& ev[0] == Event::NavalBattleResolved {
                sea_zone: o.target_zone,
                attacker: o.submitter,
                defender: m0[ds[0]].owner,
                attacker_ships_lost: (att - att_after) as i32,
                defender_ships_lost: (def - def_after) as i32,
                outcome,
            }
        }
    }
}

/// The outcome a naval battle reports follows from the losses it reports:
/// the defender is sunk when none of its listed fleets' ships are left;
/// otherwise, when both sides lost ships the battle is a mutual loss, and
/// when either side lost none the attacker is repulsed.
pub proof fn lemma_naval_outcome(
    s0: &Scenario,
    s1: &Scenario,
    t: &NavalCombatTable,
    seed: u64,
    o: NavalAttackOrder,
    ev: Seq<Event>,
)
    requires
        naval_fits(s0, t, seed, o),
        naval_result(s0, s1, t, seed, o, ev),
    ensures
        ev[0] matches Event::NavalBattleResolved { attacker_ships_lost, defender_ships_lost, outcome, .. } ==> {
            let left = listed_ships(s1.fleets@, naval_defenders(s0, o));
            &&& left == 0 ==> outcome == NavalOutcome::DefenderSunk
            &&& left != 0 && attacker_ships_lost > 0 && defender_ships_lost > 0 ==> outcome
                == NavalOutcome::MutualLoss
            &&& left != 0 && (attacker_ships_lost <= 0 || defender_ships_lost <= 0) ==> outcome
                == NavalOutcome::AttackerRepulsed
        },
{
}

/// A fleet with nothing in it, held in a table slot while the real one is
/// being changed.
fn empty_fleet() -> (f: Fleet)
    ensures
        f.display_name@.len() == 0,
        f.owner@.len() == 0,
        f.at_port is None,
        f.at_sea is None,
        f.ships_of_the_line == 0,
        f.frigates == 0,
        f.transports == 0,
        f.morale_q4 == 0,
        f.admiral is None,
        f.embarked_corps@.len() == 0,
{
    Fleet {
        display_name: String::new(),
        owner: PowerId(String::new()),
        at_port: None,
        at_sea: None,
        ships_of_the_line: 0,
        frigates: 0,
        transports: 0,
        morale_q4: 0,
        admiral: None,
        embarked_corps: Vec::new(),
    }
}

/// Ships in a fleet.
fn total_ships(f: &Fleet) -> (n: i32)
    requires
        fits(f.ships_of_the_line as int + f.frigates as int),
        fits(fleet_size(*f)),
    ensures
        n == fleet_size(*f),
{
    f.ships_of_the_line + f.frigates + f.transports
}

/// Removes `loss` ships from fleet `id`, ships of the line first.
fn apply_ship_loss(fleets: &mut StrMap<Fleet>, id: &FleetId, loss: i32)
    requires
        old(fleets)@.contains_key(id@) ==> ship_loss_fits(old(fleets)@[id@], loss as int),
    ensures
        final(fleets)@ == fleet_hit(old(fleets)@, id@, loss as int),
{
    match fleets.find(id.as_str()) {
        Some(j) => {
            let ghost m0 = fleets@;
            let ghost k = fleets.entries_view()[j as int].0@;
            proof {
                assert(fleets@.contains_key(k));
            }
            let mut f = fleets.set_value_at(j, empty_fleet());
            let ghost f0 = f;
            let mut left = loss;
            let step = if f.ships_of_the_line < left {
                f.ships_of_the_line
            } else {
                left
            };
            f.ships_of_the_line = f.ships_of_the_line - step;
            left = left - step;
            if left > 0 {
                let step = if f.frigates < left {
                    f.frigates
                } else {
                    left
                };
                f.frigates = f.frigates - step;
                left = left - step;
                if left > 0 {
                    let step = if f.transports < left {
                        f.transports
                    } else {
                        left
                    };
                    f.transports = f.transports - step;
                }
            }
            proof {
                assert(f == after_ship_loss(f0, loss as int));
            }
            fleets.set_value_at(j, f);
            proof {
                assert(fleets@ =~= m0.insert(k, f));
            }
        },
        None => {},
    }
}

proof fn lemma_fleet_losses_fit_prefix(m: Map<Seq<char>, Fleet>, ks: Seq<Seq<char>>, k: nat, j: nat, base: int, rem: int)
    requires
        fleet_losses_fit(m, ks, k, base, rem),
        j <= k <= ks.len(),
    ensures
        fleet_losses_fit(m, ks, j, base, rem),
    decreases k,
{
    if j < k {
        lemma_fleet_losses_fit_prefix(m, ks, (k - 1) as nat, j, base, rem);
    }
}

/// The names of a list of fleet IDs.
pub open spec fn fleet_keys(ids: Seq<FleetId>) -> Seq<Seq<char>> {
    ids.map_values(|f: FleetId| f@)
}

/// Spreads `total_loss` ships over the listed fleets in order: each takes
/// an equal share and the first ones one more each for the remainder.
fn distribute_ship_loss(fleets: &mut StrMap<Fleet>, ids: &Vec<FleetId>, total_loss: i32)
    requires
        ships_spread_fits(old(fleets)@, fleet_keys(ids@), total_loss as int),
    ensures
        final(fleets)@ == ships_spread(old(fleets)@, fleet_keys(ids@), total_loss as int),
{
    if ids.len() == 0 || total_loss <= 0 {
        return;
    }
    let ghost ks = fleet_keys(ids@);
    let ghost m0 = fleets@;
    let count = ids.len() as i32;
    let base = total_loss / count;
    let rem = total_loss % count;
    let mut i: usize = 0;
    while i < ids.len()
        invariant
            ks == fleet_keys(ids@),
            count == ids@.len(),
            count > 0,
            base == total_loss / count,
            rem == total_loss % count,
            0 <= rem < count,
            total_loss > 0,
            fleet_losses_fit(m0, ks, ks.len(), base as int, rem as int),
            i <= ids@.len(),
            fleets@ == fleet_losses(m0, ks, i as nat, base as int, rem as int),
        decreases ids@.len() - i,
    {
        proof {
            lemma_fleet_losses_fit_prefix(m0, ks, ks.len(), (i + 1) as nat, base as int, rem as int);
            assert(ks[i as int] == ids@[i as int]@);
            assert(rem > 0 ==> base + 1 <= total_loss) by (nonlinear_arith)
                requires
                    base == total_loss / count,
                    count >= 1,
                    total_loss > 0,
                    rem == total_loss % count,
            ;
        }
        let extra: i32 = if (i as i32) < rem {
            1
        } else {
            0
        };
        apply_ship_loss(fleets, &ids[i], base + extra);
        i = i + 1;
    }
}


proof fn lemma_listed_ships_prefix(m: Map<Seq<char>, Fleet>, ks: Seq<Seq<char>>, i: int)
    requires
        listed_ships_fit(m, ks),
        0 <= i <= ks.len(),
    ensures
        listed_ships_fit(m, ks.take(i)),
    decreases ks.len(),
{
    if i == ks.len() {
        assert(ks.take(i) =~= ks);
    } else {
        assert(ks.drop_last().take(i) =~= ks.take(i));
        lemma_listed_ships_prefix(m, ks.drop_last(), i);
    }
}

/// Summed ships of the listed fleets that exist.
fn ships_of_list(m: &StrMap<Fleet>, ids: &Vec<FleetId>) -> (r: i32)
    requires
        listed_ships_fit(m@, fleet_keys(ids@)),
    ensures
        r == listed_ships(m@, fleet_keys(ids@)),
{
    let ghost ks = fleet_keys(ids@);
    let mut acc: i32 = 0;
    let mut i: usize = 0;
    while i < ids.len()
        invariant
            ks == fleet_keys(ids@),
            listed_ships_fit(m@, ks),
            i <= ids@.len(),
            acc == listed_ships(m@, ks.take(i as int)),
        decreases ids@.len() - i,
    {
        proof {
            lemma_listed_ships_prefix(m@, ks, i + 1);
            assert(ks.take(i + 1).drop_last() =~= ks.take(i as int));
            assert(ks.take(i + 1).last() == ids@[i as int]@);
        }
        match m.get(ids[i].as_str()) {
            Some(f) => {
                acc = acc + (f.ships_of_the_line + f.frigates + f.transports);
            },
            None => {},
        }
        i = i + 1;
    }
    proof {
        assert(ks.take(ids@.len() as int) =~= ks);
    }
    acc
}

/// Ship losses keep every fleet in the table.
proof fn lemma_fleet_losses_dom(m: Map<Seq<char>, Fleet>, ks: Seq<Seq<char>>, j: nat, base: int, rem: int)
    ensures
        fleet_losses(m, ks, j, base, rem).dom() == m.dom(),
    decreases j,
{
    if j > 0 && j <= ks.len() {
        lemma_fleet_losses_dom(m, ks, (j - 1) as nat, base, rem);
        let m1 = fleet_losses(m, ks, (j - 1) as nat, base, rem);
        assert(fleet_hit(m1, ks[j - 1], naval_share(j - 1, base, rem)).dom() =~= m1.dom());
    }
}

/// Whether a fleet stands in sea zone `z`.
fn in_zone(f: &Fleet, z: &SeaZoneId) -> (r: bool)
    ensures
        r == at_sea_in(*f, z@),
{
    match &f.at_sea {
        Some(x) => x.same(z),
        None => false,
    }
}

/// The fleets in `z` of powers `p` is at war with, in key order.
fn naval_defender_list(s: &Scenario, z: &SeaZoneId, p: &PowerId) -> (v: Vec<FleetId>)
    ensures
        fleet_keys(v@) == naval_defender_ids(s, s.fleets.entries_view(), z@, p@),
        forall|i: int| 0 <= i < v@.len() ==> s.fleets@.contains_key(#[trigger] v@[i]@),
{
    let n = s.fleets.len();
    let mut v: Vec<FleetId> = Vec::new();
    let mut i: usize = 0;
    while i < n
        invariant
            n == s.fleets.entries_view().len(),
            s.fleets.well_formed(),
            i <= n,
            fleet_keys(v@) == naval_defender_ids(s, s.fleets.entries_view().take(i as int), z@, p@),
            forall|j: int| 0 <= j < v@.len() ==> s.fleets@.contains_key(#[trigger] v@[j]@),
        decreases n - i,
    {
        let ghost es = s.fleets.entries_view();
        proof {
            assert(es.take(i + 1).drop_last() =~= es.take(i as int));
            assert(es.take(i + 1).last() == es[i as int]);
        }
        let f = s.fleets.value_at(i);
        if !f.owner.same(p) && in_zone(f, z) {
            match crate::scenario::diplomatic_state(s, p, &f.owner) {
                Some(DiplomaticState::War) => {
                    let ghost before = v@;
                    v.push(FleetId(s.fleets.key_at(i).clone()));
                    proof {
                        assert(fleet_keys(v@) =~= fleet_keys(before).push(es[i as int].0@));
                        assert(s.fleets@.contains_key(es[i as int].0@));
                        assert forall|j: int| 0 <= j < v@.len() implies s.fleets@.contains_key(#[trigger] v@[j]@) by {
                            if j < before.len() {
                                assert(v@[j] == before[j]);
                            }
                        }
                    }
                },
                _ => {},
            }
        }
        i = i + 1;
    }
    proof {
        assert(s.fleets.entries_view().take(n as int) =~= s.fleets.entries_view());
    }
    v
}

/// A single rejection event.
fn naval_rejection(code: &str, message: String) -> (v: Vec<Event>)
    ensures
        v@.len() == 1,
        v@[0] matches Event::OrderRejected(x) && x.reason_code@ == code@ && x.message@ == message@,
{
    let mut v: Vec<Event> = Vec::new();
    v.push(Event::OrderRejected(OrderRejected { reason_code: code.to_string(), message }));
    v
}

/// Resolves a naval attack: the attacking fleet and the enemy fleets in its
/// zone exchange losses read from the naval table; returns the outcome.
pub fn resolve_naval_battle(s: &mut Scenario, tables: &NavalCombatTable, rng_seed: u64, order: &NavalAttackOrder) -> (ev: Vec<Event>)
    requires
        naval_fits(&*old(s), tables, rng_seed, *order),
    ensures
        naval_result(&*old(s), &*final(s), tables, rng_seed, *order, ev@),
{
    let ghost s0 = *s;
    let f = match s.fleets.get(order.fleet.as_str()) {
        Some(f) => f,
        None => {
            let mut v: Vec<char> = Vec::new();
            push_str(&mut v, "unknown fleet `");
            push_str(&mut v, order.fleet.as_str());
            push_str(&mut v, "`");
            return naval_rejection("UNKNOWN_FLEET", string_from_chars(v.as_slice()));
        },
    };
    if !f.owner.same(&order.submitter) {
        let mut v: Vec<char> = Vec::new();
        push_str(&mut v, "fleet `");
        push_str(&mut v, order.fleet.as_str());
        push_str(&mut v, "` is owned by `");
        push_str(&mut v, f.owner.as_str());
        push_str(&mut v, "`, not `");
        push_str(&mut v, order.submitter.as_str());
        push_str(&mut v, "`");
        return naval_rejection("FLEET_NOT_OWNER", string_from_chars(v.as_slice()));
    }
    if !in_zone(f, &order.target_zone) {
        let mut v: Vec<char> = Vec::new();
        push_str(&mut v, "fleet `");
        push_str(&mut v, order.fleet.as_str());
        push_str(&mut v, "` is not in target zone `");
        push_str(&mut v, order.target_zone.as_str());
        push_str(&mut v, "`");
        return naval_rejection("FLEET_NOT_IN_TARGET_ZONE", string_from_chars(v.as_slice()));
    }
    let defenders = naval_defender_list(s, &order.target_zone, &order.submitter);
    if defenders.len() == 0 {
        let mut v: Vec<char> = Vec::new();
        push_str(&mut v, "no enemy fleet in `");
        push_str(&mut v, order.target_zone.as_str());
        push_str(&mut v, "`");
        return naval_rejection("NO_NAVAL_DEFENDER", string_from_chars(v.as_slice()));
    }
    let att_before = total_ships(f);
    let def_before = ships_of_list(&s.fleets, &defenders);
    let bucket = naval_ratio_bucket(att_before, def_before);
    let row = match tables.results.get(bucket) {
        Some(r) => r,
        None => {
            let mut v: Vec<char> = Vec::new();
            push_str(&mut v, "naval combat bucket `");
            push_str(&mut v, bucket);
            push_str(&mut v, "` missing or placeholder");
            return naval_rejection("NAVAL_TABLE_PLACEHOLDER", string_from_chars(v.as_slice()));
        },
    };
    let die = (rng_seed % (tables.die_faces as u64)) as usize;
    if die >= row.len() {
        return naval_rejection(
            "NAVAL_TABLE_PLACEHOLDER",
            "naval combat die result missing or placeholder".to_string(),
        );
    }
    let r: NavalResult = match &row[die] {
        Maybe::Value(v) => *v,
        Maybe::Placeholder(_) => {
            return naval_rejection("NAVAL_TABLE_PLACEHOLDER", "naval combat values are PLACEHOLDER".to_string());
        },
    };
    let defending_power = match s.fleets.get(defenders[0].as_str()) {
        Some(d) => d.owner.duplicate(),
        None => PowerId(String::new()),
    };
    proof {
        assert(naval_cell(&s0, tables, rng_seed, *order) == Some(r));
        assert(s0.fleets@.contains_key(defenders@[0]@));
    }
    let att_loss = if r.attacker_ship_loss < att_before {
        r.attacker_ship_loss
    } else {
        att_before
    };
    let def_loss = if r.defender_ship_loss < def_before {
        r.defender_ship_loss
    } else {
        def_before
    };
    apply_ship_loss(&mut s.fleets, &order.fleet, att_loss);
    let ghost m1 = s.fleets@;
    distribute_ship_loss(&mut s.fleets, &defenders, def_loss);
    proof {
        assert(m1.dom() =~= s0.fleets@.dom());
        let ks = fleet_keys(defenders@);
        if ks.len() > 0 && def_loss > 0 {
            lemma_fleet_losses_dom(m1, ks, ks.len(), (def_loss / (ks.len() as i32)) as int, (def_loss % (ks.len() as i32)) as int);
        }
        assert(s.fleets@.contains_key(order.fleet@));
    }
    let att_after = match s.fleets.get(order.fleet.as_str()) {
        Some(f) => total_ships(f),
        None => 0,
    };
    let def_after = ships_of_list(&s.fleets, &defenders);
    let outcome = if def_after == 0 {
        NavalOutcome::DefenderSunk
    } else if att_after < att_before && def_after < def_before {
        NavalOutcome::MutualLoss
    } else {
        NavalOutcome::AttackerRepulsed
    };
    let mut events: Vec<Event> = Vec::new();
    events.push(
        Event::NavalBattleResolved {
            sea_zone: order.target_zone.duplicate(),
            attacker: order.submitter.duplicate(),
            defender: defending_power,
            attacker_ships_lost: att_before - att_after,
            defender_ships_lost: def_before - def_after,
            outcome,
        },
    );
    events
}


// ─── Sea graph and fleet movement ──────────────────────────────────────

/// `a` is a sea zone of the scenario's sea map: a declared zone, or an end
/// of some sea adjacency.
pub open spec fn sea_node(s: &Scenario, a: Seq<char>) -> bool {
    s.sea_zones@.contains_key(a) || exists|t: int|
        0 <= t < s.sea_adjacency@.len() && (#[trigger] s.sea_adjacency@[t].from@ == a || s.sea_adjacency@[t].to@ == a)
}

/// The scenario joins zones `a` and `b` (sea adjacency is undirected).
pub open spec fn sea_link(s: &Scenario, a: Seq<char>, b: Seq<char>) -> bool {
    exists|t: int|
        0 <= t < s.sea_adjacency@.len() && ((#[trigger] s.sea_adjacency@[t].from@ == a && s.sea_adjacency@[t].to@ == b)
            || (s.sea_adjacency@[t].to@ == a && s.sea_adjacency@[t].from@ == b))
}

/// The sea zones as an undirected graph.
pub struct SeaGraph {
    pub graph: NamedGraph,
}

/// A sequence of zones read as names.
pub open spec fn zone_names(p: Seq<SeaZoneId>) -> Seq<Seq<char>> {
    p.map_values(|x: SeaZoneId| x@)
}

impl SeaGraph {
    /// Builds the sea graph of a scenario.
    pub fn new(s: &Scenario) -> (g: Self)
        ensures
            forall|a: Seq<char>| #[trigger] g.graph.is_node(a) <==> sea_node(s, a),
            forall|a: Seq<char>, b: Seq<char>| #[trigger] g.graph.link(a, b) <==> sea_link(s, a, b),
    {
        let mut nodes: Vec<String> = Vec::new();
        let n = s.sea_zones.len();
        let mut i: usize = 0;
        while i < n
            invariant
                n == s.sea_zones.entries_view().len(),
                s.sea_zones.well_formed(),
                i <= n,
                nodes@.len() == i,
                forall|k: int| 0 <= k < i ==> (#[trigger] nodes@[k])@ == s.sea_zones.entries_view()[k].0@,
            decreases n - i,
        {
            nodes.push(s.sea_zones.key_at(i).clone());
            i = i + 1;
        }
        let mut edges: Vec<(String, String, Option<i32>)> = Vec::new();
        let mut t: usize = 0;
        while t < s.sea_adjacency.len()
            invariant
                t <= s.sea_adjacency@.len(),
                edges@.len() == 2 * t,
                forall|u: int|
                    #![trigger s.sea_adjacency@[u]]
                    0 <= u < t ==> edges@[2 * u].0@ == s.sea_adjacency@[u].from@ && edges@[2 * u].1@
                        == s.sea_adjacency@[u].to@ && edges@[2 * u + 1].0@ == s.sea_adjacency@[u].to@ && edges@[2 * u
                        + 1].1@ == s.sea_adjacency@[u].from@,
            decreases s.sea_adjacency@.len() - t,
        {
            let e = &s.sea_adjacency[t];
            edges.push((e.from.0.clone(), e.to.0.clone(), None));
            edges.push((e.to.0.clone(), e.from.0.clone(), None));
            t = t + 1;
        }
        let graph = NamedGraph::build(&nodes, &edges);
        proof {
            let m = s.sea_adjacency@.len();
            assert forall|u: int| 0 <= u < edges@.len() implies (#[trigger] edges@[u]).0@ == if u % 2 == 0 {
                s.sea_adjacency@[u / 2].from@
            } else {
                s.sea_adjacency@[u / 2].to@
            } && edges@[u].1@ == if u % 2 == 0 {
                s.sea_adjacency@[u / 2].to@
            } else {
                s.sea_adjacency@[u / 2].from@
            } by {
                let h = u / 2;
                if u % 2 == 0 {
                    assert(u == 2 * h);
                } else {
                    assert(u == 2 * h + 1);
                }
                assert(edges@[2 * h].0@ == s.sea_adjacency@[h].from@);
                assert(edges@[2 * h + 1].0@ == s.sea_adjacency@[h].to@);
            }
            assert forall|a: Seq<char>| #[trigger] graph.is_node(a) <==> sea_node(s, a) by {
                if lists_name(nodes@, a) {
                    let k = choose|k: int| 0 <= k < nodes@.len() && #[trigger] nodes@[k]@ == a;
                    assert(s.sea_zones@.contains_key(s.sea_zones.entries_view()[k].0@));
                }
                if s.sea_zones@.contains_key(a) {
                    let k = choose|k: int|
                        0 <= k < s.sea_zones.entries_view().len() && #[trigger] s.sea_zones.entries_view()[k].0@ == a;
                    assert(nodes@[k]@ == a);
                }
                if lists_source(edges@, a) {
                    let u = choose|u: int| 0 <= u < edges@.len() && #[trigger] edges@[u].0@ == a;
                    assert(s.sea_adjacency@[u / 2].from@ == a || s.sea_adjacency@[u / 2].to@ == a);
                }
                if exists|t: int|
                    0 <= t < s.sea_adjacency@.len() && (#[trigger] s.sea_adjacency@[t].from@ == a
                        || s.sea_adjacency@[t].to@ == a) {
                    let t = choose|t: int|
                        0 <= t < s.sea_adjacency@.len() && (#[trigger] s.sea_adjacency@[t].from@ == a
                            || s.sea_adjacency@[t].to@ == a);
                    if s.sea_adjacency@[t].from@ == a {
                        assert(edges@[2 * t].0@ == a);
                    } else {
                        assert(edges@[2 * t + 1].0@ == a);
                    }
                }
            }
            assert forall|a: Seq<char>, b: Seq<char>| #[trigger] graph.link(a, b) <==> sea_link(s, a, b) by {
                if lists_edge(edges@, a, b) {
                    let u = choose|u: int| 0 <= u < edges@.len() && #[trigger] edges@[u].0@ == a && edges@[u].1@ == b;
                    assert(s.sea_adjacency@[u / 2].from@ == s.sea_adjacency@[u / 2].from@);
                }
                if sea_link(s, a, b) {
                    let t = choose|t: int|
                        0 <= t < s.sea_adjacency@.len() && ((#[trigger] s.sea_adjacency@[t].from@ == a
                            && s.sea_adjacency@[t].to@ == b) || (s.sea_adjacency@[t].to@ == a
                            && s.sea_adjacency@[t].from@ == b));
                    if s.sea_adjacency@[t].from@ == a && s.sea_adjacency@[t].to@ == b {
                        assert(edges@[2 * t].0@ == a);
                    } else {
                        assert(edges@[2 * t + 1].0@ == a);
                    }
                }
            }
        }
        SeaGraph { graph }
    }

    /// The zones next to `zone`, in name order; empty when it is not a zone.
    pub fn adjacent_zones(&self, zone: &SeaZoneId) -> (v: Vec<SeaZoneId>)
        ensures
            self.graph.is_node(zone@) ==> self.graph.successor_list(zone@, zone_names(v@)),
            !self.graph.is_node(zone@) ==> v@.len() == 0,
    {
        match self.graph.successors(zone.as_str()) {
            None => Vec::new(),
            Some(names) => {
                let mut out: Vec<SeaZoneId> = Vec::new();
                let mut k: usize = 0;
                while k < names.len()
                    invariant
                        k <= names@.len(),
                        out@.len() == k,
                        forall|e: int| 0 <= e < k ==> (#[trigger] out@[e])@ == names@[e]@,
                    decreases names@.len() - k,
                {
                    out.push(SeaZoneId(names[k].clone()));
                    k = k + 1;
                }
                proof {
                    assert(zone_names(out@) =~= names@.map_values(|x: String| x@));
                }
                out
            },
        }
    }

    /// The fewest hops from `from` to `to`; `None` when either is not a zone
    /// or `to` cannot be reached.
    pub fn shortest_path_hops(&self, from: &SeaZoneId, to: &SeaZoneId) -> (r: Option<usize>)
        ensures
            match r {
                None => !(self.graph.is_node(from@) && self.graph.is_node(to@) && exists|o: Seq<Seq<char>>|
                    #[trigger] self.graph.walk(o, from@, to@)),
                Some(d) => {
                    &&& self.graph.is_node(from@)
                    &&& self.graph.is_node(to@)
                    &&& exists|o: Seq<Seq<char>>| #[trigger] self.graph.walk(o, from@, to@) && o.len() == d + 1
                    &&& forall|o: Seq<Seq<char>>| #[trigger] self.graph.walk(o, from@, to@) ==> o.len() >= d + 1
                },
            },
    {
        match self.graph.shortest_walk(from.as_str(), to.as_str()) {
            None => None,
            Some(p) => {
                proof {
                    assert(self.graph.walk(p@.map_values(|x: String| x@), from@, to@));
                }
                Some(p.len() - 1)
            },
        }
    }
}

/// What validating a fleet move gives: `Ok` or the text of the first
/// failed check.
pub open spec fn fleet_move_verdict(s: &Scenario, g: &SeaGraph, o: MoveFleetOrder) -> Result<(), Seq<char>> {
    let f = o.fleet@;
    let d = o.destination@;
    if !s.fleets@.contains_key(f) {
        Err("unknown fleet `"@ + f + "`"@)
    } else if s.fleets@[f].owner@ != o.submitter@ {
        Err("fleet `"@ + f + "` is owned by `"@ + s.fleets@[f].owner@ + "`, not `"@ + o.submitter@ + "`"@)
    } else if s.fleets@[f].at_sea is None {
        Err("fleet `"@ + f + "` is not at sea"@)
    } else if !s.sea_zones@.contains_key(d) {
        Err("unknown destination sea zone `"@ + d + "`"@)
    } else {
        let from = s.fleets@[f].at_sea->Some_0@;
        if !(g.graph.is_node(from) && g.graph.is_node(d) && exists|w: Seq<Seq<char>>| #[trigger] g.graph.walk(w, from, d)) {
            Err("no sea path from `"@ + from + "` to `"@ + d + "`"@)
        } else {
            Ok(())
        }
    }
}

/// Checks a fleet move without changing the scenario.
pub fn validate_fleet_move(s: &Scenario, graph: &SeaGraph, order: &MoveFleetOrder) -> (r: Result<(), String>)
    ensures
        match r {
            Ok(()) => fleet_move_verdict(s, graph, *order) == Ok::<(), Seq<char>>(()),
            Err(m) => fleet_move_verdict(s, graph, *order) == Err::<(), Seq<char>>(m@),
        },
{
    let f = match s.fleets.get(order.fleet.as_str()) {
        Some(f) => f,
        None => {
            let mut v: Vec<char> = Vec::new();
            push_str(&mut v, "unknown fleet `");
            push_str(&mut v, order.fleet.as_str());
            push_str(&mut v, "`");
            return Err(string_from_chars(v.as_slice()));
        },
    };
    if !f.owner.same(&order.submitter) {
        let mut v: Vec<char> = Vec::new();
        push_str(&mut v, "fleet `");
        push_str(&mut v, order.fleet.as_str());
        push_str(&mut v, "` is owned by `");
        push_str(&mut v, f.owner.as_str());
        push_str(&mut v, "`, not `");
        push_str(&mut v, order.submitter.as_str());
        push_str(&mut v, "`");
        return Err(string_from_chars(v.as_slice()));
    }
    let from = match &f.at_sea {
        Some(z) => z,
        None => {
            let mut v: Vec<char> = Vec::new();
            push_str(&mut v, "fleet `");
            push_str(&mut v, order.fleet.as_str());
            push_str(&mut v, "` is not at sea");
            return Err(string_from_chars(v.as_slice()));
        },
    };
    if !s.sea_zones.contains_key(order.destination.as_str()) {
        let mut v: Vec<char> = Vec::new();
        push_str(&mut v, "unknown destination sea zone `");
        push_str(&mut v, order.destination.as_str());
        push_str(&mut v, "`");
        return Err(string_from_chars(v.as_slice()));
    }
    if graph.shortest_path_hops(from, &order.destination).is_none() {
        let mut v: Vec<char> = Vec::new();
        push_str(&mut v, "no sea path from `");
        push_str(&mut v, from.as_str());
        push_str(&mut v, "` to `");
        push_str(&mut v, order.destination.as_str());
        push_str(&mut v, "`");
        return Err(string_from_chars(v.as_slice()));
    }
    Ok(())
}

/// The area is an enemy port of `p` on a coast of sea zone `z`.
pub open spec fn blockaded_by(s: &Scenario, z: Seq<char>, p: Seq<char>, k: Seq<char>) -> bool {
    &&& exists|i: int| 0 <= i < s.coast_links@.len() && #[trigger] s.coast_links@[i].sea@ == z && s.coast_links@[i].area@ == k
    &&& s.areas@.contains_key(k)
    &&& s.areas@[k].port
    &&& s.areas@[k].owner matches Owner::Power(slot) && slot.power@ != p
}

/// The areas after the ports blockaded from `z` by `p` are marked.
pub open spec fn blockade_marks(s: &Scenario, new: Map<Seq<char>, crate::scenario::Area>, z: Seq<char>, p: Seq<char>) -> bool {
    &&& new.dom() == s.areas@.dom()
    &&& forall|k: Seq<char>|
        #[trigger] new.contains_key(k) ==> new[k] == if blockaded_by(s, z, p, k) {
            (crate::scenario::Area { blockaded: true, ..s.areas@[k] })
        } else {
            s.areas@[k]
        }
}

/// Moves a validated fleet to its destination, marks the enemy ports on
/// that zone's coasts blockaded, and returns the events.
pub fn resolve_fleet_move(s: &mut Scenario, graph: &SeaGraph, order: &MoveFleetOrder) -> (ev: Vec<Event>)
    requires
        old(s).fleets@.contains_key(order.fleet@),
        old(s).fleets@[order.fleet@].at_sea is Some,
    ensures
        *final(s) == (Scenario { fleets: final(s).fleets, areas: final(s).areas, ..*old(s) }),
        final(s).fleets@ == old(s).fleets@.insert(
            order.fleet@,
            (Fleet { at_sea: Some(order.destination), at_port: None, ..old(s).fleets@[order.fleet@] }),
        ),
        blockade_marks(&*old(s), final(s).areas@, order.destination@, old(s).fleets@[order.fleet@].owner@),
        ev@.len() >= 1,
        ev@[0] == (Event::FleetMoved {
            fleet: order.fleet,
            from: old(s).fleets@[order.fleet@].at_sea->Some_0,
            to: order.destination,
        }),
        (exists|k: Seq<char>| blockaded_by(&*old(s), order.destination@, old(s).fleets@[order.fleet@].owner@, k))
            ==> ev@.len() == 2 && ev@[1] == (Event::BlockadeEstablished {
            fleet: order.fleet,
            sea_zone: order.destination,
        }),
        !(exists|k: Seq<char>| blockaded_by(&*old(s), order.destination@, old(s).fleets@[order.fleet@].owner@, k))
            ==> ev@.len() == 1,
{
    let ghost s0 = *s;
    let j = match s.fleets.find(order.fleet.as_str()) {
        Some(j) => j,
        None => {
            return Vec::new();
        },
    };
    let ghost k0 = s.fleets.entries_view()[j as int].0@;
    proof {
        assert(s.fleets@.contains_key(k0));
    }
    let mut f = s.fleets.set_value_at(j, empty_fleet());
    let ghost f0 = f;
    let from = match &f.at_sea {
        Some(z) => z.duplicate(),
        None => SeaZoneId(String::new()),
    };
    let owner = f.owner.duplicate();
    f.at_sea = Some(order.destination.duplicate());
    f.at_port = None;
    s.fleets.set_value_at(j, f);
    proof {
        assert(s.fleets@ =~= s0.fleets@.insert(k0, Fleet { at_sea: Some(order.destination), at_port: None, ..f0 }));
    }
    let mut events: Vec<Event> = Vec::new();
    events.push(Event::FleetMoved { fleet: order.fleet.duplicate(), from, to: order.destination.duplicate() });
    let mut emitted = false;
    let _ = s.areas.len();
    let mut i: usize = 0;
    while i < s.coast_links.len()
        invariant
            *s == (Scenario { fleets: s.fleets, areas: s.areas, ..s0 }),
            s.areas.well_formed(),
            owner@ == f0.owner@,
            k0 == order.fleet@,
            f0 == s0.fleets@[order.fleet@],
            s.fleets@ == s0.fleets@.insert(k0, (Fleet { at_sea: Some(order.destination), at_port: None, ..f0 })),
            i <= s0.coast_links@.len(),
            s.areas@.dom() == s0.areas@.dom(),
            forall|k: Seq<char>|
                #[trigger] s.areas@.contains_key(k) ==> s.areas@[k] == if exists|x: int|
                    0 <= x < i && #[trigger] s0.coast_links@[x].sea@ == order.destination@ && s0.coast_links@[x].area@ == k
                        && blockaded_by(&s0, order.destination@, f0.owner@, k) {
                    (crate::scenario::Area { blockaded: true, ..s0.areas@[k] })
                } else {
                    s0.areas@[k]
                },
            emitted == exists|x: int|
                0 <= x < i && #[trigger] s0.coast_links@[x].sea@ == order.destination@ && blockaded_by(
                    &s0,
                    order.destination@,
                    f0.owner@,
                    s0.coast_links@[x].area@,
                ),
            events@.len() == if emitted {
                2int
            } else {
                1int
            },
            events@[0] == (Event::FleetMoved { fleet: order.fleet, from: f0.at_sea->Some_0, to: order.destination }),
            emitted ==> events@[1] == (Event::BlockadeEstablished { fleet: order.fleet, sea_zone: order.destination }),
        decreases s0.coast_links@.len() - i,
    {
        let link_area = s.coast_links[i].area.duplicate();
        let on_zone = s.coast_links[i].sea.same(&order.destination);
        if on_zone {
            match s.areas.find(link_area.as_str()) {
                Some(a) => {
                    let area = s.areas.value_at(a);
                    let enemy = match &area.owner {
                        Owner::Power(slot) => !slot.power.same(&owner),
                        _ => false,
                    };
                    if area.port && enemy {
                        let mut marked = area.duplicate();
                        marked.blockaded = true;
                        s.areas.set_value_at(a, marked);
                        if !emitted {
                            events.push(
                                Event::BlockadeEstablished {
                                    fleet: order.fleet.duplicate(),
                                    sea_zone: order.destination.duplicate(),
                                },
                            );
                            emitted = true;
                        }
                    }
                },
                None => {},
            }
        }
        i = i + 1;
    }
    events
}


// ─── Transport ─────────────────────────────────────────────────────────

/// The names of a list of corps.
pub open spec fn corps_names(v: Seq<CorpsId>) -> Seq<Seq<char>> {
    v.map_values(|c: CorpsId| c@)
}

/// Inserts `x` after every entry that is not above it, so that a list in
/// text order stays in text order.
fn insert_in_order(out: &mut Vec<CorpsId>, x: CorpsId)
    requires
        sorted_by(corps_names(old(out)@), text_order()),
    ensures
        sorted_by(corps_names(final(out)@), text_order()),
        corps_names(final(out)@).to_multiset() == corps_names(old(out)@).to_multiset().insert(x@),
{
    let ghost s = corps_names(out@);
    let mut p: usize = 0;
    let mut done = false;
    while !done && p < out.len()
        invariant
            s == corps_names(out@),
            p <= out@.len(),
            forall|k: int| 0 <= k < p ==> !lex_lt(x@, #[trigger] s[k]),
            done ==> p < out@.len() && lex_lt(x@, s[p as int]),
        decreases out@.len() - p + if done {
            0int
        } else {
            1int
        },
    {
        if str_less(x.as_str(), out[p].as_str()) {
            done = true;
        } else {
            p = p + 1;
        }
    }
    let ghost xv = x@;
    out.insert(p, x);
    proof {
        let n = corps_names(out@);
        assert(n =~= s.insert(p as int, xv));
        lemma_text_order_total();
        assert forall|i: int, j: int| 0 <= i < j < n.len() implies #[trigger] text_order()(n[i], n[j]) by {
            if j < p {
                assert(text_order()(s[i], s[j]));
            } else if j == p {
                assert(!lex_lt(xv, s[i]));
                lemma_lex_total(s[i], xv);
            } else if i < p {
                if i < j - 1 {
                    assert(text_order()(s[i], s[j - 1]));
                }
            } else if i == p {
                assert(lex_lt(xv, s[p as int]));
                if p < j - 1 {
                    assert(text_order()(s[p as int], s[j - 1]));
                    if s[p as int] != s[j - 1] {
                        lemma_lex_transitive(xv, s[p as int], s[j - 1]);
                    }
                }
            } else {
                assert(text_order()(s[i - 1], s[j - 1]));
            }
        }
        to_multiset_insert(s, p as int, xv);
    }
}

/// The list in text order (a stable sort).
fn sorted_corps(v: &Vec<CorpsId>) -> (r: Vec<CorpsId>)
    ensures
        corps_names(r@) == corps_names(v@).sort_by(text_order()),
{
    let mut out: Vec<CorpsId> = Vec::new();
    proof {
        assert(corps_names(out@) =~= corps_names(v@.take(0)));
    }
    let mut i: usize = 0;
    while i < v.len()
        invariant
            i <= v@.len(),
            sorted_by(corps_names(out@), text_order()),
            corps_names(out@).to_multiset() == corps_names(v@.take(i as int)).to_multiset(),
        decreases v@.len() - i,
    {
        insert_in_order(&mut out, v[i].duplicate());
        proof {
            assert(corps_names(v@.take(i + 1)) =~= corps_names(v@.take(i as int)).push(v@[i as int]@));
            to_multiset_build(corps_names(v@.take(i as int)), v@[i as int]@);
        }
        i = i + 1;
    }
    proof {
        assert(v@.take(v@.len() as int) =~= v@);
        lemma_text_order_total();
        corps_names(v@).lemma_sort_by_ensures(text_order());
        lemma_sorted_unique(corps_names(out@), corps_names(v@).sort_by(text_order()), text_order());
    }
    out
}

/// Some coast link joins `area` to sea zone `zone`.
pub open spec fn coast_linked(s: &Scenario, area: Seq<char>, zone: Seq<char>) -> bool {
    exists|i: int|
        0 <= i < s.coast_links@.len() && #[trigger] s.coast_links@[i].area@ == area && s.coast_links@[i].sea@ == zone
}

/// Whether some coast link joins `area` to `zone`.
fn has_coast_link(s: &Scenario, area: &AreaId, zone: &SeaZoneId) -> (r: bool)
    ensures
        r == coast_linked(s, area@, zone@),
{
    let mut i: usize = 0;
    while i < s.coast_links.len()
        invariant
            i <= s.coast_links@.len(),
            forall|k: int|
                0 <= k < i ==> !(#[trigger] s.coast_links@[k].area@ == area@ && s.coast_links@[k].sea@ == zone@),
        decreases s.coast_links@.len() - i,
    {
        let link = &s.coast_links[i];
        if link.area.same(area) && link.sea.same(zone) {
            return true;
        }
        i = i + 1;
    }
    false
}

/// Whether a corps is in the list.
fn lists_corps(v: &Vec<CorpsId>, c: &CorpsId) -> (r: bool)
    ensures
        r == corps_names(v@).contains(c@),
{
    let mut i: usize = 0;
    while i < v.len()
        invariant
            i <= v@.len(),
            forall|k: int| 0 <= k < i ==> (#[trigger] v@[k])@ != c@,
        decreases v@.len() - i,
    {
        if v[i].same(c) {
            proof {
                assert(corps_names(v@)[i as int] == c@);
            }
            return true;
        }
        i = i + 1;
    }
    proof {
        if corps_names(v@).contains(c@) {
            let k = choose|k: int| 0 <= k < corps_names(v@).len() && corps_names(v@)[k] == c@;
            assert(v@[k]@ == c@);
        }
    }
    false
}

/// What validating an embarkation gives: `Ok` or the text of the first
/// failed check.
pub open spec fn embark_verdict(s: &Scenario, o: EmbarkOrder) -> Result<(), Seq<char>> {
    let c = o.corps@;
    let f = o.fleet@;
    let p = o.submitter@;
    if !s.corps@.contains_key(c) {
        Err("unknown corps `"@ + c + "`"@)
    } else if s.corps@[c].owner@ != p {
        Err("corps `"@ + c + "` is owned by `"@ + s.corps@[c].owner@ + "`, not `"@ + p + "`"@)
    } else if !s.fleets@.contains_key(f) {
        Err("unknown fleet `"@ + f + "`"@)
    } else if s.fleets@[f].owner@ != p {
        Err("fleet `"@ + f + "` is owned by `"@ + s.fleets@[f].owner@ + "`, not `"@ + p + "`"@)
    } else if s.fleets@[f].at_sea is None {
        Err("fleet `"@ + f + "` is not at sea"@)
    } else {
        let a = s.corps@[c].area@;
        let z = s.fleets@[f].at_sea->Some_0@;
        if !s.areas@.contains_key(a) {
            Err("unknown corps area `"@ + a + "`"@)
        } else if !s.areas@[a].port {
            Err("area `"@ + a + "` is not a port"@)
        } else if !coast_linked(s, a, z) {
            Err("area `"@ + a + "` has no coast link to fleet zone `"@ + z + "`"@)
        } else if corps_names(s.fleets@[f].embarked_corps@).contains(c) {
            Err("corps `"@ + c + "` already embarked"@)
        } else {
            Ok(())
        }
    }
}

/// Checks an embarkation without changing the scenario.
pub fn validate_embark(s: &Scenario, order: &EmbarkOrder) -> (r: Result<(), String>)
    ensures
        match r {
            Ok(()) => embark_verdict(s, *order) == Ok::<(), Seq<char>>(()),
            Err(m) => embark_verdict(s, *order) == Err::<(), Seq<char>>(m@),
        },
{
    let corps = match s.corps.get(order.corps.as_str()) {
        Some(c) => c,
        None => {
            let mut v: Vec<char> = Vec::new();
            push_str(&mut v, "unknown corps `");
            push_str(&mut v, order.corps.as_str());
            push_str(&mut v, "`");
            return Err(string_from_chars(v.as_slice()));
        },
    };
    if !corps.owner.same(&order.submitter) {
        let mut v: Vec<char> = Vec::new();
        push_str(&mut v, "corps `");
        push_str(&mut v, order.corps.as_str());
        push_str(&mut v, "` is owned by `");
        push_str(&mut v, corps.owner.as_str());
        push_str(&mut v, "`, not `");
        push_str(&mut v, order.submitter.as_str());
        push_str(&mut v, "`");
        return Err(string_from_chars(v.as_slice()));
    }
    let fleet = match s.fleets.get(order.fleet.as_str()) {
        Some(f) => f,
        None => {
            let mut v: Vec<char> = Vec::new();
            push_str(&mut v, "unknown fleet `");
            push_str(&mut v, order.fleet.as_str());
            push_str(&mut v, "`");
            return Err(string_from_chars(v.as_slice()));
        },
    };
    if !fleet.owner.same(&order.submitter) {
        let mut v: Vec<char> = Vec::new();
        push_str(&mut v, "fleet `");
        push_str(&mut v, order.fleet.as_str());
        push_str(&mut v, "` is owned by `");
        push_str(&mut v, fleet.owner.as_str());
        push_str(&mut v, "`, not `");
        push_str(&mut v, order.submitter.as_str());
        push_str(&mut v, "`");
        return Err(string_from_chars(v.as_slice()));
    }
    let zone = match &fleet.at_sea {
        Some(z) => z,
        None => {
            let mut v: Vec<char> = Vec::new();
            push_str(&mut v, "fleet `");
            push_str(&mut v, order.fleet.as_str());
            push_str(&mut v, "` is not at sea");
            return Err(string_from_chars(v.as_slice()));
        },
    };
    let area = match s.areas.get(corps.area.as_str()) {
        Some(a) => a,
        None => {
            let mut v: Vec<char> = Vec::new();
            push_str(&mut v, "unknown corps area `");
            push_str(&mut v, corps.area.as_str());
            push_str(&mut v, "`");
            return Err(string_from_chars(v.as_slice()));
        },
    };
    if !area.port {
        let mut v: Vec<char> = Vec::new();
        push_str(&mut v, "area `");
        push_str(&mut v, corps.area.as_str());
        push_str(&mut v, "` is not a port");
        return Err(string_from_chars(v.as_slice()));
    }
    if !has_coast_link(s, &corps.area, zone) {
        let mut v: Vec<char> = Vec::new();
        push_str(&mut v, "area `");
        push_str(&mut v, corps.area.as_str());
        push_str(&mut v, "` has no coast link to fleet zone `");
        push_str(&mut v, zone.as_str());
        push_str(&mut v, "`");
        return Err(string_from_chars(v.as_slice()));
    }
    if lists_corps(&fleet.embarked_corps, &order.corps) {
        let mut v: Vec<char> = Vec::new();
        push_str(&mut v, "corps `");
        push_str(&mut v, order.corps.as_str());
        push_str(&mut v, "` already embarked");
        return Err(string_from_chars(v.as_slice()));
    }
    Ok(())
}

/// Puts a corps aboard a fleet: the fleet's embarked corps become the old
/// list with the corps added, sorted in text order. Returns the event,
/// which names the area the corps embarked from.
pub fn resolve_embark(s: &mut Scenario, order: &EmbarkOrder) -> (ev: Event)
    requires
        old(s).corps@.contains_key(order.corps@),
    ensures
        *final(s) == (Scenario { fleets: final(s).fleets, ..*old(s) }),
        final(s).fleets@.dom() == old(s).fleets@.dom(),
        forall|k: Seq<char>|
            #[trigger] final(s).fleets@.contains_key(k) && k != order.fleet@ ==> final(s).fleets@[k]
                == old(s).fleets@[k],
        old(s).fleets@.contains_key(order.fleet@) ==> final(s).fleets@[order.fleet@] == (Fleet {
            embarked_corps: final(s).fleets@[order.fleet@].embarked_corps,
            ..old(s).fleets@[order.fleet@]
        }),
        old(s).fleets@.contains_key(order.fleet@) ==> corps_names(final(s).fleets@[order.fleet@].embarked_corps@)
            == corps_names(old(s).fleets@[order.fleet@].embarked_corps@.push(order.corps)).sort_by(text_order()),
        ev == (Event::CorpsEmbarked { corps: order.corps, fleet: order.fleet, area: old(s).corps@[order.corps@].area }),
{
    let ghost s0 = *s;
    let area = match s.corps.get(order.corps.as_str()) {
        Some(c) => c.area.duplicate(),
        None => AreaId(String::new()),
    };
    match s.fleets.find(order.fleet.as_str()) {
        Some(j) => {
            proof {
                assert(s.fleets@.contains_key(s.fleets.entries_view()[j as int].0@));
            }
            let mut f = s.fleets.set_value_at(j, empty_fleet());
            let ghost f0 = f;
            let mut list = copy_corps_ids(&f.embarked_corps);
            list.push(order.corps.duplicate());
            f.embarked_corps = sorted_corps(&list);
            let ghost f1 = f;
            s.fleets.set_value_at(j, f);
            proof {
                assert(s.fleets@ =~= s0.fleets@.insert(order.fleet@, f1));
            }
        },
        None => {},
    }
    Event::CorpsEmbarked { corps: order.corps.duplicate(), fleet: order.fleet.duplicate(), area }
}

/// Holds of every corps other than `c`.
pub open spec fn other_than(c: Seq<char>) -> spec_fn(CorpsId) -> bool {
    |x: CorpsId| x@ != c
}

/// The list without the entries naming `c`, in their order.
fn without_corps(v: &Vec<CorpsId>, c: &CorpsId) -> (r: Vec<CorpsId>)
    ensures
        r@ == v@.filter(other_than(c@)),
{
    let mut out: Vec<CorpsId> = Vec::new();
    let mut i: usize = 0;
    proof {
        reveal(Seq::filter);
        assert(v@.take(0).filter(other_than(c@)) =~= Seq::<CorpsId>::empty());
    }
    while i < v.len()
        invariant
            i <= v@.len(),
            out@ == v@.take(i as int).filter(other_than(c@)),
        decreases v@.len() - i,
    {
        proof {
            reveal(Seq::filter);
            assert(v@.take(i + 1).drop_last() =~= v@.take(i as int));
        }
        if !v[i].same(c) {
            out.push(v[i].duplicate());
        }
        i = i + 1;
    }
    proof {
        assert(v@.take(v@.len() as int) =~= v@);
    }
    out
}

/// What validating a disembarkation gives: `Ok` or the text of the first
/// failed check.
pub open spec fn disembark_verdict(s: &Scenario, o: DisembarkOrder) -> Result<(), Seq<char>> {
    let c = o.corps@;
    let f = o.fleet@;
    let p = o.submitter@;
    let t = o.target_area@;
    if !s.fleets@.contains_key(f) {
        Err("unknown fleet `"@ + f + "`"@)
    } else if s.fleets@[f].owner@ != p {
        Err("fleet `"@ + f + "` is owned by `"@ + s.fleets@[f].owner@ + "`, not `"@ + p + "`"@)
    } else if s.fleets@[f].at_sea is None {
        Err("fleet `"@ + f + "` is not at sea"@)
    } else if !corps_names(s.fleets@[f].embarked_corps@).contains(c) {
        Err("corps `"@ + c + "` is not embarked on fleet `"@ + f + "`"@)
    } else if !s.areas@.contains_key(t) {
        Err("unknown target area `"@ + t + "`"@)
    } else if !s.areas@[t].port {
        Err("area `"@ + t + "` is not a port"@)
    } else if !coast_linked(s, t, s.fleets@[f].at_sea->Some_0@) {
        Err("target area `"@ + t + "` has no coast link to fleet zone `"@ + s.fleets@[f].at_sea->Some_0@ + "`"@)
    } else {
        Ok(())
    }
}

/// Checks a disembarkation without changing the scenario.
pub fn validate_disembark(s: &Scenario, order: &DisembarkOrder) -> (r: Result<(), String>)
    ensures
        match r {
            Ok(()) => disembark_verdict(s, *order) == Ok::<(), Seq<char>>(()),
            Err(m) => disembark_verdict(s, *order) == Err::<(), Seq<char>>(m@),
        },
{
    let fleet = match s.fleets.get(order.fleet.as_str()) {
        Some(f) => f,
        None => {
            let mut v: Vec<char> = Vec::new();
            push_str(&mut v, "unknown fleet `");
            push_str(&mut v, order.fleet.as_str());
            push_str(&mut v, "`");
            return Err(string_from_chars(v.as_slice()));
        },
    };
    if !fleet.owner.same(&order.submitter) {
        let mut v: Vec<char> = Vec::new();
        push_str(&mut v, "fleet `");
        push_str(&mut v, order.fleet.as_str());
        push_str(&mut v, "` is owned by `");
        push_str(&mut v, fleet.owner.as_str());
        push_str(&mut v, "`, not `");
        push_str(&mut v, order.submitter.as_str());
        push_str(&mut v, "`");
        return Err(string_from_chars(v.as_slice()));
    }
    let zone = match &fleet.at_sea {
        Some(z) => z,
        None => {
            let mut v: Vec<char> = Vec::new();
            push_str(&mut v, "fleet `");
            push_str(&mut v, order.fleet.as_str());
            push_str(&mut v, "` is not at sea");
            return Err(string_from_chars(v.as_slice()));
        },
    };
    if !lists_corps(&fleet.embarked_corps, &order.corps) {
        let mut v: Vec<char> = Vec::new();
        push_str(&mut v, "corps `");
        push_str(&mut v, order.corps.as_str());
        push_str(&mut v, "` is not embarked on fleet `");
        push_str(&mut v, order.fleet.as_str());
        push_str(&mut v, "`");
        return Err(string_from_chars(v.as_slice()));
    }
    let area = match s.areas.get(order.target_area.as_str()) {
        Some(a) => a,
        None => {
            let mut v: Vec<char> = Vec::new();
            push_str(&mut v, "unknown target area `");
            push_str(&mut v, order.target_area.as_str());
            push_str(&mut v, "`");
            return Err(string_from_chars(v.as_slice()));
        },
    };
    if !area.port {
        let mut v: Vec<char> = Vec::new();
        push_str(&mut v, "area `");
        push_str(&mut v, order.target_area.as_str());
        push_str(&mut v, "` is not a port");
        return Err(string_from_chars(v.as_slice()));
    }
    if !has_coast_link(s, &order.target_area, zone) {
        let mut v: Vec<char> = Vec::new();
        push_str(&mut v, "target area `");
        push_str(&mut v, order.target_area.as_str());
        push_str(&mut v, "` has no coast link to fleet zone `");
        push_str(&mut v, zone.as_str());
        push_str(&mut v, "`");
        return Err(string_from_chars(v.as_slice()));
    }
    Ok(())
}

/// Lands a corps: it moves to the target area, and every entry naming it
/// leaves the fleet's embarked corps. Returns the event.
pub fn resolve_disembark(s: &mut Scenario, order: &DisembarkOrder) -> (ev: Event)
    ensures
        *final(s) == (Scenario { corps: final(s).corps, fleets: final(s).fleets, ..*old(s) }),
        final(s).corps@ == if old(s).corps@.contains_key(order.corps@) {
            old(s).corps@.insert(order.corps@, (Corps { area: order.target_area, ..old(s).corps@[order.corps@] }))
        } else {
            old(s).corps@
        },
        final(s).fleets@.dom() == old(s).fleets@.dom(),
        forall|k: Seq<char>|
            #[trigger] final(s).fleets@.contains_key(k) && k != order.fleet@ ==> final(s).fleets@[k]
                == old(s).fleets@[k],
        old(s).fleets@.contains_key(order.fleet@) ==> final(s).fleets@[order.fleet@] == (Fleet {
            embarked_corps: final(s).fleets@[order.fleet@].embarked_corps,
            ..old(s).fleets@[order.fleet@]
        }),
        old(s).fleets@.contains_key(order.fleet@) ==> final(s).fleets@[order.fleet@].embarked_corps@
            == old(s).fleets@[order.fleet@].embarked_corps@.filter(other_than(order.corps@)),
        ev == (Event::CorpsDisembarked { corps: order.corps, fleet: order.fleet, area: order.target_area }),
{
    let ghost s0 = *s;
    match s.corps.find(order.corps.as_str()) {
        Some(j) => {
            proof {
                assert(s.corps@.contains_key(s.corps.entries_view()[j as int].0@));
            }
            let mut c = s.corps.value_at(j).duplicate();
            c.area = order.target_area.duplicate();
            let ghost c1 = c;
            s.corps.set_value_at(j, c);
            proof {
                assert(s.corps@ =~= s0.corps@.insert(order.corps@, c1));
            }
        },
        None => {},
    }
    let ghost s1 = *s;
    match s.fleets.find(order.fleet.as_str()) {
        Some(j) => {
            proof {
                assert(s.fleets@.contains_key(s.fleets.entries_view()[j as int].0@));
            }
            let mut f = s.fleets.set_value_at(j, empty_fleet());
            f.embarked_corps = without_corps(&f.embarked_corps, &order.corps);
            let ghost f1 = f;
            s.fleets.set_value_at(j, f);
            proof {
                assert(s.fleets@ =~= s1.fleets@.insert(order.fleet@, f1));
            }
        },
        None => {},
    }
    Event::CorpsDisembarked {
        corps: order.corps.duplicate(),
        fleet: order.fleet.duplicate(),
        area: order.target_area.duplicate(),
    }
}

} // verus!
