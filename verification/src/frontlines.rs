//! Front lines and a simplified integer-only battle resolution.

use vstd::prelude::*;

use vstd::utf8::encode_utf8;

use crate::ai::{hash_bytes, str_hash};
use crate::ids::{AreaId, CorpsId, FrontLineId, PowerId};
use crate::strmap::StrMap;
use crate::text::{push_str, string_from_chars};

verus! {

/// An attack from one area into another.
#[derive(Debug, Clone, PartialEq, Eq)]
pub struct AttackOrder {
    pub from_area: AreaId,
    pub to_area: AreaId,
    pub corps_id: CorpsId,
    pub attacker: PowerId,
    pub defender: PowerId,
    pub attacker_strength: u32,
    pub defender_strength: u32,
}

#[derive(Debug, Clone, Copy, PartialEq, Eq, Structural)]
pub enum BattleResult {
    AttackerAdvances,
    Stalemate,
    DefenderHolds,
    DefenderRoutes,
}

#[derive(Debug, Clone, PartialEq, Eq)]
pub struct BattleEvent {
    pub area: AreaId,
    pub attacker: PowerId,
    pub defender: PowerId,
    pub attacker_strength: u32,
    pub defender_strength: u32,
    pub result: BattleResult,
    pub casualties_attacker: u32,
    pub casualties_defender: u32,
}

/// The die face (0..=9) derived from `seed` by three xor-shift steps.
pub open spec fn spec_d10(seed: u64) -> u32 {
    let s1 = seed ^ (seed >> 13u64);
    let s2 = s1 ^ ((s1 << 7u64) as u64);
    let s3 = s2 ^ (s2 >> 17u64);
    (s3 % 10) as u32
}

/// A deterministic die: returns 0..=9 from a seed.
pub fn random_d10(seed: u64) -> (r: u32)
    ensures
        r == spec_d10(seed),
        r < 10,
{
    let mut s = seed;
    s = s ^ (s >> 13u64);
    s = s ^ (s << 7u64);
    s = s ^ (s >> 17u64);
    (s % 10) as u32
}

/// Scores and casualties of a battle between the given strengths, where
/// `att_die` and `def_die` are the two die faces.
///
/// The attacker scores its strength plus ten per pip; the defender 110% of
/// its strength plus five per pip.  A score above 120% of the defender's
/// is a decisive attack (the defender routes when its 15% loss is at least
/// half its strength), above the defender's a stalemate, otherwise the
/// defender holds.  Losers lose 15%, winners 5%.
pub open spec fn battle_outcome(att: nat, def: nat, att_die: nat, def_die: nat) -> (BattleResult, nat, nat) {
    let attacker_score = att + att_die * 10;
    let defender_score = def * 110 / 100 + def_die * 5;
    if attacker_score > defender_score * 120 / 100 {
        let cas_att = att * 5 / 100;
        let cas_def = def * 15 / 100;
        if cas_def * 100 >= def * 50 {
            (BattleResult::DefenderRoutes, cas_att, cas_def)
        } else {
            (BattleResult::AttackerAdvances, cas_att, cas_def)
        }
    } else if attacker_score > defender_score {
        (BattleResult::Stalemate, att * 5 / 100, def * 5 / 100)
    } else {
        (BattleResult::DefenderHolds, att * 15 / 100, def * 5 / 100)
    }
}

/// The seed a battle uses: the hash of the target area's text, xor the tick.
pub open spec fn battle_seed(area: &AreaId, tick: u64) -> u64 {
    hash_bytes(encode_utf8(area@)) ^ tick
}

/// Strength values small enough that every score and casualty fits in 32 bits.
pub open spec fn strengths_in_range(order: &AttackOrder) -> bool {
    order.attacker_strength <= 20_000_000 && order.defender_strength <= 20_000_000
}

/// Resolves a single battle with integer arithmetic.
pub fn resolve_single_battle(order: &AttackOrder, tick: u64) -> (ev: BattleEvent)
    requires
        strengths_in_range(order),
    ensures
        ({
            let seed = battle_seed(&order.to_area, tick);
            let o = battle_outcome(
                order.attacker_strength as nat,
                order.defender_strength as nat,
                spec_d10(seed) as nat,
                spec_d10(seed.wrapping_add(1)) as nat,
            );
            &&& ev.result == o.0
            &&& ev.casualties_attacker == o.1
            &&& ev.casualties_defender == o.2
        }),
        ev.area == order.to_area,
        ev.attacker == order.attacker,
        ev.defender == order.defender,
        ev.attacker_strength == order.attacker_strength,
        ev.defender_strength == order.defender_strength,
{
    let area_seed = str_hash(order.to_area.as_str());
    let seed = area_seed ^ tick;
    let att_roll = random_d10(seed) * 10;
    let def_roll = random_d10(seed.wrapping_add(1)) * 5;
    let attacker_score = order.attacker_strength + att_roll;
    let defender_score = order.defender_strength * 110 / 100 + def_roll;
    let (result, casualties_attacker, casualties_defender) = if attacker_score > defender_score * 120
        / 100 {
        let cas_att = order.attacker_strength * 5 / 100;
        let cas_def = order.defender_strength * 15 / 100;
        if cas_def * 100 >= order.defender_strength * 50 {
            (BattleResult::DefenderRoutes, cas_att, cas_def)
        } else {
            (BattleResult::AttackerAdvances, cas_att, cas_def)
        }
    } else if attacker_score > defender_score {
        (BattleResult::Stalemate, order.attacker_strength * 5 / 100, order.defender_strength * 5 / 100)
    } else {
        (BattleResult::DefenderHolds, order.attacker_strength * 15 / 100, order.defender_strength * 5 / 100)
    };
    BattleEvent {
        area: order.to_area.duplicate(),
        attacker: order.attacker.duplicate(),
        defender: order.defender.duplicate(),
        attacker_strength: order.attacker_strength,
        defender_strength: order.defender_strength,
        result,
        casualties_attacker,
        casualties_defender,
    }
}

/// A rout needs a defender with no strength at all: a 15% loss is half
/// the strength only when the strength is zero.
pub proof fn lemma_rout_only_without_strength(att: nat, def: nat, att_die: nat, def_die: nat)
    requires
        battle_outcome(att, def, att_die, def_die).0 == BattleResult::DefenderRoutes,
    ensures
        def == 0,
{
    if def > 0 {
        assert((def * 15 / 100) * 100 <= def * 15) by (nonlinear_arith);
        assert(def * 15 < def * 50) by (nonlinear_arith)
            requires
                def > 0,
        ;
    }
}

/// The side that does not win loses at least as much as it would as the
/// winner: a defender that holds costs the attacker 15%, an attack that
/// goes through costs the defender 15%.
pub proof fn lemma_losers_bleed_more(att: nat, def: nat, att_die: nat, def_die: nat)
    ensures
        ({
            let o = battle_outcome(att, def, att_die, def_die);
            &&& o.0 == BattleResult::DefenderHolds ==> o.1 == att * 15 / 100 && o.2 == def * 5 / 100
            &&& (o.0 == BattleResult::AttackerAdvances || o.0 == BattleResult::DefenderRoutes) ==> o.1
                == att * 5 / 100 && o.2 == def * 15 / 100
            &&& o.1 <= att && o.2 <= def
        }),
{
}


/// A front line between an attacker and a defender.
#[derive(Debug)]
pub struct FrontLine {
    pub id: FrontLineId,
    pub attacker: PowerId,
    pub defender: PowerId,
    /// Areas currently fought over.
    pub contested_areas: StrMap<()>,
    /// Per-area pressure: −100 (defender winning) to +100 (attacker
    /// winning).
    pub pressure: StrMap<i32>,
}

/// A front line by value.
#[verifier::ext_equal]
pub struct LineView {
    pub id: Seq<char>,
    pub attacker: Seq<char>,
    pub defender: Seq<char>,
    pub contested: Set<Seq<char>>,
    pub pressure: Map<Seq<char>, i32>,
}

/// The view of a front line.
pub open spec fn line_view(l: FrontLine) -> LineView {
    LineView {
        id: l.id@,
        attacker: l.attacker@,
        defender: l.defender@,
        contested: l.contested_areas@.dom(),
        pressure: l.pressure@,
    }
}

/// The ID of the front line of `attacker` against `defender`.
pub open spec fn front_id(attacker: Seq<char>, defender: Seq<char>) -> Seq<char> {
    "FRONT_"@ + attacker + "_"@ + defender
}

/// The key of the line of `attacker` against `defender` in `m`, if any.
pub open spec fn line_key(m: Map<Seq<char>, LineView>, attacker: Seq<char>, defender: Seq<char>) -> Option<Seq<char>> {
    if exists|k: Seq<char>| #[trigger] m.contains_key(k) && m[k].attacker == attacker && m[k].defender == defender {
        Some(choose|k: Seq<char>| #[trigger] m.contains_key(k) && m[k].attacker == attacker && m[k].defender == defender)
    } else {
        None
    }
}

/// The lines after an attack on `to` by `attacker` against `defender`:
/// the pair's line (a new, empty one under its ID if there is none)
/// contests `to`, with pressure 0 there unless it has some already.
pub open spec fn lines_after_attack(
    m: Map<Seq<char>, LineView>,
    attacker: Seq<char>,
    defender: Seq<char>,
    to: Seq<char>,
) -> Map<Seq<char>, LineView> {
    let (k, l) = match line_key(m, attacker, defender) {
        Some(k) => (k, m[k]),
        None => (
            front_id(attacker, defender),
            LineView {
                id: front_id(attacker, defender),
                attacker,
                defender,
                contested: Set::empty(),
                pressure: Map::empty(),
            },
        ),
    };
    m.insert(
        k,
        LineView {
            contested: l.contested.insert(to),
            pressure: if l.pressure.contains_key(to) {
                l.pressure
            } else {
                l.pressure.insert(to, 0)
            },
            ..l
        },
    )
}

/// How far a battle result moves the pressure in its area.
pub open spec fn pressure_delta(r: BattleResult) -> int {
    match r {
        BattleResult::AttackerAdvances => 30,
        BattleResult::Stalemate => 5,
        BattleResult::DefenderHolds => -20,
        BattleResult::DefenderRoutes => 50,
    }
}

/// `v` clamped to −100..=100.
pub open spec fn clamp_pressure(v: int) -> int {
    if v < -100 {
        -100
    } else if v > 100 {
        100
    } else {
        v
    }
}

/// A line after a battle in `area` with result `r`: the pressure there
/// (0 when unset) moves by the result's amount, clamped, and an area the
/// attacker took or the defender fled is no longer contested.
pub open spec fn line_after_battle(l: LineView, area: Seq<char>, r: BattleResult) -> LineView {
    let p = if l.pressure.contains_key(area) {
        l.pressure[area] as int
    } else {
        0
    };
    LineView {
        pressure: l.pressure.insert(area, clamp_pressure(p + pressure_delta(r)) as i32),
        contested: if r == BattleResult::AttackerAdvances || r == BattleResult::DefenderRoutes {
            l.contested.remove(area)
        } else {
            l.contested
        },
        ..l
    }
}

/// The lines after a battle: the line of the battle's two sides, if any,
/// takes the battle's effect.
pub open spec fn lines_after_battle(m: Map<Seq<char>, LineView>, ev: BattleEvent) -> Map<Seq<char>, LineView> {
    match line_key(m, ev.attacker@, ev.defender@) {
        Some(k) => m.insert(k, line_after_battle(m[k], ev.area@, ev.result)),
        None => m,
    }
}

/// The lines after the battles `evs`, in turn.
pub open spec fn lines_after_battles(m: Map<Seq<char>, LineView>, evs: Seq<BattleEvent>) -> Map<Seq<char>, LineView>
    decreases evs.len(),
{
    if evs.len() == 0 {
        m
    } else {
        lines_after_battle(lines_after_battles(m, evs.drop_last()), evs.last())
    }
}

/// `ev` is the battle the order gives at `tick`.
pub open spec fn battle_of(order: AttackOrder, tick: u64, ev: BattleEvent) -> bool {
    let seed = battle_seed(&order.to_area, tick);
    let o = battle_outcome(
        order.attacker_strength as nat,
        order.defender_strength as nat,
        spec_d10(seed) as nat,
        spec_d10(seed.wrapping_add(1)) as nat,
    );
    &&& ev.result == o.0
    &&& ev.casualties_attacker == o.1
    &&& ev.casualties_defender == o.2
    &&& ev.area == order.to_area
    &&& ev.attacker == order.attacker
    &&& ev.defender == order.defender
    &&& ev.attacker_strength == order.attacker_strength
    &&& ev.defender_strength == order.defender_strength
}

/// Front lines, pending attack orders and the last tick's battles.
#[derive(Debug)]
pub struct FrontLineManager {
    front_lines: StrMap<FrontLine>,
    attack_orders: Vec<AttackOrder>,
    recent_battles: Vec<BattleEvent>,
    next_id: u32,
}

/// Every line is stored under its ID, no two lines share a pair of sides,
/// and every pressure is within −100..=100.
pub open spec fn lines_ok(m: Map<Seq<char>, LineView>) -> bool {
    &&& forall|k: Seq<char>| #[trigger] m.contains_key(k) ==> m[k].id == k
    &&& forall|k1: Seq<char>, k2: Seq<char>|
        #[trigger] m.contains_key(k1) && #[trigger] m.contains_key(k2) && m[k1].attacker == m[k2].attacker
            && m[k1].defender == m[k2].defender ==> k1 == k2
    &&& forall|k: Seq<char>, a: Seq<char>|
        #[trigger] m.contains_key(k) && #[trigger] m[k].pressure.contains_key(a) ==> -100 <= m[k].pressure[a] <= 100
}

/// The lines of a table of front lines, by key.
pub open spec fn lines_view(m: StrMap<FrontLine>) -> Map<Seq<char>, LineView> {
    m@.map_values(|l: FrontLine| line_view(l))
}

/// The line of `attacker` against `defender` in `lines`, created empty
/// under its ID when there is none; returns its key.
fn find_or_create_front_line(lines: &mut StrMap<FrontLine>, attacker: &PowerId, defender: &PowerId) -> (id: FrontLineId)
    requires
        lines_ok(lines_view(*old(lines))),
    ensures
        lines_ok(lines_view(*final(lines))),
        match line_key(lines_view(*old(lines)), attacker@, defender@) {
            Some(k) => id@ == k && lines_view(*final(lines)) == lines_view(*old(lines)),
            None => id@ == front_id(attacker@, defender@) && lines_view(*final(lines)) == lines_view(*old(lines)).insert(
                id@,
                LineView {
                    id: id@,
                    attacker: attacker@,
                    defender: defender@,
                    contested: Set::empty(),
                    pressure: Map::empty(),
                },
            ),
        },
        lines_view(*final(lines)).contains_key(id@),
{
    let n = lines.len();
    let ghost lv = lines_view(*lines);
    let mut i: usize = 0;
    while i < n
        invariant
            n == lines.entries_view().len(),
            lines.well_formed(),
            lv == lines_view(*lines),
            lines_ok(lv),
            i <= n,
            forall|j: int|
                0 <= j < i ==> !((#[trigger] lines.entries_view()[j]).1.attacker@ == attacker@
                    && lines.entries_view()[j].1.defender@ == defender@),
        decreases n - i,
    {
        let key = lines.key_at(i);
        let fl = lines.value_at(i);
        if fl.attacker.same(attacker) && fl.defender.same(defender) {
            proof {
                let k = key@;
                assert(lines@.contains_key(lines.entries_view()[i as int].0@));
                assert(lv.contains_key(k));
                assert(lv[k].attacker == attacker@ && lv[k].defender == defender@);
                let c = choose|c: Seq<char>| #[trigger] lv.contains_key(c) && lv[c].attacker == attacker@
                    && lv[c].defender == defender@;
                assert(c == k);
            }
            return FrontLineId(key.clone());
        }
        i = i + 1;
    }
    proof {
        assert forall|k: Seq<char>| #[trigger] lv.contains_key(k) implies !(lv[k].attacker == attacker@
            && lv[k].defender == defender@) by {
            let j = choose|j: int| 0 <= j < lines.entries_view().len() && #[trigger] lines.entries_view()[j].0@ == k;
            assert(lines@[k] == lines.entries_view()[j].1);
        }
    }
    let mut v: Vec<char> = Vec::new();
    push_str(&mut v, "FRONT_");
    push_str(&mut v, attacker.as_str());
    push_str(&mut v, "_");
    push_str(&mut v, defender.as_str());
    proof {
        assert(v@ =~= front_id(attacker@, defender@));
    }
    let text = string_from_chars(v.as_slice());
    let fl = FrontLine {
        id: FrontLineId(text.clone()),
        attacker: attacker.duplicate(),
        defender: defender.duplicate(),
        contested_areas: StrMap::new(),
        pressure: StrMap::new(),
    };
    let ghost fresh = line_view(fl);
    proof {
        assert(fresh.contested =~= Set::<Seq<char>>::empty());
        assert(lv.insert(text@, fresh) =~= lv.insert(
            text@,
            LineView { id: text@, attacker: attacker@, defender: defender@, contested: Set::empty(), pressure: Map::empty() },
        ));
    }
    lines.insert(text.clone(), fl);
    proof {
        assert(lines_view(*lines) =~= lv.insert(text@, fresh));
    }
    FrontLineId(text)
}

/// Makes the line of `attacker` against `defender` exist and contest
/// `to`.
fn open_front(lines: &mut StrMap<FrontLine>, attacker: &PowerId, defender: &PowerId, to: &AreaId)
    requires
        lines_ok(lines_view(*old(lines))),
    ensures
        lines_ok(lines_view(*final(lines))),
        lines_view(*final(lines)) == lines_after_attack(lines_view(*old(lines)), attacker@, defender@, to@),
{
    let ghost l0 = lines_view(*lines);
    let id = find_or_create_front_line(lines, attacker, defender);
    let ghost l1 = lines_view(*lines);
    match lines.find(id.as_str()) {
        Some(j) => {
            let (key, mut fl) = lines.remove_at(j);
            let ghost before = line_view(fl);
            proof {
                assert(key@ == id@);
                assert(l1[id@] == before);
            }
            let to_key = to.to_string();
            fl.contested_areas.insert(to_key.clone(), ());
            if !fl.pressure.contains_key(to_key.as_str()) {
                fl.pressure.insert(to_key, 0);
            }
            proof {
                let want = LineView {
                    contested: before.contested.insert(to@),
                    pressure: if before.pressure.contains_key(to@) {
                        before.pressure
                    } else {
                        before.pressure.insert(to@, 0)
                    },
                    ..before
                };
                assert(line_view(fl) =~= want);
                assert(l1.insert(id@, want) =~= lines_after_attack(l0, attacker@, defender@, to@));
            }
            let ghost removed = *lines;
            lines.insert(key, fl);
            proof {
                assert(lines_view(*lines) =~= l1.insert(id@, line_view(fl)));
            }
        },
        None => {
            proof {
                assert(false);
            }
        },
    }
}

/// Applies a battle's effect to the line of its two sides, if any.
fn apply_battle(lines: &mut StrMap<FrontLine>, ev: &BattleEvent)
    requires
        lines_ok(lines_view(*old(lines))),
    ensures
        lines_ok(lines_view(*final(lines))),
        lines_view(*final(lines)) == lines_after_battle(lines_view(*old(lines)), *ev),
{
    let n = lines.len();
    let ghost l1 = lines_view(*lines);
    let mut i: usize = 0;
    while i < n
        invariant
            n == lines.entries_view().len(),
            lines.well_formed(),
            l1 == lines_view(*lines),
            l1 == lines_view(*old(lines)),
            lines_ok(l1),
            i <= n,
            forall|j: int|
                0 <= j < i ==> !((#[trigger] lines.entries_view()[j]).1.attacker@ == ev.attacker@
                    && lines.entries_view()[j].1.defender@ == ev.defender@),
        decreases n - i,
    {
        let matches = {
            let fl = lines.value_at(i);
            fl.attacker.same(&ev.attacker) && fl.defender.same(&ev.defender)
        };
        if matches {
            proof {
                assert(lines@.contains_key(lines.entries_view()[i as int].0@));
            }
            let (key, mut fl) = lines.remove_at(i);
            let ghost k = key@;
            let ghost before = line_view(fl);
            proof {
                assert(l1.contains_key(k));
                assert(l1[k] == before);
                let c = choose|c: Seq<char>| #[trigger] l1.contains_key(c) && l1[c].attacker == ev.attacker@
                    && l1[c].defender == ev.defender@;
                assert(c == k);
            }
            let area = ev.area.as_str();
            let p: i32 = match fl.pressure.get(area) {
                Some(v) => *v,
                None => 0,
            };
            proof {
                if before.pressure.contains_key(ev.area@) {
                    assert(-100 <= before.pressure[ev.area@] <= 100);
                }
            }
            let delta: i32 = match ev.result {
                BattleResult::AttackerAdvances => 30,
                BattleResult::Stalemate => 5,
                BattleResult::DefenderHolds => -20,
                BattleResult::DefenderRoutes => 50,
            };
            let raw = p + delta;
            let clamped: i32 = if raw < -100 {
                -100
            } else if raw > 100 {
                100
            } else {
                raw
            };
            fl.pressure.insert(ev.area.to_string(), clamped);
            if ev.result == BattleResult::AttackerAdvances || ev.result == BattleResult::DefenderRoutes {
                match fl.contested_areas.find(area) {
                    Some(j) => {
                        fl.contested_areas.remove_at(j);
                    },
                    None => {},
                }
            }
            proof {
                let want = line_after_battle(before, ev.area@, ev.result);
                assert(line_view(fl) =~= want);
            }
            lines.insert(key, fl);
            proof {
                assert(lines_view(*lines) =~= l1.insert(k, line_view(fl)));
                assert(l1.contains_key(k) && l1[k].attacker == ev.attacker@ && l1[k].defender == ev.defender@);
                let c = choose|c: Seq<char>| #[trigger] l1.contains_key(c) && l1[c].attacker == ev.attacker@
                    && l1[c].defender == ev.defender@;
                assert(c == k);
                assert(line_key(l1, ev.attacker@, ev.defender@) == Some(k));
                assert(line_view(fl) == line_after_battle(l1[k], ev.area@, ev.result));
                assert(lines_after_battle(l1, *ev) == l1.insert(k, line_after_battle(l1[k], ev.area@, ev.result)));
                assert(lines_view(*lines) == lines_after_battle(l1, *ev));
            }
            return;
        }
        i = i + 1;
    }
    proof {
        assert forall|k: Seq<char>| #[trigger] l1.contains_key(k) implies !(l1[k].attacker == ev.attacker@
            && l1[k].defender == ev.defender@) by {
            let j = choose|j: int| 0 <= j < lines.entries_view().len() && #[trigger] lines.entries_view()[j].0@ == k;
            assert(lines@[k] == lines.entries_view()[j].1);
        }
    }
}

impl FrontLineManager {
    /// The front lines by key.
    pub closed spec fn lines(&self) -> Map<Seq<char>, LineView> {
        lines_view(self.front_lines)
    }

    /// The pending attack orders.
    pub closed spec fn orders(&self) -> Seq<AttackOrder> {
        self.attack_orders@
    }

    /// The battles of the last resolution.
    pub closed spec fn battles(&self) -> Seq<BattleEvent> {
        self.recent_battles@
    }

    /// The number the manager starts counting front lines from.
    pub closed spec fn next_number(&self) -> u32 {
        self.next_id
    }

    #[verifier::type_invariant]
    closed spec fn inv(&self) -> bool {
        lines_ok(self.lines())
    }

    /// A manager with no lines, orders or battles.
    pub fn new() -> (m: Self)
        ensures
            m.lines() == Map::<Seq<char>, LineView>::empty(),
            m.orders().len() == 0,
            m.battles().len() == 0,
            m.next_number() == 1,
    {
        let lines: StrMap<FrontLine> = StrMap::new();
        proof {
            assert(lines_view(lines) =~= Map::<Seq<char>, LineView>::empty());
        }
        FrontLineManager { front_lines: lines, attack_orders: Vec::new(), recent_battles: Vec::new(), next_id: 1 }
    }

    /// Queues an attack on `to_area` and makes sure the pair's front line
    /// exists and contests `to_area`.
    pub fn issue_attack_order(
        &mut self,
        from_area: AreaId,
        to_area: AreaId,
        corps_id: CorpsId,
        attacker: PowerId,
        defender: PowerId,
        attacker_strength: u32,
        defender_strength: u32,
    )
        ensures
            final(self).orders() == old(self).orders().push(
                AttackOrder {
                    from_area,
                    to_area,
                    corps_id,
                    attacker,
                    defender,
                    attacker_strength,
                    defender_strength,
                },
            ),
            final(self).battles() == old(self).battles(),
            final(self).lines() == lines_after_attack(old(self).lines(), attacker@, defender@, to_area@),
    {
        proof {
            use_type_invariant(&*self);
        }
        let order = AttackOrder {
            from_area,
            to_area: to_area.duplicate(),
            corps_id,
            attacker: attacker.duplicate(),
            defender: defender.duplicate(),
            attacker_strength,
            defender_strength,
        };
        let mut orders: Vec<AttackOrder> = Vec::new();
        std::mem::swap(&mut orders, &mut self.attack_orders);
        orders.push(order);
        self.attack_orders = orders;
        let mut lines: StrMap<FrontLine> = StrMap::new();
        proof {
            assert(lines_ok(lines_view(lines))) by {
                assert(lines_view(lines) =~= Map::<Seq<char>, LineView>::empty());
            }
        }
        std::mem::swap(&mut lines, &mut self.front_lines);
        open_front(&mut lines, &attacker, &defender, &to_area);
        self.front_lines = lines;
    }

    /// Resolves every pending attack order at `tick`, in the order given:
    /// each gives a battle, and the battle's front line takes its effect.
    /// The orders are cleared and the battles kept as the recent ones.
    pub fn resolve_battles(&mut self, tick: u64) -> (events: Vec<BattleEvent>)
        requires
            forall|i: int| 0 <= i < old(self).orders().len() ==> strengths_in_range(&#[trigger] old(self).orders()[i]),
        ensures
            events@.len() == old(self).orders().len(),
            forall|i: int| 0 <= i < events@.len() ==> battle_of(old(self).orders()[i], tick, #[trigger] events@[i]),
            final(self).orders().len() == 0,
            final(self).battles() == events@,
            final(self).lines() == lines_after_battles(old(self).lines(), events@),
    {
        proof {
            use_type_invariant(&*self);
        }
        let mut orders: Vec<AttackOrder> = Vec::new();
        std::mem::swap(&mut orders, &mut self.attack_orders);
        let mut lines: StrMap<FrontLine> = StrMap::new();
        proof {
            assert(lines_ok(lines_view(lines))) by {
                assert(lines_view(lines) =~= Map::<Seq<char>, LineView>::empty());
            }
        }
        std::mem::swap(&mut lines, &mut self.front_lines);
        let ghost l0 = lines_view(lines);
        let mut events: Vec<BattleEvent> = Vec::new();
        let mut i: usize = 0;
        proof {
            assert(events@ =~= Seq::<BattleEvent>::empty());
        }
        while i < orders.len()
            invariant
                orders@ == old(self).orders(),
                forall|t: int| 0 <= t < orders@.len() ==> strengths_in_range(&#[trigger] orders@[t]),
                i <= orders@.len(),
                events@.len() == i,
                forall|t: int| 0 <= t < i ==> battle_of(orders@[t], tick, #[trigger] events@[t]),
                l0 == old(self).lines(),
                lines_ok(lines_view(lines)),
                lines_view(lines) == lines_after_battles(l0, events@),
            decreases orders@.len() - i,
        {
            let event = resolve_single_battle(&orders[i], tick);
            apply_battle(&mut lines, &event);
            let ghost evs = events@;
            events.push(event);
            proof {
                assert(events@.drop_last() =~= evs);
            }
            i = i + 1;
        }
        self.front_lines = lines;
        self.recent_battles = copy_events(&events);
        events
    }

    /// The pending attack orders.
    pub fn get_attack_orders(&self) -> (r: &[AttackOrder])
        ensures
            r@ == self.orders(),
    {
        self.attack_orders.as_slice()
    }

    /// The front lines, by key.
    pub fn get_front_lines(&self) -> (r: &StrMap<FrontLine>)
        ensures
            lines_view(*r) == self.lines(),
    {
        &self.front_lines
    }

    /// The battles of the last resolution.
    pub fn get_recent_battles(&self) -> (r: &[BattleEvent])
        ensures
            r@ == self.battles(),
    {
        self.recent_battles.as_slice()
    }
}

/// An equal, independently owned battle event.
fn copy_event(e: &BattleEvent) -> (r: BattleEvent)
    ensures
        r == *e,
{
    BattleEvent {
        area: e.area.duplicate(),
        attacker: e.attacker.duplicate(),
        defender: e.defender.duplicate(),
        attacker_strength: e.attacker_strength,
        defender_strength: e.defender_strength,
        result: e.result,
        casualties_attacker: e.casualties_attacker,
        casualties_defender: e.casualties_defender,
    }
}

/// An element-by-element copy of a list of battle events.
fn copy_events(v: &Vec<BattleEvent>) -> (r: Vec<BattleEvent>)
    ensures
        r@ == v@,
{
    let mut r: Vec<BattleEvent> = Vec::new();
    let mut i: usize = 0;
    while i < v.len()
        invariant
            i <= v@.len(),
            r@ == v@.take(i as int),
        decreases v@.len() - i,
    {
        r.push(copy_event(&v[i]));
        i = i + 1;
        proof {
            assert(v@.take(i as int) =~= v@.take(i - 1).push(v@[i - 1]));
        }
    }
    proof {
        assert(v@.take(v@.len() as int) =~= v@);
    }
    r
}

/// Pressure never leaves −100..=100, whatever battles are fought.
pub proof fn lemma_pressure_stays_bounded(m: Map<Seq<char>, LineView>, evs: Seq<BattleEvent>, k: Seq<char>, a: Seq<char>)
    requires
        forall|k2: Seq<char>, a2: Seq<char>|
            #[trigger] m.contains_key(k2) && #[trigger] m[k2].pressure.contains_key(a2) ==> -100 <= m[k2].pressure[a2] <= 100,
        lines_after_battles(m, evs).contains_key(k),
        lines_after_battles(m, evs)[k].pressure.contains_key(a),
    ensures
        -100 <= lines_after_battles(m, evs)[k].pressure[a] <= 100,
    decreases evs.len(),
{
    if evs.len() > 0 {
        let prev = lines_after_battles(m, evs.drop_last());
        let ev = evs.last();
        match line_key(prev, ev.attacker@, ev.defender@) {
            Some(k0) => {
                if k == k0 && a == ev.area@ {
                } else if k == k0 {
                    lemma_pressure_stays_bounded(m, evs.drop_last(), k, a);
                } else {
                    lemma_pressure_stays_bounded(m, evs.drop_last(), k, a);
                }
            },
            None => {
                lemma_pressure_stays_bounded(m, evs.drop_last(), k, a);
            },
        }
    }
}
} // verus!
