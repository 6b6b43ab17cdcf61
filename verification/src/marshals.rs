//! Marshals and commanders: named leaders whose traits modify combat.

use vstd::prelude::*;

use crate::ids::{CorpsId, MarshalId, PowerId};
use crate::strmap::StrMap;
use crate::text::{push_str, string_from_chars};

verus! {

/// Combat and strategic traits for marshals.
#[derive(Debug, Clone, Copy, PartialEq, Eq, Structural)]
pub enum MarshalTrait {
    /// +20% defense
    DefensiveGenius,
    /// +15% attack speed
    Aggressive,
    /// Doubles cavalry effectiveness
    CavalryMaster,
    /// +10% all combat
    Tactician,
    /// +25% supply range
    Logistics,
    /// +50% fort attack
    Siege,
    /// +20% naval combat
    NavalCommander,
    /// +10% morale
    InspirationalLeader,
}

/// A named commander with skills and traits.
#[derive(Debug, Clone)]
pub struct Marshal {
    pub id: MarshalId,
    pub name: String,
    pub power: PowerId,
    pub traits: Vec<MarshalTrait>,
    pub assigned_corps: Option<CorpsId>,
    pub skill: u8,
    pub portrait_key: String,
}

/// Percentage points a single trait adds to defense.
pub open spec fn trait_defense(t: MarshalTrait) -> nat {
    match t {
        MarshalTrait::DefensiveGenius => 20,
        MarshalTrait::Tactician => 10,
        _ => 0,
    }
}

/// Percentage points a single trait adds to attack.
pub open spec fn trait_attack(t: MarshalTrait) -> nat {
    match t {
        MarshalTrait::Aggressive => 15,
        MarshalTrait::Tactician => 10,
        _ => 0,
    }
}

/// Percentage points a single trait adds to morale.
pub open spec fn trait_morale(t: MarshalTrait) -> nat {
    match t {
        MarshalTrait::InspirationalLeader => 10,
        _ => 0,
    }
}

/// Sum of `f` over the traits, each listed trait counted once per listing.
pub open spec fn trait_sum(ts: Seq<MarshalTrait>, f: spec_fn(MarshalTrait) -> nat) -> nat
    decreases ts.len(),
{
    if ts.len() == 0 {
        0
    } else {
        trait_sum(ts.drop_last(), f) + f(ts.last())
    }
}

/// A sum over a prefix of the traits is at most the sum over them all.
proof fn lemma_prefix_sum_le(ts: Seq<MarshalTrait>, f: spec_fn(MarshalTrait) -> nat, i: int)
    requires
        0 <= i <= ts.len(),
    ensures
        trait_sum(ts.take(i), f) <= trait_sum(ts, f),
    decreases ts.len(),
{
    if i == ts.len() {
        assert(ts.take(i) =~= ts);
    } else {
        assert(ts.drop_last().take(i) =~= ts.take(i));
        lemma_prefix_sum_le(ts.drop_last(), f, i);
    }
}

/// Defense bonus percentage from a marshal's traits.
pub fn defense_bonus(marshal: &Marshal) -> (b: u32)
    requires
        trait_sum(marshal.traits@, |t: MarshalTrait| trait_defense(t)) <= u32::MAX,
    ensures
        b == trait_sum(marshal.traits@, |t: MarshalTrait| trait_defense(t)),
{
    let ghost f = |t: MarshalTrait| trait_defense(t);
    let mut bonus: u32 = 0;
    let mut i: usize = 0;
    while i < marshal.traits.len()
        invariant
            i <= marshal.traits@.len(),
            trait_sum(marshal.traits@, f) <= u32::MAX,
            bonus == trait_sum(marshal.traits@.take(i as int), f),
            f == (|t: MarshalTrait| trait_defense(t)),
        decreases marshal.traits@.len() - i,
    {
        proof {
            assert(marshal.traits@.take(i + 1).drop_last() =~= marshal.traits@.take(i as int));
            assert(marshal.traits@.take(i + 1).last() == marshal.traits@[i as int]);
            lemma_prefix_sum_le(marshal.traits@, f, i + 1);
        }
        match marshal.traits[i] {
            MarshalTrait::DefensiveGenius => bonus = bonus + 20,
            MarshalTrait::Tactician => bonus = bonus + 10,
            _ => {},
        }
        i = i + 1;
    }
    proof {
        assert(marshal.traits@.take(marshal.traits@.len() as int) =~= marshal.traits@);
    }
    bonus
}

/// Attack bonus percentage from a marshal's traits.
pub fn attack_bonus(marshal: &Marshal) -> (b: u32)
    requires
        trait_sum(marshal.traits@, |t: MarshalTrait| trait_attack(t)) <= u32::MAX,
    ensures
        b == trait_sum(marshal.traits@, |t: MarshalTrait| trait_attack(t)),
{
    let ghost f = |t: MarshalTrait| trait_attack(t);
    let mut bonus: u32 = 0;
    let mut i: usize = 0;
    while i < marshal.traits.len()
        invariant
            i <= marshal.traits@.len(),
            trait_sum(marshal.traits@, f) <= u32::MAX,
            bonus == trait_sum(marshal.traits@.take(i as int), f),
            f == (|t: MarshalTrait| trait_attack(t)),
        decreases marshal.traits@.len() - i,
    {
        proof {
            assert(marshal.traits@.take(i + 1).drop_last() =~= marshal.traits@.take(i as int));
            assert(marshal.traits@.take(i + 1).last() == marshal.traits@[i as int]);
            lemma_prefix_sum_le(marshal.traits@, f, i + 1);
        }
        match marshal.traits[i] {
            MarshalTrait::Aggressive => bonus = bonus + 15,
            MarshalTrait::Tactician => bonus = bonus + 10,
            _ => {},
        }
        i = i + 1;
    }
    proof {
        assert(marshal.traits@.take(marshal.traits@.len() as int) =~= marshal.traits@);
    }
    bonus
}

/// Morale bonus percentage from a marshal's traits.
pub fn morale_bonus(marshal: &Marshal) -> (b: u32)
    requires
        trait_sum(marshal.traits@, |t: MarshalTrait| trait_morale(t)) <= u32::MAX,
    ensures
        b == trait_sum(marshal.traits@, |t: MarshalTrait| trait_morale(t)),
{
    let ghost f = |t: MarshalTrait| trait_morale(t);
    let mut bonus: u32 = 0;
    let mut i: usize = 0;
    while i < marshal.traits.len()
        invariant
            i <= marshal.traits@.len(),
            trait_sum(marshal.traits@, f) <= u32::MAX,
            bonus == trait_sum(marshal.traits@.take(i as int), f),
            f == (|t: MarshalTrait| trait_morale(t)),
        decreases marshal.traits@.len() - i,
    {
        proof {
            assert(marshal.traits@.take(i + 1).drop_last() =~= marshal.traits@.take(i as int));
            assert(marshal.traits@.take(i + 1).last() == marshal.traits@[i as int]);
            lemma_prefix_sum_le(marshal.traits@, f, i + 1);
        }
        if marshal.traits[i] == MarshalTrait::InspirationalLeader {
            bonus = bonus + 10;
        }
        i = i + 1;
    }
    proof {
        assert(marshal.traits@.take(marshal.traits@.len() as int) =~= marshal.traits@);
    }
    bonus
}

/// Registry of all marshals.
#[derive(Debug)]
pub struct MarshalRegistry {
    pub marshals: StrMap<Marshal>,
}

/// `after` is `before` with its corps assignment set to `corps`.
pub open spec fn assigned_to(before: Marshal, after: Marshal, corps: CorpsId) -> bool {
    &&& after.id == before.id
    &&& after.name == before.name
    &&& after.power == before.power
    &&& after.traits@ == before.traits@
    &&& after.assigned_corps == Some(corps)
    &&& after.skill == before.skill
    &&& after.portrait_key == before.portrait_key
}

/// The message for an unknown marshal.
pub open spec fn marshal_not_found(id: Seq<char>) -> Seq<char> {
    "Marshal "@ + id + " not found"@
}

impl MarshalRegistry {
    /// An empty registry.
    pub fn new() -> (r: Self)
        ensures
            r.marshals@ == Map::<Seq<char>, Marshal>::empty(),
    {
        MarshalRegistry { marshals: StrMap::new() }
    }

    /// Assigns a marshal to a corps; an unknown marshal is an error and
    /// changes nothing.
    pub fn assign_marshal(&mut self, marshal_id: &MarshalId, corps_id: &CorpsId) -> (r: Result<(), String>)
        ensures
            match r {
                Ok(()) => old(self).marshals@.contains_key(marshal_id@) && final(self).marshals@.dom()
                    == old(self).marshals@.dom() && (forall|k: Seq<char>|
                    #[trigger] final(self).marshals@.contains_key(k) && k != marshal_id@
                        ==> final(self).marshals@[k] == old(self).marshals@[k]) && assigned_to(
                    old(self).marshals@[marshal_id@],
                    final(self).marshals@[marshal_id@],
                    *corps_id,
                ),
                Err(e) => !old(self).marshals@.contains_key(marshal_id@) && e@ == marshal_not_found(
                    marshal_id@,
                ) && final(self).marshals@ == old(self).marshals@,
            },
    {
        match self.marshals.get(marshal_id.as_str()) {
            Some(m) => {
                let updated = Marshal {
                    id: m.id.duplicate(),
                    name: m.name.clone(),
                    power: m.power.duplicate(),
                    traits: copy_traits(&m.traits),
                    assigned_corps: Some(corps_id.duplicate()),
                    skill: m.skill,
                    portrait_key: m.portrait_key.clone(),
                };
                proof {
                    assert(updated.traits@ == m.traits@);
                }
                self.marshals.insert(marshal_id.to_string(), updated);
                proof {
                    assert(self.marshals@.dom() =~= old(self).marshals@.dom());
                }
                Ok(())
            },
            None => {
                let mut v: Vec<char> = Vec::new();
                push_str(&mut v, "Marshal ");
                push_str(&mut v, marshal_id.as_str());
                push_str(&mut v, " not found");
                proof {
                    assert(v@ =~= marshal_not_found(marshal_id@));
                }
                Err(string_from_chars(v.as_slice()))
            },
        }
    }

    /// The marshals of `power_id`, in ID order.
    pub fn get_power_marshals(&self, power_id: &PowerId) -> (r: Vec<&Marshal>)
        ensures
            r@.len() <= self.marshals.entries_view().len(),
            forall|i: int| 0 <= i < r@.len() ==> (#[trigger] r@[i]).power@ == power_id@,
            r@.map_values(|m: &Marshal| *m) == self.marshals.entries_view().map_values(|e: (String, Marshal)| e.1).filter(
                |m: Marshal| m.power@ == power_id@,
            ),
    {
        let n = self.marshals.len();
        let ghost all = self.marshals.entries_view().map_values(|e: (String, Marshal)| e.1);
        let ghost pred = |m: Marshal| m.power@ == power_id@;
        let mut out: Vec<&Marshal> = Vec::new();
        let mut i: usize = 0;
        while i < n
            invariant
                n == self.marshals.entries_view().len(),
                all == self.marshals.entries_view().map_values(|e: (String, Marshal)| e.1),
                i <= n,
                pred == (|m: Marshal| m.power@ == power_id@),
                out@.map_values(|m: &Marshal| *m) == all.take(i as int).filter(pred),
            decreases n - i,
        {
            let m = self.marshals.value_at(i);
            proof {
                assert(all.take(i + 1) =~= all.take(i as int).push(*m));
                all.take(i as int).lemma_filter_push(*m, pred);
            }
            let ghost before = out@.map_values(|m: &Marshal| *m);
            if m.power.same(power_id) {
                out.push(m);
                proof {
                    assert(out@.map_values(|m: &Marshal| *m) =~= before.push(*m));
                }
            }
            i = i + 1;
        }
        proof {
            assert(all.take(n as int) =~= all);
            all.filter_lemma(pred);
            assert forall|k: int| 0 <= k < out@.len() implies (#[trigger] out@[k]).power@ == power_id@ by {
                assert(out@.map_values(|m: &Marshal| *m)[k] == out@[k]);
            }
        }
        out
    }
}

/// An element-by-element copy of a trait list.
pub fn copy_traits(ts: &Vec<MarshalTrait>) -> (r: Vec<MarshalTrait>)
    ensures
        r@ == ts@,
{
    let mut r: Vec<MarshalTrait> = Vec::new();
    let mut i: usize = 0;
    while i < ts.len()
        invariant
            i <= ts@.len(),
            r@ == ts@.take(i as int),
        decreases ts@.len() - i,
    {
        r.push(ts[i]);
        i = i + 1;
        proof {
            assert(ts@.take(i as int) =~= ts@.take(i - 1).push(ts@[i - 1]));
        }
    }
    proof {
        assert(ts@.take(ts@.len() as int) =~= ts@);
    }
    r
}


/// A row of the historical marshal table: ID, name, power, skill, traits.
pub type MarshalRow = (Seq<char>, Seq<char>, Seq<char>, u8, Seq<MarshalTrait>);

/// The historical marshals, in the order they are entered.
pub open spec fn historical_marshal_rows() -> Seq<MarshalRow> {
    seq![
        ("MARSHAL_NAPOLEON"@, "Napoleon Bonaparte"@, "FRA"@, 10u8, seq![MarshalTrait::Tactician, MarshalTrait::Aggressive, MarshalTrait::InspirationalLeader]),
        ("MARSHAL_DAVOUT"@, "Louis-Nicolas Davout"@, "FRA"@, 9u8, seq![MarshalTrait::DefensiveGenius, MarshalTrait::Tactician]),
        ("MARSHAL_NEY"@, "Michel Ney"@, "FRA"@, 8u8, seq![MarshalTrait::Aggressive, MarshalTrait::InspirationalLeader]),
        ("MARSHAL_MURAT"@, "Joachim Murat"@, "FRA"@, 8u8, seq![MarshalTrait::CavalryMaster, MarshalTrait::Aggressive]),
        ("MARSHAL_SOULT"@, "Nicolas Jean-de-Dieu Soult"@, "FRA"@, 8u8, seq![MarshalTrait::Tactician, MarshalTrait::Logistics]),
        ("MARSHAL_MASSENA"@, "André Masséna"@, "FRA"@, 8u8, seq![MarshalTrait::DefensiveGenius]),
        ("MARSHAL_LANNES"@, "Jean Lannes"@, "FRA"@, 8u8, seq![MarshalTrait::Aggressive]),
        ("MARSHAL_BERTHIER"@, "Louis-Alexandre Berthier"@, "FRA"@, 7u8, seq![MarshalTrait::Logistics]),
        ("MARSHAL_WELLINGTON"@, "Arthur Wellesley, Duke of Wellington"@, "GBR"@, 9u8, seq![MarshalTrait::DefensiveGenius, MarshalTrait::Tactician]),
        ("MARSHAL_NELSON"@, "Horatio Nelson"@, "GBR"@, 9u8, seq![MarshalTrait::NavalCommander, MarshalTrait::InspirationalLeader]),
        ("MARSHAL_MOORE"@, "Sir John Moore"@, "GBR"@, 7u8, seq![MarshalTrait::Tactician]),
        ("MARSHAL_KUTUZOV"@, "Mikhail Kutuzov"@, "RUS"@, 9u8, seq![MarshalTrait::DefensiveGenius, MarshalTrait::Logistics]),
        ("MARSHAL_BAGRATION"@, "Pyotr Bagration"@, "RUS"@, 8u8, seq![MarshalTrait::Aggressive]),
        ("MARSHAL_BARCLAY"@, "Barclay de Tolly"@, "RUS"@, 7u8, seq![MarshalTrait::Logistics, MarshalTrait::DefensiveGenius]),
        ("MARSHAL_CHARLES"@, "Archduke Charles"@, "AUS"@, 8u8, seq![MarshalTrait::DefensiveGenius, MarshalTrait::Tactician]),
        ("MARSHAL_SCHWARZENBERG"@, "Karl Philipp, Prince of Schwarzenberg"@, "AUS"@, 7u8, seq![MarshalTrait::Logistics]),
        ("MARSHAL_BLUCHER"@, "Gebhard Leberecht von Blücher"@, "PRU"@, 8u8, seq![MarshalTrait::Aggressive, MarshalTrait::InspirationalLeader]),
        ("MARSHAL_SCHARNHORST"@, "Gerhard von Scharnhorst"@, "PRU"@, 7u8, seq![MarshalTrait::Tactician]),
        ("MARSHAL_MEHMED"@, "Mehmed Ali Pasha"@, "OTT"@, 6u8, seq![MarshalTrait::Siege]),
        ("MARSHAL_CASTANOS"@, "Francisco Javier Castaños"@, "SPA"@, 7u8, seq![MarshalTrait::DefensiveGenius]),
    ]
}

/// The table the rows `rows` describe; a repeated ID keeps its last row.
pub open spec fn rows_map(rows: Seq<MarshalRow>) -> Map<Seq<char>, MarshalRow>
    decreases rows.len(),
{
    if rows.len() == 0 {
        Map::empty()
    } else {
        rows_map(rows.drop_last()).insert(rows.last().0, rows.last())
    }
}

/// `m` is the unassigned marshal the row describes, with its portrait key
/// the lowercase ID.
pub open spec fn marshal_from_row(m: Marshal, row: MarshalRow) -> bool {
    &&& m.id@ == row.0
    &&& m.name@ == row.1
    &&& m.power@ == row.2
    &&& m.skill == row.3
    &&& m.traits@ == row.4
    &&& m.assigned_corps is None
    &&& m.portrait_key@ == crate::text::ascii_lower(row.0)
}

/// The rows of the historical table, as stored text.
fn historical_rows() -> (v: Vec<(&'static str, &'static str, &'static str, u8, Vec<MarshalTrait>)>)
    ensures
        v@.len() == historical_marshal_rows().len(),
        forall|i: int|
            0 <= i < v@.len() ==> {
                let row = historical_marshal_rows()[i];
                &&& (#[trigger] v@[i]).0@ == row.0
                &&& v@[i].1@ == row.1
                &&& v@[i].2@ == row.2
                &&& v@[i].3 == row.3
                &&& v@[i].4@ == row.4
            },
{
    let v = vec![
        ("MARSHAL_NAPOLEON", "Napoleon Bonaparte", "FRA", 10u8, vec![MarshalTrait::Tactician, MarshalTrait::Aggressive, MarshalTrait::InspirationalLeader]),
        ("MARSHAL_DAVOUT", "Louis-Nicolas Davout", "FRA", 9u8, vec![MarshalTrait::DefensiveGenius, MarshalTrait::Tactician]),
        ("MARSHAL_NEY", "Michel Ney", "FRA", 8u8, vec![MarshalTrait::Aggressive, MarshalTrait::InspirationalLeader]),
        ("MARSHAL_MURAT", "Joachim Murat", "FRA", 8u8, vec![MarshalTrait::CavalryMaster, MarshalTrait::Aggressive]),
        ("MARSHAL_SOULT", "Nicolas Jean-de-Dieu Soult", "FRA", 8u8, vec![MarshalTrait::Tactician, MarshalTrait::Logistics]),
        ("MARSHAL_MASSENA", "André Masséna", "FRA", 8u8, vec![MarshalTrait::DefensiveGenius]),
        ("MARSHAL_LANNES", "Jean Lannes", "FRA", 8u8, vec![MarshalTrait::Aggressive]),
        ("MARSHAL_BERTHIER", "Louis-Alexandre Berthier", "FRA", 7u8, vec![MarshalTrait::Logistics]),
        ("MARSHAL_WELLINGTON", "Arthur Wellesley, Duke of Wellington", "GBR", 9u8, vec![MarshalTrait::DefensiveGenius, MarshalTrait::Tactician]),
        ("MARSHAL_NELSON", "Horatio Nelson", "GBR", 9u8, vec![MarshalTrait::NavalCommander, MarshalTrait::InspirationalLeader]),
        ("MARSHAL_MOORE", "Sir John Moore", "GBR", 7u8, vec![MarshalTrait::Tactician]),
        ("MARSHAL_KUTUZOV", "Mikhail Kutuzov", "RUS", 9u8, vec![MarshalTrait::DefensiveGenius, MarshalTrait::Logistics]),
        ("MARSHAL_BAGRATION", "Pyotr Bagration", "RUS", 8u8, vec![MarshalTrait::Aggressive]),
        ("MARSHAL_BARCLAY", "Barclay de Tolly", "RUS", 7u8, vec![MarshalTrait::Logistics, MarshalTrait::DefensiveGenius]),
        ("MARSHAL_CHARLES", "Archduke Charles", "AUS", 8u8, vec![MarshalTrait::DefensiveGenius, MarshalTrait::Tactician]),
        ("MARSHAL_SCHWARZENBERG", "Karl Philipp, Prince of Schwarzenberg", "AUS", 7u8, vec![MarshalTrait::Logistics]),
        ("MARSHAL_BLUCHER", "Gebhard Leberecht von Blücher", "PRU", 8u8, vec![MarshalTrait::Aggressive, MarshalTrait::InspirationalLeader]),
        ("MARSHAL_SCHARNHORST", "Gerhard von Scharnhorst", "PRU", 7u8, vec![MarshalTrait::Tactician]),
        ("MARSHAL_MEHMED", "Mehmed Ali Pasha", "OTT", 6u8, vec![MarshalTrait::Siege]),
        ("MARSHAL_CASTANOS", "Francisco Javier Castaños", "SPA", 7u8, vec![MarshalTrait::DefensiveGenius]),
    ];
    proof {
        assert forall|i: int| 0 <= i < v@.len() implies {
            let row = historical_marshal_rows()[i];
            &&& (#[trigger] v@[i]).0@ == row.0
            &&& v@[i].1@ == row.1
            &&& v@[i].2@ == row.2
            &&& v@[i].3 == row.3
            &&& v@[i].4@ == row.4
        } by {
            if i == 0 { assert(v@[i].4@ =~= historical_marshal_rows()[i].4); }
            if i == 1 { assert(v@[i].4@ =~= historical_marshal_rows()[i].4); }
            if i == 2 { assert(v@[i].4@ =~= historical_marshal_rows()[i].4); }
            if i == 3 { assert(v@[i].4@ =~= historical_marshal_rows()[i].4); }
            if i == 4 { assert(v@[i].4@ =~= historical_marshal_rows()[i].4); }
            if i == 5 { assert(v@[i].4@ =~= historical_marshal_rows()[i].4); }
            if i == 6 { assert(v@[i].4@ =~= historical_marshal_rows()[i].4); }
            if i == 7 { assert(v@[i].4@ =~= historical_marshal_rows()[i].4); }
            if i == 8 { assert(v@[i].4@ =~= historical_marshal_rows()[i].4); }
            if i == 9 { assert(v@[i].4@ =~= historical_marshal_rows()[i].4); }
            if i == 10 { assert(v@[i].4@ =~= historical_marshal_rows()[i].4); }
            if i == 11 { assert(v@[i].4@ =~= historical_marshal_rows()[i].4); }
            if i == 12 { assert(v@[i].4@ =~= historical_marshal_rows()[i].4); }
            if i == 13 { assert(v@[i].4@ =~= historical_marshal_rows()[i].4); }
            if i == 14 { assert(v@[i].4@ =~= historical_marshal_rows()[i].4); }
            if i == 15 { assert(v@[i].4@ =~= historical_marshal_rows()[i].4); }
            if i == 16 { assert(v@[i].4@ =~= historical_marshal_rows()[i].4); }
            if i == 17 { assert(v@[i].4@ =~= historical_marshal_rows()[i].4); }
            if i == 18 { assert(v@[i].4@ =~= historical_marshal_rows()[i].4); }
            if i == 19 { assert(v@[i].4@ =~= historical_marshal_rows()[i].4); }
        }
    }
    v
}

impl MarshalRegistry {
    /// The historical marshals of the seven major powers.
    pub fn with_historical() -> (r: Self)
        ensures
            r.marshals@.dom() == rows_map(historical_marshal_rows()).dom(),
            forall|k: Seq<char>|
                #[trigger] r.marshals@.contains_key(k) ==> marshal_from_row(
                    r.marshals@[k],
                    rows_map(historical_marshal_rows())[k],
                ),
    {
        let rows = historical_rows();
        let ghost t = historical_marshal_rows();
        let mut reg = MarshalRegistry::new();
        let mut i: usize = 0;
        proof {
            assert(t.take(0) =~= Seq::<MarshalRow>::empty());
            assert(reg.marshals@.dom() =~= rows_map(t.take(0)).dom());
        }
        while i < rows.len()
            invariant
                t == historical_marshal_rows(),
                rows@.len() == t.len(),
                forall|j: int|
                    0 <= j < rows@.len() ==> {
                        let row = t[j];
                        &&& (#[trigger] rows@[j]).0@ == row.0
                        &&& rows@[j].1@ == row.1
                        &&& rows@[j].2@ == row.2
                        &&& rows@[j].3 == row.3
                        &&& rows@[j].4@ == row.4
                    },
                i <= rows@.len(),
                reg.marshals@.dom() == rows_map(t.take(i as int)).dom(),
                forall|k: Seq<char>|
                    #[trigger] reg.marshals@.contains_key(k) ==> marshal_from_row(
                        reg.marshals@[k],
                        rows_map(t.take(i as int))[k],
                    ),
            decreases rows@.len() - i,
        {
            let row = &rows[i];
            let m = Marshal {
                id: MarshalId::new(row.0),
                name: row.1.to_string(),
                power: PowerId::new(row.2),
                traits: copy_traits(&row.4),
                assigned_corps: None,
                skill: row.3,
                portrait_key: crate::text::ascii_lowercase(row.0),
            };
            let ghost before = reg.marshals@;
            reg.marshals.insert(row.0.to_string(), m);
            proof {
                assert(t.take(i + 1).drop_last() =~= t.take(i as int));
                assert(t.take(i + 1).last() == t[i as int]);
                assert(reg.marshals@.dom() =~= rows_map(t.take(i + 1)).dom());
            }
            i = i + 1;
        }
        proof {
            assert(t.take(rows@.len() as int) =~= t);
        }
        reg
    }
}
} // verus!
