//! National focus trees.
//!
//! Each major power has a focus tree: national focuses with prerequisites
//! that grant effects when completed.  At most one focus is in progress at
//! a time per power.

use vstd::prelude::*;

use crate::ids::PowerId;
use crate::strmap::StrMap;

verus! {

/// Focus identifier.
#[derive(Debug, Clone, Copy, PartialEq, Eq, Hash, PartialOrd, Ord, Structural)]
pub struct FocusId(pub u32);

#[derive(Debug, Clone, PartialEq, Eq)]
pub enum FocusEffect {
    ManpowerBonus(u32),
    AttackBonus(u32),
    DefenseBonus(u32),
    SupplyRangeBonus(u32),
    DiplomaticInfluence(String, i32),
    UnlockUnit(String),
    TreasuryBonus(u32),
    NavalBonus(u32),
    ResearchBonus(u32),
}

/// A focus node.
#[derive(Debug, Clone)]
pub struct Focus {
    pub id: FocusId,
    pub name: String,
    pub description: String,
    pub power: PowerId,
    pub cost_days: u32,
    pub prerequisites: Vec<FocusId>,
    pub effects: Vec<FocusEffect>,
    pub x: i32,
    pub y: i32,
    pub icon: String,
    pub category: String,
}

/// Index of the focus with ID `id` in `fs`, if any.
pub open spec fn focus_index(fs: Seq<Focus>, id: u32) -> Option<int>
    decreases fs.len(),
{
    if fs.len() == 0 {
        None
    } else if fs.last().id.0 == id {
        Some(fs.len() - 1)
    } else {
        focus_index(fs.drop_last(), id)
    }
}

proof fn lemma_focus_index(fs: Seq<Focus>, id: u32)
    ensures
        focus_index(fs, id) matches Some(i) ==> 0 <= i < fs.len() && fs[i].id.0 == id,
        focus_index(fs, id) is None ==> forall|k: int| 0 <= k < fs.len() ==> (#[trigger] fs[k]).id.0 != id,
    decreases fs.len(),
{
    if fs.len() > 0 {
        lemma_focus_index(fs.drop_last(), id);
        if focus_index(fs, id) is None {
            assert forall|k: int| 0 <= k < fs.len() implies (#[trigger] fs[k]).id.0 != id by {
                if k < fs.len() - 1 {
                    assert(fs[k] == fs.drop_last()[k]);
                }
            }
        }
    }
}

/// Whether `id` occurs in `c`.
pub open spec fn has_focus_id(c: Seq<FocusId>, id: u32) -> bool {
    exists|k: int| 0 <= k < c.len() && (#[trigger] c[k]).0 == id
}

/// A power's focus tree.
#[derive(Debug, Clone)]
pub struct FocusTree {
    pub power: PowerId,
    /// The focuses; IDs are distinct.
    pub focuses: Vec<Focus>,
    /// Completed focus IDs, each listed once.
    pub completed: Vec<FocusId>,
    /// The focus in progress and its remaining days.
    pub in_progress: Option<(FocusId, u32)>,
}

impl FocusTree {
    /// Whether `id` is completed.
    pub open spec fn is_completed(&self, id: u32) -> bool {
        has_focus_id(self.completed@, id)
    }

    /// The focus with ID `id`.
    pub open spec fn focus(&self, id: u32) -> Option<Focus> {
        match focus_index(self.focuses@, id) {
            Some(i) => Some(self.focuses@[i]),
            None => None,
        }
    }

    /// The focus exists and each of its prerequisites is completed.
    pub open spec fn prereqs_done(&self, id: u32) -> bool {
        match self.focus(id) {
            Some(f) => forall|k: int| 0 <= k < f.prerequisites@.len() ==> self.is_completed(
                #[trigger] f.prerequisites@[k].0,
            ),
            None => false,
        }
    }

    /// The focus can be started: not completed, not already in progress,
    /// and its prerequisites are done.
    pub open spec fn available(&self, id: u32) -> bool {
        &&& !self.is_completed(id)
        &&& !(self.in_progress matches Some((cur, _)) && cur.0 == id)
        &&& self.prereqs_done(id)
    }

    /// An empty tree for `power`.
    pub fn new(power: PowerId) -> (t: Self)
        ensures
            t.power == power,
            t.focuses@.len() == 0,
            t.completed@.len() == 0,
            t.in_progress is None,
    {
        FocusTree { power, focuses: Vec::new(), completed: Vec::new(), in_progress: None }
    }

    fn find(&self, id: FocusId) -> (r: Option<usize>)
        ensures
            match r {
                Some(i) => focus_index(self.focuses@, id.0) == Some(i as int),
                None => focus_index(self.focuses@, id.0) is None,
            },
    {
        let mut i: usize = self.focuses.len();
        proof {
            assert(self.focuses@.take(self.focuses@.len() as int) =~= self.focuses@);
        }
        while i > 0
            invariant
                i <= self.focuses@.len(),
                focus_index(self.focuses@, id.0) == focus_index(self.focuses@.take(i as int), id.0),
            decreases i,
        {
            let ghost pre = self.focuses@.take(i as int);
            proof {
                assert(pre.drop_last() =~= self.focuses@.take(i - 1));
            }
            if self.focuses[i - 1].id.0 == id.0 {
                return Some(i - 1);
            }
            i = i - 1;
        }
        proof {
            assert(self.focuses@.take(0) =~= Seq::<Focus>::empty());
        }
        None
    }

    fn is_done(&self, id: FocusId) -> (b: bool)
        ensures
            b == self.is_completed(id.0),
    {
        let mut i: usize = 0;
        while i < self.completed.len()
            invariant
                i <= self.completed@.len(),
                forall|k: int| 0 <= k < i ==> (#[trigger] self.completed@[k]).0 != id.0,
            decreases self.completed@.len() - i,
        {
            if self.completed[i].0 == id.0 {
                return true;
            }
            i = i + 1;
        }
        false
    }

    /// Adds a focus, replacing any focus with the same ID.
    pub fn add_focus(&mut self, focus: Focus)
        ensures
            final(self).focus(focus.id.0) == Some(focus),
            forall|id: u32| id != focus.id.0 ==> final(self).focus(id) == old(self).focus(id),
            final(self).completed@ == old(self).completed@,
            final(self).in_progress == old(self).in_progress,
            final(self).power == old(self).power,
    {
        let ghost fid = focus.id.0;
        proof {
            lemma_focus_index(self.focuses@, fid);
        }
        match self.find(focus.id) {
            Some(i) => {
                let ghost old_fs = self.focuses@;
                let mut f = focus;
                self.focuses.set_and_swap(i, &mut f);
                proof {
                    assert forall|id: u32| id != fid implies self.focus(id) == old(self).focus(id) by {
                        lemma_focus_index_update(old_fs, i as int, self.focuses@[i as int], id);
                        lemma_focus_index(old_fs, id);
                    }
                    lemma_focus_index_update(old_fs, i as int, self.focuses@[i as int], fid);
                    lemma_focus_index(old_fs, fid);
                }
            },
            None => {
                let ghost old_fs = self.focuses@;
                self.focuses.push(focus);
                proof {
                    assert(self.focuses@.drop_last() =~= old_fs);
                    assert forall|id: u32| id != fid implies self.focus(id) == old(self).focus(id) by {
                        lemma_focus_index(old_fs, id);
                    }
                }
            },
        }
    }

    /// Whether the focus exists and all of its prerequisites are completed.
    pub fn prerequisites_met(&self, focus_id: FocusId) -> (b: bool)
        ensures
            b == self.prereqs_done(focus_id.0),
    {
        proof {
            lemma_focus_index(self.focuses@, focus_id.0);
        }
        match self.find(focus_id) {
            Some(i) => {
                let f = &self.focuses[i];
                let mut k: usize = 0;
                while k < f.prerequisites.len()
                    invariant
                        *f == self.focus(focus_id.0)->0,
                        k <= f.prerequisites@.len(),
                        forall|j: int| 0 <= j < k ==> self.is_completed(#[trigger] f.prerequisites@[j].0),
                    decreases f.prerequisites@.len() - k,
                {
                    if !self.is_done(f.prerequisites[k]) {
                        return false;
                    }
                    k = k + 1;
                }
                true
            },
            None => false,
        }
    }

    /// Whether a focus can be started now.
    pub fn is_available(&self, focus_id: FocusId) -> (b: bool)
        ensures
            b == self.available(focus_id.0),
    {
        if self.is_done(focus_id) {
            return false;
        }
        match &self.in_progress {
            Some((current, _)) => {
                if current.0 == focus_id.0 {
                    return false;
                }
            },
            None => {},
        }
        self.prerequisites_met(focus_id)
    }

    /// Starts a focus; refused (returning `false`, changing nothing) when
    /// another focus is in progress or this one is not available.
    pub fn start_focus(&mut self, focus_id: FocusId) -> (started: bool)
        ensures
            started == (old(self).in_progress is None && old(self).available(focus_id.0)),
            started ==> final(self).in_progress == Some(
                (focus_id, old(self).focus(focus_id.0)->0.cost_days),
            ),
            !started ==> final(self).in_progress == old(self).in_progress,
            final(self).focuses@ == old(self).focuses@,
            final(self).completed@ == old(self).completed@,
            final(self).power == old(self).power,
    {
        if self.in_progress.is_some() {
            return false;
        }
        if !self.is_available(focus_id) {
            return false;
        }
        proof {
            lemma_focus_index(self.focuses@, focus_id.0);
        }
        let cost = match self.find(focus_id) {
            Some(i) => self.focuses[i].cost_days,
            None => 0,
        };
        self.in_progress = Some((focus_id, cost));
        true
    }

    /// Advances the focus in progress by `days`.  When it completes it is
    /// added to the completed set, nothing is left in progress, and its
    /// effects are returned.
    pub fn advance(&mut self, days: u32) -> (r: Option<Vec<FocusEffect>>)
        ensures
            final(self).focuses@ == old(self).focuses@,
            final(self).power == old(self).power,
            match old(self).in_progress {
                None => r is None && final(self).in_progress is None && final(self).completed@ == old(
                    self,
                ).completed@,
                Some((fid, remaining)) => if days >= remaining {
                    &&& final(self).in_progress is None
                    &&& (forall|id: u32| #[trigger] has_focus_id(final(self).completed@, id) <==> (has_focus_id(old(self).completed@, id) || id == fid.0))
                    &&& r matches Some(effects) && effects@ == match old(self).focus(fid.0) {
                        Some(f) => f.effects@,
                        None => Seq::empty(),
                    }
                } else {
                    &&& r is None
                    &&& final(self).in_progress == Some((fid, (remaining - days) as u32))
                    &&& final(self).completed@ == old(self).completed@
                },
            },
    {
        match self.in_progress {
            None => {
                assert(old(self).in_progress is None);
                None
            },
            Some((fid, remaining)) => {
                if days >= remaining {
                    if !self.is_done(fid) {
                        let ghost before = self.completed@;
                        self.completed.push(fid);
                        proof {
                            assert forall|id: u32| #[trigger] has_focus_id(self.completed@, id) <==> (has_focus_id(old(self).completed@, id) || id == fid.0) by {
                                if old(self).is_completed(id) {
                                    let k = choose|k: int| 0 <= k < before.len() && (#[trigger] before[k]).0 == id;
                                    assert(self.completed@[k] == before[k]);
                                }
                                if self.is_completed(id) && id != fid.0 {
                                    let k = choose|k: int| 0 <= k < self.completed@.len() && (#[trigger] self.completed@[k]).0 == id;
                                    assert(k < before.len());
                                    assert(before[k] == self.completed@[k]);
                                }
                                if id == fid.0 {
                                    assert(self.completed@[before.len() as int] == fid);
                                }
                            }
                        }
                    }
                    assert(forall|id: u32| #[trigger] has_focus_id(self.completed@, id) <==> (has_focus_id(old(self).completed@, id) || id == fid.0));
                    proof {
                        lemma_focus_index(self.focuses@, fid.0);
                    }
                    let effects = match self.find(fid) {
                        Some(i) => copy_effects(&self.focuses[i].effects),
                        None => Vec::new(),
                    };
                    self.in_progress = None;
                    Some(effects)
                } else {
                    self.in_progress = Some((fid, remaining - days));
                    None
                }
            },
        }
    }
}

proof fn lemma_focus_index_update(fs: Seq<Focus>, i: int, f: Focus, id: u32)
    requires
        0 <= i < fs.len(),
        f.id == fs[i].id,
    ensures
        focus_index(fs.update(i, f), id) == focus_index(fs, id),
    decreases fs.len(),
{
    if fs.len() > 0 {
        if i < fs.len() - 1 {
            assert(fs.update(i, f).drop_last() =~= fs.drop_last().update(i, f));
            lemma_focus_index_update(fs.drop_last(), i, f, id);
        } else {
            assert(fs.update(i, f).drop_last() =~= fs.drop_last());
        }
    }
}

/// A copy of an effect.
pub fn copy_effect(e: &FocusEffect) -> (r: FocusEffect)
    ensures
        r == *e,
{
    match e {
        FocusEffect::ManpowerBonus(v) => FocusEffect::ManpowerBonus(*v),
        FocusEffect::AttackBonus(v) => FocusEffect::AttackBonus(*v),
        FocusEffect::DefenseBonus(v) => FocusEffect::DefenseBonus(*v),
        FocusEffect::SupplyRangeBonus(v) => FocusEffect::SupplyRangeBonus(*v),
        FocusEffect::DiplomaticInfluence(s, v) => FocusEffect::DiplomaticInfluence(s.clone(), *v),
        FocusEffect::UnlockUnit(s) => FocusEffect::UnlockUnit(s.clone()),
        FocusEffect::TreasuryBonus(v) => FocusEffect::TreasuryBonus(*v),
        FocusEffect::NavalBonus(v) => FocusEffect::NavalBonus(*v),
        FocusEffect::ResearchBonus(v) => FocusEffect::ResearchBonus(*v),
    }
}

/// An element-by-element copy of an effect list.
pub fn copy_effects(v: &Vec<FocusEffect>) -> (r: Vec<FocusEffect>)
    ensures
        r@ == v@,
{
    let mut r: Vec<FocusEffect> = Vec::new();
    let mut i: usize = 0;
    while i < v.len()
        invariant
            i <= v@.len(),
            r@ == v@.take(i as int),
        decreases v@.len() - i,
    {
        r.push(copy_effect(&v[i]));
        i = i + 1;
        proof {
            assert(v@.take(i as int) =~= v@.take(i - 1).push(v@[i - 1]));
        }
    }
    proof {
        assert(v@.take(v@.len() as int) =~= v@);
    }
    r
}

/// Completing focuses only ever adds to the completed set: whatever was
/// completed before an `advance` is still completed after it.
pub proof fn lemma_completed_only_grows(before: FocusTree, after: FocusTree, days: u32, id: u32)
    requires
        before.is_completed(id),
        before.in_progress is None ==> after.completed@ == before.completed@,
        before.in_progress matches Some((fid, remaining)) ==> if days >= remaining {
            forall|x: u32| #[trigger] has_focus_id(after.completed@, x) <==> (has_focus_id(before.completed@, x) || x == fid.0)
        } else {
            after.completed@ == before.completed@
        },
    ensures
        after.is_completed(id),
{
    if before.in_progress is None || (before.in_progress matches Some((fid, remaining)) && days < remaining) {
        let k = choose|k: int| 0 <= k < before.completed@.len() && (#[trigger] before.completed@[k]).0 == id;
        assert(after.completed@[k].0 == id);
    }
}


/// What an effect grants, with its text as character sequences.
pub enum EffectView {
    ManpowerBonus(u32),
    AttackBonus(u32),
    DefenseBonus(u32),
    SupplyRangeBonus(u32),
    DiplomaticInfluence(Seq<char>, i32),
    UnlockUnit(Seq<char>),
    TreasuryBonus(u32),
    NavalBonus(u32),
    ResearchBonus(u32),
}

/// The view of an effect.
pub open spec fn effect_view(e: FocusEffect) -> EffectView {
    match e {
        FocusEffect::ManpowerBonus(v) => EffectView::ManpowerBonus(v),
        FocusEffect::AttackBonus(v) => EffectView::AttackBonus(v),
        FocusEffect::DefenseBonus(v) => EffectView::DefenseBonus(v),
        FocusEffect::SupplyRangeBonus(v) => EffectView::SupplyRangeBonus(v),
        FocusEffect::DiplomaticInfluence(s, v) => EffectView::DiplomaticInfluence(s@, v),
        FocusEffect::UnlockUnit(s) => EffectView::UnlockUnit(s@),
        FocusEffect::TreasuryBonus(v) => EffectView::TreasuryBonus(v),
        FocusEffect::NavalBonus(v) => EffectView::NavalBonus(v),
        FocusEffect::ResearchBonus(v) => EffectView::ResearchBonus(v),
    }
}

/// A focus by value.
pub struct FocusRow {
    pub id: u32,
    pub name: Seq<char>,
    pub description: Seq<char>,
    pub power: Seq<char>,
    pub cost_days: u32,
    pub prerequisites: Seq<u32>,
    pub effects: Seq<EffectView>,
    pub x: i32,
    pub y: i32,
    pub icon: Seq<char>,
    pub category: Seq<char>,
}

/// The view of a focus.
pub open spec fn focus_row(f: Focus) -> FocusRow {
    FocusRow {
        id: f.id.0,
        name: f.name@,
        description: f.description@,
        power: f.power@,
        cost_days: f.cost_days,
        prerequisites: f.prerequisites@.map_values(|p: FocusId| p.0),
        effects: f.effects@.map_values(|e: FocusEffect| effect_view(e)),
        x: f.x,
        y: f.y,
        icon: f.icon@,
        category: f.category@,
    }
}

/// A focus of `power` from its parts.
fn make_focus(
    id: u32,
    name: &str,
    description: &str,
    power: &str,
    cost_days: u32,
    prerequisites: Vec<FocusId>,
    effects: Vec<FocusEffect>,
    x: i32,
    y: i32,
    icon: &str,
    category: &str,
) -> (f: Focus)
    ensures
        focus_row(f) == (FocusRow {
            id,
            name: name@,
            description: description@,
            power: power@,
            cost_days,
            prerequisites: prerequisites@.map_values(|p: FocusId| p.0),
            effects: effects@.map_values(|e: FocusEffect| effect_view(e)),
            x,
            y,
            icon: icon@,
            category: category@,
        }),
{
    Focus {
        id: FocusId(id),
        name: name.to_string(),
        description: description.to_string(),
        power: PowerId::new(power),
        cost_days,
        prerequisites,
        effects,
        x,
        y,
        icon: icon.to_string(),
        category: category.to_string(),
    }
}

/// The French focuses, by ID from 1.
pub open spec fn france_rows() -> Seq<FocusRow> {
    seq![
        FocusRow {
            id: 1,
            name: "Grande Armée Reform"@,
            description: "Reorganize the French army into a modern instrument of war."@,
            power: "FRA"@,
            cost_days: 70,
            prerequisites: seq![],
            effects: seq![EffectView::AttackBonus(10u32)],
            x: 0i32,
            y: 0i32,
            icon: "⚔️"@,
            category: "military"@,
        },
        FocusRow {
            id: 2,
            name: "Corps System"@,
            description: "Adopt the corps d'armée system for independent combined-arms formations."@,
            power: "FRA"@,
            cost_days: 70,
            prerequisites: seq![1u32],
            effects: seq![EffectView::SupplyRangeBonus(25u32)],
            x: -1i32,
            y: 1i32,
            icon: "⚔️"@,
            category: "military"@,
        },
        FocusRow {
            id: 3,
            name: "Imperial Guard"@,
            description: "Expand the elite Imperial Guard into a full corps of veterans."@,
            power: "FRA"@,
            cost_days: 140,
            prerequisites: seq![2u32],
            effects: seq![EffectView::UnlockUnit("Imperial Guard"@)],
            x: -1i32,
            y: 2i32,
            icon: "👑"@,
            category: "military"@,
        },
        FocusRow {
            id: 4,
            name: "Light Infantry Doctrine"@,
            description: "Train voltigeur and chasseur companies in skirmish warfare."@,
            power: "FRA"@,
            cost_days: 70,
            prerequisites: seq![1u32],
            effects: seq![EffectView::DefenseBonus(10u32)],
            x: 1i32,
            y: 1i32,
            icon: "⚔️"@,
            category: "military"@,
        },
        FocusRow {
            id: 5,
            name: "Continental System"@,
            description: "Impose an economic blockade on Britain across Europe."@,
            power: "FRA"@,
            cost_days: 70,
            prerequisites: seq![],
            effects: seq![EffectView::TreasuryBonus(200u32)],
            x: 3i32,
            y: 0i32,
            icon: "💰"@,
            category: "economic"@,
        },
        FocusRow {
            id: 6,
            name: "Economic Dominance"@,
            description: "Establish French commercial supremacy over continental markets."@,
            power: "FRA"@,
            cost_days: 140,
            prerequisites: seq![5u32],
            effects: seq![EffectView::TreasuryBonus(400u32)],
            x: 3i32,
            y: 1i32,
            icon: "💰"@,
            category: "economic"@,
        },
        FocusRow {
            id: 7,
            name: "European Hegemony"@,
            description: "France dominates the continent — all nations bend the knee."@,
            power: "FRA"@,
            cost_days: 210,
            prerequisites: seq![6u32],
            effects: seq![EffectView::DiplomaticInfluence("ALL"@, 50i32), EffectView::TreasuryBonus(500u32)],
            x: 3i32,
            y: 2i32,
            icon: "👑"@,
            category: "economic"@,
        },
        FocusRow {
            id: 8,
            name: "Blockade Britain"@,
            description: "Enforce the Continental System and strangle British trade."@,
            power: "FRA"@,
            cost_days: 105,
            prerequisites: seq![5u32],
            effects: seq![EffectView::NavalBonus(10u32), EffectView::DiplomaticInfluence("GBR"@, -30i32)],
            x: 5i32,
            y: 1i32,
            icon: "⚓"@,
            category: "economic"@,
        },
        FocusRow {
            id: 9,
            name: "Napoleonic Code"@,
            description: "Codify civil law across the Empire, modernizing governance."@,
            power: "FRA"@,
            cost_days: 70,
            prerequisites: seq![],
            effects: seq![EffectView::ResearchBonus(15u32)],
            x: 7i32,
            y: 0i32,
            icon: "🏛️"@,
            category: "political"@,
        },
        FocusRow {
            id: 10,
            name: "Administrative Reform"@,
            description: "Rationalize the prefectural system and tax collection."@,
            power: "FRA"@,
            cost_days: 70,
            prerequisites: seq![9u32],
            effects: seq![EffectView::TreasuryBonus(150u32)],
            x: 7i32,
            y: 1i32,
            icon: "🏛️"@,
            category: "political"@,
        },
        FocusRow {
            id: 11,
            name: "Centralized State"@,
            description: "Complete centralization of the French administrative apparatus."@,
            power: "FRA"@,
            cost_days: 140,
            prerequisites: seq![10u32],
            effects: seq![EffectView::ResearchBonus(20u32), EffectView::TreasuryBonus(250u32)],
            x: 7i32,
            y: 2i32,
            icon: "🏛️"@,
            category: "political"@,
        },
        FocusRow {
            id: 12,
            name: "Conscription Levée"@,
            description: "Institute mass conscription under the Jourdan Law."@,
            power: "FRA"@,
            cost_days: 35,
            prerequisites: seq![],
            effects: seq![EffectView::ManpowerBonus(50000u32)],
            x: 10i32,
            y: 0i32,
            icon: "⚔️"@,
            category: "military"@,
        },
        FocusRow {
            id: 13,
            name: "Mass Mobilization"@,
            description: "Call up the reserves and expand the training depots."@,
            power: "FRA"@,
            cost_days: 70,
            prerequisites: seq![12u32],
            effects: seq![EffectView::ManpowerBonus(100000u32)],
            x: 10i32,
            y: 1i32,
            icon: "⚔️"@,
            category: "military"@,
        },
        FocusRow {
            id: 14,
            name: "Grand Armée 600K"@,
            description: "The Grande Armée reaches its full strength of 600,000 men."@,
            power: "FRA"@,
            cost_days: 140,
            prerequisites: seq![13u32],
            effects: seq![EffectView::ManpowerBonus(200000u32), EffectView::AttackBonus(5u32)],
            x: 10i32,
            y: 2i32,
            icon: "👑"@,
            category: "military"@,
        },
    ]
}

/// The British focuses, by ID from 101.
pub open spec fn britain_rows() -> Seq<FocusRow> {
    seq![
        FocusRow {
            id: 101,
            name: "Naval Supremacy"@,
            description: "The Royal Navy must command the seas absolutely."@,
            power: "GBR"@,
            cost_days: 70,
            prerequisites: seq![],
            effects: seq![EffectView::NavalBonus(20u32)],
            x: 0i32,
            y: 0i32,
            icon: "⚓"@,
            category: "naval"@,
        },
        FocusRow {
            id: 102,
            name: "Ship of the Line Program"@,
            description: "Expand the fleet with 74-gun ships of the line."@,
            power: "GBR"@,
            cost_days: 140,
            prerequisites: seq![101u32],
            effects: seq![EffectView::NavalBonus(30u32), EffectView::UnlockUnit("First Rate Ship"@)],
            x: -1i32,
            y: 1i32,
            icon: "⚓"@,
            category: "naval"@,
        },
        FocusRow {
            id: 103,
            name: "Rule Britannia"@,
            description: "Britannia rules the waves — total naval dominance achieved."@,
            power: "GBR"@,
            cost_days: 210,
            prerequisites: seq![102u32],
            effects: seq![EffectView::NavalBonus(50u32), EffectView::DiplomaticInfluence("ALL"@, 25i32)],
            x: -1i32,
            y: 2i32,
            icon: "👑"@,
            category: "naval"@,
        },
        FocusRow {
            id: 104,
            name: "Blockade France"@,
            description: "Enforce a naval blockade of French and allied ports."@,
            power: "GBR"@,
            cost_days: 105,
            prerequisites: seq![101u32],
            effects: seq![EffectView::NavalBonus(15u32), EffectView::DiplomaticInfluence("FRA"@, -30i32)],
            x: 1i32,
            y: 1i32,
            icon: "⚓"@,
            category: "naval"@,
        },
        FocusRow {
            id: 105,
            name: "Coalition Building"@,
            description: "Forge alliances against France on the continent."@,
            power: "GBR"@,
            cost_days: 70,
            prerequisites: seq![],
            effects: seq![EffectView::DiplomaticInfluence("ALL"@, 15i32)],
            x: 3i32,
            y: 0i32,
            icon: "🏛️"@,
            category: "political"@,
        },
        FocusRow {
            id: 106,
            name: "Subsidize Allies"@,
            description: "Use British gold to fund continental armies against Napoleon."@,
            power: "GBR"@,
            cost_days: 105,
            prerequisites: seq![105u32],
            effects: seq![EffectView::DiplomaticInfluence("AUS"@, 25i32), EffectView::DiplomaticInfluence("PRU"@, 25i32), EffectView::DiplomaticInfluence("RUS"@, 25i32)],
            x: 3i32,
            y: 1i32,
            icon: "💰"@,
            category: "political"@,
        },
        FocusRow {
            id: 107,
            name: "Grand Coalition"@,
            description: "The Third Coalition is formed — all Europe stands against France."@,
            power: "GBR"@,
            cost_days: 140,
            prerequisites: seq![106u32],
            effects: seq![EffectView::DiplomaticInfluence("ALL"@, 40i32), EffectView::AttackBonus(5u32)],
            x: 3i32,
            y: 2i32,
            icon: "👑"@,
            category: "political"@,
        },
        FocusRow {
            id: 108,
            name: "Industrial Revolution"@,
            description: "Harness the power of industry to fuel the war effort."@,
            power: "GBR"@,
            cost_days: 70,
            prerequisites: seq![],
            effects: seq![EffectView::TreasuryBonus(300u32)],
            x: 6i32,
            y: 0i32,
            icon: "💰"@,
            category: "economic"@,
        },
        FocusRow {
            id: 109,
            name: "Steam Power"@,
            description: "Apply Watt's steam engine to manufacturing and transport."@,
            power: "GBR"@,
            cost_days: 140,
            prerequisites: seq![108u32],
            effects: seq![EffectView::ResearchBonus(25u32), EffectView::TreasuryBonus(200u32)],
            x: 6i32,
            y: 1i32,
            icon: "💰"@,
            category: "economic"@,
        },
        FocusRow {
            id: 110,
            name: "Factory System"@,
            description: "Industrialize arms production with the factory system."@,
            power: "GBR"@,
            cost_days: 140,
            prerequisites: seq![109u32],
            effects: seq![EffectView::TreasuryBonus(400u32), EffectView::ManpowerBonus(30000u32)],
            x: 6i32,
            y: 2i32,
            icon: "💰"@,
            category: "economic"@,
        },
        FocusRow {
            id: 111,
            name: "Wellington's Army"@,
            description: "Reform the British Army under Sir Arthur Wellesley."@,
            power: "GBR"@,
            cost_days: 105,
            prerequisites: seq![],
            effects: seq![EffectView::DefenseBonus(15u32), EffectView::AttackBonus(10u32)],
            x: 9i32,
            y: 0i32,
            icon: "⚔️"@,
            category: "military"@,
        },
        FocusRow {
            id: 112,
            name: "Peninsula Campaign"@,
            description: "Launch a major campaign in Iberia to bleed France dry."@,
            power: "GBR"@,
            cost_days: 140,
            prerequisites: seq![111u32],
            effects: seq![EffectView::AttackBonus(15u32), EffectView::DiplomaticInfluence("SPA"@, 30i32)],
            x: 9i32,
            y: 1i32,
            icon: "⚔️"@,
            category: "military"@,
        },
    ]
}

/// `t` is the French tree as built at the start: the focuses of `france_rows`, by ID from 1, nothing completed or in progress.
pub open spec fn is_france_tree(t: FocusTree) -> bool {
    &&& t.power@ == "FRA"@
    &&& t.completed@.len() == 0
    &&& t.in_progress is None
    &&& forall|id: u32| 1 <= id <= 14 ==> (#[trigger] t.focus(id) matches Some(f) && focus_row(f) == france_rows()[id - 1])
    &&& forall|id: u32| !(1 <= id <= 14) ==> (#[trigger] t.focus(id)) is None
}

/// The French focus tree: military, economic, political and manpower branches.
pub fn build_france_tree() -> (t: FocusTree)
    ensures
        is_france_tree(t),
{
    let mut tree = FocusTree::new(PowerId::new("FRA"));
    let effects = vec![FocusEffect::AttackBonus(10)];
    proof {
        assert(effects@.map_values(|e: FocusEffect| effect_view(e)) =~= seq![EffectView::AttackBonus(10u32)]);
    }
    let f = make_focus(1, "Grande Armée Reform", "Reorganize the French army into a modern instrument of war.", "FRA", 70, vec![], effects, 0, 0, "⚔️", "military");
    let ghost g1 = f;
    proof {
        assert(g1.prerequisites@.map_values(|p: FocusId| p.0) =~= seq![]);
    }
    tree.add_focus(f);
    let effects = vec![FocusEffect::SupplyRangeBonus(25)];
    proof {
        assert(effects@.map_values(|e: FocusEffect| effect_view(e)) =~= seq![EffectView::SupplyRangeBonus(25u32)]);
    }
    let f = make_focus(2, "Corps System", "Adopt the corps d'armée system for independent combined-arms formations.", "FRA", 70, vec![FocusId(1)], effects, -1, 1, "⚔️", "military");
    let ghost g2 = f;
    proof {
        assert(g2.prerequisites@.map_values(|p: FocusId| p.0) =~= seq![1u32]);
    }
    tree.add_focus(f);
    let effects = vec![FocusEffect::UnlockUnit("Imperial Guard".to_string())];
    proof {
        assert(effects@.map_values(|e: FocusEffect| effect_view(e)) =~= seq![EffectView::UnlockUnit("Imperial Guard"@)]);
    }
    let f = make_focus(3, "Imperial Guard", "Expand the elite Imperial Guard into a full corps of veterans.", "FRA", 140, vec![FocusId(2)], effects, -1, 2, "👑", "military");
    let ghost g3 = f;
    proof {
        assert(g3.prerequisites@.map_values(|p: FocusId| p.0) =~= seq![2u32]);
    }
    tree.add_focus(f);
    let effects = vec![FocusEffect::DefenseBonus(10)];
    proof {
        assert(effects@.map_values(|e: FocusEffect| effect_view(e)) =~= seq![EffectView::DefenseBonus(10u32)]);
    }
    let f = make_focus(4, "Light Infantry Doctrine", "Train voltigeur and chasseur companies in skirmish warfare.", "FRA", 70, vec![FocusId(1)], effects, 1, 1, "⚔️", "military");
    let ghost g4 = f;
    proof {
        assert(g4.prerequisites@.map_values(|p: FocusId| p.0) =~= seq![1u32]);
    }
    tree.add_focus(f);
    let effects = vec![FocusEffect::TreasuryBonus(200)];
    proof {
        assert(effects@.map_values(|e: FocusEffect| effect_view(e)) =~= seq![EffectView::TreasuryBonus(200u32)]);
    }
    let f = make_focus(5, "Continental System", "Impose an economic blockade on Britain across Europe.", "FRA", 70, vec![], effects, 3, 0, "💰", "economic");
    let ghost g5 = f;
    proof {
        assert(g5.prerequisites@.map_values(|p: FocusId| p.0) =~= seq![]);
    }
    tree.add_focus(f);
    let effects = vec![FocusEffect::TreasuryBonus(400)];
    proof {
        assert(effects@.map_values(|e: FocusEffect| effect_view(e)) =~= seq![EffectView::TreasuryBonus(400u32)]);
    }
    let f = make_focus(6, "Economic Dominance", "Establish French commercial supremacy over continental markets.", "FRA", 140, vec![FocusId(5)], effects, 3, 1, "💰", "economic");
    let ghost g6 = f;
    proof {
        assert(g6.prerequisites@.map_values(|p: FocusId| p.0) =~= seq![5u32]);
    }
    tree.add_focus(f);
    let effects = vec![FocusEffect::DiplomaticInfluence("ALL".to_string(), 50), FocusEffect::TreasuryBonus(500)];
    proof {
        assert(effects@.map_values(|e: FocusEffect| effect_view(e)) =~= seq![EffectView::DiplomaticInfluence("ALL"@, 50i32), EffectView::TreasuryBonus(500u32)]);
    }
    let f = make_focus(7, "European Hegemony", "France dominates the continent — all nations bend the knee.", "FRA", 210, vec![FocusId(6)], effects, 3, 2, "👑", "economic");
    let ghost g7 = f;
    proof {
        assert(g7.prerequisites@.map_values(|p: FocusId| p.0) =~= seq![6u32]);
    }
    tree.add_focus(f);
    let effects = vec![FocusEffect::NavalBonus(10), FocusEffect::DiplomaticInfluence("GBR".to_string(), -30)];
    proof {
        assert(effects@.map_values(|e: FocusEffect| effect_view(e)) =~= seq![EffectView::NavalBonus(10u32), EffectView::DiplomaticInfluence("GBR"@, -30i32)]);
    }
    let f = make_focus(8, "Blockade Britain", "Enforce the Continental System and strangle British trade.", "FRA", 105, vec![FocusId(5)], effects, 5, 1, "⚓", "economic");
    let ghost g8 = f;
    proof {
        assert(g8.prerequisites@.map_values(|p: FocusId| p.0) =~= seq![5u32]);
    }
    tree.add_focus(f);
    let effects = vec![FocusEffect::ResearchBonus(15)];
    proof {
        assert(effects@.map_values(|e: FocusEffect| effect_view(e)) =~= seq![EffectView::ResearchBonus(15u32)]);
    }
    let f = make_focus(9, "Napoleonic Code", "Codify civil law across the Empire, modernizing governance.", "FRA", 70, vec![], effects, 7, 0, "🏛️", "political");
    let ghost g9 = f;
    proof {
        assert(g9.prerequisites@.map_values(|p: FocusId| p.0) =~= seq![]);
    }
    tree.add_focus(f);
    let effects = vec![FocusEffect::TreasuryBonus(150)];
    proof {
        assert(effects@.map_values(|e: FocusEffect| effect_view(e)) =~= seq![EffectView::TreasuryBonus(150u32)]);
    }
    let f = make_focus(10, "Administrative Reform", "Rationalize the prefectural system and tax collection.", "FRA", 70, vec![FocusId(9)], effects, 7, 1, "🏛️", "political");
    let ghost g10 = f;
    proof {
        assert(g10.prerequisites@.map_values(|p: FocusId| p.0) =~= seq![9u32]);
    }
    tree.add_focus(f);
    let effects = vec![FocusEffect::ResearchBonus(20), FocusEffect::TreasuryBonus(250)];
    proof {
        assert(effects@.map_values(|e: FocusEffect| effect_view(e)) =~= seq![EffectView::ResearchBonus(20u32), EffectView::TreasuryBonus(250u32)]);
    }
    let f = make_focus(11, "Centralized State", "Complete centralization of the French administrative apparatus.", "FRA", 140, vec![FocusId(10)], effects, 7, 2, "🏛️", "political");
    let ghost g11 = f;
    proof {
        assert(g11.prerequisites@.map_values(|p: FocusId| p.0) =~= seq![10u32]);
    }
    tree.add_focus(f);
    let effects = vec![FocusEffect::ManpowerBonus(50000)];
    proof {
        assert(effects@.map_values(|e: FocusEffect| effect_view(e)) =~= seq![EffectView::ManpowerBonus(50000u32)]);
    }
    let f = make_focus(12, "Conscription Levée", "Institute mass conscription under the Jourdan Law.", "FRA", 35, vec![], effects, 10, 0, "⚔️", "military");
    let ghost g12 = f;
    proof {
        assert(g12.prerequisites@.map_values(|p: FocusId| p.0) =~= seq![]);
    }
    tree.add_focus(f);
    let effects = vec![FocusEffect::ManpowerBonus(100000)];
    proof {
        assert(effects@.map_values(|e: FocusEffect| effect_view(e)) =~= seq![EffectView::ManpowerBonus(100000u32)]);
    }
    let f = make_focus(13, "Mass Mobilization", "Call up the reserves and expand the training depots.", "FRA", 70, vec![FocusId(12)], effects, 10, 1, "⚔️", "military");
    let ghost g13 = f;
    proof {
        assert(g13.prerequisites@.map_values(|p: FocusId| p.0) =~= seq![12u32]);
    }
    tree.add_focus(f);
    let effects = vec![FocusEffect::ManpowerBonus(200000), FocusEffect::AttackBonus(5)];
    proof {
        assert(effects@.map_values(|e: FocusEffect| effect_view(e)) =~= seq![EffectView::ManpowerBonus(200000u32), EffectView::AttackBonus(5u32)]);
    }
    let f = make_focus(14, "Grand Armée 600K", "The Grande Armée reaches its full strength of 600,000 men.", "FRA", 140, vec![FocusId(13)], effects, 10, 2, "👑", "military");
    let ghost g14 = f;
    proof {
        assert(g14.prerequisites@.map_values(|p: FocusId| p.0) =~= seq![13u32]);
    }
    tree.add_focus(f);
    proof {
        assert(focus_row(g1) == france_rows()[0]);
        assert(focus_row(g2) == france_rows()[1]);
        assert(focus_row(g3) == france_rows()[2]);
        assert(focus_row(g4) == france_rows()[3]);
        assert(focus_row(g5) == france_rows()[4]);
        assert(focus_row(g6) == france_rows()[5]);
        assert(focus_row(g7) == france_rows()[6]);
        assert(focus_row(g8) == france_rows()[7]);
        assert(focus_row(g9) == france_rows()[8]);
        assert(focus_row(g10) == france_rows()[9]);
        assert(focus_row(g11) == france_rows()[10]);
        assert(focus_row(g12) == france_rows()[11]);
        assert(focus_row(g13) == france_rows()[12]);
        assert(focus_row(g14) == france_rows()[13]);
        assert(tree.focus(1) == Some(g1));
        assert(tree.focus(2) == Some(g2));
        assert(tree.focus(3) == Some(g3));
        assert(tree.focus(4) == Some(g4));
        assert(tree.focus(5) == Some(g5));
        assert(tree.focus(6) == Some(g6));
        assert(tree.focus(7) == Some(g7));
        assert(tree.focus(8) == Some(g8));
        assert(tree.focus(9) == Some(g9));
        assert(tree.focus(10) == Some(g10));
        assert(tree.focus(11) == Some(g11));
        assert(tree.focus(12) == Some(g12));
        assert(tree.focus(13) == Some(g13));
        assert(tree.focus(14) == Some(g14));
    }
    tree
}

/// `t` is the British tree as built at the start: the focuses of `britain_rows`, by ID from 101, nothing completed or in progress.
pub open spec fn is_britain_tree(t: FocusTree) -> bool {
    &&& t.power@ == "GBR"@
    &&& t.completed@.len() == 0
    &&& t.in_progress is None
    &&& forall|id: u32| 101 <= id <= 112 ==> (#[trigger] t.focus(id) matches Some(f) && focus_row(f) == britain_rows()[id - 101])
    &&& forall|id: u32| !(101 <= id <= 112) ==> (#[trigger] t.focus(id)) is None
}

/// The British focus tree: naval, diplomatic, industrial and army branches.
pub fn build_britain_tree() -> (t: FocusTree)
    ensures
        is_britain_tree(t),
{
    let mut tree = FocusTree::new(PowerId::new("GBR"));
    let effects = vec![FocusEffect::NavalBonus(20)];
    proof {
        assert(effects@.map_values(|e: FocusEffect| effect_view(e)) =~= seq![EffectView::NavalBonus(20u32)]);
    }
    let f = make_focus(101, "Naval Supremacy", "The Royal Navy must command the seas absolutely.", "GBR", 70, vec![], effects, 0, 0, "⚓", "naval");
    let ghost g101 = f;
    proof {
        assert(g101.prerequisites@.map_values(|p: FocusId| p.0) =~= seq![]);
    }
    tree.add_focus(f);
    let effects = vec![FocusEffect::NavalBonus(30), FocusEffect::UnlockUnit("First Rate Ship".to_string())];
    proof {
        assert(effects@.map_values(|e: FocusEffect| effect_view(e)) =~= seq![EffectView::NavalBonus(30u32), EffectView::UnlockUnit("First Rate Ship"@)]);
    }
    let f = make_focus(102, "Ship of the Line Program", "Expand the fleet with 74-gun ships of the line.", "GBR", 140, vec![FocusId(101)], effects, -1, 1, "⚓", "naval");
    let ghost g102 = f;
    proof {
        assert(g102.prerequisites@.map_values(|p: FocusId| p.0) =~= seq![101u32]);
    }
    tree.add_focus(f);
    let effects = vec![FocusEffect::NavalBonus(50), FocusEffect::DiplomaticInfluence("ALL".to_string(), 25)];
    proof {
        assert(effects@.map_values(|e: FocusEffect| effect_view(e)) =~= seq![EffectView::NavalBonus(50u32), EffectView::DiplomaticInfluence("ALL"@, 25i32)]);
    }
    let f = make_focus(103, "Rule Britannia", "Britannia rules the waves — total naval dominance achieved.", "GBR", 210, vec![FocusId(102)], effects, -1, 2, "👑", "naval");
    let ghost g103 = f;
    proof {
        assert(g103.prerequisites@.map_values(|p: FocusId| p.0) =~= seq![102u32]);
    }
    tree.add_focus(f);
    let effects = vec![FocusEffect::NavalBonus(15), FocusEffect::DiplomaticInfluence("FRA".to_string(), -30)];
    proof {
        assert(effects@.map_values(|e: FocusEffect| effect_view(e)) =~= seq![EffectView::NavalBonus(15u32), EffectView::DiplomaticInfluence("FRA"@, -30i32)]);
    }
    let f = make_focus(104, "Blockade France", "Enforce a naval blockade of French and allied ports.", "GBR", 105, vec![FocusId(101)], effects, 1, 1, "⚓", "naval");
    let ghost g104 = f;
    proof {
        assert(g104.prerequisites@.map_values(|p: FocusId| p.0) =~= seq![101u32]);
    }
    tree.add_focus(f);
    let effects = vec![FocusEffect::DiplomaticInfluence("ALL".to_string(), 15)];
    proof {
        assert(effects@.map_values(|e: FocusEffect| effect_view(e)) =~= seq![EffectView::DiplomaticInfluence("ALL"@, 15i32)]);
    }
    let f = make_focus(105, "Coalition Building", "Forge alliances against France on the continent.", "GBR", 70, vec![], effects, 3, 0, "🏛️", "political");
    let ghost g105 = f;
    proof {
        assert(g105.prerequisites@.map_values(|p: FocusId| p.0) =~= seq![]);
    }
    tree.add_focus(f);
    let effects = vec![FocusEffect::DiplomaticInfluence("AUS".to_string(), 25), FocusEffect::DiplomaticInfluence("PRU".to_string(), 25), FocusEffect::DiplomaticInfluence("RUS".to_string(), 25)];
    proof {
        assert(effects@.map_values(|e: FocusEffect| effect_view(e)) =~= seq![EffectView::DiplomaticInfluence("AUS"@, 25i32), EffectView::DiplomaticInfluence("PRU"@, 25i32), EffectView::DiplomaticInfluence("RUS"@, 25i32)]);
    }
    let f = make_focus(106, "Subsidize Allies", "Use British gold to fund continental armies against Napoleon.", "GBR", 105, vec![FocusId(105)], effects, 3, 1, "💰", "political");
    let ghost g106 = f;
    proof {
        assert(g106.prerequisites@.map_values(|p: FocusId| p.0) =~= seq![105u32]);
    }
    tree.add_focus(f);
    let effects = vec![FocusEffect::DiplomaticInfluence("ALL".to_string(), 40), FocusEffect::AttackBonus(5)];
    proof {
        assert(effects@.map_values(|e: FocusEffect| effect_view(e)) =~= seq![EffectView::DiplomaticInfluence("ALL"@, 40i32), EffectView::AttackBonus(5u32)]);
    }
    let f = make_focus(107, "Grand Coalition", "The Third Coalition is formed — all Europe stands against France.", "GBR", 140, vec![FocusId(106)], effects, 3, 2, "👑", "political");
    let ghost g107 = f;
    proof {
        assert(g107.prerequisites@.map_values(|p: FocusId| p.0) =~= seq![106u32]);
    }
    tree.add_focus(f);
    let effects = vec![FocusEffect::TreasuryBonus(300)];
    proof {
        assert(effects@.map_values(|e: FocusEffect| effect_view(e)) =~= seq![EffectView::TreasuryBonus(300u32)]);
    }
    let f = make_focus(108, "Industrial Revolution", "Harness the power of industry to fuel the war effort.", "GBR", 70, vec![], effects, 6, 0, "💰", "economic");
    let ghost g108 = f;
    proof {
        assert(g108.prerequisites@.map_values(|p: FocusId| p.0) =~= seq![]);
    }
    tree.add_focus(f);
    let effects = vec![FocusEffect::ResearchBonus(25), FocusEffect::TreasuryBonus(200)];
    proof {
        assert(effects@.map_values(|e: FocusEffect| effect_view(e)) =~= seq![EffectView::ResearchBonus(25u32), EffectView::TreasuryBonus(200u32)]);
    }
    let f = make_focus(109, "Steam Power", "Apply Watt's steam engine to manufacturing and transport.", "GBR", 140, vec![FocusId(108)], effects, 6, 1, "💰", "economic");
    let ghost g109 = f;
    proof {
        assert(g109.prerequisites@.map_values(|p: FocusId| p.0) =~= seq![108u32]);
    }
    tree.add_focus(f);
    let effects = vec![FocusEffect::TreasuryBonus(400), FocusEffect::ManpowerBonus(30000)];
    proof {
        assert(effects@.map_values(|e: FocusEffect| effect_view(e)) =~= seq![EffectView::TreasuryBonus(400u32), EffectView::ManpowerBonus(30000u32)]);
    }
    let f = make_focus(110, "Factory System", "Industrialize arms production with the factory system.", "GBR", 140, vec![FocusId(109)], effects, 6, 2, "💰", "economic");
    let ghost g110 = f;
    proof {
        assert(g110.prerequisites@.map_values(|p: FocusId| p.0) =~= seq![109u32]);
    }
    tree.add_focus(f);
    let effects = vec![FocusEffect::DefenseBonus(15), FocusEffect::AttackBonus(10)];
    proof {
        assert(effects@.map_values(|e: FocusEffect| effect_view(e)) =~= seq![EffectView::DefenseBonus(15u32), EffectView::AttackBonus(10u32)]);
    }
    let f = make_focus(111, "Wellington's Army", "Reform the British Army under Sir Arthur Wellesley.", "GBR", 105, vec![], effects, 9, 0, "⚔️", "military");
    let ghost g111 = f;
    proof {
        assert(g111.prerequisites@.map_values(|p: FocusId| p.0) =~= seq![]);
    }
    tree.add_focus(f);
    let effects = vec![FocusEffect::AttackBonus(15), FocusEffect::DiplomaticInfluence("SPA".to_string(), 30)];
    proof {
        assert(effects@.map_values(|e: FocusEffect| effect_view(e)) =~= seq![EffectView::AttackBonus(15u32), EffectView::DiplomaticInfluence("SPA"@, 30i32)]);
    }
    let f = make_focus(112, "Peninsula Campaign", "Launch a major campaign in Iberia to bleed France dry.", "GBR", 140, vec![FocusId(111)], effects, 9, 1, "⚔️", "military");
    let ghost g112 = f;
    proof {
        assert(g112.prerequisites@.map_values(|p: FocusId| p.0) =~= seq![111u32]);
    }
    tree.add_focus(f);
    proof {
        assert(focus_row(g101) == britain_rows()[0]);
        assert(focus_row(g102) == britain_rows()[1]);
        assert(focus_row(g103) == britain_rows()[2]);
        assert(focus_row(g104) == britain_rows()[3]);
        assert(focus_row(g105) == britain_rows()[4]);
        assert(focus_row(g106) == britain_rows()[5]);
        assert(focus_row(g107) == britain_rows()[6]);
        assert(focus_row(g108) == britain_rows()[7]);
        assert(focus_row(g109) == britain_rows()[8]);
        assert(focus_row(g110) == britain_rows()[9]);
        assert(focus_row(g111) == britain_rows()[10]);
        assert(focus_row(g112) == britain_rows()[11]);
        assert(tree.focus(101) == Some(g101));
        assert(tree.focus(102) == Some(g102));
        assert(tree.focus(103) == Some(g103));
        assert(tree.focus(104) == Some(g104));
        assert(tree.focus(105) == Some(g105));
        assert(tree.focus(106) == Some(g106));
        assert(tree.focus(107) == Some(g107));
        assert(tree.focus(108) == Some(g108));
        assert(tree.focus(109) == Some(g109));
        assert(tree.focus(110) == Some(g110));
        assert(tree.focus(111) == Some(g111));
        assert(tree.focus(112) == Some(g112));
    }
    tree
}


/// `after` is `before` advanced by `days` days, and `r` what advancing
/// returns: with nothing in progress nothing changes and `None` is
/// returned; a focus whose remaining days are used up is completed, left
/// no longer in progress, and its effects are returned; otherwise its
/// remaining days go down by `days` and `None` is returned.  The focuses
/// and the power never change.
pub open spec fn advanced_tree(before: FocusTree, after: FocusTree, days: u32, r: Option<Vec<FocusEffect>>) -> bool {
    &&& after.focuses@ == before.focuses@
    &&& after.power == before.power
    &&& match before.in_progress {
        None => r is None && after.in_progress is None && after.completed@ == before.completed@,
        Some((fid, remaining)) => if days >= remaining {
            &&& after.in_progress is None
            &&& (forall|id: u32| #[trigger] has_focus_id(after.completed@, id) <==> (has_focus_id(before.completed@, id) || id == fid.0))
            &&& r matches Some(effects) && effects@ == match before.focus(fid.0) {
                Some(f) => f.effects@,
                None => Seq::empty(),
            }
        } else {
            &&& r is None
            &&& after.in_progress == Some((fid, (remaining - days) as u32))
            &&& after.completed@ == before.completed@
        },
    }
}

/// Focus trees of all powers, keyed by power ID.
#[derive(Debug)]
pub struct FocusRegistry {
    pub trees: StrMap<FocusTree>,
}

impl FocusRegistry {
    /// The French and British trees, keyed `FRA` and `GBR`.
    pub fn with_defaults() -> (r: Self)
        ensures
            r.trees@.dom() == set!["FRA"@, "GBR"@],
            is_france_tree(r.trees@["FRA"@]),
            is_britain_tree(r.trees@["GBR"@]),
    {
        proof {
            reveal_strlit("FRA");
            reveal_strlit("GBR");
            assert("FRA"@[0] != "GBR"@[0]);
        }
        let mut trees: StrMap<FocusTree> = StrMap::new();
        trees.insert("FRA".to_string(), build_france_tree());
        trees.insert("GBR".to_string(), build_britain_tree());
        proof {
            assert(trees@.dom() =~= set!["FRA"@, "GBR"@]);
        }
        FocusRegistry { trees }
    }

    /// The tree of `power_id`, if any.
    pub fn get_tree(&self, power_id: &str) -> (r: Option<&FocusTree>)
        ensures
            match r {
                Some(t) => self.trees@.contains_key(power_id@) && *t == self.trees@[power_id@],
                None => !self.trees@.contains_key(power_id@),
            },
    {
        self.trees.get(power_id)
    }

    /// Starts a focus in `power_id`'s tree; `false` for an unknown power.
    pub fn start_focus(&mut self, power_id: &str, focus_id: u32) -> (started: bool)
        ensures
            !old(self).trees@.contains_key(power_id@) ==> !started && final(self).trees@ == old(self).trees@,
            old(self).trees@.contains_key(power_id@) ==> {
                let t = old(self).trees@[power_id@];
                &&& started == (t.in_progress is None && t.available(focus_id))
                &&& final(self).trees@.dom() == old(self).trees@.dom()
            },
    {
        match self.trees.find(power_id) {
            Some(i) => {
                let (key, mut tree) = self.trees.remove_at(i);
                let started = tree.start_focus(FocusId(focus_id));
                self.trees.insert(key, tree);
                proof {
                    assert(self.trees@.dom() =~= old(self).trees@.dom());
                }
                started
            },
            None => false,
        }
    }

    /// Advances the focus in progress in `power_id`'s tree; `None` for an
    /// unknown power.
    pub fn advance_focus(&mut self, power_id: &str, days: u32) -> (r: Option<Vec<FocusEffect>>)
        ensures
            !old(self).trees@.contains_key(power_id@) ==> r is None && final(self).trees@ == old(self).trees@,
            final(self).trees@.dom() == old(self).trees@.dom(),
            old(self).trees@.contains_key(power_id@) ==> advanced_tree(
                old(self).trees@[power_id@],
                final(self).trees@[power_id@],
                days,
                r,
            ),
            forall|k: Seq<char>|
                #[trigger] old(self).trees@.contains_key(k) && k != power_id@ ==> final(self).trees@[k] == old(
                    self,
                ).trees@[k],
    {
        match self.trees.find(power_id) {
            Some(i) => {
                let (key, mut tree) = self.trees.remove_at(i);
                let r = tree.advance(days);
                self.trees.insert(key, tree);
                proof {
                    assert(self.trees@.dom() =~= old(self).trees@.dom());
                }
                r
            },
            None => None,
        }
    }
}

} // verus!
