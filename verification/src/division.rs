//! Division templates: unit composition and battle doctrine.

use vstd::prelude::*;

use crate::ids::{DivisionTemplateId, PowerId};
use crate::strmap::StrMap;
use crate::text::{decimal, push_decimal, push_str, string_from_chars};

verus! {

/// Battle tactic affecting combat modifiers.
#[derive(Debug, Clone, Copy, PartialEq, Eq, Structural)]
pub enum BattleTactic {
    /// Bonus attack, penalty defense.
    Column,
    /// Balanced.
    Line,
    /// Cavalry immunity, slow movement.
    Square,
    /// Harassment, low casualties.
    SkirmishScreen,
}

/// A division template defining unit composition and doctrine.
#[derive(Debug, Clone)]
pub struct DivisionTemplate {
    pub id: DivisionTemplateId,
    pub name: String,
    pub power: PowerId,
    pub battalions: u8,
    pub cavalry_squadrons: u8,
    pub artillery_batteries: u8,
    pub tactic: BattleTactic,
}

/// Computed stats for a division template.
#[derive(Debug, Clone, Copy, PartialEq, Eq, Structural)]
pub struct DivisionStats {
    pub attack_strength: u32,
    pub defense_strength: u32,
    pub movement_speed: u32,
    pub supply_consumption: u32,
}

/// Combat power before tactic modifiers: 100 per battalion, 80 per
/// squadron, 150 per battery.
pub open spec fn spec_base_power(b: u8, c: u8, a: u8) -> nat {
    (b * 100 + c * 80 + a * 150) as nat
}

/// Attack strength: column +20%, square −30%, skirmish screen −20%
/// (integer percentages, rounded down).
pub open spec fn spec_attack(base: nat, t: BattleTactic) -> nat {
    match t {
        BattleTactic::Column => base + base / 5,
        BattleTactic::Line => base,
        BattleTactic::Square => (base - base * 3 / 10) as nat,
        BattleTactic::SkirmishScreen => (base - base / 5) as nat,
    }
}

/// Defense strength: column −10%, square +30%, skirmish screen +10%.
pub open spec fn spec_defense(base: nat, t: BattleTactic) -> nat {
    match t {
        BattleTactic::Column => (base - base / 10) as nat,
        BattleTactic::Line => base,
        BattleTactic::Square => base + base * 3 / 10,
        BattleTactic::SkirmishScreen => base + base / 10,
    }
}

/// Movement speed: 3, less one per three batteries (not below zero), one
/// more when squadrons outnumber battalions, one less (not below zero) in
/// square.
pub open spec fn spec_speed(b: u8, c: u8, a: u8, t: BattleTactic) -> nat {
    let s0: int = if 3 >= a / 3 { 3 - a / 3 } else { 0 };
    let s1: int = if c > b { s0 + 1 } else { s0 };
    (if t == BattleTactic::Square { if s1 >= 1 { s1 - 1 } else { 0 } } else { s1 }) as nat
}

/// Supply consumption: 10 per battalion or squadron, 25 per battery.
pub open spec fn spec_supply(b: u8, c: u8, a: u8) -> nat {
    ((b + c) * 10 + a * 25) as nat
}

impl DivisionTemplate {
    pub open spec fn base(&self) -> nat {
        spec_base_power(self.battalions, self.cavalry_squadrons, self.artillery_batteries)
    }

    /// Combat power before tactic modifiers.
    pub fn base_power(&self) -> (p: u32)
        ensures
            p == self.base(),
    {
        let inf = self.battalions as u32 * 100;
        let cav = self.cavalry_squadrons as u32 * 80;
        let art = self.artillery_batteries as u32 * 150;
        inf + cav + art
    }

    /// Attack strength with the tactic modifier.
    pub fn attack_strength(&self) -> (s: u32)
        ensures
            s == spec_attack(self.base(), self.tactic),
    {
        let base = self.base_power();
        match self.tactic {
            BattleTactic::Column => base + base / 5,
            BattleTactic::Line => base,
            BattleTactic::Square => base - base * 3 / 10,
            BattleTactic::SkirmishScreen => base - base / 5,
        }
    }

    /// Defense strength with the tactic modifier.
    pub fn defense_strength(&self) -> (s: u32)
        ensures
            s == spec_defense(self.base(), self.tactic),
    {
        let base = self.base_power();
        match self.tactic {
            BattleTactic::Column => base - base / 10,
            BattleTactic::Line => base,
            BattleTactic::Square => base + base * 3 / 10,
            BattleTactic::SkirmishScreen => base + base / 10,
        }
    }

    /// Movement speed: base 3, −1 per 3 batteries, +1 if cavalry outnumber
    /// infantry, −1 in square.
    pub fn movement_speed(&self) -> (s: u32)
        ensures
            s == spec_speed(self.battalions, self.cavalry_squadrons, self.artillery_batteries, self.tactic),
    {
        let mut speed: u32 = 3;
        let art_penalty = self.artillery_batteries as u32 / 3;
        speed = speed.saturating_sub(art_penalty);
        if self.cavalry_squadrons > self.battalions {
            speed = speed + 1;
        }
        if self.tactic == BattleTactic::Square {
            speed = speed.saturating_sub(1);
        }
        speed
    }

    /// Supply consumption from unit counts.
    pub fn supply_consumption(&self) -> (s: u32)
        ensures
            s == spec_supply(self.battalions, self.cavalry_squadrons, self.artillery_batteries),
    {
        let personnel = (self.battalions as u32 + self.cavalry_squadrons as u32) * 10;
        let artillery = self.artillery_batteries as u32 * 25;
        personnel + artillery
    }

    /// All stats at once.
    pub fn stats(&self) -> (st: DivisionStats)
        ensures
            st.attack_strength == spec_attack(self.base(), self.tactic),
            st.defense_strength == spec_defense(self.base(), self.tactic),
            st.movement_speed == spec_speed(
                self.battalions,
                self.cavalry_squadrons,
                self.artillery_batteries,
                self.tactic,
            ),
            st.supply_consumption == spec_supply(
                self.battalions,
                self.cavalry_squadrons,
                self.artillery_batteries,
            ),
    {
        DivisionStats {
            attack_strength: self.attack_strength(),
            defense_strength: self.defense_strength(),
            movement_speed: self.movement_speed(),
            supply_consumption: self.supply_consumption(),
        }
    }
}

/// The tactics trade attack for defense: for the same composition, column
/// attacks hardest, then line, skirmish screen and square; defense runs the
/// other way, square strongest and column weakest.
pub proof fn lemma_tactic_ordering(base: nat)
    ensures
        spec_attack(base, BattleTactic::Column) >= spec_attack(base, BattleTactic::Line),
        spec_attack(base, BattleTactic::Line) >= spec_attack(base, BattleTactic::SkirmishScreen),
        spec_attack(base, BattleTactic::SkirmishScreen) >= spec_attack(base, BattleTactic::Square),
        spec_defense(base, BattleTactic::Square) >= spec_defense(base, BattleTactic::SkirmishScreen),
        spec_defense(base, BattleTactic::SkirmishScreen) >= spec_defense(base, BattleTactic::Line),
        spec_defense(base, BattleTactic::Line) >= spec_defense(base, BattleTactic::Column),
{
    assert(base * 3 / 10 >= base / 5) by (nonlinear_arith);
    assert(base * 3 / 10 <= base) by (nonlinear_arith);
}

/// What a new template is made from.
#[derive(Debug, Clone)]
pub struct TemplateInput {
    pub name: String,
    pub power: String,
    pub battalions: u8,
    pub cavalry_squadrons: u8,
    pub artillery_batteries: u8,
    pub tactic: BattleTactic,
}

/// Registry of division templates.
#[derive(Debug)]
pub struct DivisionRegistry {
    pub templates: StrMap<DivisionTemplate>,
    pub next_id: u32,
}

/// The ID given to the custom template numbered `n`.
pub open spec fn custom_template_id(n: nat) -> Seq<char> {
    "DIVTPL_CUSTOM_"@ + decimal(n)
}

impl DivisionRegistry {
    /// An empty registry whose first custom template is numbered 100.
    pub fn new() -> (r: Self)
        ensures
            r.templates@ == Map::<Seq<char>, DivisionTemplate>::empty(),
            r.next_id == 100,
    {
        DivisionRegistry { templates: StrMap::new(), next_id: 100 }
    }

    /// Adds a custom template built from `input`, numbered with the next
    /// free custom number, and returns it.
    pub fn create(&mut self, input: TemplateInput) -> (tpl: DivisionTemplate)
        requires
            old(self).next_id < u32::MAX,
        ensures
            tpl.id@ == custom_template_id(old(self).next_id as nat),
            tpl.name == input.name,
            tpl.power@ == input.power@,
            tpl.battalions == input.battalions,
            tpl.cavalry_squadrons == input.cavalry_squadrons,
            tpl.artillery_batteries == input.artillery_batteries,
            tpl.tactic == input.tactic,
            final(self).next_id == old(self).next_id + 1,
            final(self).templates@ == old(self).templates@.insert(tpl.id@, tpl),
    {
        let mut v: Vec<char> = Vec::new();
        push_str(&mut v, "DIVTPL_CUSTOM_");
        push_decimal(self.next_id as u64, &mut v);
        proof {
            assert(v@ =~= custom_template_id(self.next_id as nat));
        }
        let id_text = string_from_chars(v.as_slice());
        self.next_id = self.next_id + 1;
        let tpl = DivisionTemplate {
            id: DivisionTemplateId(id_text.clone()),
            name: input.name,
            power: PowerId(input.power),
            battalions: input.battalions,
            cavalry_squadrons: input.cavalry_squadrons,
            artillery_batteries: input.artillery_batteries,
            tactic: input.tactic,
        };
        let stored = DivisionTemplate {
            id: DivisionTemplateId(id_text.clone()),
            name: tpl.name.clone(),
            power: PowerId(tpl.power.0.clone()),
            battalions: tpl.battalions,
            cavalry_squadrons: tpl.cavalry_squadrons,
            artillery_batteries: tpl.artillery_batteries,
            tactic: tpl.tactic,
        };
        self.templates.insert(id_text, stored);
        tpl
    }

    /// The stats of the template stored under `template_id`.
    pub fn stats_of(&self, template_id: &DivisionTemplateId) -> (r: Option<DivisionStats>)
        ensures
            match r {
                Some(st) => self.templates@.contains_key(template_id@) && {
                    let t = self.templates@[template_id@];
                    &&& st.attack_strength == spec_attack(t.base(), t.tactic)
                    &&& st.defense_strength == spec_defense(t.base(), t.tactic)
                    &&& st.movement_speed == spec_speed(
                        t.battalions,
                        t.cavalry_squadrons,
                        t.artillery_batteries,
                        t.tactic,
                    )
                    &&& st.supply_consumption == spec_supply(
                        t.battalions,
                        t.cavalry_squadrons,
                        t.artillery_batteries,
                    )
                },
                None => !self.templates@.contains_key(template_id@),
            },
    {
        match self.templates.get(template_id.as_str()) {
            Some(t) => Some(t.stats()),
            None => None,
        }
    }
}


/// `t` is the template `id` with the given name, power, composition and
/// tactic.
pub open spec fn template_is(
    t: DivisionTemplate,
    id: Seq<char>,
    name: Seq<char>,
    power: Seq<char>,
    battalions: u8,
    cavalry_squadrons: u8,
    artillery_batteries: u8,
    tactic: BattleTactic,
) -> bool {
    &&& t.id@ == id
    &&& t.name@ == name
    &&& t.power@ == power
    &&& t.battalions == battalions
    &&& t.cavalry_squadrons == cavalry_squadrons
    &&& t.artillery_batteries == artillery_batteries
    &&& t.tactic == tactic
}

/// A template from its parts.
fn default_template(
    id: &str,
    name: &str,
    power: &str,
    battalions: u8,
    cavalry_squadrons: u8,
    artillery_batteries: u8,
    tactic: BattleTactic,
) -> (t: DivisionTemplate)
    ensures
        template_is(t, id@, name@, power@, battalions, cavalry_squadrons, artillery_batteries, tactic),
{
    DivisionTemplate {
        id: DivisionTemplateId(id.to_string()),
        name: name.to_string(),
        power: PowerId::new(power),
        battalions,
        cavalry_squadrons,
        artillery_batteries,
        tactic,
    }
}

impl DivisionRegistry {
    /// The default templates of the five continental and British powers;
    /// custom templates are numbered from 100.
    pub fn with_defaults() -> (r: Self)
        ensures
            r.next_id == 100,
            r.templates@.dom() == set!["DIVTPL_FRA_DEFAULT"@, "DIVTPL_GBR_DEFAULT"@, "DIVTPL_RUS_DEFAULT"@, "DIVTPL_AUS_DEFAULT"@, "DIVTPL_PRU_DEFAULT"@],
            template_is(r.templates@["DIVTPL_FRA_DEFAULT"@], "DIVTPL_FRA_DEFAULT"@, "Grande Armée Corps"@, "FRA"@, 8, 3, 2, BattleTactic::Column),
            template_is(r.templates@["DIVTPL_GBR_DEFAULT"@], "DIVTPL_GBR_DEFAULT"@, "British Division"@, "GBR"@, 6, 1, 2, BattleTactic::Line),
            template_is(r.templates@["DIVTPL_RUS_DEFAULT"@], "DIVTPL_RUS_DEFAULT"@, "Russian Corps"@, "RUS"@, 10, 2, 1, BattleTactic::Column),
            template_is(r.templates@["DIVTPL_AUS_DEFAULT"@], "DIVTPL_AUS_DEFAULT"@, "Austrian Corps"@, "AUS"@, 8, 2, 2, BattleTactic::Line),
            template_is(r.templates@["DIVTPL_PRU_DEFAULT"@], "DIVTPL_PRU_DEFAULT"@, "Prussian Corps"@, "PRU"@, 7, 3, 2, BattleTactic::Column),
    {
        proof {
            reveal_strlit("DIVTPL_FRA_DEFAULT");
            reveal_strlit("DIVTPL_GBR_DEFAULT");
            reveal_strlit("DIVTPL_RUS_DEFAULT");
            reveal_strlit("DIVTPL_AUS_DEFAULT");
            reveal_strlit("DIVTPL_PRU_DEFAULT");
            assert("DIVTPL_FRA_DEFAULT"@[7] == 'F' && "DIVTPL_GBR_DEFAULT"@[7] == 'G' && "DIVTPL_RUS_DEFAULT"@[7] == 'R' && "DIVTPL_AUS_DEFAULT"@[7] == 'A' && "DIVTPL_PRU_DEFAULT"@[7] == 'P');
        }
        let mut templates: StrMap<DivisionTemplate> = StrMap::new();
        let t = default_template("DIVTPL_FRA_DEFAULT", "Grande Armée Corps", "FRA", 8, 3, 2, BattleTactic::Column);
        let ghost g_fra = t;
        templates.insert("DIVTPL_FRA_DEFAULT".to_string(), t);
        let t = default_template("DIVTPL_GBR_DEFAULT", "British Division", "GBR", 6, 1, 2, BattleTactic::Line);
        let ghost g_gbr = t;
        templates.insert("DIVTPL_GBR_DEFAULT".to_string(), t);
        let t = default_template("DIVTPL_RUS_DEFAULT", "Russian Corps", "RUS", 10, 2, 1, BattleTactic::Column);
        let ghost g_rus = t;
        templates.insert("DIVTPL_RUS_DEFAULT".to_string(), t);
        let t = default_template("DIVTPL_AUS_DEFAULT", "Austrian Corps", "AUS", 8, 2, 2, BattleTactic::Line);
        let ghost g_aus = t;
        templates.insert("DIVTPL_AUS_DEFAULT".to_string(), t);
        let t = default_template("DIVTPL_PRU_DEFAULT", "Prussian Corps", "PRU", 7, 3, 2, BattleTactic::Column);
        let ghost g_pru = t;
        templates.insert("DIVTPL_PRU_DEFAULT".to_string(), t);
        proof {
            assert(templates@["DIVTPL_FRA_DEFAULT"@] == g_fra);
            assert(templates@["DIVTPL_GBR_DEFAULT"@] == g_gbr);
            assert(templates@["DIVTPL_RUS_DEFAULT"@] == g_rus);
            assert(templates@["DIVTPL_AUS_DEFAULT"@] == g_aus);
            assert(templates@["DIVTPL_PRU_DEFAULT"@] == g_pru);
            assert(templates@.dom() =~= set!["DIVTPL_FRA_DEFAULT"@, "DIVTPL_GBR_DEFAULT"@, "DIVTPL_RUS_DEFAULT"@, "DIVTPL_AUS_DEFAULT"@, "DIVTPL_PRU_DEFAULT"@]);
        }
        DivisionRegistry { templates, next_id: 100 }
    }
}
} // verus!
