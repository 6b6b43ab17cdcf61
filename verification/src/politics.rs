//! Politics and legitimacy.
//!
//! Each major power has legitimacy (0–100), stability (−3 to +3), a
//! government type, a ruling faction and faction support values.
//! Stability drives income, manpower recovery and revolt risk.

use vstd::prelude::*;

use crate::ids::PowerId;
use crate::strmap::StrMap;
use crate::text::{push_str, string_from_chars};

verus! {

/// Government type of a major power.
#[derive(Debug, Clone, Copy, PartialEq, Eq, Structural)]
pub enum Government {
    Empire,
    AbsoluteMonarchy,
    ConstitutionalMonarchy,
    Republic,
}

/// Political factions vying for influence.
#[derive(Debug, Clone, Copy, PartialEq, Eq, PartialOrd, Ord, Structural)]
pub enum Faction {
    Military,
    Nobility,
    Clergy,
    Merchants,
    Peasantry,
    Revolutionaries,
}

/// Modifiers derived from the current stability level.
#[derive(Debug, Clone, Copy, PartialEq, Eq, Structural)]
pub struct StabilityEffects {
    /// Income modifier in percentage points.
    pub income_modifier: i8,
    /// Manpower recovery modifier in percentage points.
    pub manpower_modifier: i8,
    /// Monthly revolt chance in percentage points.
    pub revolt_chance: u8,
    /// Whether civil war is possible at this stability level.
    pub civil_war_risk: bool,
}

/// The politics state of a single major power.
#[derive(Debug, Clone)]
pub struct PowerPolitics {
    pub power: PowerId,
    /// 0–100.
    pub legitimacy: u8,
    /// −3 to +3.
    pub stability: i8,
    pub government: Government,
    pub ruling_faction: Faction,
    /// Faction → popularity 0–100, one entry per faction, in faction order.
    pub faction_support: Vec<(Faction, u8)>,
    /// Powers that are puppets of this power, in ID order.
    pub puppets: Vec<PowerId>,
    /// The overlord of a puppet.
    pub overlord: Option<PowerId>,
}

/// `a + b` for `i8`, saturating at the type's bounds.
pub open spec fn sat_i8(a: int) -> int {
    if a > 127 {
        127
    } else if a < -128 {
        -128
    } else {
        a
    }
}

/// Base monthly legitimacy drift from stability; a stability above the
/// +3 maximum drifts nowhere.
pub open spec fn stability_drift(stability: i8) -> int {
    if stability > 3 {
        0
    } else if stability >= 2 {
        1
    } else if stability >= 0 {
        0
    } else if stability >= -2 {
        -1
    } else {
        -2
    }
}

/// Monthly legitimacy change: the stability drift, minus one per war,
/// plus two while winning a war, each step saturating at the `i8` bounds.
pub open spec fn legitimacy_change(stability: i8, wars_ongoing: u8, winning_wars: bool) -> int {
    // `-(wars_ongoing as i8)`: the count read as a signed byte, negated.
    let war_penalty: int = if wars_ongoing <= 127 { -wars_ongoing } else { 256 - wars_ongoing };
    let win_bonus: int = if winning_wars { 2 } else { 0 };
    sat_i8(sat_i8(stability_drift(stability) + war_penalty) + win_bonus)
}

/// The effects of a stability level; a stability above the +3 maximum has
/// no effect at all.
pub open spec fn effects_of(stability: i8) -> StabilityEffects {
    if stability > 3 {
        StabilityEffects { income_modifier: 0i8, manpower_modifier: 0i8, revolt_chance: 0u8, civil_war_risk: false }
    } else if stability == 3 {
        StabilityEffects { income_modifier: 15i8, manpower_modifier: 10i8, revolt_chance: 0u8, civil_war_risk: false }
    } else if stability == 2 {
        StabilityEffects { income_modifier: 10i8, manpower_modifier: 5i8, revolt_chance: 0u8, civil_war_risk: false }
    } else if stability == 1 {
        StabilityEffects { income_modifier: 5i8, manpower_modifier: 0i8, revolt_chance: 0u8, civil_war_risk: false }
    } else if stability == 0 {
        StabilityEffects { income_modifier: 0i8, manpower_modifier: 0i8, revolt_chance: 0u8, civil_war_risk: false }
    } else if stability == -1 {
        StabilityEffects { income_modifier: -10i8, manpower_modifier: 0i8, revolt_chance: 5u8, civil_war_risk: false }
    } else if stability == -2 {
        StabilityEffects { income_modifier: -20i8, manpower_modifier: 0i8, revolt_chance: 15u8, civil_war_risk: false }
    } else {
        StabilityEffects { income_modifier: -30i8, manpower_modifier: 0i8, revolt_chance: 30u8, civil_war_risk: true }
    }
}

/// `a + b`, saturating at the `i8` bounds.
pub fn saturating_add_i8(a: i8, b: i8) -> (r: i8)
    ensures
        r == sat_i8(a + b),
{
    let s: i16 = a as i16 + b as i16;
    if s > 127 {
        127
    } else if s < -128 {
        -128
    } else {
        s as i8
    }
}

impl PowerPolitics {
    /// Monthly legitimacy change for the given number of wars and whether
    /// one of them is being won.
    pub fn monthly_legitimacy_change(&self, wars_ongoing: u8, winning_wars: bool) -> (c: i8)
        requires
            wars_ongoing != 128,
        ensures
            c == legitimacy_change(self.stability, wars_ongoing, winning_wars),
    {
        let base: i8 = if self.stability > 3 {
            0
        } else if self.stability >= 2 {
            1
        } else if self.stability >= 0 {
            0
        } else if self.stability >= -2 {
            -1
        } else {
            -2
        };
        let wp: i16 = if wars_ongoing <= 127 {
            -(wars_ongoing as i16)
        } else {
            256 - wars_ongoing as i16
        };
        let war_penalty: i8 = wp as i8;
        let win_bonus: i8 = if winning_wars { 2 } else { 0 };
        saturating_add_i8(saturating_add_i8(base, war_penalty), win_bonus)
    }

    /// The effects of the current stability level.
    pub fn stability_effects(&self) -> (e: StabilityEffects)
        ensures
            e == effects_of(self.stability),
    {
        if self.stability > 3 {
            StabilityEffects { income_modifier: 0i8, manpower_modifier: 0i8, revolt_chance: 0u8, civil_war_risk: false }
        } else if self.stability == 3 {
            StabilityEffects { income_modifier: 15i8, manpower_modifier: 10i8, revolt_chance: 0u8, civil_war_risk: false }
        } else if self.stability == 2 {
            StabilityEffects { income_modifier: 10i8, manpower_modifier: 5i8, revolt_chance: 0u8, civil_war_risk: false }
        } else if self.stability == 1 {
            StabilityEffects { income_modifier: 5i8, manpower_modifier: 0i8, revolt_chance: 0u8, civil_war_risk: false }
        } else if self.stability == 0 {
            StabilityEffects { income_modifier: 0i8, manpower_modifier: 0i8, revolt_chance: 0u8, civil_war_risk: false }
        } else if self.stability == -1 {
            StabilityEffects { income_modifier: -10i8, manpower_modifier: 0i8, revolt_chance: 5u8, civil_war_risk: false }
        } else if self.stability == -2 {
            StabilityEffects { income_modifier: -20i8, manpower_modifier: 0i8, revolt_chance: 15u8, civil_war_risk: false }
        } else {
            StabilityEffects { income_modifier: -30i8, manpower_modifier: 0i8, revolt_chance: 30u8, civil_war_risk: true }
        }
    }

    /// Clamp stability to [−3, +3].
    pub fn clamp_stability(&mut self)
        ensures
            final(self).stability == if old(self).stability < -3 {
                -3i8
            } else if old(self).stability > 3 {
                3i8
            } else {
                old(self).stability
            },
            final(self).legitimacy == old(self).legitimacy,
    {
        if self.stability < -3 {
            self.stability = -3;
        } else if self.stability > 3 {
            self.stability = 3;
        }
    }

    /// Clamp legitimacy to [0, 100].
    pub fn clamp_legitimacy(&mut self)
        ensures
            final(self).legitimacy == if old(self).legitimacy > 100 {
                100u8
            } else {
                old(self).legitimacy
            },
            final(self).stability == old(self).stability,
    {
        if self.legitimacy > 100 {
            self.legitimacy = 100;
        }
    }
}

/// Within the stability range, higher stability never brings a worse
/// income modifier or a higher revolt chance.
pub proof fn lemma_stability_monotone(a: i8, b: i8)
    requires
        a <= b <= 3,
    ensures
        effects_of(a).income_modifier <= effects_of(b).income_modifier,
        effects_of(a).revolt_chance >= effects_of(b).revolt_chance,
        effects_of(b).civil_war_risk ==> effects_of(a).civil_war_risk,
{
}

/// Registry of all powers' political states.
#[derive(Debug)]
pub struct PoliticsRegistry {
    pub powers: StrMap<PowerPolitics>,
}

/// The message for an unknown power.
pub open spec fn unknown_power(p: Seq<char>) -> Seq<char> {
    "Unknown power: "@ + p
}

/// `p` is the politics of `id` with the given values, no puppets and no
/// overlord.
pub open spec fn politics_is(
    p: PowerPolitics,
    id: Seq<char>,
    legitimacy: u8,
    stability: i8,
    government: Government,
    ruling: Faction,
    support: Seq<(Faction, u8)>,
) -> bool {
    &&& p.power@ == id
    &&& p.legitimacy == legitimacy
    &&& p.stability == stability
    &&& p.government == government
    &&& p.ruling_faction == ruling
    &&& p.faction_support@ == support
    &&& p.puppets@.len() == 0
    &&& p.overlord is None
}

/// The politics of a power at the start of the 1805 campaign.
fn starting_politics(
    id: &str,
    legitimacy: u8,
    stability: i8,
    government: Government,
    ruling: Faction,
    support: Vec<(Faction, u8)>,
) -> (p: PowerPolitics)
    ensures
        politics_is(p, id@, legitimacy, stability, government, ruling, support@),
{
    PowerPolitics {
        power: PowerId::new(id),
        legitimacy,
        stability,
        government,
        ruling_faction: ruling,
        faction_support: support,
        puppets: Vec::new(),
        overlord: None,
    }
}

impl PoliticsRegistry {
    /// The seven major powers with their 1805 starting values.
    pub fn with_historical() -> (r: Self)
        ensures
            r.powers@.dom() == set!["FRA"@, "GBR"@, "RUS"@, "AUS"@, "PRU"@, "OTT"@, "SPA"@],
            politics_is(
                r.powers@["FRA"@],
                "FRA"@,
                85,
                2,
                Government::Empire,
                Faction::Military,
                seq![(Faction::Military, 60u8), (Faction::Clergy, 30u8), (Faction::Merchants, 40u8)],
            ),
            politics_is(
                r.powers@["GBR"@],
                "GBR"@,
                90,
                3,
                Government::ConstitutionalMonarchy,
                Faction::Merchants,
                seq![(Faction::Nobility, 70u8), (Faction::Merchants, 80u8)],
            ),
            politics_is(
                r.powers@["RUS"@],
                "RUS"@,
                75,
                1,
                Government::AbsoluteMonarchy,
                Faction::Nobility,
                seq![(Faction::Military, 60u8), (Faction::Nobility, 80u8)],
            ),
            politics_is(
                r.powers@["AUS"@],
                "AUS"@,
                80,
                1,
                Government::AbsoluteMonarchy,
                Faction::Nobility,
                seq![(Faction::Nobility, 75u8), (Faction::Clergy, 65u8)],
            ),
            politics_is(
                r.powers@["PRU"@],
                "PRU"@,
                70,
                0,
                Government::AbsoluteMonarchy,
                Faction::Military,
                seq![(Faction::Military, 80u8), (Faction::Nobility, 60u8)],
            ),
            politics_is(
                r.powers@["OTT"@],
                "OTT"@,
                60,
                -1i8,
                Government::AbsoluteMonarchy,
                Faction::Clergy,
                seq![(Faction::Military, 50u8), (Faction::Clergy, 70u8)],
            ),
            politics_is(
                r.powers@["SPA"@],
                "SPA"@,
                55,
                -2i8,
                Government::AbsoluteMonarchy,
                Faction::Clergy,
                seq![(Faction::Nobility, 50u8), (Faction::Clergy, 70u8)],
            ),
    {
        proof {
            reveal_strlit("FRA");
            reveal_strlit("GBR");
            reveal_strlit("RUS");
            reveal_strlit("AUS");
            reveal_strlit("PRU");
            reveal_strlit("OTT");
            reveal_strlit("SPA");
            assert("FRA"@[0] == 'F' && "GBR"@[0] == 'G' && "RUS"@[0] == 'R' && "AUS"@[0] == 'A');
            assert("PRU"@[0] == 'P' && "OTT"@[0] == 'O' && "SPA"@[0] == 'S');
        }
        let mut powers: StrMap<PowerPolitics> = StrMap::new();
        let v_fra = starting_politics(
            "FRA",
            85,
            2,
            Government::Empire,
            Faction::Military,
            vec![(Faction::Military, 60), (Faction::Clergy, 30), (Faction::Merchants, 40)],
        );
        let ghost g_fra = v_fra;
        powers.insert("FRA".to_string(), v_fra);
        let v_gbr = starting_politics(
            "GBR",
            90,
            3,
            Government::ConstitutionalMonarchy,
            Faction::Merchants,
            vec![(Faction::Nobility, 70), (Faction::Merchants, 80)],
        );
        let ghost g_gbr = v_gbr;
        powers.insert("GBR".to_string(), v_gbr);
        let v_rus = starting_politics(
            "RUS",
            75,
            1,
            Government::AbsoluteMonarchy,
            Faction::Nobility,
            vec![(Faction::Military, 60), (Faction::Nobility, 80)],
        );
        let ghost g_rus = v_rus;
        powers.insert("RUS".to_string(), v_rus);
        let v_aus = starting_politics(
            "AUS",
            80,
            1,
            Government::AbsoluteMonarchy,
            Faction::Nobility,
            vec![(Faction::Nobility, 75), (Faction::Clergy, 65)],
        );
        let ghost g_aus = v_aus;
        powers.insert("AUS".to_string(), v_aus);
        let v_pru = starting_politics(
            "PRU",
            70,
            0,
            Government::AbsoluteMonarchy,
            Faction::Military,
            vec![(Faction::Military, 80), (Faction::Nobility, 60)],
        );
        let ghost g_pru = v_pru;
        powers.insert("PRU".to_string(), v_pru);
        let v_ott = starting_politics(
            "OTT",
            60,
            -1,
            Government::AbsoluteMonarchy,
            Faction::Clergy,
            vec![(Faction::Military, 50), (Faction::Clergy, 70)],
        );
        let ghost g_ott = v_ott;
        powers.insert("OTT".to_string(), v_ott);
        let v_spa = starting_politics(
            "SPA",
            55,
            -2,
            Government::AbsoluteMonarchy,
            Faction::Clergy,
            vec![(Faction::Nobility, 50), (Faction::Clergy, 70)],
        );
        let ghost g_spa = v_spa;
        powers.insert("SPA".to_string(), v_spa);
        proof {
            assert(powers@["FRA"@] == g_fra);
            assert(powers@["GBR"@] == g_gbr);
            assert(powers@["RUS"@] == g_rus);
            assert(powers@["AUS"@] == g_aus);
            assert(powers@["PRU"@] == g_pru);
            assert(powers@["OTT"@] == g_ott);
            assert(powers@["SPA"@] == g_spa);
            assert(powers@.dom() =~= set!["FRA"@, "GBR"@, "RUS"@, "AUS"@, "PRU"@, "OTT"@, "SPA"@]);
        }
        PoliticsRegistry { powers }
    }

    /// Changes the ruling faction of `power`; an unknown power is an error
    /// and changes nothing.
    pub fn change_ruling_faction(&mut self, power: &PowerId, faction: Faction) -> (r: Result<(), String>)
        ensures
            match r {
                Ok(()) => old(self).powers@.contains_key(power@) && final(self).powers@.dom() == old(
                    self,
                ).powers@.dom() && (forall|k: Seq<char>|
                    #[trigger] final(self).powers@.contains_key(k) && k != power@ ==> final(self).powers@[k]
                        == old(self).powers@[k]) && {
                    let a = final(self).powers@[power@];
                    let b = old(self).powers@[power@];
                    &&& a.ruling_faction == faction
                    &&& a.power == b.power
                    &&& a.legitimacy == b.legitimacy
                    &&& a.stability == b.stability
                    &&& a.government == b.government
                    &&& a.faction_support@ == b.faction_support@
                    &&& a.puppets@ == b.puppets@
                    &&& a.overlord == b.overlord
                },
                Err(e) => !old(self).powers@.contains_key(power@) && e@ == unknown_power(power@)
                    && final(self).powers@ == old(self).powers@,
            },
    {
        match self.powers.get(power.as_str()) {
            Some(p) => {
                let updated = PowerPolitics {
                    power: p.power.duplicate(),
                    legitimacy: p.legitimacy,
                    stability: p.stability,
                    government: p.government,
                    ruling_faction: faction,
                    faction_support: copy_support(&p.faction_support),
                    puppets: copy_ids(&p.puppets),
                    overlord: match &p.overlord {
                        Some(o) => Some(o.duplicate()),
                        None => None,
                    },
                };
                self.powers.insert(power.to_string(), updated);
                proof {
                    assert(self.powers@.dom() =~= old(self).powers@.dom());
                }
                Ok(())
            },
            None => {
                let mut v: Vec<char> = Vec::new();
                push_str(&mut v, "Unknown power: ");
                push_str(&mut v, power.as_str());
                proof {
                    assert(v@ =~= unknown_power(power@));
                }
                Err(string_from_chars(v.as_slice()))
            },
        }
    }
}

/// An element-by-element copy of a support table.
pub fn copy_support(v: &Vec<(Faction, u8)>) -> (r: Vec<(Faction, u8)>)
    ensures
        r@ == v@,
{
    let mut r: Vec<(Faction, u8)> = Vec::new();
    let mut i: usize = 0;
    while i < v.len()
        invariant
            i <= v@.len(),
            r@ == v@.take(i as int),
        decreases v@.len() - i,
    {
        r.push(v[i]);
        i = i + 1;
        proof {
            assert(v@.take(i as int) =~= v@.take(i - 1).push(v@[i - 1]));
        }
    }
    proof {
        assert(v@.take(v@.len() as int) =~= v@);
    }
    r
}

/// An element-by-element copy of a list of power IDs.
pub fn copy_ids(v: &Vec<PowerId>) -> (r: Vec<PowerId>)
    ensures
        r@ == v@,
{
    let mut r: Vec<PowerId> = Vec::new();
    let mut i: usize = 0;
    while i < v.len()
        invariant
            i <= v@.len(),
            r@ == v@.take(i as int),
        decreases v@.len() - i,
    {
        r.push(v[i].duplicate());
        i = i + 1;
        proof {
            assert(v@.take(i as int) =~= v@.take(i - 1).push(v@[i - 1]));
        }
    }
    proof {
        assert(v@.take(v@.len() as int) =~= v@);
    }
    r
}

} // verus!
