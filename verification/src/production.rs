//! Production and manpower economy.
//!
//! A standalone economy that runs alongside the turn-based economic phase:
//! treasury, daily income and expenditure, manpower, factories and war
//! exhaustion per power.

use vstd::prelude::*;

use crate::ids::PowerId;
use crate::strmap::StrMap;

verus! {

#[derive(Debug, Clone)]
pub struct PowerEconomy {
    pub power: PowerId,
    pub treasury: i32,
    pub income_per_day: u32,
    pub expenditure_per_day: u32,
    pub manpower_pool: u32,
    pub manpower_cap: u32,
    /// Manpower recovered per 30-day month.
    pub manpower_recovery: u32,
    pub factories: u32,
    /// 0–100.
    pub war_exhaustion: u8,
}

/// Default daily expenditure by power (army + navy + maintenance).
pub open spec fn expenditure_for(power_id: Seq<char>) -> u32 {
    if power_id == "FRA"@ {
        80
    } else if power_id == "GBR"@ {
        60
    } else if power_id == "RUS"@ {
        45
    } else if power_id == "AUS"@ {
        50
    } else if power_id == "PRU"@ {
        35
    } else if power_id == "OTT"@ {
        40
    } else if power_id == "SPA"@ {
        45
    } else {
        30
    }
}

/// Default daily expenditure by power.
pub fn default_expenditure(power_id: &str) -> (e: u32)
    ensures
        e == expenditure_for(power_id@),
{
    let p = power_id.to_owned();
    proof {
        reveal_strlit("FRA");
        reveal_strlit("GBR");
        reveal_strlit("RUS");
        reveal_strlit("AUS");
        reveal_strlit("PRU");
        reveal_strlit("OTT");
        reveal_strlit("SPA");
    }
    if p == "FRA".to_owned() {
        80
    } else if p == "GBR".to_owned() {
        60
    } else if p == "RUS".to_owned() {
        45
    } else if p == "AUS".to_owned() {
        50
    } else if p == "PRU".to_owned() {
        35
    } else if p == "OTT".to_owned() {
        40
    } else if p == "SPA".to_owned() {
        45
    } else {
        30
    }
}

/// The economy after `days` days: the treasury moves by
/// `(income − expenditure) × days`, and manpower recovers
/// `recovery × days / 30`, saturating and never above the cap.
pub open spec fn advanced(e: PowerEconomy, days: nat) -> (int, nat) {
    let treasury = e.treasury + (e.income_per_day - e.expenditure_per_day) * days;
    let recovered = (e.manpower_recovery * days / 30) as nat;
    let pooled = if e.manpower_pool + recovered > u32::MAX {
        u32::MAX as nat
    } else {
        (e.manpower_pool + recovered) as nat
    };
    let capped = if pooled < e.manpower_cap { pooled } else { e.manpower_cap as nat };
    (treasury, capped)
}

/// Whether advancing by `days` keeps every intermediate value in range.
pub open spec fn can_advance(e: PowerEconomy, days: nat) -> bool {
    let net = e.income_per_day - e.expenditure_per_day;
    &&& i32::MIN <= net <= i32::MAX
    &&& days <= i32::MAX
    &&& i32::MIN <= net * days <= i32::MAX
    &&& i32::MIN <= e.treasury + net * days <= i32::MAX
    &&& e.manpower_recovery * days / 30 <= u32::MAX
}

/// Advances one power's economy by `days` days.
pub fn advance_economy(economy: &mut PowerEconomy, days: u32)
    requires
        can_advance(*old(economy), days as nat),
    ensures
        final(economy).treasury == advanced(*old(economy), days as nat).0,
        final(economy).manpower_pool == advanced(*old(economy), days as nat).1,
        final(economy).power == old(economy).power,
        final(economy).income_per_day == old(economy).income_per_day,
        final(economy).expenditure_per_day == old(economy).expenditure_per_day,
        final(economy).manpower_cap == old(economy).manpower_cap,
        final(economy).manpower_recovery == old(economy).manpower_recovery,
        final(economy).factories == old(economy).factories,
        final(economy).war_exhaustion == old(economy).war_exhaustion,
{
    let net_daily = economy.income_per_day as i64 - economy.expenditure_per_day as i64;
    let net: i32 = net_daily as i32;
    let d: i32 = days as i32;
    let delta: i32 = net * d;
    economy.treasury = economy.treasury + delta;
    let recovered = (economy.manpower_recovery as u64 * days as u64 / 30) as u32;
    let pooled = economy.manpower_pool.saturating_add(recovered);
    economy.manpower_pool = if pooled < economy.manpower_cap { pooled } else { economy.manpower_cap };
}

/// A gold amount read as a signed 32-bit number: amounts above `i32::MAX`
/// wrap round to negative values.
pub open spec fn gold_as_i32(gold: u32) -> int {
    if gold <= i32::MAX {
        gold as int
    } else {
        gold - 0x1_0000_0000
    }
}

/// `gold` read as a signed 32-bit number.
fn signed_gold(gold: u32) -> (g: i32)
    ensures
        g == gold_as_i32(gold),
{
    let g = #[verifier::truncate] (gold as i32);
    assert(gold > 0x7fff_ffff ==> g == gold - 0x1_0000_0000) by (bit_vector)
        requires
            g == gold as i32,
    ;
    g
}

/// Whether a power can pay for a unit; the gold cost is read as a signed
/// 32-bit number.
pub fn can_recruit(economy: &PowerEconomy, unit_cost_manpower: u32, unit_cost_gold: u32) -> (b: bool)
    ensures
        b == (economy.manpower_pool >= unit_cost_manpower && economy.treasury >= gold_as_i32(unit_cost_gold)),
{
    economy.manpower_pool >= unit_cost_manpower && economy.treasury >= signed_gold(unit_cost_gold)
}

/// Spends manpower and gold; fails, changing nothing, when either is short.
/// The gold is read as a signed 32-bit number.
pub fn spend_resources(economy: &mut PowerEconomy, manpower: u32, gold: u32) -> (r: Result<(), &'static str>)
    requires
        old(economy).manpower_pool >= manpower && old(economy).treasury >= gold_as_i32(gold) ==> old(
            economy,
        ).treasury - gold_as_i32(gold) <= i32::MAX,
    ensures
        old(economy).manpower_pool < manpower ==> (r matches Err(m) && m@ == "insufficient manpower"@
            && final(economy).manpower_pool == old(economy).manpower_pool && final(economy).treasury
            == old(economy).treasury),
        old(economy).manpower_pool >= manpower && old(economy).treasury < gold_as_i32(gold) ==> (r matches Err(m)
            && m@ == "insufficient treasury"@ && final(economy).manpower_pool == old(
            economy,
        ).manpower_pool && final(economy).treasury == old(economy).treasury),
        old(economy).manpower_pool >= manpower && old(economy).treasury >= gold_as_i32(gold) ==> r is Ok
            && final(economy).manpower_pool == old(economy).manpower_pool - manpower
            && final(economy).treasury == old(economy).treasury - gold_as_i32(gold),
        final(economy).power == old(economy).power,
        final(economy).income_per_day == old(economy).income_per_day,
        final(economy).expenditure_per_day == old(economy).expenditure_per_day,
        final(economy).manpower_cap == old(economy).manpower_cap,
        final(economy).manpower_recovery == old(economy).manpower_recovery,
        final(economy).factories == old(economy).factories,
        final(economy).war_exhaustion == old(economy).war_exhaustion,
{
    if economy.manpower_pool < manpower {
        return Err("insufficient manpower");
    }
    let g = signed_gold(gold);
    if economy.treasury < g {
        return Err("insufficient treasury");
    }
    economy.manpower_pool = economy.manpower_pool - manpower;
    economy.treasury = economy.treasury - g;
    Ok(())
}

/// War exhaustion after `casualties`: one point per 10,000, capped at 100.
pub open spec fn exhaustion_after(we: u8, casualties: u32) -> u8 {
    let inc = (casualties / 10_000) % 256;
    let sat = if we + inc > 255 { 255 } else { we + inc };
    (if sat < 100 { sat } else { 100 }) as u8
}

/// Records casualties: war exhaustion rises by one per 10,000, capped at 100.
pub fn record_casualties(economy: &mut PowerEconomy, casualties: u32)
    ensures
        final(economy).war_exhaustion == exhaustion_after(old(economy).war_exhaustion, casualties),
        final(economy).treasury == old(economy).treasury,
        final(economy).manpower_pool == old(economy).manpower_pool,
        final(economy).power == old(economy).power,
{
    let we_increase = ((casualties / 10_000) % 256) as u8;
    let sat = economy.war_exhaustion.saturating_add(we_increase);
    economy.war_exhaustion = if sat < 100 { sat } else { 100 };
}

/// Economies keyed by power.
pub type EconomyRegistry = StrMap<PowerEconomy>;


/// `e` is the starting economy of `id` with the given values, its daily
/// expenditure the default for `id`, and its manpower cap equal to `cap`.
pub open spec fn economy_is(
    e: PowerEconomy,
    id: Seq<char>,
    treasury: i32,
    income: u32,
    manpower: u32,
    cap: u32,
    recovery: u32,
    factories: u32,
    war_exhaustion: u8,
) -> bool {
    &&& e.power@ == id
    &&& e.treasury == treasury
    &&& e.income_per_day == income
    &&& e.expenditure_per_day == expenditure_for(id)
    &&& e.manpower_pool == manpower
    &&& e.manpower_cap == cap
    &&& e.manpower_recovery == recovery
    &&& e.factories == factories
    &&& e.war_exhaustion == war_exhaustion
}

/// A starting economy from its parts.
fn starting_economy(
    id: &str,
    treasury: i32,
    income: u32,
    manpower: u32,
    cap: u32,
    recovery: u32,
    factories: u32,
    war_exhaustion: u8,
) -> (e: PowerEconomy)
    ensures
        economy_is(e, id@, treasury, income, manpower, cap, recovery, factories, war_exhaustion),
{
    PowerEconomy {
        power: PowerId::new(id),
        treasury,
        income_per_day: income,
        expenditure_per_day: default_expenditure(id),
        manpower_pool: manpower,
        manpower_cap: cap,
        manpower_recovery: recovery,
        factories,
        war_exhaustion,
    }
}

/// The 1805 starting economies of the seven major powers.
pub fn default_economies() -> (r: EconomyRegistry)
    ensures
        r@.dom() == set!["FRA"@, "GBR"@, "RUS"@, "AUS"@, "PRU"@, "OTT"@, "SPA"@],
        economy_is(r@["FRA"@], "FRA"@, 5000, 120, 650000, 650000, 8000, 8, 0),
        economy_is(r@["GBR"@], "GBR"@, 15000, 80, 150000, 150000, 2000, 15, 0),
        economy_is(r@["RUS"@], "RUS"@, 2000, 60, 900000, 900000, 10000, 3, 0),
        economy_is(r@["AUS"@], "AUS"@, 3000, 70, 400000, 400000, 5000, 5, 0),
        economy_is(r@["PRU"@], "PRU"@, 2500, 50, 200000, 200000, 3000, 4, 0),
        economy_is(r@["OTT"@], "OTT"@, 4000, 55, 300000, 300000, 4000, 2, 0),
        economy_is(r@["SPA"@], "SPA"@, 6000, 65, 180000, 180000, 2500, 3, 0),
{
    proof {
        reveal_strlit("FRA");
        reveal_strlit("GBR");
        reveal_strlit("RUS");
        reveal_strlit("AUS");
        reveal_strlit("PRU");
        reveal_strlit("OTT");
        reveal_strlit("SPA");
        assert("FRA"@[0] == 'F' && "GBR"@[0] == 'G' && "RUS"@[0] == 'R' && "AUS"@[0] == 'A');
        assert("PRU"@[0] == 'P' && "OTT"@[0] == 'O' && "SPA"@[0] == 'S');
    }
    let mut registry: StrMap<PowerEconomy> = StrMap::new();
    let e = starting_economy("FRA", 5000, 120, 650000, 650000, 8000, 8, 0);
    let ghost g_fra = e;
    registry.insert("FRA".to_string(), e);
    let e = starting_economy("GBR", 15000, 80, 150000, 150000, 2000, 15, 0);
    let ghost g_gbr = e;
    registry.insert("GBR".to_string(), e);
    let e = starting_economy("RUS", 2000, 60, 900000, 900000, 10000, 3, 0);
    let ghost g_rus = e;
    registry.insert("RUS".to_string(), e);
    let e = starting_economy("AUS", 3000, 70, 400000, 400000, 5000, 5, 0);
    let ghost g_aus = e;
    registry.insert("AUS".to_string(), e);
    let e = starting_economy("PRU", 2500, 50, 200000, 200000, 3000, 4, 0);
    let ghost g_pru = e;
    registry.insert("PRU".to_string(), e);
    let e = starting_economy("OTT", 4000, 55, 300000, 300000, 4000, 2, 0);
    let ghost g_ott = e;
    registry.insert("OTT".to_string(), e);
    let e = starting_economy("SPA", 6000, 65, 180000, 180000, 2500, 3, 0);
    let ghost g_spa = e;
    registry.insert("SPA".to_string(), e);
    proof {
        assert(registry@["FRA"@] == g_fra);
        assert(registry@["GBR"@] == g_gbr);
        assert(registry@["RUS"@] == g_rus);
        assert(registry@["AUS"@] == g_aus);
        assert(registry@["PRU"@] == g_pru);
        assert(registry@["OTT"@] == g_ott);
        assert(registry@["SPA"@] == g_spa);
        assert(registry@.dom() =~= set!["FRA"@, "GBR"@, "RUS"@, "AUS"@, "PRU"@, "OTT"@, "SPA"@]);
    }
    registry
}

/// `after` is `before` advanced by `days` days.
pub open spec fn advanced_economy(before: PowerEconomy, after: PowerEconomy, days: nat) -> bool {
    &&& after.treasury == advanced(before, days).0
    &&& after.manpower_pool == advanced(before, days).1
    &&& after.power == before.power
    &&& after.income_per_day == before.income_per_day
    &&& after.expenditure_per_day == before.expenditure_per_day
    &&& after.manpower_cap == before.manpower_cap
    &&& after.manpower_recovery == before.manpower_recovery
    &&& after.factories == before.factories
    &&& after.war_exhaustion == before.war_exhaustion
}

/// An exact copy of an economy.
fn copy_economy(e: &PowerEconomy) -> (r: PowerEconomy)
    ensures
        r == *e,
{
    PowerEconomy {
        power: e.power.duplicate(),
        treasury: e.treasury,
        income_per_day: e.income_per_day,
        expenditure_per_day: e.expenditure_per_day,
        manpower_pool: e.manpower_pool,
        manpower_cap: e.manpower_cap,
        manpower_recovery: e.manpower_recovery,
        factories: e.factories,
        war_exhaustion: e.war_exhaustion,
    }
}

/// Advances every power's economy by `days` days.
pub fn advance_all_economies(registry: &mut EconomyRegistry, days: u32)
    requires
        forall|k: Seq<char>| #[trigger] old(registry)@.contains_key(k) ==> can_advance(old(registry)@[k], days as nat),
    ensures
        final(registry)@.dom() == old(registry)@.dom(),
        forall|k: Seq<char>|
            #[trigger] final(registry)@.contains_key(k) ==> advanced_economy(old(registry)@[k], final(registry)@[k], days as nat),
{
    let n = registry.len();
    let ghost before = registry@;
    let ghost keys = registry.entries_view().map_values(|e: (String, PowerEconomy)| e.0@);
    let mut i: usize = 0;
    while i < n
        invariant
            before == old(registry)@,
            forall|k: Seq<char>| #[trigger] before.contains_key(k) ==> can_advance(before[k], days as nat),
            n == registry.entries_view().len(),
            registry.well_formed(),
            keys == registry.entries_view().map_values(|e: (String, PowerEconomy)| e.0@),
            i <= n,
            registry@.dom() == before.dom(),
            forall|j: int| 0 <= j < n ==> #[trigger] registry.entries_view()[j].0@ == keys[j],
            forall|k: Seq<char>|
                #[trigger] registry@.contains_key(k) ==> (if (exists|j: int| 0 <= j < i && keys[j] == k) {
                    advanced_economy(before[k], registry@[k], days as nat)
                } else {
                    registry@[k] == before[k]
                }),
        decreases n - i,
    {
        let mut e = copy_economy(registry.value_at(i));
        let ghost k = registry.entries_view()[i as int].0@;
        proof {
            assert(registry@.contains_key(k));
            assert(keys[i as int] == k);
            assert(!(exists|j: int| 0 <= j < i && keys[j] == k)) by {
                if exists|j: int| 0 <= j < i && keys[j] == k {
                    let j = choose|j: int| 0 <= j < i && keys[j] == k;
                    assert(registry.entries_view()[j].0@ == k);
                    crate::strmap::lemma_lex_irreflexive(k);
                }
            }
            assert(e == registry@[k]);
            assert(e == before[k]);
        }
        let ghost pre = registry@;
        let ghost pre_entries = registry.entries_view();
        advance_economy(&mut e, days);
        registry.set_value_at(i, e);
        proof {
            assert forall|j: int| 0 <= j < n implies #[trigger] registry.entries_view()[j].0@ == keys[j] by {
                assert(registry.entries_view()[j].0 == pre_entries[j].0);
            }
            assert(registry@.dom() =~= before.dom());
            assert forall|k2: Seq<char>| #[trigger] registry@.contains_key(k2) implies (if (exists|j: int| 0 <= j < i + 1 && keys[j] == k2) {
                advanced_economy(before[k2], registry@[k2], days as nat)
            } else {
                registry@[k2] == before[k2]
            }) by {
                if k2 == k {
                    assert(keys[i as int] == k2);
                } else {
                    assert(registry@[k2] == pre[k2]);
                    if exists|j: int| 0 <= j < i + 1 && keys[j] == k2 {
                        let j = choose|j: int| 0 <= j < i + 1 && keys[j] == k2;
                        assert(j != i);
                    }
                }
            }
        }
        i = i + 1;
    }
    proof {
        assert forall|k: Seq<char>| #[trigger] registry@.contains_key(k) implies advanced_economy(before[k], registry@[k], days as nat) by {
            let j = choose|j: int| 0 <= j < registry.entries_view().len() && #[trigger] registry.entries_view()[j].0@ == k;
            assert(keys[j] == k);
        }
    }
}
} // verus!
