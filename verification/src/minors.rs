//! Minor countries: their runtime status, who controls them, and their
//! activation from the minor activation table.

use vstd::prelude::*;

use crate::events::Event;
use crate::ids::{MinorId, PowerId};
use crate::scenario::{MinorRelationship, MinorSetup, Scenario};
use crate::tables::{Maybe, MinorActivationRow, MinorActivationTable};
use crate::text::{chars_of, push_str, string_from_chars};

verus! {

/// The runtime status of a minor country.
#[derive(Debug, Clone, PartialEq, Eq)]
pub enum MinorStatus {
    Independent,
    AlliedFree { patron: PowerId },
    Feudal { patron: PowerId },
    Conquered { by: PowerId },
    InRevolt,
}

/// A status read as its relationship and the name of the power it is tied
/// to.
pub open spec fn status_view(st: MinorStatus) -> (MinorRelationship, Option<Seq<char>>) {
    match st {
        MinorStatus::Independent => (MinorRelationship::IndependentFree, None),
        MinorStatus::AlliedFree { patron } => (MinorRelationship::AlliedFree, Some(patron@)),
        MinorStatus::Feudal { patron } => (MinorRelationship::Feudal, Some(patron@)),
        MinorStatus::Conquered { by } => (MinorRelationship::Conquered, Some(by@)),
        MinorStatus::InRevolt => (MinorRelationship::InRevolt, None),
    }
}

/// The name of an optional power.
pub open spec fn opt_view(p: Option<PowerId>) -> Option<Seq<char>> {
    match p {
        Some(x) => Some(x@),
        None => None,
    }
}

/// The power name, or `FRA` when there is none.
pub open spec fn or_france(p: Option<Seq<char>>) -> Seq<char> {
    match p {
        Some(x) => x,
        None => "FRA"@,
    }
}

/// The status a stored setup stands for; a tie without a recorded power
/// is to France.
pub open spec fn setup_status(rel: MinorRelationship, patron: Option<Seq<char>>) -> (MinorRelationship, Option<Seq<char>>) {
    match rel {
        MinorRelationship::IndependentFree => (rel, None),
        MinorRelationship::InRevolt => (rel, None),
        _ => (rel, Some(or_france(patron))),
    }
}

fn france() -> (p: PowerId)
    ensures
        p@ == "FRA"@,
{
    PowerId::new("FRA")
}

fn copy_power(p: &Option<PowerId>) -> (r: Option<PowerId>)
    ensures
        r == *p,
{
    match p {
        Some(x) => Some(x.duplicate()),
        None => None,
    }
}

/// The status a stored relationship and patron stand for.
pub fn status_from_setup(relationship: MinorRelationship, patron: Option<PowerId>) -> (st: MinorStatus)
    ensures
        status_view(st) == setup_status(relationship, opt_view(patron)),
{
    match relationship {
        MinorRelationship::IndependentFree => MinorStatus::Independent,
        MinorRelationship::AlliedFree => MinorStatus::AlliedFree {
            patron: match patron {
                Some(p) => p,
                None => france(),
            },
        },
        MinorRelationship::Feudal => MinorStatus::Feudal {
            patron: match patron {
                Some(p) => p,
                None => france(),
            },
        },
        MinorRelationship::Conquered => MinorStatus::Conquered {
            by: match patron {
                Some(p) => p,
                None => france(),
            },
        },
        MinorRelationship::InRevolt => MinorStatus::InRevolt,
    }
}

/// The power a status ties the minor to, if any.
pub fn patron_for_status(status: &MinorStatus) -> (r: Option<&PowerId>)
    ensures
        match r {
            Some(p) => status_view(*status).1 == Some(p@),
            None => status_view(*status).1 is None,
        },
{
    match status {
        MinorStatus::Independent | MinorStatus::InRevolt => None,
        MinorStatus::AlliedFree { patron } | MinorStatus::Feudal { patron } => Some(patron),
        MinorStatus::Conquered { by } => Some(by),
    }
}

/// The name of a relationship's status as events report it.
pub open spec fn status_text(rel: MinorRelationship) -> Seq<char> {
    match rel {
        MinorRelationship::IndependentFree => "Independent"@,
        MinorRelationship::AlliedFree => "AlliedFree"@,
        MinorRelationship::Feudal => "Feudal"@,
        MinorRelationship::Conquered => "Conquered"@,
        MinorRelationship::InRevolt => "InRevolt"@,
    }
}

/// The name of a status.
pub fn status_name(status: &MinorStatus) -> (s: &'static str)
    ensures
        s@ == status_text(status_view(*status).0),
{
    match status {
        MinorStatus::Independent => "Independent",
        MinorStatus::AlliedFree { .. } => "AlliedFree",
        MinorStatus::Feudal { .. } => "Feudal",
        MinorStatus::Conquered { .. } => "Conquered",
        MinorStatus::InRevolt => "InRevolt",
    }
}

/// The power a new tie goes to: the current one, else the first power in
/// key order, else France.
pub open spec fn default_patron_of(s: &Scenario, current: (MinorRelationship, Option<Seq<char>>)) -> Seq<char> {
    match current.1 {
        Some(p) => p,
        None => if s.powers.entries_view().len() > 0 {
            s.powers.entries_view()[0].0@
        } else {
            "FRA"@
        },
    }
}

/// The power a new tie goes to.
pub fn default_patron(s: &Scenario, current: &MinorStatus) -> (p: PowerId)
    ensures
        p@ == default_patron_of(s, status_view(*current)),
{
    match patron_for_status(current) {
        Some(p) => p.duplicate(),
        None => {
            if s.powers.len() > 0 {
                PowerId(s.powers.key_at(0).clone())
            } else {
                france()
            }
        },
    }
}

/// The status the die roll gives while the table row is not authored:
/// 0 or 1 independent, 2 allied, 3 feudal, 4 conquered, else in revolt.
pub open spec fn placeholder_outcome(s: &Scenario, current: (MinorRelationship, Option<Seq<char>>), roll: int) -> (
    MinorRelationship,
    Option<Seq<char>>,
) {
    if roll == 0 || roll == 1 {
        (MinorRelationship::IndependentFree, None)
    } else if roll == 2 {
        (MinorRelationship::AlliedFree, Some(default_patron_of(s, current)))
    } else if roll == 3 {
        (MinorRelationship::Feudal, Some(default_patron_of(s, current)))
    } else if roll == 4 {
        (MinorRelationship::Conquered, Some(default_patron_of(s, current)))
    } else {
        (MinorRelationship::InRevolt, None)
    }
}

/// The status the die roll gives while the table row is not authored.
pub fn placeholder_status(s: &Scenario, current: &MinorStatus, roll: i32) -> (st: MinorStatus)
    ensures
        status_view(st) == placeholder_outcome(s, status_view(*current), roll as int),
{
    if roll == 0 || roll == 1 {
        MinorStatus::Independent
    } else if roll == 2 {
        MinorStatus::AlliedFree { patron: default_patron(s, current) }
    } else if roll == 3 {
        MinorStatus::Feudal { patron: default_patron(s, current) }
    } else if roll == 4 {
        MinorStatus::Conquered { by: default_patron(s, current) }
    } else {
        MinorStatus::InRevolt
    }
}

/// The status an outcome label names: `STATUS` or `STATUS:POWER`; a tie
/// without a power keeps the current one (else France); an unknown status
/// keeps the current status.
pub open spec fn label_outcome(label: Seq<char>, current: (MinorRelationship, Option<Seq<char>>)) -> (
    MinorRelationship,
    Option<Seq<char>>,
) {
    let (st, power) = match crate::scenario::first_colon(label) {
        Some(i) => (label.take(i as int), Some(label.skip(i + 1 as int))),
        None => (label, None),
    };
    let tied = match power {
        Some(p) => p,
        None => or_france(current.1),
    };
    if st == "INDEPENDENT"@ || st == "INDEPENDENT_FREE"@ {
        (MinorRelationship::IndependentFree, None)
    } else if st == "ALLIED_FREE"@ {
        (MinorRelationship::AlliedFree, Some(tied))
    } else if st == "FEUDAL"@ {
        (MinorRelationship::Feudal, Some(tied))
    } else if st == "CONQUERED"@ {
        (MinorRelationship::Conquered, Some(tied))
    } else if st == "IN_REVOLT"@ || st == "INREVOLT"@ || st == "IN_REVOLT_FREE"@ {
        (MinorRelationship::InRevolt, None)
    } else {
        current
    }
}

/// Whether the characters are exactly the text.
fn chars_are(v: &Vec<char>, t: &str) -> (r: bool)
    ensures
        r == (v@ == t@),
{
    let w = chars_of(t);
    if v.len() != w.len() {
        return false;
    }
    let mut i: usize = 0;
    while i < v.len()
        invariant
            w@ == t@,
            v@.len() == w@.len(),
            i <= v@.len(),
            forall|k: int| 0 <= k < i ==> v@[k] == w@[k],
        decreases v@.len() - i,
    {
        if v[i] != w[i] {
            return false;
        }
        i = i + 1;
    }
    proof {
        assert(v@ =~= w@);
    }
    true
}

fn make_status(rel: MinorRelationship, patron: PowerId) -> (st: MinorStatus)
    requires
        rel != MinorRelationship::IndependentFree,
        rel != MinorRelationship::InRevolt,
    ensures
        status_view(st) == (rel, Some(patron@)),
{
    match rel {
        MinorRelationship::AlliedFree => MinorStatus::AlliedFree { patron },
        MinorRelationship::Feudal => MinorStatus::Feudal { patron },
        _ => MinorStatus::Conquered { by: patron },
    }
}

fn copy_status(st: &MinorStatus) -> (r: MinorStatus)
    ensures
        r == *st,
{
    match st {
        MinorStatus::Independent => MinorStatus::Independent,
        MinorStatus::AlliedFree { patron } => MinorStatus::AlliedFree { patron: patron.duplicate() },
        MinorStatus::Feudal { patron } => MinorStatus::Feudal { patron: patron.duplicate() },
        MinorStatus::Conquered { by } => MinorStatus::Conquered { by: by.duplicate() },
        MinorStatus::InRevolt => MinorStatus::InRevolt,
    }
}

/// The status an outcome label names.
pub fn parse_outcome_label(label: &str, current: &MinorStatus) -> (st: MinorStatus)
    ensures
        status_view(st) == label_outcome(label@, status_view(*current)),
{
    let v = chars_of(label);
    let mut i: usize = 0;
    while i < v.len() && v[i] != ':'
        invariant
            v@ == label@,
            i <= v@.len(),
            forall|j: int| 0 <= j < i ==> v@[j] != ':',
        decreases v@.len() - i,
    {
        i = i + 1;
    }
    proof {
        crate::scenario::lemma_first_colon(label@, i as int);
    }
    let mut head: Vec<char> = Vec::new();
    let mut j: usize = 0;
    while j < i
        invariant
            v@ == label@,
            i <= v@.len(),
            j <= i,
            head@ == v@.take(j as int),
        decreases i - j,
    {
        head.push(v[j]);
        j = j + 1;
    }
    let power: Option<PowerId> = if i < v.len() {
        let mut tail: Vec<char> = Vec::new();
        let mut k: usize = i + 1;
        while k < v.len()
            invariant
                v@ == label@,
                i < v@.len(),
                i + 1 <= k <= v@.len(),
                tail@ == v@.subrange(i + 1, k as int),
            decreases v@.len() - k,
        {
            tail.push(v[k]);
            k = k + 1;
        }
        proof {
            assert(tail@ =~= label@.skip(i + 1));
        }
        Some(PowerId(string_from_chars(tail.as_slice())))
    } else {
        proof {
            assert(head@ =~= label@);
        }
        None
    };
    let tied = match power {
        Some(p) => p,
        None => match patron_for_status(current) {
            Some(p) => p.duplicate(),
            None => france(),
        },
    };
    if chars_are(&head, "INDEPENDENT") || chars_are(&head, "INDEPENDENT_FREE") {
        MinorStatus::Independent
    } else if chars_are(&head, "ALLIED_FREE") {
        make_status(MinorRelationship::AlliedFree, tied)
    } else if chars_are(&head, "FEUDAL") {
        make_status(MinorRelationship::Feudal, tied)
    } else if chars_are(&head, "CONQUERED") {
        make_status(MinorRelationship::Conquered, tied)
    } else if chars_are(&head, "IN_REVOLT") || chars_are(&head, "INREVOLT") || chars_are(&head, "IN_REVOLT_FREE") {
        MinorStatus::InRevolt
    } else {
        copy_status(current)
    }
}

/// The sum of the weights.
pub open spec fn weight_sum(es: Seq<(String, i32)>) -> int
    decreases es.len(),
{
    if es.len() == 0 {
        0
    } else {
        weight_sum(es.drop_last()) + es.last().1
    }
}

/// The first position at which the running sum of weights passes
/// `target`, or -1.
pub open spec fn first_over(es: Seq<(String, i32)>, target: int) -> int
    decreases es.len(),
{
    if es.len() == 0 {
        -1
    } else {
        let r = first_over(es.drop_last(), target);
        if r >= 0 {
            r
        } else if target < weight_sum(es) {
            es.len() - 1
        } else {
            -1
        }
    }
}

/// The outcome a weighted row gives for a roll of a six-sided die: the
/// label whose running weight first passes `roll * total / 6`, the last
/// label when none does, and the current status when the weights do not
/// sum to a positive total.
pub open spec fn row_outcome(es: Seq<(String, i32)>, roll: int, current: (MinorRelationship, Option<Seq<char>>)) -> (
    MinorRelationship,
    Option<Seq<char>>,
) {
    let total = weight_sum(es);
    if total <= 0 {
        current
    } else {
        let i = first_over(es, ((roll % 6) * total) / 6);
        if i >= 0 {
            label_outcome(es[i].0@, current)
        } else if es.len() > 0 {
            label_outcome(es.last().0@, current)
        } else {
            current
        }
    }
}

/// The running sums of the weights, and the product the roll is scaled
/// by, stay within `i32`.
pub open spec fn row_fits(es: Seq<(String, i32)>, roll: int) -> bool {
    &&& forall|k: int| 0 <= k <= es.len() ==> i32::MIN <= #[trigger] weight_sum(es.take(k)) <= i32::MAX
    &&& weight_sum(es) > 0 ==> (roll % 6) * weight_sum(es) <= i32::MAX
}

/// The status a weighted table row gives for the roll.
pub fn pick_status_from_row(row: &MinorActivationRow, roll: i32, current: &MinorStatus) -> (st: MinorStatus)
    requires
        0 <= roll,
        row_fits(row.outcomes.entries_view(), roll as int),
    ensures
        status_view(st) == row_outcome(row.outcomes.entries_view(), roll as int, status_view(*current)),
{
    let die_faces: i32 = 6;
    let n = row.outcomes.len();
    let ghost es = row.outcomes.entries_view();
    let mut total: i32 = 0;
    let mut i: usize = 0;
    proof {
        assert(es.take(0) =~= Seq::<(String, i32)>::empty());
    }
    while i < n
        invariant
            es == row.outcomes.entries_view(),
            n == es.len(),
            i <= n,
            row_fits(es, roll as int),
            total == weight_sum(es.take(i as int)),
        decreases n - i,
    {
        proof {
            assert(es.take(i + 1).drop_last() =~= es.take(i as int));
            assert(i32::MIN <= weight_sum(es.take(i + 1)) <= i32::MAX);
        }
        total = total + *row.outcomes.value_at(i);
        i = i + 1;
    }
    proof {
        assert(es.take(n as int) =~= es);
    }
    if total <= 0 {
        return copy_status(current);
    }
    let target = ((roll % die_faces) * total) / die_faces;
    let mut running: i32 = 0;
    let mut k: usize = 0;
    while k < n
        invariant
            es == row.outcomes.entries_view(),
            n == es.len(),
            k <= n,
            row_fits(es, roll as int),
            running == weight_sum(es.take(k as int)),
            first_over(es.take(k as int), target as int) == -1,
            total == weight_sum(es),
            total > 0,
            0 <= roll,
            target == ((roll % 6) * total) / 6,
        decreases n - k,
    {
        proof {
            assert(es.take(k + 1).drop_last() =~= es.take(k as int));
            assert(i32::MIN <= weight_sum(es.take(k + 1)) <= i32::MAX);
        }
        running = running + *row.outcomes.value_at(k);
        if target < running {
            proof {
                assert(first_over(es.take(k + 1), target as int) == k);
                lemma_first_over_prefix(es, k + 1, target as int);
            }
            return parse_outcome_label(row.outcomes.key_at(k).as_str(), current);
        }
        k = k + 1;
    }
    proof {
        assert(es.take(n as int) =~= es);
    }
    if n > 0 {
        parse_outcome_label(row.outcomes.key_at(n - 1).as_str(), current)
    } else {
        copy_status(current)
    }
}

/// Once the running sum passes the target in a prefix, the whole list
/// gives the same position.
proof fn lemma_first_over_prefix(es: Seq<(String, i32)>, k: int, target: int)
    requires
        0 <= k <= es.len(),
        first_over(es.take(k), target) >= 0,
    ensures
        first_over(es, target) == first_over(es.take(k), target),
    decreases es.len() - k,
{
    if k < es.len() {
        assert(es.take(k + 1).drop_last() =~= es.take(k));
        lemma_first_over_prefix(es, k + 1, target);
    } else {
        assert(es.take(k) =~= es);
    }
}

/// The status activation gives: the weighted row for the minor when it is
/// authored, else the placeholder outcome of the roll.
pub open spec fn activation_outcome(
    s: &Scenario,
    m: Seq<char>,
    tables: &MinorActivationTable,
    roll: int,
    current: (MinorRelationship, Option<Seq<char>>),
) -> (MinorRelationship, Option<Seq<char>>) {
    if tables.rows@.contains_key(m) && tables.rows@[m] is Value {
        row_outcome(tables.rows@[m]->Value_0.outcomes.entries_view(), roll, current)
    } else {
        placeholder_outcome(s, current, roll)
    }
}

/// The authored row for the minor, if any, fits the arithmetic.
pub open spec fn activation_fits(m: Seq<char>, tables: &MinorActivationTable, roll: int) -> bool {
    tables.rows@.contains_key(m) && tables.rows@[m] is Value ==> row_fits(
        tables.rows@[m]->Value_0.outcomes.entries_view(),
        roll,
    )
}

/// Rolls the die (`rng_seed % 6`) for a minor, moves it to the status the
/// roll gives, and reports the change; an unknown minor gives no event.
pub fn activate_minor(s: &mut Scenario, minor_id: &MinorId, tables: &MinorActivationTable, rng_seed: u64) -> (ev: Vec<Event>)
    requires
        activation_fits(minor_id@, tables, (rng_seed % 6) as int),
    ensures
        !old(s).minors@.contains_key(minor_id@) ==> ev@.len() == 0 && *final(s) == *old(s),
        old(s).minors@.contains_key(minor_id@) ==> ({
            let setup = old(s).minors@[minor_id@];
            let next = activation_outcome(
                &*old(s),
                minor_id@,
                tables,
                (rng_seed % 6) as int,
                setup_status(setup.initial_relationship, opt_view(setup.patron)),
            );
            &&& ev@.len() == 1
            &&& ev@[0] matches Event::MinorActivated { minor, new_status, patron } && minor@ == minor_id@
                && new_status@ == status_text(next.0) && opt_view(patron) == next.1
            &&& *final(s) == (Scenario { minors: final(s).minors, ..*old(s) })
            &&& final(s).minors@ == old(s).minors@.insert(
                minor_id@,
                (MinorSetup {
                    initial_relationship: next.0,
                    patron: final(s).minors@[minor_id@].patron,
                    ..setup
                }),
            )
            &&& opt_view(final(s).minors@[minor_id@].patron) == next.1
        }),
{
    let j = match s.minors.find(minor_id.as_str()) {
        Some(j) => j,
        None => {
            return Vec::new();
        },
    };
    proof {
        assert(s.minors@.contains_key(s.minors.entries_view()[j as int].0@));
    }
    let setup = s.minors.value_at(j);
    let current = status_from_setup(setup.initial_relationship, copy_power(&setup.patron));
    let roll = (rng_seed % 6) as i32;
    let next = match tables.rows.get(minor_id.as_str()) {
        Some(Maybe::Value(row)) => pick_status_from_row(row, roll, &current),
        _ => placeholder_status(s, &current, roll),
    };
    let ghost s0 = *s;
    let placeholder = MinorSetup {
        display_name: String::new(),
        home_areas: Vec::new(),
        initial_relationship: MinorRelationship::InRevolt,
        patron: None,
        starting_force_level: 0,
    };
    let mut m = s.minors.set_value_at(j, placeholder);
    match &next {
        MinorStatus::Independent => {
            m.initial_relationship = MinorRelationship::IndependentFree;
            m.patron = None;
        },
        MinorStatus::AlliedFree { patron } => {
            m.initial_relationship = MinorRelationship::AlliedFree;
            m.patron = Some(patron.duplicate());
        },
        MinorStatus::Feudal { patron } => {
            m.initial_relationship = MinorRelationship::Feudal;
            m.patron = Some(patron.duplicate());
        },
        MinorStatus::Conquered { by } => {
            m.initial_relationship = MinorRelationship::Conquered;
            m.patron = Some(by.duplicate());
        },
        MinorStatus::InRevolt => {
            m.initial_relationship = MinorRelationship::InRevolt;
            m.patron = None;
        },
    }
    let ghost m1 = m;
    s.minors.set_value_at(j, m);
    proof {
        assert(s.minors@ =~= s0.minors@.insert(minor_id@, m1));
    }
    let patron = match patron_for_status(&next) {
        Some(p) => Some(p.duplicate()),
        None => None,
    };
    let mut events: Vec<Event> = Vec::new();
    events.push(
        Event::MinorActivated {
            minor: minor_id.duplicate(),
            new_status: status_name(&next).to_owned(),
            patron,
        },
    );
    events
}

/// Whether `power` controls `minor`: its patron for an allied or feudal
/// minor, its conqueror for a conquered one.
pub open spec fn control_verdict(s: &Scenario, power: Seq<char>, minor: Seq<char>) -> Result<(), Seq<char>> {
    if !s.minors@.contains_key(minor) {
        Err("unknown minor `"@ + minor + "`"@)
    } else {
        let st = setup_status(s.minors@[minor].initial_relationship, opt_view(s.minors@[minor].patron));
        match st.0 {
            MinorRelationship::IndependentFree => Err("minor `"@ + minor + "` is independent"@),
            MinorRelationship::InRevolt => Err("minor `"@ + minor + "` is in revolt"@),
            MinorRelationship::Conquered => if st.1 == Some(power) {
                Ok(())
            } else {
                Err(
                    "power `"@ + power + "` lacks military control of minor `"@ + minor + "` (conqueror: `"@
                        + st.1->Some_0 + "`)"@,
                )
            },
            _ => if st.1 == Some(power) {
                Ok(())
            } else {
                Err(
                    "power `"@ + power + "` lacks diplomatic control of minor `"@ + minor + "` (patron: `"@
                        + st.1->Some_0 + "`)"@,
                )
            },
        }
    }
}

/// Checks that `power` controls `minor`.
pub fn validate_minor_control(s: &Scenario, power: &PowerId, minor: &MinorId) -> (r: Result<(), String>)
    ensures
        match r {
            Ok(()) => control_verdict(s, power@, minor@) == Ok::<(), Seq<char>>(()),
            Err(m) => control_verdict(s, power@, minor@) == Err::<(), Seq<char>>(m@),
        },
{
    let setup = match s.minors.get(minor.as_str()) {
        Some(m) => m,
        None => {
            let mut v: Vec<char> = Vec::new();
            push_str(&mut v, "unknown minor `");
            push_str(&mut v, minor.as_str());
            push_str(&mut v, "`");
            return Err(string_from_chars(v.as_slice()));
        },
    };
    let status = status_from_setup(setup.initial_relationship, copy_power(&setup.patron));
    match status {
        MinorStatus::Independent => {
            let mut v: Vec<char> = Vec::new();
            push_str(&mut v, "minor `");
            push_str(&mut v, minor.as_str());
            push_str(&mut v, "` is independent");
            Err(string_from_chars(v.as_slice()))
        },
        MinorStatus::InRevolt => {
            let mut v: Vec<char> = Vec::new();
            push_str(&mut v, "minor `");
            push_str(&mut v, minor.as_str());
            push_str(&mut v, "` is in revolt");
            Err(string_from_chars(v.as_slice()))
        },
        MinorStatus::AlliedFree { patron } | MinorStatus::Feudal { patron } => {
            if patron.same(power) {
                Ok(())
            } else {
                let mut v: Vec<char> = Vec::new();
                push_str(&mut v, "power `");
                push_str(&mut v, power.as_str());
                push_str(&mut v, "` lacks diplomatic control of minor `");
                push_str(&mut v, minor.as_str());
                push_str(&mut v, "` (patron: `");
                push_str(&mut v, patron.as_str());
                push_str(&mut v, "`)");
                Err(string_from_chars(v.as_slice()))
            }
        },
        MinorStatus::Conquered { by } => {
            if by.same(power) {
                Ok(())
            } else {
                let mut v: Vec<char> = Vec::new();
                push_str(&mut v, "power `");
                push_str(&mut v, power.as_str());
                push_str(&mut v, "` lacks military control of minor `");
                push_str(&mut v, minor.as_str());
                push_str(&mut v, "` (conqueror: `");
                push_str(&mut v, by.as_str());
                push_str(&mut v, "`)");
                Err(string_from_chars(v.as_slice()))
            }
        },
    }
}

} // verus!
