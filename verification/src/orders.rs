//! Player and AI order types.
//!
//! Orders are submissions; they enter the event log only after validation
//! accepts them.

use vstd::prelude::*;

use crate::ids::{AreaId, CorpsId, FleetId, PowerId, SeaZoneId};
use crate::scenario::{CorpsComposition, TaxPolicy};

verus! {

/// Top-level order submitted by a player or the AI.
#[derive(Debug, Clone, PartialEq, Eq)]
pub enum Order {
    /// Hold position — an explicit no-op, so every corps appears in the
    /// order book.
    Hold(HoldOrder),
    /// Move along the shortest legal path.
    Move(MoveOrder),
    /// Move with an extra hop allowance plus a morale cost.
    ForcedMarch(ForcedMarchOrder),
    /// Standing-order interception; resolution is deferred.
    Interception(InterceptionOrder),
    /// Change the submitter's tax policy.
    SetTaxPolicy(SetTaxPolicyOrder),
    /// Queue a new corps for production.
    BuildCorps(BuildCorpsOrder),
    /// Queue a new fleet for production.
    BuildFleet(BuildFleetOrder),
    /// Queue a money transfer to another power.
    Subsidize(SubsidyOrder),
    /// Attack an adjacent area with one or more corps.
    Attack(AttackOrder),
    /// Bombard a coastal area from the sea.
    Bombard(BombardOrder),
    /// Move a fleet between sea zones.
    MoveFleet(MoveFleetOrder),
    /// Attack the enemy fleets in a sea zone.
    NavalAttack(NavalAttackOrder),
    /// Load a corps onto a fleet in port.
    Embark(EmbarkOrder),
    /// Land a corps from a fleet in port.
    Disembark(DisembarkOrder),
    /// Declare war on another power.
    DeclareWar(DeclareWarOrder),
    /// Propose an alliance to another power.
    FormAlliance(FormAllianceOrder),
    /// Leave an alliance.
    BreakAlliance(BreakAllianceOrder),
    /// Offer peace to a power one is at war with.
    ProposePeace(ProposePeaceOrder),
}

#[derive(Debug, Clone, PartialEq, Eq)]
pub struct HoldOrder {
    pub submitter: PowerId,
    pub corps: CorpsId,
}

#[derive(Debug, Clone, PartialEq, Eq)]
pub struct MoveOrder {
    pub submitter: PowerId,
    pub corps: CorpsId,
    pub to: AreaId,
}

#[derive(Debug, Clone, PartialEq, Eq)]
pub struct ForcedMarchOrder {
    pub submitter: PowerId,
    pub corps: CorpsId,
    pub to: AreaId,
}

#[derive(Debug, Clone, PartialEq, Eq)]
pub struct InterceptionOrder {
    pub submitter: PowerId,
    pub corps: CorpsId,
    pub target_area: AreaId,
    /// Free-form condition text, stored without parsing.
    pub condition: String,
}

#[derive(Debug, Clone, PartialEq, Eq)]
pub struct SetTaxPolicyOrder {
    pub submitter: PowerId,
    pub policy: TaxPolicy,
}

#[derive(Debug, Clone, PartialEq, Eq)]
pub struct BuildCorpsOrder {
    pub submitter: PowerId,
    /// Capital or mobilization area where the corps appears.
    pub area: AreaId,
    pub composition: CorpsComposition,
}

#[derive(Debug, Clone, PartialEq, Eq)]
pub struct BuildFleetOrder {
    pub submitter: PowerId,
    /// Capital or mobilization area where the fleet appears.
    pub area: AreaId,
}

#[derive(Debug, Clone, PartialEq, Eq)]
pub struct SubsidyOrder {
    pub submitter: PowerId,
    pub recipient: PowerId,
    pub amount: i64,
}

#[derive(Debug, Clone, PartialEq, Eq)]
pub struct AttackOrder {
    pub submitter: PowerId,
    /// Attacking corps, each adjacent to or in range of the target.
    pub attacking_corps: Vec<CorpsId>,
    pub target_area: AreaId,
    /// Attacker formation identifier, such as `LINE`.
    pub formation: String,
}

#[derive(Debug, Clone, PartialEq, Eq)]
pub struct BombardOrder {
    pub submitter: PowerId,
    pub fleet: FleetId,
    pub target_area: AreaId,
}

#[derive(Debug, Clone, PartialEq, Eq)]
pub struct MoveFleetOrder {
    pub submitter: PowerId,
    pub fleet: FleetId,
    pub destination: SeaZoneId,
}

#[derive(Debug, Clone, PartialEq, Eq)]
pub struct NavalAttackOrder {
    pub submitter: PowerId,
    pub fleet: FleetId,
    pub target_zone: SeaZoneId,
}

#[derive(Debug, Clone, PartialEq, Eq)]
pub struct EmbarkOrder {
    pub submitter: PowerId,
    pub fleet: FleetId,
    pub corps: CorpsId,
}

#[derive(Debug, Clone, PartialEq, Eq)]
pub struct DisembarkOrder {
    pub submitter: PowerId,
    pub fleet: FleetId,
    pub corps: CorpsId,
    pub target_area: AreaId,
}

#[derive(Debug, Clone, PartialEq, Eq)]
pub struct DeclareWarOrder {
    pub submitter: PowerId,
    pub target: PowerId,
}

#[derive(Debug, Clone, PartialEq, Eq)]
pub struct FormAllianceOrder {
    pub submitter: PowerId,
    pub target: PowerId,
}

#[derive(Debug, Clone, PartialEq, Eq)]
pub struct BreakAllianceOrder {
    pub submitter: PowerId,
    pub target: PowerId,
}

#[derive(Debug, Clone, PartialEq, Eq)]
pub struct ProposePeaceOrder {
    pub submitter: PowerId,
    pub target: PowerId,
    /// Free-form peace terms.
    pub terms: String,
}

impl Order {
    /// The power that submitted the order.
    pub open spec fn spec_submitter(&self) -> PowerId {
        match self {
            Order::Hold(o) => o.submitter,
            Order::Move(o) => o.submitter,
            Order::ForcedMarch(o) => o.submitter,
            Order::Interception(o) => o.submitter,
            Order::SetTaxPolicy(o) => o.submitter,
            Order::BuildCorps(o) => o.submitter,
            Order::BuildFleet(o) => o.submitter,
            Order::Subsidize(o) => o.submitter,
            Order::Attack(o) => o.submitter,
            Order::Bombard(o) => o.submitter,
            Order::MoveFleet(o) => o.submitter,
            Order::NavalAttack(o) => o.submitter,
            Order::Embark(o) => o.submitter,
            Order::Disembark(o) => o.submitter,
            Order::DeclareWar(o) => o.submitter,
            Order::FormAlliance(o) => o.submitter,
            Order::BreakAlliance(o) => o.submitter,
            Order::ProposePeace(o) => o.submitter,
        }
    }

    /// The corps the order moves, for the four movement orders.
    pub open spec fn spec_corps(&self) -> Option<CorpsId> {
        match self {
            Order::Hold(o) => Some(o.corps),
            Order::Move(o) => Some(o.corps),
            Order::ForcedMarch(o) => Some(o.corps),
            Order::Interception(o) => Some(o.corps),
            _ => None,
        }
    }

    /// One of the four movement orders.
    pub open spec fn is_movement(&self) -> bool {
        self.spec_corps() is Some
    }

    /// The power that submitted the order.
    pub fn submitter(&self) -> (p: &PowerId)
        ensures
            *p == self.spec_submitter(),
    {
        match self {
            Order::Hold(o) => &o.submitter,
            Order::Move(o) => &o.submitter,
            Order::ForcedMarch(o) => &o.submitter,
            Order::Interception(o) => &o.submitter,
            Order::SetTaxPolicy(o) => &o.submitter,
            Order::BuildCorps(o) => &o.submitter,
            Order::BuildFleet(o) => &o.submitter,
            Order::Subsidize(o) => &o.submitter,
            Order::Attack(o) => &o.submitter,
            Order::Bombard(o) => &o.submitter,
            Order::MoveFleet(o) => &o.submitter,
            Order::NavalAttack(o) => &o.submitter,
            Order::Embark(o) => &o.submitter,
            Order::Disembark(o) => &o.submitter,
            Order::DeclareWar(o) => &o.submitter,
            Order::FormAlliance(o) => &o.submitter,
            Order::BreakAlliance(o) => &o.submitter,
            Order::ProposePeace(o) => &o.submitter,
        }
    }

    /// The corps a movement order is for; `None` for the other orders.
    pub fn corps(&self) -> (c: Option<&CorpsId>)
        ensures
            match c {
                Some(id) => self.spec_corps() == Some(*id),
                None => self.spec_corps() is None,
            },
    {
        match self {
            Order::Hold(o) => Some(&o.corps),
            Order::Move(o) => Some(&o.corps),
            Order::ForcedMarch(o) => Some(&o.corps),
            Order::Interception(o) => Some(&o.corps),
            _ => None,
        }
    }
}

} // verus!
