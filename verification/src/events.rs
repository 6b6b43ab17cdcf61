//! Event-log entries.
//!
//! The simulation is the fold of ordered events over the initial scenario.
//! Events record accepted orders, the deterministic consequences the
//! resolvers emit, and facts that become public.

use vstd::prelude::*;

use crate::combat_types::{BattleOutcome, LeaderCasualtyKind};
use crate::ids::{AreaId, CorpsId, FleetId, LeaderId, MinorId, PowerId, SeaZoneId};
use crate::naval_types::NavalOutcome;
use crate::scenario::{ProductionKind, TaxPolicy};

verus! {

/// Top-level event-log entry.
#[allow(inconsistent_fields)]
#[derive(Debug, Clone, PartialEq, Eq)]
pub enum Event {
    /// A move order resolved successfully.
    MovementResolved(MovementResolved),
    /// A forced-march order resolved.
    ForcedMarchResolved(ForcedMarchResolved),
    /// An interception order was accepted into the order book.
    InterceptionQueued(InterceptionQueued),
    /// An order was rejected at validation.
    OrderRejected(OrderRejected),
    /// Income collected at the start of the economic phase.
    IncomePaid {
        power: PowerId,
        /// Raw area yield before the tax multiplier.
        gross: i64,
        /// Yield after the tax multiplier.
        net: i64,
        tax_policy: TaxPolicy,
    },
    /// Upkeep deducted from the treasury for all corps and fleets.
    MaintenancePaid { power: PowerId, corps_cost: i64, fleet_cost: i64 },
    /// The treasury ran short and was clamped at zero.
    TreasuryInDeficit {
        power: PowerId,
        /// How much could not be paid.
        shortfall: i64,
    },
    /// A replacement batch from the manpower queue arrived.
    ReplacementsArrived { owner: PowerId, sp_amount: i32 },
    /// A production item completed and a new unit entered the scenario.
    UnitProduced { owner: PowerId, area: AreaId, unit_kind: ProductionKind },
    /// A pending subsidy was transferred between powers.
    SubsidyTransferred { from: PowerId, to: PowerId, amount: i64 },
    /// A power's tax policy was changed.
    TaxPolicySet { power: PowerId, new_policy: TaxPolicy },
    /// A land battle was fully resolved.
    BattleResolved {
        area: AreaId,
        attacker: PowerId,
        defender: PowerId,
        attacker_sp_before: i32,
        defender_sp_before: i32,
        attacker_sp_loss: i32,
        defender_sp_loss: i32,
        attacker_morale_q4_delta: i32,
        defender_morale_q4_delta: i32,
        outcome: BattleOutcome,
    },
    /// A defending corps fell back to an adjacent area.
    CorpsRetreated { corps: CorpsId, from: AreaId, to: AreaId },
    /// A defending corps was routed.
    CorpsRouted { corps: CorpsId, area: AreaId },
    /// A leader suffered a casualty after battle.
    LeaderCasualty { leader: LeaderId, casualty_kind: LeaderCasualtyKind },
    /// A fleet moved between sea zones.
    FleetMoved { fleet: FleetId, from: SeaZoneId, to: SeaZoneId },
    /// A fleet entered port from an adjacent sea zone.
    FleetEnteredPort { fleet: FleetId, area: AreaId },
    /// A fleet left port for an adjacent sea zone.
    FleetLeftPort { fleet: FleetId, area: AreaId },
    /// A naval battle resolved in a sea zone.
    NavalBattleResolved {
        sea_zone: SeaZoneId,
        attacker: PowerId,
        defender: PowerId,
        attacker_ships_lost: i32,
        defender_ships_lost: i32,
        outcome: NavalOutcome,
    },
    /// A fleet established a blockade from an adjacent sea zone.
    BlockadeEstablished { fleet: FleetId, sea_zone: SeaZoneId },
    /// A corps embarked onto a fleet at a port.
    CorpsEmbarked { corps: CorpsId, fleet: FleetId, area: AreaId },
    /// A corps disembarked from a fleet at a port.
    CorpsDisembarked { corps: CorpsId, fleet: FleetId, area: AreaId },
    /// A turn began.
    TurnStarted { turn: u32 },
    /// A turn ended; replays seek to the marker of the turn before.
    TurnCompleted { turn: u32, state_hash: String },
    /// A phase of a turn ended.
    PhaseCompleted { turn: u32, phase: String },
    /// Supply was traced for a corps.
    SupplyTraced { corps: CorpsId, supplied: bool },
    /// Attrition cost a corps strength points.
    AttritionApplied { corps: CorpsId, sp_loss: i32 },
    /// A power declared war on another.
    WarDeclared { by: PowerId, against: PowerId },
    /// A power offered peace to another.
    PeaceProposed { by: PowerId, to: PowerId },
    /// A peace offer was accepted.
    PeaceAccepted { by: PowerId, to: PowerId },
    /// Two powers became allies.
    AllianceFormed { power_a: PowerId, power_b: PowerId },
    /// An alliance ended.
    AllianceBroken { power_a: PowerId, power_b: PowerId },
    /// A power's prestige changed through diplomacy.
    PrestigeChanged { power: PowerId, delta: i32, reason: String },
    /// An ally joined a war through an alliance.
    AllianceCascade { new_belligerent: PowerId, against: PowerId, via_ally: PowerId },
    /// Prestige points were awarded or taken.
    PrestigeAwarded { power: PowerId, delta: i32, reason: String },
    /// An area revolted against its owner.
    RevoltTriggered { area: AreaId, owner: PowerId },
    /// A peace conference opened for a power.
    PeaceConferenceOpened { power: PowerId },
    /// A power's ruler was forced to abdicate.
    AbdicationForced { power: PowerId },
    /// A minor country changed status.
    MinorActivated { minor: MinorId, new_status: String, patron: Option<PowerId> },
    /// A minor country revolted.
    MinorRevolt { minor: MinorId },
}

#[derive(Debug, Clone, PartialEq, Eq)]
pub struct MovementResolved {
    pub corps: CorpsId,
    pub from: AreaId,
    pub to: AreaId,
    /// Number of land hops crossed: `path.len() - 1`.
    pub hops: i32,
    /// Path taken, inclusive of `from` and `to`.
    pub path: Vec<AreaId>,
}

#[derive(Debug, Clone, PartialEq, Eq)]
pub struct ForcedMarchResolved {
    pub corps: CorpsId,
    pub from: AreaId,
    pub to: AreaId,
    pub hops: i32,
    pub path: Vec<AreaId>,
    /// Morale delta (denominator 10000) applied by the march; zero when
    /// the rules value is a placeholder.
    pub morale_loss_q4: i32,
}

#[derive(Debug, Clone, PartialEq, Eq)]
pub struct InterceptionQueued {
    pub corps: CorpsId,
    pub target_area: AreaId,
}

#[derive(Debug, Clone, PartialEq, Eq)]
pub struct OrderRejected {
    pub reason_code: String,
    pub message: String,
}

} // verus!
