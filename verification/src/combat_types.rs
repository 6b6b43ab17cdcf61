//! Combat outcome and casualty types.

use vstd::prelude::*;

verus! {

/// The strategic result of a resolved battle.
#[derive(Debug, Clone, Copy, PartialEq, Eq, Structural)]
pub enum BattleOutcome {
    AttackerRepulsed,
    DefenderRetreats,
    DefenderRouted,
    MutualWithdrawal,
}

/// Whether the leader survived, was wounded, or was killed.
#[derive(Debug, Clone, Copy, PartialEq, Eq, Structural)]
pub enum LeaderCasualtyKind {
    Unharmed,
    Wounded,
    Killed,
}

} // verus!
