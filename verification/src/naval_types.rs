//! Naval-domain types.

use vstd::prelude::*;

verus! {

/// The result of a naval battle.
#[derive(Debug, Clone, Copy, PartialEq, Eq, Structural)]
pub enum NavalOutcome {
    AttackerRepulsed,
    DefenderSunk,
    MutualLoss,
}

} // verus!
