use vstd::prelude::*;

pub mod text;
pub mod clock;
pub mod ids;
pub mod strmap;
pub mod dup;
pub mod locale;
pub mod orders;
pub mod app_state;
pub mod ai;
pub mod tables;
pub mod combat_types;
pub mod naval_types;
pub mod scenario;
pub mod events;
pub mod schema_error;
pub mod loader;
pub mod movement;
pub mod march;
pub mod division;
pub mod marshals;
pub mod frontlines;
pub mod naval;
pub mod production;
pub mod politics;
pub mod focuses;
pub mod mod_loader;
pub mod replay;
pub mod graph;
pub mod map;
pub mod combat;
pub mod economy;
pub mod canonical;
pub mod historical;
pub mod political;
pub mod minors;
pub mod projection;
pub mod diplomacy;
pub mod costpath;

verus! {

} // verus!
