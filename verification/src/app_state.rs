//! Screen flow of the desktop client.

use vstd::prelude::*;

use crate::orders::Order;

verus! {

/// The screen the client is showing.
#[derive(Debug, Clone, Copy, PartialEq, Eq, Hash, Structural)]
pub enum AppState {
    MainMenu,
    ScenarioSelect,
    Loading,
    GameBoard,
    OrderEntry,
    EndTurn,
    Results,
}

impl Default for AppState {
    /// The client starts at the main menu.
    fn default() -> (s: Self)
        ensures
            s == AppState::MainMenu,
    {
        AppState::MainMenu
    }
}

/// The allowed screen changes: the forward flow menu → scenario select →
/// loading → board, the board ⇄ order entry and board ⇄ end-turn loops,
/// end-turn → results, and a return to the main menu from anywhere.
pub open spec fn transition_allowed(from: AppState, to: AppState) -> bool {
    ||| (from == AppState::MainMenu && to == AppState::ScenarioSelect)
    ||| (from == AppState::ScenarioSelect && to == AppState::Loading)
    ||| (from == AppState::Loading && to == AppState::GameBoard)
    ||| (from == AppState::GameBoard && to == AppState::OrderEntry)
    ||| (from == AppState::OrderEntry && to == AppState::GameBoard)
    ||| (from == AppState::GameBoard && to == AppState::EndTurn)
    ||| (from == AppState::EndTurn && to == AppState::GameBoard)
    ||| (from == AppState::EndTurn && to == AppState::Results)
    ||| to == AppState::MainMenu
}

/// Whether the client may move from screen `from` to screen `to`.
pub fn can_transition(from: &AppState, to: &AppState) -> (r: bool)
    ensures
        r == transition_allowed(*from, *to),
{
    match (from, to) {
        (AppState::MainMenu, AppState::ScenarioSelect) => true,
        (AppState::ScenarioSelect, AppState::Loading) => true,
        (AppState::Loading, AppState::GameBoard) => true,
        (AppState::GameBoard, AppState::OrderEntry) => true,
        (AppState::OrderEntry, AppState::GameBoard) => true,
        (AppState::GameBoard, AppState::EndTurn) => true,
        (AppState::EndTurn, AppState::GameBoard) => true,
        (AppState::EndTurn, AppState::Results) => true,
        (_, AppState::MainMenu) => true,
        _ => false,
    }
}

/// The title shown for each screen.
pub open spec fn display_name(state: AppState) -> Seq<char> {
    match state {
        AppState::MainMenu => "Main Menu"@,
        AppState::ScenarioSelect => "Select Scenario"@,
        AppState::Loading => "Loading..."@,
        AppState::GameBoard => "Game Board"@,
        AppState::OrderEntry => "Enter Orders"@,
        AppState::EndTurn => "End Turn"@,
        AppState::Results => "Results"@,
    }
}

/// The title shown for a screen.
pub fn state_display_name(state: &AppState) -> (s: &'static str)
    ensures
        s@ == display_name(*state),
{
    match state {
        AppState::MainMenu => "Main Menu",
        AppState::ScenarioSelect => "Select Scenario",
        AppState::Loading => "Loading...",
        AppState::GameBoard => "Game Board",
        AppState::OrderEntry => "Enter Orders",
        AppState::EndTurn => "End Turn",
        AppState::Results => "Results",
    }
}

/// Orders the player has entered but not yet submitted.
#[derive(Debug)]
pub struct PendingOrders {
    pub orders: Vec<Order>,
}

impl Default for PendingOrders {
    /// No orders pending.
    fn default() -> (p: Self)
        ensures
            p.orders@.len() == 0,
    {
        PendingOrders { orders: Vec::new() }
    }
}

/// Every screen can return to the main menu, and the main menu is where the
/// client starts.
pub proof fn lemma_main_menu_always_reachable(from: AppState)
    ensures
        transition_allowed(from, AppState::MainMenu),
{
}

/// From the main menu the only way forward is scenario selection.
pub proof fn lemma_main_menu_leads_only_to_selection(to: AppState)
    requires
        transition_allowed(AppState::MainMenu, to),
    ensures
        to == AppState::ScenarioSelect || to == AppState::MainMenu,
{
}

} // verus!
