//! What the menus do with a key press: the main menu, the cheat menu, the game-over
//! screen and the item pickers.

use vstd::prelude::*;
use crate::components::Entity;
use crate::keys::{Key, letter_to_option, spec_letter_to_option};
use crate::run_state::RunState;

verus! {

#[derive(Clone, Copy, Debug, PartialEq, Eq, Structural)]
pub enum MainMenuSelection {
    NewGame,
    LoadGame,
    Quit,
}

#[derive(Clone, Copy, Debug, PartialEq, Eq, Structural)]
pub enum MainMenuResult {
    NoSelection { selected: MainMenuSelection },
    Selected { selected: MainMenuSelection },
}

/// The entry above `s`; "Load Game" is shown only when a save exists, and the
/// menu wraps around.
pub open spec fn menu_up(s: MainMenuSelection, save_exists: bool) -> MainMenuSelection {
    match s {
        MainMenuSelection::NewGame => MainMenuSelection::Quit,
        MainMenuSelection::LoadGame => MainMenuSelection::NewGame,
        MainMenuSelection::Quit => if save_exists { MainMenuSelection::LoadGame } else { MainMenuSelection::NewGame },
    }
}

/// The entry below `s`, wrapping around.
pub open spec fn menu_down(s: MainMenuSelection, save_exists: bool) -> MainMenuSelection {
    match s {
        MainMenuSelection::NewGame => if save_exists { MainMenuSelection::LoadGame } else { MainMenuSelection::Quit },
        MainMenuSelection::LoadGame => MainMenuSelection::Quit,
        MainMenuSelection::Quit => MainMenuSelection::NewGame,
    }
}

/// The main menu's answer to a key while `selection` is highlighted: Escape moves to
/// Quit, the arrows move the highlight, Return picks the entry.
pub open spec fn spec_main_menu_key(selection: MainMenuSelection, key: Option<Key>, save_exists: bool) -> MainMenuResult {
    match key {
        None => MainMenuResult::NoSelection { selected: selection },
        Some(Key::Escape) => MainMenuResult::NoSelection { selected: MainMenuSelection::Quit },
        Some(Key::Up) => MainMenuResult::NoSelection { selected: menu_up(selection, save_exists) },
        Some(Key::Down) => MainMenuResult::NoSelection { selected: menu_down(selection, save_exists) },
        Some(Key::Return) => MainMenuResult::Selected { selected: selection },
        Some(_) => MainMenuResult::NoSelection { selected: selection },
    }
}

/// The main menu's answer: the key handling above while the game is in the main menu,
/// and "New Game" highlighted otherwise.
pub open spec fn spec_main_menu(state: RunState, key: Option<Key>, save_exists: bool) -> MainMenuResult {
    match state {
        RunState::MainMenu { menu_selection } => spec_main_menu_key(menu_selection, key, save_exists),
        _ => MainMenuResult::NoSelection { selected: MainMenuSelection::NewGame },
    }
}

pub fn main_menu(state: RunState, key: Option<Key>, save_exists: bool) -> (r: MainMenuResult)
    ensures
        r == spec_main_menu(state, key, save_exists),
{
    match state {
        RunState::MainMenu { menu_selection } => {
            let selection = menu_selection;
            match key {
                None => MainMenuResult::NoSelection { selected: selection },
                Some(Key::Escape) => MainMenuResult::NoSelection { selected: MainMenuSelection::Quit },
                Some(Key::Up) => MainMenuResult::NoSelection {
                    selected: match selection {
                        MainMenuSelection::NewGame => MainMenuSelection::Quit,
                        MainMenuSelection::LoadGame => MainMenuSelection::NewGame,
                        MainMenuSelection::Quit => if save_exists { MainMenuSelection::LoadGame } else { MainMenuSelection::NewGame },
                    },
                },
                Some(Key::Down) => MainMenuResult::NoSelection {
                    selected: match selection {
                        MainMenuSelection::NewGame => if save_exists { MainMenuSelection::LoadGame } else { MainMenuSelection::Quit },
                        MainMenuSelection::LoadGame => MainMenuSelection::Quit,
                        MainMenuSelection::Quit => MainMenuSelection::NewGame,
                    },
                },
                Some(Key::Return) => MainMenuResult::Selected { selected: selection },
                Some(_) => MainMenuResult::NoSelection { selected: selection },
            }
        },
        _ => MainMenuResult::NoSelection { selected: MainMenuSelection::NewGame },
    }
}

/// A highlighted entry that the menu can show: "Load Game" only when a save exists.
pub open spec fn selection_shown(s: MainMenuSelection, save_exists: bool) -> bool {
    s != MainMenuSelection::LoadGame || save_exists
}

pub open spec fn result_selection(r: MainMenuResult) -> MainMenuSelection {
    match r {
        MainMenuResult::NoSelection { selected } => selected,
        MainMenuResult::Selected { selected } => selected,
    }
}

/// Up then Down, or Down then Up, returns to the entry that was highlighted.
pub proof fn law_menu_up_down_inverse(s: MainMenuSelection, save_exists: bool)
    requires
        selection_shown(s, save_exists),
    ensures
        menu_down(menu_up(s, save_exists), save_exists) == s,
        menu_up(menu_down(s, save_exists), save_exists) == s,
{
}

/// No key moves the highlight onto an entry the menu does not show.
pub proof fn law_menu_selection_stays_shown(state: RunState, key: Option<Key>, save_exists: bool)
    requires
        state matches RunState::MainMenu { menu_selection } ==> selection_shown(menu_selection, save_exists),
    ensures
        selection_shown(result_selection(spec_main_menu(state, key, save_exists)), save_exists),
{
}

/// Three presses of Down (or Up) with a save present go all the way round.
pub proof fn law_menu_wraps_around(s: MainMenuSelection)
    ensures
        menu_down(menu_down(menu_down(s, true), true), true) == s,
        menu_up(menu_up(menu_up(s, true), true), true) == s,
{
}

#[derive(Clone, Copy, Debug, PartialEq, Eq, Structural)]
pub enum CheatMenuResult {
    NoResponse,
    Cancel,
    TeleportToExit,
    Heal,
    Reveal,
    Money,
    GodMode,
    SummonItem,
}

pub open spec fn spec_cheat_menu(key: Option<Key>) -> CheatMenuResult {
    match key {
        None => CheatMenuResult::NoResponse,
        Some(Key::G) => CheatMenuResult::GodMode,
        Some(Key::H) => CheatMenuResult::Heal,
        Some(Key::M) => CheatMenuResult::Money,
        Some(Key::R) => CheatMenuResult::Reveal,
        Some(Key::T) => CheatMenuResult::TeleportToExit,
        Some(Key::S) => CheatMenuResult::SummonItem,
        Some(Key::Escape) => CheatMenuResult::Cancel,
        Some(_) => CheatMenuResult::NoResponse,
    }
}

/// The cheat menu's answer to a key.
pub fn show_cheat_mode(key: Option<Key>) -> (r: CheatMenuResult)
    ensures
        r == spec_cheat_menu(key),
{
    match key {
        None => CheatMenuResult::NoResponse,
        Some(Key::G) => CheatMenuResult::GodMode,
        Some(Key::H) => CheatMenuResult::Heal,
        Some(Key::M) => CheatMenuResult::Money,
        Some(Key::R) => CheatMenuResult::Reveal,
        Some(Key::T) => CheatMenuResult::TeleportToExit,
        Some(Key::S) => CheatMenuResult::SummonItem,
        Some(Key::Escape) => CheatMenuResult::Cancel,
        Some(_) => CheatMenuResult::NoResponse,
    }
}

#[derive(Clone, Copy, Debug, PartialEq, Eq, Structural)]
pub enum GameOverResult {
    NoSelection,
    QuitToMenu,
}

/// The game-over screen: Escape returns to the menu.
pub fn game_over(key: Option<Key>) -> (r: GameOverResult)
    ensures
        r == (if key == Some(Key::Escape) { GameOverResult::QuitToMenu } else { GameOverResult::NoSelection }),
{
    match key {
        Some(Key::Escape) => GameOverResult::QuitToMenu,
        _ => GameOverResult::NoSelection,
    }
}

#[derive(Clone, Copy, Debug, PartialEq, Eq, Structural)]
pub enum ItemMenuResult {
    Cancel,
    NoResponse,
    Selected,
}

/// An item picker's answer to a key: Escape cancels, the letter of a listed item
/// picks it (A the first), and anything else changes nothing.
pub open spec fn spec_item_menu(items: Seq<Entity>, key: Option<Key>) -> (ItemMenuResult, Option<Entity>) {
    match key {
        None => (ItemMenuResult::NoResponse, None),
        Some(Key::Escape) => (ItemMenuResult::Cancel, None),
        Some(k) => {
            let sel = spec_letter_to_option(k);
            if -1 < sel && sel < items.len() {
                (ItemMenuResult::Selected, Some(items[sel]))
            } else {
                (ItemMenuResult::NoResponse, None)
            }
        },
    }
}

pub fn item_menu_choice(items: &Vec<Entity>, key: Option<Key>) -> (r: (ItemMenuResult, Option<Entity>))
    ensures
        r == spec_item_menu(items@, key),
{
    match key {
        None => (ItemMenuResult::NoResponse, None),
        Some(Key::Escape) => (ItemMenuResult::Cancel, None),
        Some(k) => {
            let sel = letter_to_option(k);
            if sel > -1 && (sel as usize) < items.len() {
                (ItemMenuResult::Selected, Some(items[sel as usize]))
            } else {
                (ItemMenuResult::NoResponse, None)
            }
        },
    }
}

/// A picker only ever hands back an item it listed.
pub proof fn law_item_menu_picks_listed(items: Seq<Entity>, key: Option<Key>)
    ensures
        spec_item_menu(items, key).0 == ItemMenuResult::Selected ==> (
            spec_item_menu(items, key).1 matches Some(e) && items.contains(e)),
        spec_item_menu(items, key).0 != ItemMenuResult::Selected ==> spec_item_menu(items, key).1 is None,
{
    if let Some(k) = key {
        let sel = spec_letter_to_option(k);
        if -1 < sel && sel < items.len() {
            assert(items[sel] == items[sel]);
        }
    }
}

} // verus!
