//! One frame of the game: what each mode does with this frame's input, and which
//! mode comes next.

use vstd::prelude::*;
use rltk::RandomNumberGenerator;
use crate::components::{Entity, Pool, Pools};
use crate::damage_system::{delete_the_dead, spec_delete_the_dead};
use crate::item_menus::{MenuKind, drop_item_menu, identify_menu, remove_curse_menu, remove_item_menu, show_inventory, spec_menu_list};
use crate::keys::Key;
use crate::map::TileType;
use crate::menus::{CheatMenuResult, GameOverResult, ItemMenuResult, MainMenuResult, MainMenuSelection, game_over, main_menu, show_cheat_mode, spec_cheat_menu, spec_item_menu, spec_main_menu};
use crate::player::{input_needs_pools, player_input, set_ent, spec_player_input, wants_use};
use crate::run_state::{RunState, VendorMode};
use crate::world::{Ent, Point, WantsToCastSpell, WantsToUseItem, World, WorldView, names_view, refs_in};

verus! {

/// The vendor screen's answer.
#[derive(Clone, Copy, Debug, PartialEq, Eq, Structural)]
pub enum VendorResult {
    NoResponse,
    Cancel,
    Sell,
    BuyMode,
    SellMode,
    Buy,
}

/// What this frame brought from outside the world.
#[derive(Clone, Copy, Debug, PartialEq, Eq, Structural)]
pub struct Frame {
    /// The key pressed, if any, and the modifiers held.
    pub key: Option<Key>,
    pub shift: bool,
    pub control: bool,
    /// Whether a saved game exists (after any save this frame asks for).
    pub save_exists: bool,
    /// Whether the map-building display has shown its last step.
    pub mapgen_done: bool,
    /// The targeting screen's answer, and the target once one is chosen.
    pub target_result: ItemMenuResult,
    pub target: Option<Point>,
    /// The vendor screen's answer.
    pub vendor: VendorResult,
}

/// Work this frame leaves to the loop around the game.
#[derive(Clone, Copy, Debug, PartialEq, Eq, Structural)]
pub enum TickAction {
    Nothing,
    /// Run every system once.
    RunSystems,
    /// Run the systems until `settle` leaves the ticking mode.
    RunSystemsUntilSettled,
    /// Build the level `offset` levels down (up when negative) and move there.
    GotoLevel { offset: i32 },
    /// Open a portal to here in the town, then go `offset` levels down.
    TownPortal { offset: i32 },
    /// Go `offset` levels down, then put the player at `(x, y)`.
    Teleport { offset: i32, x: i32, y: i32 },
    SaveGame,
    /// Load the saved game, then delete the save.
    LoadGame,
    Quit,
    /// Start over: a new player, new maps, a fresh log.
    GameOverCleanup,
    /// Hand the player some gold.
    AddGold,
    /// Carry out a purchase or sale the vendor screen settled.
    Trade,
}

/// The mode the systems leave behind decides whether to keep ticking.
pub open spec fn spec_settle(after: RunState) -> RunState {
    match after {
        RunState::AwaitingInput => RunState::AwaitingInput,
        RunState::MagicMapReveal { .. } => RunState::MagicMapReveal { row: 0 },
        RunState::TownPortal => RunState::TownPortal,
        RunState::TeleportingToOtherLevel { x, y, depth } => RunState::TeleportingToOtherLevel { x, y, depth },
        RunState::ShowRemoveCurse => RunState::ShowRemoveCurse,
        RunState::ShowIdentify => RunState::ShowIdentify,
        _ => RunState::Ticking,
    }
}

/// After one run of the systems, the mode to continue in: ticking goes on until the
/// systems hand control back.
pub fn settle(after: RunState) -> (r: RunState)
    ensures
        r == spec_settle(after),
{
    match after {
        RunState::AwaitingInput => RunState::AwaitingInput,
        RunState::MagicMapReveal { .. } => RunState::MagicMapReveal { row: 0 },
        RunState::TownPortal => RunState::TownPortal,
        RunState::TeleportingToOtherLevel { x, y, depth } => RunState::TeleportingToOtherLevel { x, y, depth },
        RunState::ShowRemoveCurse => RunState::ShowRemoveCurse,
        RunState::ShowIdentify => RunState::ShowIdentify,
        _ => RunState::Ticking,
    }
}

#[verifier::opaque]
pub open spec fn healed_fully(e: Ent) -> Ent {
    Ent { pools: Some(Pools { hit_points: Pool { current: e.pools->0.hit_points.max, ..e.pools->0.hit_points }, ..e.pools->0 }), ..e }
}

#[verifier::opaque]
pub open spec fn made_god(e: Ent) -> Ent {
    Ent { pools: Some(Pools { god_mode: true, ..e.pools->0 }), ..e }
}

#[verifier::opaque]
pub open spec fn uncursed(e: Ent) -> Ent {
    Ent { cursed: false, ..e }
}

#[verifier::opaque]
pub open spec fn aims(e: Ent, item: Entity, target: Option<Point>, spell: bool) -> Ent {
    if spell {
        Ent { wants_to_cast: Some(WantsToCastSpell { spell: item, target }), ..e }
    } else {
        Ent { wants_to_use: Some(WantsToUseItem { item, target }), ..e }
    }
}

#[verifier::opaque]
pub open spec fn wants_drop(e: Ent, item: Entity) -> Ent {
    Ent { wants_to_drop: Some(item), ..e }
}

#[verifier::opaque]
pub open spec fn wants_remove(e: Ent, item: Entity) -> Ent {
    Ent { wants_to_remove: Some(item), ..e }
}

/// `w` with entity `i` replaced by `e`.
pub open spec fn with_ent(w: WorldView, i: int, e: Ent) -> WorldView {
    WorldView { ents: w.ents.update(i, e), ..w }
}

/// Every tile revealed.
pub open spec fn all_revealed(w: WorldView) -> WorldView {
    WorldView { revealed: Seq::new(w.revealed.len(), |i: int| true), ..w }
}

/// Row `row` revealed.
pub open spec fn row_revealed(w: WorldView, row: int) -> WorldView {
    WorldView { revealed: Seq::new(w.revealed.len(), |i: int| w.revealed[i] || i / (w.map_width as int) == row), ..w }
}

/// The identified kinds, with `name` added unless it is there already.
pub open spec fn identify_name(w: WorldView, name: Seq<char>) -> WorldView {
    if w.identified.contains(name) { w } else { WorldView { identified: w.identified.push(name), ..w } }
}

/// What an item picker's choice leads to: nothing yet, back to waiting, or the chosen
/// item's effect and ticking.
pub open spec fn picked(w: WorldView, state: RunState, choice: (ItemMenuResult, Option<Entity>), then: spec_fn(Entity) -> (WorldView, RunState)) -> (WorldView, RunState) {
    match choice.0 {
        ItemMenuResult::Cancel => (w, RunState::AwaitingInput),
        ItemMenuResult::NoResponse => (w, state),
        ItemMenuResult::Selected => then(choice.1->0),
    }
}

/// One frame in mode `state`: the world afterwards (before the dead are removed), the
/// next map-building mode, the next mode, and the work left to the loop around the
/// game. `mana_roll` is the d6 a resting player rolls.
pub open spec fn spec_tick(w: WorldView, state: RunState, mapgen_next: Option<RunState>, f: Frame, visible: Seq<Point>, mana_roll: i32)
    -> (WorldView, Option<RunState>, RunState, TickAction)
{
    let p = w.player as int;
    match state {
        RunState::MapGeneration => {
            (w, mapgen_next, if f.mapgen_done { mapgen_next->0 } else { state }, TickAction::Nothing)
        },
        RunState::ShowCheatMenu => match spec_cheat_menu(f.key) {
            CheatMenuResult::Cancel => (w, mapgen_next, RunState::AwaitingInput, TickAction::Nothing),
            CheatMenuResult::NoResponse | CheatMenuResult::SummonItem => (w, mapgen_next, state, TickAction::Nothing),
            CheatMenuResult::Money => (w, mapgen_next, RunState::AwaitingInput, TickAction::AddGold),
            CheatMenuResult::TeleportToExit => (w, Some(RunState::PreRun), RunState::MapGeneration, TickAction::GotoLevel { offset: 1i32 }),
            CheatMenuResult::Heal => (with_ent(w, p, healed_fully(w.ents[p])), mapgen_next, RunState::AwaitingInput, TickAction::Nothing),
            CheatMenuResult::Reveal => (all_revealed(w), mapgen_next, RunState::AwaitingInput, TickAction::Nothing),
            CheatMenuResult::GodMode => (with_ent(w, p, made_god(w.ents[p])), mapgen_next, RunState::AwaitingInput, TickAction::Nothing),
        },
        RunState::PreviousLevel => (w, Some(RunState::PreRun), RunState::PreRun, TickAction::GotoLevel { offset: -1i32 }),
        RunState::NextLevel => (w, Some(RunState::PreRun), RunState::PreRun, TickAction::GotoLevel { offset: 1i32 }),
        RunState::SaveGame => (w, mapgen_next, RunState::MainMenu {
            menu_selection: if f.save_exists { MainMenuSelection::LoadGame } else { MainMenuSelection::NewGame },
        }, TickAction::SaveGame),
        RunState::MainMenu { .. } => match spec_main_menu(state, f.key, f.save_exists) {
            MainMenuResult::NoSelection { selected } => (w, mapgen_next, RunState::MainMenu { menu_selection: selected }, TickAction::Nothing),
            MainMenuResult::Selected { selected } => match selected {
                MainMenuSelection::NewGame => (w, mapgen_next, RunState::PreRun, TickAction::Nothing),
                MainMenuSelection::LoadGame => (w, mapgen_next, RunState::AwaitingInput, TickAction::LoadGame),
                MainMenuSelection::Quit => (w, mapgen_next, state, TickAction::Quit),
            },
        },
        RunState::PreRun => (w, mapgen_next, RunState::AwaitingInput, TickAction::RunSystems),
        RunState::AwaitingInput => {
            let (w1, r) = spec_player_input(w, f.key, f.shift, f.control, visible, mana_roll);
            (w1, mapgen_next, r, TickAction::Nothing)
        },
        RunState::Ticking => (w, mapgen_next, RunState::Ticking, TickAction::RunSystemsUntilSettled),
        RunState::ShowInventory => {
            let (w1, r) = picked(w, state, spec_item_menu(spec_menu_list(w, MenuKind::Backpack), f.key), |item: Entity|
                match w.ents[item as int].ranged {
                    Some(range) => (w, RunState::ShowTargeting { range, item }),
                    None => (with_ent(w, p, wants_use(w.ents[p], item)), RunState::Ticking),
                });
            (w1, mapgen_next, r, TickAction::Nothing)
        },
        RunState::ShowTargeting { range, item } => match f.target_result {
            ItemMenuResult::Cancel => (w, mapgen_next, RunState::AwaitingInput, TickAction::Nothing),
            ItemMenuResult::NoResponse => (w, mapgen_next, state, TickAction::Nothing),
            ItemMenuResult::Selected => (
                with_ent(w, p, aims(w.ents[p], item, f.target, w.ents[item as int].spell_template)),
                mapgen_next, RunState::Ticking, TickAction::Nothing),
        },
        RunState::ShowDropItem => {
            let (w1, r) = picked(w, state, spec_item_menu(spec_menu_list(w, MenuKind::Backpack), f.key), |item: Entity|
                (with_ent(w, p, wants_drop(w.ents[p], item)), RunState::Ticking));
            (w1, mapgen_next, r, TickAction::Nothing)
        },
        RunState::ShowRemoveItem => {
            let (w1, r) = picked(w, state, spec_item_menu(spec_menu_list(w, MenuKind::Equipped), f.key), |item: Entity|
                (with_ent(w, p, wants_remove(w.ents[p], item)), RunState::Ticking));
            (w1, mapgen_next, r, TickAction::Nothing)
        },
        RunState::ShowVendor { vendor, mode } => match f.vendor {
            VendorResult::Cancel => (w, mapgen_next, RunState::AwaitingInput, TickAction::Nothing),
            VendorResult::NoResponse => (w, mapgen_next, state, TickAction::Nothing),
            VendorResult::Sell | VendorResult::Buy => (w, mapgen_next, state, TickAction::Trade),
            VendorResult::BuyMode => (w, mapgen_next, RunState::ShowVendor { vendor, mode: VendorMode::Buy }, TickAction::Nothing),
            VendorResult::SellMode => (w, mapgen_next, RunState::ShowVendor { vendor, mode: VendorMode::Sell }, TickAction::Nothing),
        },
        RunState::GameOver => if f.key == Some(Key::Escape) {
            (w, mapgen_next, RunState::MainMenu { menu_selection: MainMenuSelection::NewGame }, TickAction::GameOverCleanup)
        } else {
            (w, mapgen_next, state, TickAction::Nothing)
        },
        RunState::MagicMapReveal { row } => (
            row_revealed(w, row as int), mapgen_next,
            if row == w.map_height - 1 { RunState::Ticking } else { RunState::MagicMapReveal { row: (row + 1) as i32 } },
            TickAction::Nothing),
        RunState::TownPortal => (w, Some(RunState::PreRun), RunState::MapGeneration, TickAction::TownPortal { offset: (0 - (w.depth - 1)) as i32 }),
        RunState::TeleportingToOtherLevel { x, y, depth } => (
            w, Some(RunState::PreRun), RunState::MapGeneration, TickAction::Teleport { offset: (depth - 1) as i32, x, y }),
        RunState::ShowRemoveCurse => {
            let (w1, r) = picked(w, state, spec_item_menu(spec_menu_list(w, MenuKind::Cursed), f.key), |item: Entity|
                (with_ent(w, item as int, uncursed(w.ents[item as int])), RunState::Ticking));
            (w1, mapgen_next, r, TickAction::Nothing)
        },
        RunState::ShowIdentify => {
            let (w1, r) = picked(w, state, spec_item_menu(spec_menu_list(w, MenuKind::Unidentified), f.key), |item: Entity|
                (if w.ents[item as int].has_name { identify_name(w, w.names[item as int]) } else { w }, RunState::Ticking));
            (w1, mapgen_next, r, TickAction::Nothing)
        },
    }
}

/// The inputs on which a frame can be carried out: the modes that read the player's
/// pools find them, the entity a mode names is in the table, a finished map build
/// knows the mode to return to, a revealed row is on the map, and level and pool
/// arithmetic stays in range. `visible` lists the tiles the player sees.
pub open spec fn tick_ok(w: WorldView, state: RunState, mapgen_next: Option<RunState>, f: Frame, visible: Seq<Point>) -> bool {
    let has_pools = w.ents[w.player as int].pools is Some;
    match state {
        RunState::MapGeneration => f.mapgen_done ==> mapgen_next is Some,
        RunState::ShowCheatMenu => (spec_cheat_menu(f.key) == CheatMenuResult::Heal || spec_cheat_menu(f.key) == CheatMenuResult::GodMode
            || spec_cheat_menu(f.key) == CheatMenuResult::Money) ==> has_pools,
        RunState::AwaitingInput => input_needs_pools(w, f.key, f.shift, f.control, visible),
        RunState::ShowTargeting { item, .. } => item < w.ents.len(),
        RunState::MagicMapReveal { row } => 0 <= row < w.map_height,
        RunState::TownPortal => w.depth > i32::MIN + 1,
        RunState::TeleportingToOtherLevel { depth, .. } => depth > i32::MIN,
        _ => true,
    }
}

fn update_player(w: &mut World, e2: Ent)
    requires
        old(w).wf(),
        refs_in(e2, old(w).view().ents.len() as int),
    ensures
        final(w).wf(),
        final(w).view() == with_ent(old(w).view(), old(w).view().player as int, e2),
{
    let p = w.player;
    set_ent(w, p, e2);
}

fn pick_outcome(w: &mut World, state: RunState, kind: MenuKind, key: Option<Key>) -> (r: RunState)
    requires
        old(w).wf(),
        kind != MenuKind::Backpack || state == RunState::ShowDropItem,
    ensures
        final(w).wf(),
        (final(w).view(), r) == picked(old(w).view(), state, spec_item_menu(spec_menu_list(old(w).view(), kind), key),
            |item: Entity| match kind {
                MenuKind::Backpack => (with_ent(old(w).view(), old(w).view().player as int, wants_drop(old(w).view().ents[old(w).view().player as int], item)), RunState::Ticking),
                MenuKind::Equipped => (with_ent(old(w).view(), old(w).view().player as int, wants_remove(old(w).view().ents[old(w).view().player as int], item)), RunState::Ticking),
                MenuKind::Cursed => (with_ent(old(w).view(), item as int, uncursed(old(w).view().ents[item as int])), RunState::Ticking),
                MenuKind::Unidentified => (if old(w).view().ents[item as int].has_name { identify_name(old(w).view(), old(w).view().names[item as int]) } else { old(w).view() }, RunState::Ticking),
            }),
{
    let choice = match kind {
        MenuKind::Backpack => drop_item_menu(w, key),
        MenuKind::Equipped => remove_item_menu(w, key),
        MenuKind::Cursed => remove_curse_menu(w, key),
        MenuKind::Unidentified => identify_menu(w, key),
    };
    proof { crate::menus::law_item_menu_picks_listed(spec_menu_list(w.view(), kind), key); }
    match choice.0 {
        ItemMenuResult::Cancel => RunState::AwaitingInput,
        ItemMenuResult::NoResponse => state,
        ItemMenuResult::Selected => {
            let item = choice.1.unwrap();
            let n = w.ents.len();
            proof { lemma_menu_items_below(w.view(), kind, n as nat); }
            let p = w.player;
            match kind {
                MenuKind::Backpack => {
                    let e = w.ents[p];
                    let e2 = Ent { wants_to_drop: Some(item), ..e };
                    proof { reveal(wants_drop); assert(refs_in(e, w.ents@.len() as int)); }
                    update_player(w, e2);
                },
                MenuKind::Equipped => {
                    let e = w.ents[p];
                    let e2 = Ent { wants_to_remove: Some(item), ..e };
                    proof { reveal(wants_remove); assert(refs_in(e, w.ents@.len() as int)); }
                    update_player(w, e2);
                },
                MenuKind::Cursed => {
                    let e = w.ents[item];
                    let e2 = Ent { cursed: false, ..e };
                    proof { reveal(uncursed); assert(refs_in(e, w.ents@.len() as int)); }
                    set_ent(w, item, e2);
                },
                MenuKind::Unidentified => {
                    if w.ents[item].has_name {
                        identify(w, item);
                    }
                },
            }
            RunState::Ticking
        },
    }
}

proof fn lemma_menu_items_below(w: WorldView, kind: MenuKind, n: nat)
    requires
        n <= usize::MAX,
    ensures
        forall|j: int| 0 <= j < crate::item_menus::menu_items(w, kind, n).len() ==> #[trigger] crate::item_menus::menu_items(w, kind, n)[j] < n,
    decreases n,
{
    if n > 0 {
        lemma_menu_items_below(w, kind, (n - 1) as nat);
        let prev = crate::item_menus::menu_items(w, kind, (n - 1) as nat);
        let cur = crate::item_menus::menu_items(w, kind, n);
        assert forall|j: int| 0 <= j < cur.len() implies #[trigger] cur[j] < n by {
            if j < prev.len() {
                assert(cur[j] == prev[j]);
            }
        }
    }
}

/// Adds the name of `item`'s kind to the identified kinds.
fn identify(w: &mut World, item: Entity)
    requires
        old(w).wf(),
        item < old(w).view().ents.len(),
    ensures
        final(w).wf(),
        final(w).view() == identify_name(old(w).view(), old(w).view().names[item as int]),
{
    let ghost v = w.view();
    let name = w.names[item].clone();
    proof { assert(v.names[item as int] == w.names@[item as int]@); }
    let mut j: usize = 0;
    while j < w.identified.len()
        invariant
            j <= w.identified@.len(),
            v == w.view(),
            w.wf(),
            name@ == v.names[item as int],
            forall|i: int| 0 <= i < j ==> #[trigger] v.identified[i] != name@,
        decreases w.identified@.len() - j,
    {
        proof { assert(v.identified[j as int] == w.identified@[j as int]@); }
        if w.identified[j].eq(&name) {
            return;
        }
        j = j + 1;
    }
    proof {
        if v.identified.contains(name@) {
            let i = choose|i: int| 0 <= i < v.identified.len() && v.identified[i] == name@;
            assert(v.identified[i] != name@);
        }
    }
    let ghost before = w.identified@;
    w.identified.push(name);
    proof { crate::world::lemma_names_view_push(before, name); }
}


fn reveal_map_row(w: &mut World, row: i32)
    requires
        old(w).wf(),
        0 <= row < old(w).view().map_height,
    ensures
        final(w).wf(),
        final(w).view() == row_revealed(old(w).view(), row as int),
{
    let ghost v = w.view();
    w.map.reveal_row(row);
    proof {
        assert(w.view().revealed =~= row_revealed(v, row as int).revealed);
    }
}

fn reveal_whole_map(w: &mut World)
    requires
        old(w).wf(),
    ensures
        final(w).wf(),
        final(w).view() == all_revealed(old(w).view()),
{
    let ghost v = w.view();
    w.map.reveal_all();
    proof {
        assert(w.view().revealed =~= all_revealed(v).revealed);
    }
}

fn cheat_tick(w: &mut World, state: RunState, mapgen_next: &mut Option<RunState>, f: &Frame, Ghost(visible): Ghost<Seq<Point>>) -> (r: (RunState, TickAction))
    requires
        old(w).wf(),
        tick_ok(old(w).view(), state, *old(mapgen_next), *f, visible),
        state == RunState::ShowCheatMenu,
    ensures
        final(w).wf(),
        (final(w).view(), *final(mapgen_next), r.0, r.1) == spec_tick(old(w).view(), state, *old(mapgen_next), *f, visible, 1),
{
    let ghost v = w.view();
    let p = w.player;
    match state {
        RunState::ShowCheatMenu => match show_cheat_mode(f.key) {
            CheatMenuResult::Cancel => (RunState::AwaitingInput, TickAction::Nothing),
            CheatMenuResult::NoResponse | CheatMenuResult::SummonItem => (state, TickAction::Nothing),
            CheatMenuResult::Money => (RunState::AwaitingInput, TickAction::AddGold),
            CheatMenuResult::TeleportToExit => {
                *mapgen_next = Some(RunState::PreRun);
                (RunState::MapGeneration, TickAction::GotoLevel { offset: 1 })
            },
            CheatMenuResult::Heal => {
                let e = w.ents[p];
                let pl = e.pools.unwrap();
                let e2 = Ent { pools: Some(Pools { hit_points: Pool { current: pl.hit_points.max, ..pl.hit_points }, ..pl }), ..e };
                proof { reveal(healed_fully); assert(e2 == healed_fully(e)); assert(refs_in(e, v.ents.len() as int)); }
                update_player(w, e2);
                (RunState::AwaitingInput, TickAction::Nothing)
            },
            CheatMenuResult::Reveal => {
                reveal_whole_map(w);
                (RunState::AwaitingInput, TickAction::Nothing)
            },
            CheatMenuResult::GodMode => {
                let e = w.ents[p];
                let pl = e.pools.unwrap();
                let e2 = Ent { pools: Some(Pools { god_mode: true, ..pl }), ..e };
                proof { reveal(made_god); assert(e2 == made_god(e)); assert(refs_in(e, v.ents.len() as int)); }
                update_player(w, e2);
                (RunState::AwaitingInput, TickAction::Nothing)
            },
        },
        _ => (state, TickAction::Nothing),
    }
}

fn inventory_tick(w: &mut World, state: RunState, mapgen_next: &mut Option<RunState>, f: &Frame, Ghost(visible): Ghost<Seq<Point>>) -> (r: (RunState, TickAction))
    requires
        old(w).wf(),
        tick_ok(old(w).view(), state, *old(mapgen_next), *f, visible),
        state == RunState::ShowInventory,
    ensures
        final(w).wf(),
        (final(w).view(), *final(mapgen_next), r.0, r.1) == spec_tick(old(w).view(), state, *old(mapgen_next), *f, visible, 1),
{
    let ghost v = w.view();
    let p = w.player;
    match state {
        RunState::ShowInventory => {
            let choice = show_inventory(w, f.key);
            proof { crate::menus::law_item_menu_picks_listed(spec_menu_list(v, MenuKind::Backpack), f.key); }
            match choice.0 {
                ItemMenuResult::Cancel => (RunState::AwaitingInput, TickAction::Nothing),
                ItemMenuResult::NoResponse => (state, TickAction::Nothing),
                ItemMenuResult::Selected => {
                    let item = choice.1.unwrap();
                    let n = w.ents.len();
                    proof { lemma_menu_items_below(v, MenuKind::Backpack, n as nat); }
                    match w.ents[item].ranged {
                        Some(range) => (RunState::ShowTargeting { range, item }, TickAction::Nothing),
                        None => {
                            let e = w.ents[p];
                            let e2 = Ent { wants_to_use: Some(WantsToUseItem { item, target: None }), ..e };
                            proof { reveal(wants_use); assert(e2 == wants_use(e, item)); assert(refs_in(e, v.ents.len() as int)); }
                            update_player(w, e2);
                            (RunState::Ticking, TickAction::Nothing)
                        },
                    }
                },
            }
        },
        _ => (state, TickAction::Nothing),
    }
}

fn targeting_tick(w: &mut World, state: RunState, mapgen_next: &mut Option<RunState>, f: &Frame, Ghost(visible): Ghost<Seq<Point>>) -> (r: (RunState, TickAction))
    requires
        old(w).wf(),
        tick_ok(old(w).view(), state, *old(mapgen_next), *f, visible),
        state is ShowTargeting,
    ensures
        final(w).wf(),
        (final(w).view(), *final(mapgen_next), r.0, r.1) == spec_tick(old(w).view(), state, *old(mapgen_next), *f, visible, 1),
{
    let ghost v = w.view();
    let p = w.player;
    match state {
        RunState::ShowTargeting { range, item } => match f.target_result {
            ItemMenuResult::Cancel => (RunState::AwaitingInput, TickAction::Nothing),
            ItemMenuResult::NoResponse => (state, TickAction::Nothing),
            ItemMenuResult::Selected => {
                let spell = w.ents[item].spell_template;
                let e = w.ents[p];
                let e2 = if spell {
                    Ent { wants_to_cast: Some(WantsToCastSpell { spell: item, target: f.target }), ..e }
                } else {
                    Ent { wants_to_use: Some(WantsToUseItem { item, target: f.target }), ..e }
                };
                proof { reveal(aims); assert(e2 == aims(e, item, f.target, spell)); assert(refs_in(e, v.ents.len() as int)); }
                update_player(w, e2);
                (RunState::Ticking, TickAction::Nothing)
            },
        },
        _ => (state, TickAction::Nothing),
    }
}

fn magic_map_tick(w: &mut World, state: RunState, mapgen_next: &mut Option<RunState>, f: &Frame, Ghost(visible): Ghost<Seq<Point>>) -> (r: (RunState, TickAction))
    requires
        old(w).wf(),
        tick_ok(old(w).view(), state, *old(mapgen_next), *f, visible),
        state is MagicMapReveal,
    ensures
        final(w).wf(),
        (final(w).view(), *final(mapgen_next), r.0, r.1) == spec_tick(old(w).view(), state, *old(mapgen_next), *f, visible, 1),
{
    let ghost v = w.view();
    let p = w.player;
    match state {
        RunState::MagicMapReveal { row } => {
            reveal_map_row(w, row);
            if row == w.map.height - 1 {
                (RunState::Ticking, TickAction::Nothing)
            } else {
                (RunState::MagicMapReveal { row: row + 1 }, TickAction::Nothing)
            }
        },
        _ => (state, TickAction::Nothing),
    }
}

fn plain_tick(w: &mut World, state: RunState, mapgen_next: &mut Option<RunState>, f: &Frame, Ghost(visible): Ghost<Seq<Point>>) -> (r: (RunState, TickAction))
    requires
        old(w).wf(),
        tick_ok(old(w).view(), state, *old(mapgen_next), *f, visible),
        !(state is ShowCheatMenu || state is ShowInventory || state is ShowTargeting || state is MagicMapReveal
            || state is AwaitingInput || state is ShowDropItem || state is ShowRemoveItem || state is ShowRemoveCurse || state is ShowIdentify),
    ensures
        final(w).wf(),
        (final(w).view(), *final(mapgen_next), r.0, r.1) == spec_tick(old(w).view(), state, *old(mapgen_next), *f, visible, 1),
{
    let ghost v = w.view();
    let p = w.player;
    match state {
        RunState::MapGeneration => {
            if f.mapgen_done {
                (mapgen_next.unwrap(), TickAction::Nothing)
            } else {
                (state, TickAction::Nothing)
            }
        },
        RunState::PreviousLevel => {
            *mapgen_next = Some(RunState::PreRun);
            (RunState::PreRun, TickAction::GotoLevel { offset: -1 })
        },
        RunState::NextLevel => {
            *mapgen_next = Some(RunState::PreRun);
            (RunState::PreRun, TickAction::GotoLevel { offset: 1 })
        },
        RunState::SaveGame => {
            let sel = if f.save_exists { MainMenuSelection::LoadGame } else { MainMenuSelection::NewGame };
            (RunState::MainMenu { menu_selection: sel }, TickAction::SaveGame)
        },
        RunState::MainMenu { .. } => match main_menu(state, f.key, f.save_exists) {
            MainMenuResult::NoSelection { selected } => (RunState::MainMenu { menu_selection: selected }, TickAction::Nothing),
            MainMenuResult::Selected { selected } => match selected {
                MainMenuSelection::NewGame => (RunState::PreRun, TickAction::Nothing),
                MainMenuSelection::LoadGame => (RunState::AwaitingInput, TickAction::LoadGame),
                MainMenuSelection::Quit => (state, TickAction::Quit),
            },
        },
        RunState::PreRun => (RunState::AwaitingInput, TickAction::RunSystems),
        RunState::Ticking => (RunState::Ticking, TickAction::RunSystemsUntilSettled),
        RunState::ShowVendor { vendor, mode } => match f.vendor {
            VendorResult::Cancel => (RunState::AwaitingInput, TickAction::Nothing),
            VendorResult::NoResponse => (state, TickAction::Nothing),
            VendorResult::Sell | VendorResult::Buy => (state, TickAction::Trade),
            VendorResult::BuyMode => (RunState::ShowVendor { vendor, mode: VendorMode::Buy }, TickAction::Nothing),
            VendorResult::SellMode => (RunState::ShowVendor { vendor, mode: VendorMode::Sell }, TickAction::Nothing),
        },
        RunState::GameOver => match game_over(f.key) {
            GameOverResult::QuitToMenu => (RunState::MainMenu { menu_selection: MainMenuSelection::NewGame }, TickAction::GameOverCleanup),
            GameOverResult::NoSelection => (state, TickAction::Nothing),
        },
        RunState::TownPortal => {
            *mapgen_next = Some(RunState::PreRun);
            (RunState::MapGeneration, TickAction::TownPortal { offset: 0 - (w.map.depth - 1) })
        },
        RunState::TeleportingToOtherLevel { x, y, depth } => {
            *mapgen_next = Some(RunState::PreRun);
            (RunState::MapGeneration, TickAction::Teleport { offset: depth - 1, x, y })
        },
        _ => (state, TickAction::Nothing),
    }
}

/// Carries out one frame in mode `state` (read as the frame began): changes the world as
/// the mode's screen or the player's key demands, and returns the next mode and the work
/// left to the loop around the game. `mapgen_next` is the mode to enter once a new map
/// is built.
pub fn tick(w: &mut World, state: RunState, mapgen_next: &mut Option<RunState>, f: &Frame, visible: &Vec<Point>, rng: &mut RandomNumberGenerator) -> (r: (RunState, TickAction))
    requires
        old(w).wf(),
        tick_ok(old(w).view(), state, *old(mapgen_next), *f, visible@),
    ensures
        final(w).wf(),
        exists|mana_roll: i32| 1 <= mana_roll <= 6
            && (final(w).view(), *final(mapgen_next), r.0, r.1) == spec_tick(old(w).view(), state, *old(mapgen_next), *f, visible@, mana_roll),
{
    let ghost v = w.view();
    let ghost mg = *mapgen_next;
    let r = match state {
        RunState::ShowCheatMenu => cheat_tick(w, state, mapgen_next, f, Ghost(visible@)),
        RunState::ShowInventory => inventory_tick(w, state, mapgen_next, f, Ghost(visible@)),
        RunState::ShowTargeting { .. } => targeting_tick(w, state, mapgen_next, f, Ghost(visible@)),
        RunState::MagicMapReveal { .. } => magic_map_tick(w, state, mapgen_next, f, Ghost(visible@)),
        RunState::AwaitingInput => {
            let next = player_input(w, f.key, f.shift, f.control, visible, rng);
            let ghost roll = choose|mana_roll: i32| 1 <= mana_roll <= 6
                && (w.view(), next) == spec_player_input(v, f.key, f.shift, f.control, visible@, mana_roll);
            assert((w.view(), *mapgen_next, next, TickAction::Nothing) == spec_tick(v, state, mg, *f, visible@, roll));
            return (next, TickAction::Nothing);
        },
        RunState::ShowDropItem => (pick_outcome(w, state, MenuKind::Backpack, f.key), TickAction::Nothing),
        RunState::ShowRemoveItem => (pick_outcome(w, state, MenuKind::Equipped, f.key), TickAction::Nothing),
        RunState::ShowRemoveCurse => (pick_outcome(w, state, MenuKind::Cursed, f.key), TickAction::Nothing),
        RunState::ShowIdentify => (pick_outcome(w, state, MenuKind::Unidentified, f.key), TickAction::Nothing),
        _ => plain_tick(w, state, mapgen_next, f, Ghost(visible@)),
    };
    assert((w.view(), *mapgen_next, r.0, r.1) == spec_tick(v, state, mg, *f, visible@, 1));
    r
}

/// Finishes a frame: the world enters mode `next`, and the dead are removed. Returns the
/// dead that lay somewhere, with where each lay (see `delete_the_dead`).
pub fn end_frame(w: &mut World, next: RunState) -> (fallen: Vec<(Entity, crate::components::Position)>)
    requires
        old(w).wf(),
    ensures
        final(w).wf(),
        final(w).view() == spec_delete_the_dead(WorldView { run_state: next, ..old(w).view() }),
        fallen@ == crate::damage_system::fallen_upto(old(w).view().ents, old(w).view().ents.len()),
{
    w.run_state = next;
    delete_the_dead(w)
}

/// Puts the player at `(x, y)`: the player's entity, where it has a position, and the
/// `player_pos` resource.
pub fn place_player(w: &mut World, x: i32, y: i32)
    requires
        old(w).wf(),
    ensures
        final(w).wf(),
        final(w).view() == (WorldView {
            ents: if old(w).view().ents[old(w).view().player as int].position is Some {
                old(w).view().ents.update(old(w).view().player as int,
                    crate::player::placed_at(old(w).view().ents[old(w).view().player as int], crate::components::Position { x, y }))
            } else {
                old(w).view().ents
            },
            player_pos: Point { x, y },
            ..old(w).view()
        }),
{
    let p = w.player;
    let e = w.ents[p];
    if e.position.is_some() {
        let e2 = Ent { position: Some(crate::components::Position { x, y }), ..e };
        proof { reveal(crate::player::placed_at); assert(refs_in(e, w.ents@.len() as int)); }
        update_player(w, e2);
    }
    w.player_pos = Point { x, y };
}

/// After a change of level the player is told so.
pub fn level_changed(w: &mut World)
    requires
        old(w).wf(),
    ensures
        final(w).wf(),
        final(w).view() == (WorldView { log: old(w).view().log.push("You change level"@), ..old(w).view() }),
{
    let ghost before = w.log.entries@;
    let m = String::from_str("You change level");
    w.log.entries.push(m);
    proof { crate::world::lemma_names_view_push(before, m); }
}

/// The world emptied for a new game: every entity is deleted, then a new player stands at
/// `(0, 0)` and becomes the player. Returns the new player.
pub fn reset_for_new_game(w: &mut World) -> (p: Entity)
    requires
        old(w).wf(),
        old(w).view().ents.len() < usize::MAX,
    ensures
        final(w).wf(),
        p == old(w).view().ents.len(),
        final(w).view() == (WorldView {
            ents: Seq::new(old(w).view().ents.len(), |i: int| crate::world::spec_deleted()).push(crate::spawner::spec_player_ent(0, 0)),
            names: old(w).view().names.push("Player"@),
            natural_attacks: old(w).view().natural_attacks.push(Seq::empty()),
            player: p,
            ..old(w).view()
        }),
{
    let ghost start = w.view();
    let n = w.ents.len();
    let mut k: usize = 0;
    while k < n
        invariant
            k <= n,
            n == start.ents.len(),
            w.ents@.len() == n,
            w.view() == (WorldView { ents: w.view().ents, ..start }),
            start.wf(),
            forall|j: int| 0 <= j < k ==> #[trigger] w.ents@[j] == crate::world::spec_deleted(),
            forall|j: int| k <= j < n ==> #[trigger] w.ents@[j] == start.ents[j],
        decreases n - k,
    {
        w.ents.set(k, Ent { alive: false, ..crate::world::blank() });
        k = k + 1;
    }
    proof {
        assert(w.ents@ =~= Seq::new(n as nat, |i: int| crate::world::spec_deleted()));
        assert forall|j: int| 0 <= j < n implies #[trigger] refs_in(w.ents@[j], n as int) by {}
    }
    let p = crate::spawner::player(w, 0, 0);
    w.player = p;
    p
}

/// The log of a new game: only the greeting.
pub fn restart_log(w: &mut World)
    requires
        old(w).wf(),
    ensures
        final(w).wf(),
        final(w).view() == (WorldView { log: seq!["Welcome to Rusty Roguelike... again!"@], ..old(w).view() }),
{
    w.log.entries = Vec::new();
    let ghost before = w.log.entries@;
    let m = String::from_str("Welcome to Rusty Roguelike... again!");
    w.log.entries.push(m);
    proof {
        crate::world::lemma_names_view_push(before, m);
        assert(names_view(before) =~= Seq::<Seq<char>>::empty());
        assert(names_view(w.log.entries@) =~= seq!["Welcome to Rusty Roguelike... again!"@]);
    }
}

// ----- laws -----

/// Settling is stable: once the systems have settled on a mode, settling again keeps it.
pub proof fn law_settle_idempotent(after: RunState)
    ensures
        spec_settle(spec_settle(after)) == spec_settle(after),
{
}

/// The systems keep ticking unless they hand control back to the player, start a magic
/// map, open a town portal, teleport, or ask for a curse to lift or an item to identify.
pub proof fn law_settle_stops_only_on_handoffs(after: RunState)
    ensures
        spec_settle(after) != RunState::Ticking <==> (after is AwaitingInput || after is MagicMapReveal || after is TownPortal
            || after is TeleportingToOtherLevel || after is ShowRemoveCurse || after is ShowIdentify),
{
}

/// The revealed tiles after rows `0..k` of the magic map have been revealed.
pub open spec fn rows_revealed(w: WorldView, k: int) -> WorldView
    decreases k,
{
    if k <= 0 { w } else { row_revealed(rows_revealed(w, k - 1), k - 1) }
}

proof fn lemma_rows_revealed(w: WorldView, k: int)
    requires
        0 <= k,
        w.map_width > 0,
    ensures
        rows_revealed(w, k) == (WorldView { revealed: rows_revealed(w, k).revealed, ..w }),
        rows_revealed(w, k).revealed.len() == w.revealed.len(),
        forall|i: int| 0 <= i < w.revealed.len() ==> #[trigger] rows_revealed(w, k).revealed[i] == (w.revealed[i] || i / (w.map_width as int) < k),
    decreases k,
{
    if k > 0 {
        lemma_rows_revealed(w, k - 1);
    }
}

/// The magic map reveals one row per frame, starting from the top: after the frame in
/// mode `MagicMapReveal { row: k }`, every row up to `k` is revealed, and the mode moves
/// to the next row, or back to ticking after the last one.
pub proof fn law_magic_map_reveals_in_order(w: WorldView, mg: Option<RunState>, f: Frame, visible: Seq<Point>, roll: i32, k: i32)
    requires
        w.wf(),
        0 <= k < w.map_height,
    ensures
        ({
            let prev = rows_revealed(w, k as int);
            let (after, _, next, action) = spec_tick(prev, RunState::MagicMapReveal { row: k }, mg, f, visible, roll);
            &&& after == rows_revealed(w, k + 1)
            &&& action == TickAction::Nothing
            &&& next == if k == w.map_height - 1 { RunState::Ticking } else { RunState::MagicMapReveal { row: (k + 1) as i32 } }
        }),
{
    lemma_rows_revealed(w, k as int);
    lemma_rows_revealed(w, k + 1);
    let prev = rows_revealed(w, k as int);
    assert(prev.map_width == w.map_width && prev.map_height == w.map_height);
}

/// Once the last row is done, the whole map is revealed.
pub proof fn law_magic_map_reveals_everything(w: WorldView)
    requires
        w.wf(),
    ensures
        forall|i: int| 0 <= i < w.revealed.len() ==> #[trigger] rows_revealed(w, w.map_height as int).revealed[i],
{
    lemma_rows_revealed(w, w.map_height as int);
    assert forall|i: int| 0 <= i < w.revealed.len() implies #[trigger] rows_revealed(w, w.map_height as int).revealed[i] by {
        let wd = w.map_width as int;
        let h = w.map_height as int;
        assert(i < wd * h);
        assert(i / wd < h) by (nonlinear_arith) requires 0 <= i < wd * h, wd > 0;
    }
}

/// Escape on an item picker goes back to the player's turn and changes nothing; a frame
/// without a key leaves the picker and the world as they are.
pub proof fn law_picker_cancel_and_wait(w: WorldView, state: RunState, mg: Option<RunState>, f: Frame, visible: Seq<Point>, roll: i32)
    requires
        state is ShowInventory || state is ShowDropItem || state is ShowRemoveItem || state is ShowRemoveCurse || state is ShowIdentify,
    ensures
        f.key == Some(Key::Escape) ==> spec_tick(w, state, mg, f, visible, roll) == (w, mg, RunState::AwaitingInput, TickAction::Nothing),
        f.key is None ==> spec_tick(w, state, mg, f, visible, roll) == (w, mg, state, TickAction::Nothing),
{
}

/// Saving returns to the main menu, with "load game" selected when the save is there.
pub proof fn law_save_returns_to_menu(w: WorldView, mg: Option<RunState>, f: Frame, visible: Seq<Point>, roll: i32)
    ensures
        spec_tick(w, RunState::SaveGame, mg, f, visible, roll) == (w, mg, RunState::MainMenu {
            menu_selection: if f.save_exists { MainMenuSelection::LoadGame } else { MainMenuSelection::NewGame },
        }, TickAction::SaveGame),
{
}

} // verus!
