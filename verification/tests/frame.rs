use rltk::RandomNumberGenerator;
use rltk_tutorial::ai::{adopt_path, ChaseAI, DefaultMoveAI, FleeAI};
use rltk_tutorial::components::{Attributes, Equipped, EquipmentSlot, InBackpack, Pool, Pools, Position, Skills};
use rltk_tutorial::game_state::{end_frame, place_player, settle, tick, Frame, TickAction, VendorResult};
use rltk_tutorial::hud::{attribute_words, hunger_label, panel_items, pool_text, pools_text, shown_log, spell_lines, tooltip_top, tooltips, weapon_lines, xp_progress, Tooltip};
use rltk_tutorial::combat::Weapon;
use rltk_tutorial::components::WeaponAttribute;
use rltk_tutorial::identification::ItemIdentificationSystem;
use rltk_tutorial::item_menus::{identify_menu, menu_list, remove_curse_menu, remove_item_menu, show_inventory, MenuKind};
use rltk_tutorial::keys::{digit_key, letter_to_option, Key};
use rltk_tutorial::logger::{int_to_string, LogStore, Logger, NamedColor};
use rltk_tutorial::camera::{get_screen_bounds, is_revealed_and_wall, tile_glyph, wall_glyph};
use rltk_tutorial::map::{GameMap, TileType};
use rltk_tutorial::map_indexing::MapIndexingSystem;
use rltk_tutorial::menus::{game_over, item_menu_choice, main_menu, show_cheat_mode, CheatMenuResult, GameOverResult, ItemMenuResult, MainMenuResult, MainMenuSelection};
use rltk_tutorial::ranged_combat_system::RangedCombatSystem;
use rltk_tutorial::rng::{random_slice_index, range, reseed, roll_dice};
use rltk_tutorial::run_state::RunState;
use rltk_tutorial::spawner::{draw_tiles, player_ent, room_spawn_tiles, spawn_points, spawn_region, spawn_room, spawn_spot, Rect};
use rltk_tutorial::visibility_system::VisibilitySystem;
use rltk_tutorial::world::{blank, EffectType, Ent, KnownSpell, Movement, Point, World};
use rltk_tutorial::components::{Attribute, HungerState};

fn open_map(w: i32, h: i32) -> GameMap {
    let mut m = GameMap::new(w, h, 3);
    for y in 1..h - 1 {
        for x in 1..w - 1 {
            let idx = m.xy_idx(x, y);
            m.tiles[idx] = TileType::Floor;
        }
    }
    m
}

fn world() -> World {
    World::new(player_ent(2, 2), "Player".to_string(), Point { x: 2, y: 2 }, open_map(10, 10))
}

fn frame(key: Option<Key>) -> Frame {
    Frame {
        key,
        shift: false,
        control: false,
        save_exists: false,
        mapgen_done: false,
        target_result: ItemMenuResult::NoResponse,
        target: None,
        vendor: VendorResult::NoResponse,
    }
}

fn creature(x: i32, y: i32) -> Ent {
    Ent {
        has_name: true,
        position: Some(Position { x, y }),
        pools: Some(Pools { hit_points: Pool { max: 8, current: 8 }, mana: Pool { max: 0, current: 0 }, xp: 0, level: 2, god_mode: false }),
        attributes: Some(Attributes::default()),
        skills: Some(Skills::new()),
        faction_hostile: Some(true),
        ..blank()
    }
}

#[test]
fn keys_and_digits() {
    assert_eq!(letter_to_option(Key::A), 0);
    assert_eq!(letter_to_option(Key::Z), 25);
    assert_eq!(letter_to_option(Key::Key1), -1);
    assert_eq!(digit_key(Key::Key3), Some(3));
    assert_eq!(digit_key(Key::A), None);
}

#[test]
fn numbers_print_as_decimal() {
    assert_eq!(int_to_string(0), "0");
    assert_eq!(int_to_string(-42), "-42");
    assert_eq!(int_to_string(i32::MIN), "-2147483648");
    assert_eq!(int_to_string(1050), "1050");
}

#[test]
fn logger_writes_one_entry_of_fragments() {
    let mut store = LogStore::new();
    Logger::new().npc_name("Orc").append("hits").damage(7).log(&mut store);
    assert_eq!(store.entries.len(), 1);
    let e = &store.entries[0];
    assert_eq!(e.len(), 3);
    assert_eq!(e[0].color, NamedColor::Yellow);
    assert_eq!(e[0].text, "Orc");
    assert_eq!(e[1].color, NamedColor::White);
    assert_eq!(e[2].color, NamedColor::Red);
    assert_eq!(e[2].text, "7");
}

#[test]
fn menus_answer_keys() {
    assert_eq!(show_cheat_mode(Some(Key::H)), CheatMenuResult::Heal);
    assert_eq!(show_cheat_mode(Some(Key::Escape)), CheatMenuResult::Cancel);
    assert_eq!(show_cheat_mode(None), CheatMenuResult::NoResponse);
    assert_eq!(game_over(Some(Key::Escape)), GameOverResult::QuitToMenu);
    assert_eq!(game_over(Some(Key::A)), GameOverResult::NoSelection);
    let items = vec![4usize, 9];
    assert_eq!(item_menu_choice(&items, Some(Key::B)), (ItemMenuResult::Selected, Some(9)));
    assert_eq!(item_menu_choice(&items, Some(Key::C)), (ItemMenuResult::NoResponse, None));
    assert_eq!(item_menu_choice(&items, Some(Key::Escape)), (ItemMenuResult::Cancel, None));
    let st = RunState::MainMenu { menu_selection: MainMenuSelection::NewGame };
    assert_eq!(main_menu(st, Some(Key::Return), false), MainMenuResult::Selected { selected: MainMenuSelection::NewGame });
    assert_eq!(main_menu(st, Some(Key::Down), false), MainMenuResult::NoSelection { selected: MainMenuSelection::Quit });
    assert_eq!(main_menu(st, Some(Key::Down), true), MainMenuResult::NoSelection { selected: MainMenuSelection::LoadGame });
}

#[test]
fn item_pickers_list_the_right_items() {
    let mut w = world();
    let sword = w.spawn(Ent { item: true, has_name: true, equipped: Some(Equipped { owner: 0, slot: EquipmentSlot::Melee }), cursed: true, ..blank() }, "Sword".to_string());
    let potion = w.spawn(Ent { item: true, has_name: true, in_backpack: Some(InBackpack { owner: 0 }), obfuscated_name: true, ..blank() }, "Potion".to_string());
    let _other = w.spawn(Ent { item: true, in_backpack: Some(InBackpack { owner: 7 }), ..blank() }, "Rock".to_string());
    assert_eq!(menu_list(&w, MenuKind::Backpack), vec![potion]);
    assert_eq!(menu_list(&w, MenuKind::Equipped), vec![sword]);
    assert_eq!(menu_list(&w, MenuKind::Cursed), vec![sword]);
    assert_eq!(menu_list(&w, MenuKind::Unidentified), vec![potion]);
    assert_eq!(show_inventory(&w, Some(Key::A)), (ItemMenuResult::Selected, Some(potion)));
    assert_eq!(remove_item_menu(&w, Some(Key::A)), (ItemMenuResult::Selected, Some(sword)));
    assert_eq!(remove_curse_menu(&w, Some(Key::B)), (ItemMenuResult::NoResponse, None));
    assert_eq!(identify_menu(&w, Some(Key::A)), (ItemMenuResult::Selected, Some(potion)));
}

#[test]
fn settling_stops_on_handoffs() {
    assert_eq!(settle(RunState::AwaitingInput), RunState::AwaitingInput);
    assert_eq!(settle(RunState::MagicMapReveal { row: 7 }), RunState::MagicMapReveal { row: 0 });
    assert_eq!(settle(RunState::PreRun), RunState::Ticking);
    assert_eq!(settle(settle(RunState::ShowIdentify)), RunState::ShowIdentify);
}

#[test]
fn magic_map_reveals_a_row_per_frame() {
    let mut w = world();
    let mut mg = None;
    let mut rng = RandomNumberGenerator::seeded(1);
    let vis: Vec<Point> = Vec::new();
    let mut state = RunState::MagicMapReveal { row: 0 };
    let mut frames = 0;
    while state != RunState::Ticking {
        let (next, action) = tick(&mut w, state, &mut mg, &frame(None), &vis, &mut rng);
        assert_eq!(action, TickAction::Nothing);
        state = next;
        frames += 1;
    }
    assert_eq!(frames, 10);
    assert!(w.map.revealed_tiles.iter().all(|r| *r));
}

#[test]
fn frames_move_between_modes() {
    let mut w = world();
    let mut mg = None;
    let mut rng = RandomNumberGenerator::seeded(1);
    let vis: Vec<Point> = Vec::new();
    assert_eq!(tick(&mut w, RunState::PreRun, &mut mg, &frame(None), &vis, &mut rng), (RunState::AwaitingInput, TickAction::RunSystems));
    assert_eq!(tick(&mut w, RunState::Ticking, &mut mg, &frame(None), &vis, &mut rng), (RunState::Ticking, TickAction::RunSystemsUntilSettled));
    assert_eq!(tick(&mut w, RunState::NextLevel, &mut mg, &frame(None), &vis, &mut rng), (RunState::PreRun, TickAction::GotoLevel { offset: 1 }));
    assert_eq!(mg, Some(RunState::PreRun));
    let saved = Frame { save_exists: true, ..frame(None) };
    assert_eq!(tick(&mut w, RunState::SaveGame, &mut mg, &saved, &vis, &mut rng),
        (RunState::MainMenu { menu_selection: MainMenuSelection::LoadGame }, TickAction::SaveGame));
    assert_eq!(tick(&mut w, RunState::TownPortal, &mut mg, &frame(None), &vis, &mut rng),
        (RunState::MapGeneration, TickAction::TownPortal { offset: -2 }));
    assert_eq!(tick(&mut w, RunState::ShowInventory, &mut mg, &frame(Some(Key::Escape)), &vis, &mut rng), (RunState::AwaitingInput, TickAction::Nothing));
    assert_eq!(tick(&mut w, RunState::ShowInventory, &mut mg, &frame(None), &vis, &mut rng), (RunState::ShowInventory, TickAction::Nothing));
    assert_eq!(tick(&mut w, RunState::GameOver, &mut mg, &frame(Some(Key::Escape)), &vis, &mut rng),
        (RunState::MainMenu { menu_selection: MainMenuSelection::NewGame }, TickAction::GameOverCleanup));
    let done = Frame { mapgen_done: true, ..frame(None) };
    assert_eq!(tick(&mut w, RunState::MapGeneration, &mut mg, &done, &vis, &mut rng), (RunState::PreRun, TickAction::Nothing));
}

#[test]
fn cheats_heal_and_reveal() {
    let mut w = world();
    let mut e = w.ents[0];
    e.pools = Some(Pools { hit_points: Pool { max: 10, current: 2 }, ..e.pools.unwrap() });
    w.ents[0] = e;
    let mut mg = None;
    let mut rng = RandomNumberGenerator::seeded(1);
    let vis: Vec<Point> = Vec::new();
    assert_eq!(tick(&mut w, RunState::ShowCheatMenu, &mut mg, &frame(Some(Key::H)), &vis, &mut rng).0, RunState::AwaitingInput);
    assert_eq!(w.ents[0].pools.unwrap().hit_points.current, 10);
    tick(&mut w, RunState::ShowCheatMenu, &mut mg, &frame(Some(Key::G)), &vis, &mut rng);
    assert!(w.ents[0].pools.unwrap().god_mode);
    tick(&mut w, RunState::ShowCheatMenu, &mut mg, &frame(Some(Key::R)), &vis, &mut rng);
    assert!(w.map.revealed_tiles.iter().all(|r| *r));
    assert_eq!(tick(&mut w, RunState::ShowCheatMenu, &mut mg, &frame(Some(Key::T)), &vis, &mut rng),
        (RunState::MapGeneration, TickAction::GotoLevel { offset: 1 }));
}

#[test]
fn choosing_from_menus_files_requests() {
    let mut w = world();
    let potion = w.spawn(Ent { item: true, has_name: true, in_backpack: Some(InBackpack { owner: 0 }), ..blank() }, "Potion".to_string());
    let wand = w.spawn(Ent { item: true, has_name: true, ranged: Some(5), in_backpack: Some(InBackpack { owner: 0 }), ..blank() }, "Wand".to_string());
    let mut mg = None;
    let mut rng = RandomNumberGenerator::seeded(1);
    let vis: Vec<Point> = Vec::new();
    assert_eq!(tick(&mut w, RunState::ShowInventory, &mut mg, &frame(Some(Key::A)), &vis, &mut rng).0, RunState::Ticking);
    assert_eq!(w.ents[0].wants_to_use.unwrap().item, potion);
    assert_eq!(tick(&mut w, RunState::ShowInventory, &mut mg, &frame(Some(Key::B)), &vis, &mut rng).0, RunState::ShowTargeting { range: 5, item: wand });
    let aimed = Frame { target_result: ItemMenuResult::Selected, target: Some(Point { x: 4, y: 4 }), ..frame(None) };
    assert_eq!(tick(&mut w, RunState::ShowTargeting { range: 5, item: wand }, &mut mg, &aimed, &vis, &mut rng).0, RunState::Ticking);
    assert_eq!(w.ents[0].wants_to_use.unwrap().target, Some(Point { x: 4, y: 4 }));
    assert_eq!(tick(&mut w, RunState::ShowDropItem, &mut mg, &frame(Some(Key::A)), &vis, &mut rng).0, RunState::Ticking);
    assert_eq!(w.ents[0].wants_to_drop, Some(potion));
}

#[test]
fn ending_a_frame_sets_the_mode_and_clears_the_dead() {
    let mut w = world();
    let mut orc = creature(5, 5);
    orc.pools = Some(Pools { hit_points: Pool { max: 8, current: -1 }, ..orc.pools.unwrap() });
    let id = w.spawn(orc, "Orc".to_string());
    assert_eq!(end_frame(&mut w, RunState::AwaitingInput), vec![(id, Position { x: 5, y: 5 })]);
    assert_eq!(w.run_state, RunState::AwaitingInput);
    assert!(!w.ents[id].alive);
    place_player(&mut w, 6, 7);
    assert_eq!(w.player_pos, Point { x: 6, y: 7 });
    assert_eq!(w.ents[0].position, Some(Position { x: 6, y: 7 }));
}

#[test]
fn panel_texts() {
    assert_eq!(pool_text("Health: ", 7, 10), "Health: 7/10");
    let p = player_ent(1, 1).pools.unwrap();
    let (h, m, l) = pools_text(&p);
    assert_eq!(h, "Health: 10/10");
    assert_eq!(m, "Mana: 4/4");
    assert_eq!(l, "Level: 1");
    assert_eq!(xp_progress(&Pools { xp: 2500, level: 3, ..p }), 500);
    assert_eq!(hunger_label(HungerState::Normal), None);
    assert_eq!(hunger_label(HungerState::Hungry), Some((NamedColor::Orange, "Hungry".to_string())));
}

#[test]
fn attributes_read_as_words() {
    let avg = Attributes::default();
    assert_eq!(attribute_words(&avg), "Quite Average");
    let odd = Attributes { might: Attribute::new_base(16), quickness: Attribute::new_base(6), ..avg };
    assert_eq!(attribute_words(&odd), "Strong. Clumsy. ");
}

#[test]
fn tooltip_boxes_fit_their_lines() {
    let mut t = Tooltip::new();
    t.add("Orc".to_string());
    t.add("Strong. ".to_string());
    assert_eq!(t.width(), 10);
    assert_eq!(t.height(), 4);
    assert_eq!(Tooltip::default().height(), 2);
    assert_eq!(tooltip_top(48, 10), 43);
    assert_eq!(tooltip_top(54, 10), 45);
    assert_eq!(tooltip_top(20, 10), 15);
    assert_eq!(tooltip_top(-3, 10), -8);
}

#[test]
fn tooltips_describe_what_the_mouse_is_over() {
    let mut w = world();
    w.spawn(creature(5, 5), "Orc".to_string());
    let idx = w.map.xy_idx(5, 5);
    assert!(tooltips(&w, 5, 5, 0, 0).is_empty());
    w.map.visible_tiles[idx] = true;
    let tips = tooltips(&w, 5, 5, 0, 0);
    assert_eq!(tips.len(), 1);
    assert_eq!(tips[0].lines(), &vec!["Orc".to_string(), "Quite Average".to_string(), "Level: 2".to_string()]);
    // The same tile under the mouse, but the mouse outside the map window.
    assert_eq!(tooltips(&w, 49, 5, -44, 0).len(), 1);
    assert!(tooltips(&w, 50, 5, -45, 0).is_empty());
    assert_eq!(tooltips(&w, 5, 40, 0, -35).len(), 1);
    assert!(tooltips(&w, 5, 41, 0, -36).is_empty());
    assert!(tooltips(&w, 0, 5, 5, 0).is_empty());
}

#[test]
fn panel_lists_worn_items_and_hotkeys() {
    let mut w = world();
    let sword = w.spawn(Ent { item: true, has_name: true, equipped: Some(Equipped { owner: 0, slot: EquipmentSlot::Melee }), ..blank() }, "Sword".to_string());
    let potion = w.spawn(Ent { item: true, has_name: true, consumable: Some(rltk_tutorial::components::Consumable { max_charges: 1, charges: 1 }), in_backpack: Some(InBackpack { owner: 0 }), ..blank() }, "Potion".to_string());
    let (worn, keys) = panel_items(&w);
    assert_eq!(worn, vec![sword]);
    assert_eq!(keys, vec![(potion, 1)]);
    // Numbers count the consumables anyone carries; only the first ten are shown.
    let orc = w.spawn(creature(7, 7), "Orc".to_string());
    let carried = |owner: usize| Ent { item: true, has_name: true, consumable: Some(rltk_tutorial::components::Consumable { max_charges: 1, charges: 1 }), in_backpack: Some(InBackpack { owner }), ..blank() };
    w.spawn(carried(orc), "Orc's potion".to_string());
    let second = w.spawn(carried(0), "Scroll".to_string());
    let (_, keys) = panel_items(&w);
    assert_eq!(keys, vec![(potion, 1), (second, 3)]);
    for _ in 0..8 {
        w.spawn(carried(0), "Bread".to_string());
    }
    let (_, keys) = panel_items(&w);
    assert_eq!(keys.len(), 9);
    assert_eq!(keys[8].1, 10);
    for i in 0..15 {
        w.log.entries.push(format!("line {}", i));
    }
    let shown = shown_log(&w);
    assert_eq!(shown.len(), 13);
    assert_eq!(shown[0], "line 14");
    assert_eq!(shown[12], "line 2");
}

#[test]
fn a_player_looking_again_reveals_what_they_see() {
    let mut w = world();
    let mut e = w.ents[0];
    e.viewshed = Some(rltk_tutorial::world::Viewshed { range: 8, dirty: true });
    w.ents[0] = e;
    let trap = w.spawn(Ent { has_name: true, hidden: true, position: Some(Position { x: 3, y: 3 }), ..blank() }, "Trap".to_string());
    let fov = vec![vec![Point { x: 2, y: 2 }, Point { x: 3, y: 3 }, Point { x: 40, y: 3 }], vec![]];
    let mut rng = RandomNumberGenerator::seeded(5);
    let seen = VisibilitySystem {}.run(&mut w, &fov, &mut rng);
    assert_eq!(seen[0], Some(vec![Point { x: 2, y: 2 }, Point { x: 3, y: 3 }]));
    assert_eq!(seen[1], None);
    assert!(!w.ents[0].viewshed.unwrap().dirty);
    let i = w.map.xy_idx(3, 3);
    assert!(w.map.revealed_tiles[i] && w.map.visible_tiles[i]);
    let far = w.map.xy_idx(7, 7);
    assert!(!w.map.visible_tiles[far]);
    if !w.ents[trap].hidden {
        assert_eq!(w.log.entries.last().unwrap(), "You spotted a Trap.");
    }
}

#[test]
fn hunters_step_or_give_up() {
    let mut w = world();
    let a = w.spawn(Ent { my_turn: true, chasing: Some(0), ..creature(5, 5) }, "Wolf".to_string());
    let b = w.spawn(Ent { my_turn: true, chasing: Some(0), ..creature(6, 6) }, "Bear".to_string());
    let paths = vec![None, Some(vec![55usize, 44, 33]), None];
    ChaseAI {}.run(&mut w, &paths);
    assert_eq!(w.ents[a].apply_move, Some(44));
    assert!(!w.ents[a].my_turn);
    assert_eq!(w.ents[a].chasing, Some(0));
    assert_eq!(w.ents[b].chasing, None);
    assert!(!w.ents[b].my_turn);
}

#[test]
fn fleeing_creatures_avoid_blocked_exits() {
    let mut w = world();
    let a = w.spawn(Ent { my_turn: true, wants_to_flee: true, ..creature(5, 5) }, "Rat".to_string());
    let b = w.spawn(Ent { my_turn: true, wants_to_flee: true, ..creature(6, 6) }, "Bat".to_string());
    let mut blocked = vec![false; 100];
    blocked[57] = true;
    let exits = vec![None, Some(46), Some(57)];
    FleeAI {}.run(&mut w, &exits, &blocked);
    assert_eq!(w.ents[a].apply_move, Some(46));
    assert_eq!(w.ents[b].apply_move, None);
    assert!(!w.ents[a].wants_to_flee && !w.ents[b].wants_to_flee);
}

#[test]
fn blocked_tiles_are_walls_and_blockers() {
    let mut w = world();
    w.spawn(Ent { blocks_tile: true, ..creature(4, 4) }, "Boulder".to_string());
    let blocked = MapIndexingSystem {}.run(&w);
    assert!(blocked[0]);
    assert!(blocked[w.map.xy_idx(4, 4)]);
    assert!(!blocked[w.map.xy_idx(5, 4)]);
}

#[test]
fn a_shot_queues_a_projectile_first() {
    let mut w = world();
    let t = w.spawn(creature(6, 2), "Orc".to_string());
    let mut e = w.ents[0];
    e.wants_to_shoot = Some(t);
    w.ents[0] = e;
    let mut rng = RandomNumberGenerator::seeded(9);
    RangedCombatSystem {}.run(&mut w, &mut rng, &vec![0, 0]);
    assert!(matches!(w.effects[0].effect, EffectType::ParticleProjectile { .. }));
    assert!(w.effects.len() >= 2);
    assert_eq!(w.journal.entries.len(), 1);
    assert!(w.ents[0].wants_to_shoot.is_none());
}

#[test]
fn learning_a_magic_item_reveals_its_kind() {
    let mut w = world();
    let a = w.spawn(Ent { item: true, has_name: true, obfuscated_name: true, ..blank() }, "Magic Missile Scroll".to_string());
    let b = w.spawn(Ent { item: true, has_name: true, obfuscated_name: true, ..blank() }, "Magic Missile Scroll".to_string());
    let mut e = w.ents[0];
    e.identified_item = Some(a);
    w.ents[0] = e;
    ItemIdentificationSystem {}.run(&mut w, &vec![false, true, true]);
    assert!(!w.ents[a].obfuscated_name && !w.ents[b].obfuscated_name);
    assert_eq!(w.identified, vec!["Magic Missile Scroll".to_string()]);
    assert!(w.ents[0].identified_item.is_none());
}

#[test]
fn room_spawn_tiles_are_its_floor() {
    let m = open_map(10, 10);
    let tiles = room_spawn_tiles(&m, Rect { x1: 1, y1: 1, x2: 4, y2: 3 });
    assert_eq!(tiles, vec![22, 23]);
    assert!(room_spawn_tiles(&m, Rect { x1: 1, y1: 1, x2: 2, y2: 2 }).is_empty());
    assert_eq!(spawn_spot(10, 57), (7, 5));
}

#[test]
fn region_spawns_are_distinct_tiles_of_the_region() {
    let area: Vec<usize> = (10..30).collect();
    for seed in 0..20 {
        let mut rng = RandomNumberGenerator::seeded(seed);
        let picks = spawn_region(&mut rng, &area, 4);
        assert!(picks.len() <= 6);
        assert!(picks.iter().all(|p| area.contains(p)));
        let mut sorted = picks.clone();
        sorted.sort();
        sorted.dedup();
        assert_eq!(sorted.len(), picks.len());
    }
}

#[test]
fn draws_take_the_picked_places_among_the_tiles_left() {
    let area = vec![10, 20, 30, 40];
    assert_eq!(draw_tiles(&area, &vec![1, 0, 1]), vec![20, 10, 40]);
    assert_eq!(draw_tiles(&area, &vec![3, 2, 1, 0]), vec![40, 30, 20, 10]);
    assert!(draw_tiles(&area, &vec![]).is_empty());
    assert_eq!(draw_tiles(&vec![5, 5, 7], &vec![0, 0, 0]), vec![5, 5, 7]);
}

#[test]
fn the_spawn_list_keeps_one_named_entry_per_tile() {
    let drawn = vec![20, 10, 40, 20];
    let rolled = vec![Some("Goblin".to_string()), None, Some("Rat".to_string()), Some("Orc".to_string())];
    assert_eq!(spawn_points(&drawn, &rolled), vec![(20, "Orc".to_string()), (40, "Rat".to_string())]);
    let rolled = vec![Some("Goblin".to_string()), Some("Bat".to_string()), None, None];
    assert_eq!(spawn_points(&drawn, &rolled), vec![(20, "Goblin".to_string()), (10, "Bat".to_string())]);
    assert!(spawn_points(&drawn, &vec![None, None, None, None]).is_empty());
}

#[test]
fn region_draws_come_from_the_region() {
    let area: Vec<usize> = vec![3, 3, 3, 4, 4, 9];
    for seed in 0..20 {
        let mut rng = RandomNumberGenerator::seeded(seed);
        let drawn = spawn_region(&mut rng, &area, 5);
        assert!(drawn.len() <= 6);
        assert!(drawn.iter().all(|p| area.contains(p)));
        let named: Vec<Option<String>> = drawn.iter().map(|_| Some("Rat".to_string())).collect();
        let list = spawn_points(&drawn, &named);
        let mut tiles: Vec<usize> = list.iter().map(|p| p.0).collect();
        tiles.sort();
        tiles.dedup();
        assert_eq!(tiles.len(), list.len());
    }
    let mut rng = RandomNumberGenerator::seeded(1);
    assert!(spawn_region(&mut rng, &Vec::new(), 9).is_empty());
    assert!(spawn_region(&mut rng, &area, -2).is_empty());
}

#[test]
fn dice_stay_in_range() {
    let mut rng = RandomNumberGenerator::seeded(42);
    reseed(&mut rng, 99);
    let mut seen_high = false;
    for _ in 0..200 {
        let r = roll_dice(&mut rng, 3, 6);
        assert!((3..=18).contains(&r));
        if r > 6 {
            seen_high = true;
        }
        let x = range(&mut rng, 5, 8);
        assert!((5..8).contains(&x));
    }
    assert!(seen_high);
    assert_eq!(roll_dice(&mut rng, 0, 6), 0);
    let empty: [u8; 0] = [];
    assert_eq!(random_slice_index(&mut rng, &empty), None);
    let three = [1, 2, 3];
    assert!(random_slice_index(&mut rng, &three).unwrap() < 3);
}

#[test]
fn wanderers_step_follow_paths_or_ask_for_one() {
    let mut w = world();
    let still = w.spawn(Ent { my_turn: true, move_mode: Some(Movement::Static), ..creature(5, 5) }, "Statue".to_string());
    let walker = w.spawn(Ent { my_turn: true, move_mode: Some(Movement::RandomWaypoint), ..creature(4, 4) }, "Walker".to_string());
    let seeker = w.spawn(Ent { my_turn: true, move_mode: Some(Movement::RandomWaypoint), ..creature(6, 6) }, "Seeker".to_string());
    let rambler = w.spawn(Ent { my_turn: true, move_mode: Some(Movement::Random), ..creature(3, 3) }, "Rambler".to_string());
    let mut paths: Vec<Option<Vec<usize>>> = vec![None, None, Some(vec![44, 45, 46]), None, None];
    let blocked = vec![false; 100];
    let mut rng = RandomNumberGenerator::seeded(4);
    let requests = DefaultMoveAI {}.run(&mut w, &mut paths, &blocked, &mut rng);
    assert!(w.ents[still].my_turn);
    assert_eq!(w.ents[walker].apply_move, Some(45));
    assert_eq!(paths[walker], Some(vec![45, 46]));
    assert_eq!(requests.len(), 1);
    assert_eq!(requests[0].0, seeker);
    assert_eq!(requests[0].1, 66);
    if let Some(d) = w.ents[rambler].apply_move {
        assert!([32usize, 34, 23, 43].contains(&d));
        assert!(!w.ents[rambler].my_turn);
    }
    adopt_path(&mut paths, seeker, Some(vec![66, 67]));
    assert_eq!(paths[seeker], Some(vec![66, 67]));
    adopt_path(&mut paths, still, Some(vec![55]));
    assert_eq!(paths[still], None);
}

#[test]
fn room_spawns_land_on_distinct_floor_tiles_inside() {
    let m = open_map(10, 10);
    let room = Rect { x1: 2, y1: 2, x2: 6, y2: 6 };
    let inside = room_spawn_tiles(&m, room);
    assert_eq!(inside.len(), 9);
    for seed in 0..20u64 {
        let mut rng = RandomNumberGenerator::seeded(seed);
        let picks = spawn_room(&m, &mut rng, room, 5);
        assert!(picks.len() >= 2 && picks.len() <= 7);
        for (i, p) in picks.iter().enumerate() {
            assert!(inside.contains(p));
            assert!(!picks[i + 1..].contains(p));
        }
    }
}

#[test]
fn walls_join_the_seen_walls_beside_them() {
    let mut m = GameMap::new(5, 5, 1);
    let c = m.xy_idx(2, 2);
    m.revealed_tiles[c] = true;
    assert!(is_revealed_and_wall(&m, 2, 2));
    assert!(!is_revealed_and_wall(&m, 2, 1));
    assert_eq!(wall_glyph(&m, 2, 2), 9);
    let up = m.xy_idx(2, 1);
    m.revealed_tiles[up] = true;
    assert_eq!(wall_glyph(&m, 2, 2), 186);
    let right = m.xy_idx(3, 2);
    m.revealed_tiles[right] = true;
    assert_eq!(wall_glyph(&m, 2, 2), 200);
    assert_eq!(wall_glyph(&m, 0, 0), 35);
    assert_eq!(wall_glyph(&m, 4, 2), 35);
    assert_eq!(tile_glyph(&m, c), 200);
}

#[test]
fn tiles_show_their_code_page_glyphs() {
    let mut m = GameMap::new(5, 5, 1);
    let kinds = [
        (TileType::Floor, 46u16),
        (TileType::WoodFloor, 46),
        (TileType::DownStairs, 62),
        (TileType::UpStairs, 60),
        (TileType::Bridge, 46),
        (TileType::Road, 33),
        (TileType::Grass, 34),
        (TileType::ShallowWater, 247),
        (TileType::DeepWater, 247),
    ];
    let idx = m.xy_idx(1, 1);
    for (kind, glyph) in kinds {
        m.tiles[idx] = kind;
        assert_eq!(tile_glyph(&m, idx), glyph);
    }
}

#[test]
fn the_screen_window_centres_on_the_player() {
    assert_eq!(get_screen_bounds(40, 25, 80, 50), (0, 80, 0, 50));
    assert_eq!(get_screen_bounds(10, 10, 20, 11), (0, 20, 5, 16));
    assert_eq!(get_screen_bounds(0, 0, 7, 3), (-3, 4, -1, 2));
}

#[test]
fn panel_describes_weapons_and_spells() {
    let mut w = world();
    let sword = Weapon {
        range: None,
        attribute: WeaponAttribute::Might,
        hit_bonus: 0,
        damage_n_dice: 1,
        damage_die_type: 8,
        damage_bonus: 2,
        proc: None,
    };
    w.spawn(Ent { item: true, has_name: true, weapon: Some(sword), equipped: Some(Equipped { owner: 0, slot: EquipmentSlot::Melee }), ..blank() }, "Longsword".to_string());
    let bow = Weapon { range: Some(6), damage_bonus: -1, damage_die_type: 4, ..sword };
    w.spawn(Ent { item: true, has_name: true, weapon: Some(bow), equipped: Some(Equipped { owner: 0, slot: EquipmentSlot::Shield }), ..blank() }, "Bow".to_string());
    let plain = Weapon { damage_bonus: 0, ..sword };
    w.spawn(Ent { item: true, has_name: true, weapon: Some(plain), in_backpack: Some(InBackpack { owner: 0 }), ..blank() }, "Club".to_string());
    assert_eq!(
        weapon_lines(&w),
        vec![
            "\u{2524} Longsword (1d8+2) \u{251c}".to_string(),
            "\u{2524} Bow (1d4-1) (range: 6, F to fire, V cycle targets) \u{251c}".to_string(),
        ]
    );
    w.known_spells.push(KnownSpell { display_name: "Zap".to_string(), mana_cost: 2 });
    w.known_spells.push(KnownSpell { display_name: "Mend".to_string(), mana_cost: 10 });
    assert_eq!(spell_lines(&w), vec!["Zap (2)".to_string(), "Mend (10)".to_string()]);
}
