use rltk::RandomNumberGenerator;
use rltk_tutorial::components::{Attributes, Consumable, Entity, InBackpack, Pool, Pools, Position, Skills};
use rltk_tutorial::damage_system::delete_the_dead;
use rltk_tutorial::game_state::{level_changed, reset_for_new_game, restart_log};
use rltk_tutorial::inventory_system::{ItemCollectionSystem, ItemDropSystem};
use rltk_tutorial::keys::Key;
use rltk_tutorial::map::{GameMap, TileType};
use rltk_tutorial::melee_combat_system::MeleeCombatSystem;
use rltk_tutorial::player::{get_item, player_input, try_move_player, try_next_level, use_consumable_hotkey};
use rltk_tutorial::run_state::{RunState, VendorMode};
use rltk_tutorial::spawner::{player, player_ent, portal_spot, spawn_town_portal, starting_kit};
use rltk_tutorial::trigger_system::TriggerSystem;
use rltk_tutorial::world::{blank, EffectType, Ent, Point, Targets, World};

fn open_map(w: i32, h: i32) -> GameMap {
    let mut m = GameMap::new(w, h, 1);
    for y in 1..h - 1 {
        for x in 1..w - 1 {
            let idx = m.xy_idx(x, y);
            m.tiles[idx] = TileType::Floor;
        }
    }
    m
}

fn world_with_player_at(x: i32, y: i32) -> World {
    World::new(player_ent(x, y), "Player".to_string(), Point { x, y }, open_map(10, 10))
}

fn monster(x: i32, y: i32, hostile: bool) -> Ent {
    Ent {
        has_name: true,
        position: Some(Position { x, y }),
        pools: Some(Pools { hit_points: Pool { max: 8, current: 8 }, mana: Pool { max: 0, current: 0 }, xp: 0, level: 1, god_mode: false }),
        attributes: Some(Attributes::default()),
        skills: Some(Skills::new()),
        faction_hostile: Some(hostile),
        blocks_tile: true,
        ..blank()
    }
}

#[test]
fn new_player_starts_average_and_well_fed() {
    let e = player_ent(3, 4);
    assert!(e.player);
    assert_eq!(e.position, Some(Position { x: 3, y: 4 }));
    let p = e.pools.unwrap();
    assert_eq!((p.hit_points.current, p.hit_points.max), (10, 10));
    assert_eq!((p.mana.current, p.mana.max), (4, 4));
    assert_eq!(p.level, 1);
    assert_eq!(e.skills.unwrap().melee, Some(1));
    let kit = starting_kit();
    assert_eq!(kit.len(), 7);
    assert_eq!(kit[0], ("Rusty Longsword".to_string(), true));
    assert_eq!(kit[6], ("Town Portal Scroll".to_string(), false));
}

#[test]
fn spawning_the_player_adds_an_entity() {
    let mut w = world_with_player_at(2, 2);
    let id = player(&mut w, 5, 5);
    assert_eq!(id, 1);
    assert_eq!(w.ents.len(), 2);
    assert_eq!(w.names[1], "Player");
}

#[test]
fn moving_into_the_outer_wall_is_refused() {
    let mut w = world_with_player_at(1, 1);
    assert_eq!(try_move_player(&mut w, -1, 0), RunState::AwaitingInput);
    assert_eq!(w.player_pos, Point { x: 1, y: 1 });
}

#[test]
fn walking_onto_floor_moves_the_player() {
    let mut w = world_with_player_at(2, 2);
    assert_eq!(try_move_player(&mut w, 1, 1), RunState::Ticking);
    assert_eq!(w.player_pos, Point { x: 3, y: 3 });
    assert_eq!(w.ents[0].position, Some(Position { x: 3, y: 3 }));
    assert!(w.ents[0].entity_moved);
    assert!(w.ents[0].viewshed.unwrap().dirty);
}

#[test]
fn walking_onto_stairs_leads_down() {
    let mut w = world_with_player_at(2, 2);
    let idx = w.map.xy_idx(3, 2);
    w.map.tiles[idx] = TileType::DownStairs;
    assert_eq!(try_move_player(&mut w, 1, 0), RunState::NextLevel);
    assert!(try_next_level(&mut w));
}

#[test]
fn no_stairs_no_descent() {
    let mut w = world_with_player_at(2, 2);
    assert!(!try_next_level(&mut w));
    assert_eq!(w.log.entries.last().unwrap(), "There is no way down from here");
}

#[test]
fn bumping_a_hostile_creature_attacks_it() {
    let mut w = world_with_player_at(2, 2);
    let m = w.spawn(monster(3, 2, true), "Orc".to_string());
    assert_eq!(try_move_player(&mut w, 1, 0), RunState::Ticking);
    assert_eq!(w.ents[0].wants_to_melee, Some(m));
    assert_eq!(w.player_pos, Point { x: 2, y: 2 });
}

#[test]
fn bumping_a_friendly_creature_swaps_places() {
    let mut w = world_with_player_at(2, 2);
    let m = w.spawn(monster(3, 2, false), "Villager".to_string());
    assert_eq!(try_move_player(&mut w, 1, 0), RunState::Ticking);
    assert_eq!(w.player_pos, Point { x: 3, y: 2 });
    assert_eq!(w.ents[m].position, Some(Position { x: 2, y: 2 }));
}

#[test]
fn bumping_a_vendor_opens_trade() {
    let mut w = world_with_player_at(2, 2);
    let v = w.spawn(Ent { vendor: true, ..monster(3, 2, false) }, "Shopkeeper".to_string());
    assert_eq!(try_move_player(&mut w, 1, 0), RunState::ShowVendor { vendor: v, mode: VendorMode::Sell });
}

#[test]
fn bumping_a_closed_door_opens_it() {
    let mut w = world_with_player_at(2, 2);
    let door = Ent { position: Some(Position { x: 3, y: 2 }), door: Some(false), blocks_tile: true, blocks_visibility: true, glyph: Some(43), ..blank() };
    let d = w.spawn(door, "Door".to_string());
    assert_eq!(try_move_player(&mut w, 1, 0), RunState::Ticking);
    assert_eq!(w.ents[d].door, Some(true));
    assert!(!w.ents[d].blocks_tile);
    assert_eq!(w.ents[d].glyph, Some(47));
    assert_eq!(w.player_pos, Point { x: 2, y: 2 });
}

#[test]
fn picking_up_an_item() {
    let mut w = world_with_player_at(2, 2);
    get_item(&mut w);
    assert_eq!(w.log.entries.last().unwrap(), "There is nothing here to pick up");
    let item = w.spawn(Ent { item: true, has_name: true, position: Some(Position { x: 2, y: 2 }), ..blank() }, "Dagger".to_string());
    get_item(&mut w);
    assert_eq!(w.ents[0].wants_to_pickup.unwrap().item, item);
    ItemCollectionSystem {}.run(&mut w);
    assert_eq!(w.ents[item].in_backpack, Some(InBackpack { owner: 0 }));
    assert_eq!(w.ents[item].position, None);
    assert!(w.ents[0].wants_to_pickup.is_none());
    assert_eq!(w.log.entries.last().unwrap(), "You pick up the Dagger.");
}

#[test]
fn hotkey_uses_the_matching_consumable() {
    let mut w = world_with_player_at(2, 2);
    let potion = Ent { item: true, consumable: Some(Consumable { max_charges: 1, charges: 1 }), in_backpack: Some(InBackpack { owner: 0 }), ..blank() };
    let p1 = w.spawn(potion, "Potion".to_string());
    let scroll = Ent { ranged: Some(6), ..potion };
    let p2 = w.spawn(scroll, "Scroll".to_string());
    assert_eq!(use_consumable_hotkey(&mut w, 0), RunState::Ticking);
    assert_eq!(w.ents[0].wants_to_use.unwrap().item, p1);
    assert_eq!(use_consumable_hotkey(&mut w, 1), RunState::ShowTargeting { range: 6, item: p2 });
    assert_eq!(use_consumable_hotkey(&mut w, 5), RunState::Ticking);
}

#[test]
fn keys_choose_the_players_action() {
    let mut w = world_with_player_at(2, 2);
    let mut rng = RandomNumberGenerator::seeded(7);
    let visible: Vec<Point> = Vec::new();
    assert_eq!(player_input(&mut w, None, false, false, &visible, &mut rng), RunState::AwaitingInput);
    assert_eq!(player_input(&mut w, Some(Key::I), false, false, &visible, &mut rng), RunState::ShowInventory);
    assert_eq!(player_input(&mut w, Some(Key::Escape), false, false, &visible, &mut rng), RunState::SaveGame);
    assert_eq!(player_input(&mut w, Some(Key::Backslash), false, false, &visible, &mut rng), RunState::ShowCheatMenu);
    assert_eq!(player_input(&mut w, Some(Key::L), false, false, &visible, &mut rng), RunState::Ticking);
    assert_eq!(w.player_pos, Point { x: 3, y: 2 });
    assert_eq!(player_input(&mut w, Some(Key::Space), false, false, &visible, &mut rng), RunState::Ticking);
    assert_eq!(player_input(&mut w, Some(Key::Other), false, false, &visible, &mut rng), RunState::AwaitingInput);
}

#[test]
fn resting_heals_one_point() {
    let mut w = world_with_player_at(2, 2);
    let mut e = w.ents[0];
    let mut p = e.pools.unwrap();
    p.hit_points.current = 5;
    e.pools = Some(p);
    w.ents[0] = e;
    let mut rng = RandomNumberGenerator::seeded(3);
    let visible = vec![Point { x: 2, y: 2 }];
    player_input(&mut w, Some(Key::Numpad5), false, false, &visible, &mut rng);
    assert_eq!(w.ents[0].pools.unwrap().hit_points.current, 6);
}

#[test]
fn a_hostile_in_view_prevents_healing() {
    let mut w = world_with_player_at(2, 2);
    let mut e = w.ents[0];
    let mut p = e.pools.unwrap();
    p.hit_points.current = 5;
    e.pools = Some(p);
    w.ents[0] = e;
    w.spawn(monster(4, 4, true), "Orc".to_string());
    let mut rng = RandomNumberGenerator::seeded(3);
    let visible = vec![Point { x: 2, y: 2 }, Point { x: 4, y: 4 }];
    player_input(&mut w, Some(Key::Space), false, false, &visible, &mut rng);
    assert_eq!(w.ents[0].pools.unwrap().hit_points.current, 5);
}

#[test]
fn the_dead_are_removed_and_announced() {
    let mut w = world_with_player_at(2, 2);
    let mut m = monster(4, 4, true);
    m.pools = Some(Pools { hit_points: Pool { max: 8, current: 0 }, ..m.pools.unwrap() });
    let id = w.spawn(m, "Orc".to_string());
    let mut ghost_m = monster(6, 6, true);
    ghost_m.position = None;
    ghost_m.pools = Some(Pools { hit_points: Pool { max: 8, current: -2 }, ..ghost_m.pools.unwrap() });
    let nowhere = w.spawn(ghost_m, "Wraith".to_string());
    let fallen = delete_the_dead(&mut w);
    assert_eq!(fallen, vec![(id, Position { x: 4, y: 4 })]);
    assert!(!w.ents[id].alive);
    assert!(!w.ents[nowhere].alive);
    assert_eq!(w.journal.entries.len(), 2);
    assert_eq!(w.run_state, RunState::PreRun);
}

#[test]
fn a_dead_player_ends_the_game() {
    let mut w = world_with_player_at(2, 2);
    let mut e = w.ents[0];
    e.pools = Some(Pools { hit_points: Pool { max: 10, current: 0 }, ..e.pools.unwrap() });
    w.ents[0] = e;
    assert!(delete_the_dead(&mut w).is_empty());
    assert_eq!(w.run_state, RunState::GameOver);
}

#[test]
fn a_melee_round_clears_requests_and_logs_each_blow() {
    let mut w = world_with_player_at(2, 2);
    let m = w.spawn(monster(3, 2, true), "Orc".to_string());
    let mut e = w.ents[0];
    e.wants_to_melee = Some(m);
    w.ents[0] = e;
    let armor = vec![0, 0];
    let mut rng = RandomNumberGenerator::seeded(11);
    MeleeCombatSystem {}.run(&mut w, &mut rng, &armor);
    assert!(w.ents.iter().all(|e| e.wants_to_melee.is_none()));
    assert_eq!(w.journal.entries.len(), 1);
    assert!(!w.effects.is_empty());
    assert_eq!(w.ents[m].pools.unwrap().hit_points.current, 8);
}

#[test]
fn moving_onto_a_trap_sets_it_off() {
    let mut w = world_with_player_at(2, 2);
    let trap = Ent { has_name: true, entry_trigger: true, position: Some(Position { x: 3, y: 2 }), ..blank() };
    let t = w.spawn(trap, "Bear Trap".to_string());
    try_move_player(&mut w, 1, 0);
    TriggerSystem {}.run(&mut w);
    assert_eq!(w.log.entries.last().unwrap(), "Bear Trap triggers!");
    let fx = w.effects.last().unwrap();
    assert_eq!(fx.effect, EffectType::TriggerFire { trigger: t });
    assert_eq!(fx.creator, Some(0));
    assert_eq!(fx.targets, Targets::Tile { tile_idx: 23 });
    assert!(!w.ents[0].entity_moved);
}

#[test]
fn town_portal_stands_beside_the_town_stairs() {
    let mut town = open_map(10, 10);
    let idx = town.xy_idx(6, 4);
    town.tiles[idx] = TileType::DownStairs;
    assert_eq!(portal_spot(&town), (4, 4));
    let mut w = world_with_player_at(2, 3);
    w.map.depth = 5;
    spawn_town_portal(&mut w, &town);
    let p: Entity = w.ents.len() - 1;
    let e = w.ents[p];
    assert_eq!(w.names[p], "Town Portal");
    let back = e.teleport_to.unwrap();
    assert_eq!((back.x, back.y, back.depth, back.player_only), (2, 3, 5, true));
    let at = e.other_level.unwrap();
    assert_eq!((at.x, at.y, at.depth), (4, 4, 1));
    assert_eq!(e.glyph, Some(3));
}

#[test]
fn dropping_a_picked_up_item_puts_it_back() {
    let mut w = world_with_player_at(4, 5);
    let item = w.spawn(Ent { item: true, has_name: true, position: Some(Position { x: 4, y: 5 }), ..blank() }, "Dagger".to_string());
    get_item(&mut w);
    ItemCollectionSystem {}.run(&mut w);
    assert_eq!(w.ents[item].in_backpack, Some(InBackpack { owner: 0 }));
    w.ents[0].wants_to_drop = Some(item);
    ItemDropSystem {}.run(&mut w);
    assert_eq!(w.ents[item].position, Some(Position { x: 4, y: 5 }));
    assert_eq!(w.ents[item].in_backpack, None);
    assert!(w.ents[0].wants_to_drop.is_none());
    assert_eq!(w.log.entries.last().unwrap(), "You drop the Dagger.");
}

#[test]
fn a_new_game_starts_from_an_empty_world() {
    let mut w = world_with_player_at(2, 2);
    w.spawn(monster(3, 3, true), "Orc".to_string());
    w.log.entries.push("old news".to_string());
    level_changed(&mut w);
    assert_eq!(w.log.entries.last().unwrap(), "You change level");
    let p = reset_for_new_game(&mut w);
    assert_eq!(p, 2);
    assert_eq!(w.player, 2);
    assert!(!w.ents[0].alive && !w.ents[1].alive);
    assert_eq!(w.ents[1].position, None);
    assert!(w.ents[2].alive && w.ents[2].player);
    assert_eq!(w.ents[2].position, Some(Position { x: 0, y: 0 }));
    restart_log(&mut w);
    assert_eq!(w.log.entries, vec!["Welcome to Rusty Roguelike... again!".to_string()]);
}
