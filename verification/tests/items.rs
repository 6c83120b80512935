use rltk::RandomNumberGenerator;
use rltk_tutorial::components::{
    Attributes, Consumable, EquipmentSlot, Equippable, Equipped, HungerClock, HungerState, InBackpack, Pool, Pools, Position, Skills,
};
use rltk_tutorial::equip_on_use::ItemEquipOnUse;
use rltk_tutorial::hud::attribute_color;
use rltk_tutorial::hunger_system::HungerSystem;
use rltk_tutorial::inventory_system::ItemRemoveSystem;
use rltk_tutorial::item_menus::drop_item_menu;
use rltk_tutorial::item_use_system::ItemUseSystem;
use rltk_tutorial::keys::Key;
use rltk_tutorial::logger::NamedColor;
use rltk_tutorial::map::{GameMap, TileType};
use rltk_tutorial::menus::ItemMenuResult;
use rltk_tutorial::player::{can_rest, find_spell_entity, skip_turn, try_previous_level, use_spell_hotkey};
use rltk_tutorial::run_state::RunState;
use rltk_tutorial::spawner::player_ent;
use rltk_tutorial::world::{blank, EffectType, Ent, KnownSpell, Point, Targets, WantsToUseItem, World};

fn open_map(w: i32, h: i32) -> GameMap {
    let mut m = GameMap::new(w, h, 2);
    for y in 1..h - 1 {
        for x in 1..w - 1 {
            let idx = m.xy_idx(x, y);
            m.tiles[idx] = TileType::Floor;
        }
    }
    m
}

fn world_at(x: i32, y: i32) -> World {
    World::new(player_ent(x, y), "Player".to_string(), Point { x, y }, open_map(10, 10))
}

fn carried(owner: usize) -> Ent {
    Ent { item: true, has_name: true, in_backpack: Some(InBackpack { owner }), ..blank() }
}

fn goblin(x: i32, y: i32, hostile: bool) -> Ent {
    Ent {
        has_name: true,
        position: Some(Position { x, y }),
        pools: Some(Pools { hit_points: Pool { max: 8, current: 8 }, mana: Pool { max: 0, current: 0 }, xp: 0, level: 1, god_mode: false }),
        attributes: Some(Attributes::default()),
        skills: Some(Skills::new()),
        faction_hostile: Some(hostile),
        blocks_tile: true,
        ..blank()
    }
}

fn set_hp(w: &mut World, current: i32, max: i32) {
    let mut p = w.ents[0].pools.unwrap();
    p.hit_points = Pool { max, current };
    w.ents[0].pools = Some(p);
}

fn fragments(w: &World) -> Vec<(NamedColor, String)> {
    w.journal.entries.last().unwrap().iter().map(|f| (f.color, f.text.clone())).collect()
}

#[test]
fn drinking_a_potion_heals_and_uses_it_up() {
    let mut w = world_at(2, 2);
    set_hp(&mut w, 3, 10);
    let potion = w.spawn(
        Ent { consumable: Some(Consumable { max_charges: 1, charges: 1 }), provides_healing: Some(4), ..carried(0) },
        "Health Potion".to_string(),
    );
    w.ents[0].wants_to_use = Some(WantsToUseItem { item: potion, target: None });
    let blasts = vec![Vec::new(); w.ents.len()];
    ItemUseSystem {}.run(&mut w, &blasts);
    assert_eq!(w.ents[0].pools.unwrap().hit_points.current, 7);
    assert_eq!(w.log.entries.last().unwrap(), "You drink the Health Potion, healing 4 hp.");
    assert!(!w.ents[potion].alive);
    assert!(w.ents[0].wants_to_use.is_none());
    assert!(w.ents[0].equipment_changed);
    assert_eq!(w.ents[0].identified_item, Some(potion));
    let heart = w.effects.last().unwrap();
    assert_eq!(heart.effect, EffectType::Particle { glyph: 3, fg: NamedColor::Green, bg: NamedColor::Black });
    assert_eq!(heart.targets, Targets::At { x: 2, y: 2 });
}

#[test]
fn healing_stops_at_the_maximum() {
    let mut w = world_at(2, 2);
    set_hp(&mut w, 9, 10);
    let potion = w.spawn(Ent { provides_healing: Some(8), ..carried(0) }, "Health Potion".to_string());
    w.ents[0].wants_to_use = Some(WantsToUseItem { item: potion, target: None });
    let blasts = vec![Vec::new(); w.ents.len()];
    ItemUseSystem {}.run(&mut w, &blasts);
    assert_eq!(w.ents[0].pools.unwrap().hit_points.current, 10);
    assert!(w.ents[potion].alive);
}

#[test]
fn an_aimed_scroll_harms_whoever_stands_there() {
    let mut w = world_at(2, 2);
    let gob = w.spawn(goblin(4, 2, true), "Goblin".to_string());
    let scroll = w.spawn(
        Ent { consumable: Some(Consumable { max_charges: 1, charges: 1 }), inflicts_damage: Some(5), ..carried(0) },
        "Magic Missile Scroll".to_string(),
    );
    w.ents[0].wants_to_use = Some(WantsToUseItem { item: scroll, target: Some(Point { x: 4, y: 2 }) });
    let blasts = vec![Vec::new(); w.ents.len()];
    ItemUseSystem {}.run(&mut w, &blasts);
    let n = w.effects.len();
    assert_eq!(w.effects[n - 2].effect, EffectType::Damage { amount: 5 });
    assert_eq!(w.effects[n - 2].targets, Targets::Single { target: gob });
    assert_eq!(w.effects[n - 2].creator, Some(0));
    assert_eq!(w.effects[n - 1].effect, EffectType::Particle { glyph: 19, fg: NamedColor::Red, bg: NamedColor::Black });
    assert_eq!(w.log.entries.last().unwrap(), "You use Magic Missile Scroll on Goblin, inflicting 5 hp.");
    assert!(!w.ents[scroll].alive);
}

#[test]
fn a_scroll_aimed_at_an_empty_tile_reaches_nobody() {
    let mut w = world_at(2, 2);
    let scroll = w.spawn(Ent { inflicts_damage: Some(5), ..carried(0) }, "Magic Missile Scroll".to_string());
    w.ents[0].wants_to_use = Some(WantsToUseItem { item: scroll, target: Some(Point { x: 6, y: 6 }) });
    let blasts = vec![Vec::new(); w.ents.len()];
    ItemUseSystem {}.run(&mut w, &blasts);
    assert!(w.effects.is_empty());
}

#[test]
fn using_a_weapon_wields_it_in_place_of_the_old_one() {
    let mut w = world_at(2, 2);
    let club = w.spawn(
        Ent {
            equippable: Some(Equippable { slot: EquipmentSlot::Melee }),
            equipped: Some(Equipped { owner: 0, slot: EquipmentSlot::Melee }),
            in_backpack: None,
            ..carried(0)
        },
        "Club".to_string(),
    );
    let dagger = w.spawn(Ent { equippable: Some(Equippable { slot: EquipmentSlot::Melee }), ..carried(0) }, "Dagger".to_string());
    w.ents[0].wants_to_use = Some(WantsToUseItem { item: dagger, target: None });
    let blasts = vec![Vec::new(); w.ents.len()];
    ItemUseSystem {}.run(&mut w, &blasts);
    assert_eq!(w.ents[dagger].equipped, Some(Equipped { owner: 0, slot: EquipmentSlot::Melee }));
    assert_eq!(w.ents[dagger].in_backpack, None);
    assert_eq!(w.ents[club].equipped, None);
    assert_eq!(w.ents[club].in_backpack, Some(InBackpack { owner: 0 }));
    let n = w.log.entries.len();
    assert_eq!(w.log.entries[n - 2], "You unequip Club.");
    assert_eq!(w.log.entries[n - 1], "You equip Dagger.");
}

#[test]
fn a_cursed_weapon_cannot_be_swapped_out() {
    let mut w = world_at(2, 2);
    let sword = w.spawn(
        Ent {
            equippable: Some(Equippable { slot: EquipmentSlot::Melee }),
            equipped: Some(Equipped { owner: 0, slot: EquipmentSlot::Melee }),
            in_backpack: None,
            cursed: true,
            ..carried(0)
        },
        "Cursed Sword".to_string(),
    );
    let dagger = w.spawn(Ent { equippable: Some(Equippable { slot: EquipmentSlot::Melee }), ..carried(0) }, "Dagger".to_string());
    w.ents[0].wants_to_use = Some(WantsToUseItem { item: dagger, target: None });
    ItemEquipOnUse {}.run(&mut w);
    assert_eq!(w.ents[sword].equipped, Some(Equipped { owner: 0, slot: EquipmentSlot::Melee }));
    assert_eq!(w.ents[dagger].in_backpack, Some(InBackpack { owner: 0 }));
    assert_eq!(w.ents[dagger].equipped, None);
    assert!(w.ents[0].wants_to_use.is_none());
    assert!(w.ents[0].equipment_changed);
    assert_eq!(
        fragments(&w),
        vec![
            (NamedColor::White, "You cannot unequip".to_string()),
            (NamedColor::Cyan, "Cursed Sword".to_string()),
            (NamedColor::White, "- it is cursed".to_string()),
        ]
    );
}

#[test]
fn equipping_on_use_swaps_an_uncursed_weapon() {
    let mut w = world_at(2, 2);
    let club = w.spawn(
        Ent {
            equippable: Some(Equippable { slot: EquipmentSlot::Melee }),
            equipped: Some(Equipped { owner: 0, slot: EquipmentSlot::Melee }),
            in_backpack: None,
            ..carried(0)
        },
        "Club".to_string(),
    );
    let dagger = w.spawn(Ent { equippable: Some(Equippable { slot: EquipmentSlot::Melee }), ..carried(0) }, "Dagger".to_string());
    let potion = w.spawn(Ent { provides_healing: Some(2), ..carried(0) }, "Potion".to_string());
    w.ents[0].wants_to_use = Some(WantsToUseItem { item: dagger, target: None });
    ItemEquipOnUse {}.run(&mut w);
    assert_eq!(w.ents[dagger].equipped, Some(Equipped { owner: 0, slot: EquipmentSlot::Melee }));
    assert_eq!(w.ents[club].in_backpack, Some(InBackpack { owner: 0 }));
    assert_eq!(w.ents[0].identified_item, Some(dagger));
    assert_eq!(fragments(&w), vec![(NamedColor::White, "You equip".to_string()), (NamedColor::Cyan, "Dagger".to_string())]);
    // A request for something that is not worn is left for the item use system.
    w.ents[0].wants_to_use = Some(WantsToUseItem { item: potion, target: None });
    ItemEquipOnUse {}.run(&mut w);
    assert_eq!(w.ents[0].wants_to_use, Some(WantsToUseItem { item: potion, target: None }));
}

#[test]
fn taking_off_an_item_puts_it_in_the_backpack() {
    let mut w = world_at(2, 2);
    let helm = w.spawn(
        Ent {
            equippable: Some(Equippable { slot: EquipmentSlot::Head }),
            equipped: Some(Equipped { owner: 0, slot: EquipmentSlot::Head }),
            in_backpack: None,
            ..carried(0)
        },
        "Helm".to_string(),
    );
    w.ents[0].wants_to_remove = Some(helm);
    ItemRemoveSystem {}.run(&mut w);
    assert_eq!(w.ents[helm].equipped, None);
    assert_eq!(w.ents[helm].in_backpack, Some(InBackpack { owner: 0 }));
    assert!(w.ents[0].wants_to_remove.is_none());
    assert!(w.ents[0].equipment_changed);
    assert_eq!(w.log.entries.last().unwrap(), "You remove the Helm.");
}

#[test]
fn hunger_clocks_tick_on_their_owners_turn() {
    let mut w = world_at(2, 2);
    w.ents[0].my_turn = true;
    w.ents[0].hunger = Some(HungerClock { state: HungerState::WellFed, duration: 1 });
    let idle = w.spawn(Ent { hunger: Some(HungerClock { state: HungerState::Normal, duration: 1 }), ..goblin(5, 5, false) }, "Idler".to_string());
    HungerSystem {}.run(&mut w);
    assert_eq!(w.ents[0].hunger, Some(HungerClock { state: HungerState::Normal, duration: 200 }));
    assert_eq!(fragments(&w), vec![(NamedColor::Orange, "You are no longer well fed.".to_string())]);
    assert_eq!(w.ents[idle].hunger, Some(HungerClock { state: HungerState::Normal, duration: 1 }));
    w.ents[0].hunger = Some(HungerClock { state: HungerState::Starving, duration: 1 });
    HungerSystem {}.run(&mut w);
    assert_eq!(w.ents[0].hunger, Some(HungerClock { state: HungerState::Starving, duration: 0 }));
    let hurt = w.effects.last().unwrap();
    assert_eq!(hurt.effect, EffectType::Damage { amount: 1 });
    assert_eq!(hurt.targets, Targets::Single { target: 0 });
    assert_eq!(
        fragments(&w),
        vec![(NamedColor::Red, "Your hunger pangs are getting painful! You suffer 1 hp damage".to_string())]
    );
}

#[test]
fn resting_heals_a_point_unless_an_enemy_is_in_view() {
    let mut rng = RandomNumberGenerator::seeded(2);
    let mut w = world_at(2, 2);
    set_hp(&mut w, 5, 10);
    let seen = vec![Point { x: 2, y: 2 }, Point { x: 3, y: 2 }];
    assert!(can_rest(&w, &seen));
    assert_eq!(skip_turn(&mut w, &seen, &mut rng), RunState::Ticking);
    assert_eq!(w.ents[0].pools.unwrap().hit_points.current, 6);
    assert_eq!(w.ents[0].pools.unwrap().mana.current, 4);
    w.spawn(goblin(3, 2, true), "Goblin".to_string());
    skip_turn(&mut w, &seen, &mut rng);
    assert_eq!(w.ents[0].pools.unwrap().hit_points.current, 6);
    w.ents[0].hunger = Some(HungerClock { state: HungerState::Hungry, duration: 5 });
    let out_of_view = vec![Point { x: 2, y: 2 }];
    skip_turn(&mut w, &out_of_view, &mut rng);
    assert_eq!(w.ents[0].pools.unwrap().hit_points.current, 6);
}

#[test]
fn resting_above_the_maximum_drops_to_it() {
    let mut rng = RandomNumberGenerator::seeded(3);
    let mut w = world_at(2, 2);
    set_hp(&mut w, 12, 10);
    skip_turn(&mut w, &Vec::new(), &mut rng);
    assert_eq!(w.ents[0].pools.unwrap().hit_points.current, 10);
}

#[test]
fn resting_needs_pools_only_when_the_player_may_heal() {
    let mut w = world_at(2, 2);
    w.ents[0].pools = None;
    assert!(!can_rest(&w, &Vec::new()));
    w.ents[0].hunger = Some(HungerClock { state: HungerState::Starving, duration: 5 });
    assert!(can_rest(&w, &Vec::new()));
    let mut w2 = world_at(2, 2);
    set_hp(&mut w2, i32::MAX, i32::MAX);
    assert!(!can_rest(&w2, &Vec::new()));
}

#[test]
fn climbing_needs_an_up_staircase() {
    let mut w = world_at(3, 3);
    assert!(!try_previous_level(&mut w));
    assert_eq!(w.log.entries.last().unwrap(), "There is no way up from here");
    let idx = w.map.xy_idx(3, 3);
    w.map.tiles[idx] = TileType::UpStairs;
    let before = w.log.entries.len();
    assert!(try_previous_level(&mut w));
    assert_eq!(w.log.entries.len(), before);
}

#[test]
fn spell_hotkeys_cast_known_spells_with_enough_mana() {
    let mut w = world_at(2, 2);
    w.known_spells.push(KnownSpell { display_name: "Zap".to_string(), mana_cost: 2 });
    w.known_spells.push(KnownSpell { display_name: "Bolt".to_string(), mana_cost: 3 });
    let zap = w.spawn(Ent { spell_template: true, has_name: true, ..blank() }, "Zap".to_string());
    let bolt = w.spawn(Ent { spell_template: true, has_name: true, ranged: Some(6), ..blank() }, "Bolt".to_string());
    assert_eq!(find_spell_entity(&w, &"Zap".to_string()), Some(zap));
    assert_eq!(find_spell_entity(&w, &"Nope".to_string()), None);
    assert_eq!(use_spell_hotkey(&mut w, 0), RunState::Ticking);
    assert_eq!(w.ents[0].wants_to_cast.unwrap().spell, zap);
    assert_eq!(w.ents[0].wants_to_cast.unwrap().target, None);
    assert_eq!(use_spell_hotkey(&mut w, 1), RunState::ShowTargeting { range: 6, item: bolt });
    assert_eq!(use_spell_hotkey(&mut w, 5), RunState::Ticking);
    let mut p = w.ents[0].pools.unwrap();
    p.mana.current = 1;
    w.ents[0].pools = Some(p);
    assert_eq!(use_spell_hotkey(&mut w, 1), RunState::Ticking);
    assert_eq!(w.log.entries.last().unwrap(), "You don't have enough mana to cast that!");
}

#[test]
fn the_drop_menu_lists_what_the_player_carries() {
    let mut w = world_at(2, 2);
    let gob = w.spawn(goblin(5, 5, false), "Goblin".to_string());
    let a = w.spawn(carried(0), "Apple".to_string());
    w.spawn(carried(gob), "Not mine".to_string());
    let b = w.spawn(carried(0), "Bread".to_string());
    assert_eq!(drop_item_menu(&w, Some(Key::A)), (ItemMenuResult::Selected, Some(a)));
    assert_eq!(drop_item_menu(&w, Some(Key::B)), (ItemMenuResult::Selected, Some(b)));
    assert_eq!(drop_item_menu(&w, Some(Key::C)), (ItemMenuResult::NoResponse, None));
    assert_eq!(drop_item_menu(&w, Some(Key::Escape)), (ItemMenuResult::Cancel, None));
    assert_eq!(drop_item_menu(&w, None), (ItemMenuResult::NoResponse, None));
}

#[test]
fn attributes_show_red_below_and_green_above_their_base() {
    assert_eq!(attribute_color(-1), NamedColor::Red);
    assert_eq!(attribute_color(0), NamedColor::White);
    assert_eq!(attribute_color(2), NamedColor::Green);
}
