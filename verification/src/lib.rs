//! The rules, data and turn logic of a tile-based roguelike, with their
//! contracts proved by Verus.

pub mod gamesystem;
pub mod components;
pub mod events;
pub mod hunger;
pub mod logger;
pub mod rng;
pub mod font;
pub mod combat;
pub mod keys;
pub mod menus;
pub mod run_state;
pub mod world;
pub mod inventory_system;
pub mod map;
pub mod camera;
pub mod hunger_system;
pub mod melee_combat_system;
pub mod damage_system;
pub mod item_use_system;
pub mod equip_on_use;
pub mod player;
pub mod item_menus;
pub mod game_state;
pub mod ranged_combat_system;
pub mod hud;
pub mod spawner;
pub mod trigger_system;
pub mod identification;
pub mod visibility_system;
pub mod ai;
pub mod map_indexing;
pub mod sight_laws;
pub mod move_laws;
