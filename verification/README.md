# rltk_tutorial

The rules and turn logic of a tile-based roguelike built on rltk, written in
Verus with their contracts proved.

- `src/` is the library. The world is held as a vector of entities (`world.rs`),
  each with the components it has as optional fields, and a map (`map.rs`). Every
  system of the game (movement, combat, hunger, items, equipment, identification,
  triggers, sight, monster AI) is a function from the world before to the world
  after, with a spec function in its `ensures` that says what the world becomes.
  The character formulas (`gamesystem.rs`), combat rolls (`combat.rs`), hunger
  clock (`hunger.rs`), menus (`menus.rs`, `item_menus.rs`) and the frame-by-frame
  state machine of the game (`game_state.rs`) have their own contracts, and the
  `law_*` proof functions state what holds across calls.
- Dice come from rltk's `RandomNumberGenerator` through the wrappers in `rng.rs`,
  whose contracts say only which range a roll falls in.
- `tests/` runs the library on concrete worlds.
- `app/` is the part that draws on the terminal, reads keys, finds paths and fields
  of view with rltk, saves and loads with serde, and runs the game loop around
  `game_state::tick`.
  The level building, the item and creature definitions (spawning by name, loot
  tables, on-death abilities, spawn tables), the vendor screen and the systems not
  carried here are reached through the `GameParts` trait in `app/game.rs`, which a
  program using this crate implements; no implementation ships with it.
