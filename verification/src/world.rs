//! The game world: a table of entities, each with the components it carries, and the
//! shared resources that the systems read and write.

use vstd::prelude::*;
use crate::combat::{NaturalAttack, Weapon};
use crate::components::{Attributes, Consumable, Entity, Equippable, Equipped, HungerClock, InBackpack, Pools, Position, Skills};
use crate::logger::{GameLog, LogStore, NamedColor, fragments_view};
use crate::run_state::RunState;
use crate::map::{GameMap, TileType};

verus! {

/// A request to pick an item up.
#[derive(Clone, Copy, Debug, PartialEq, Eq, Structural)]
pub struct WantsToPickupItem {
    pub collected_by: Entity,
    pub item: Entity,
}

/// A map location.
#[derive(Clone, Copy, Debug, PartialEq, Eq, Structural)]
pub struct Point {
    pub x: i32,
    pub y: i32,
}

/// A request to use an item, optionally aimed at a map location.
#[derive(Clone, Copy, Debug, PartialEq, Eq, Structural)]
pub struct WantsToUseItem {
    pub item: Entity,
    pub target: Option<Point>,
}

/// What an effect does.
#[derive(Clone, Copy, Debug, PartialEq, Eq, Structural)]
pub enum EffectType {
    Damage { amount: i32 },
    ItemUse { item: Entity },
    Particle { glyph: u16, fg: NamedColor, bg: NamedColor },
    /// A glyph flying from `from` to `to`.
    ParticleProjectile { glyph: u16, fg: NamedColor, bg: NamedColor, from: Point, to: Point },
    /// A trap or other trigger going off.
    TriggerFire { trigger: Entity },
}

/// Where an effect lands.
#[derive(Clone, Copy, Debug, PartialEq, Eq, Structural)]
pub enum Targets {
    Single { target: Entity },
    Tile { tile_idx: i32 },
    At { x: i32, y: i32 },
    /// The tiles within `radius` of `(x, y)`.
    Area { x: i32, y: i32, radius: i32 },
}

/// An effect waiting in the queue to be applied.
#[derive(Clone, Copy, Debug, PartialEq, Eq, Structural)]
pub struct Effect {
    pub creator: Option<Entity>,
    pub effect: EffectType,
    pub targets: Targets,
}

/// How far a creature sees, and whether what it sees must be worked out again.
#[derive(Clone, Copy, Debug, PartialEq, Eq, Structural)]
pub struct Viewshed {
    pub range: i32,
    pub dirty: bool,
}

/// A request to cast `spell`, aimed at `target` where it needs one.
#[derive(Clone, Copy, Debug, PartialEq, Eq, Structural)]
pub struct WantsToCastSpell {
    pub spell: Entity,
    pub target: Option<Point>,
}

/// Where stepping on the entity sends whoever does.
#[derive(Clone, Copy, Debug, PartialEq, Eq, Structural)]
pub struct TeleportTo {
    pub x: i32,
    pub y: i32,
    pub depth: i32,
    pub player_only: bool,
}

/// A place on another level.
#[derive(Clone, Copy, Debug, PartialEq, Eq, Structural)]
pub struct OtherLevelPosition {
    pub x: i32,
    pub y: i32,
    pub depth: i32,
}

/// How a creature wanders: standing still, stepping at random, or walking to randomly
/// picked places along paths.
#[derive(Clone, Copy, Debug, PartialEq, Eq, Structural)]
pub enum Movement {
    Static,
    Random,
    RandomWaypoint,
}

/// A spell the player knows: its name and what it costs in mana.
pub struct KnownSpell {
    pub display_name: String,
    pub mana_cost: i32,
}

/// The components one entity carries; `None` or `false` where it lacks one.
#[derive(Clone, Copy, Debug, PartialEq, Eq, Structural)]
pub struct Ent {
    pub alive: bool,
    pub player: bool,
    pub has_name: bool,
    pub position: Option<Position>,
    pub pools: Option<Pools>,
    pub attributes: Option<Attributes>,
    pub skills: Option<Skills>,
    pub hunger: Option<HungerClock>,
    pub my_turn: bool,
    pub item: bool,
    pub consumable: Option<Consumable>,
    pub ranged: Option<i32>,
    pub equippable: Option<Equippable>,
    pub equipped: Option<Equipped>,
    pub in_backpack: Option<InBackpack>,
    pub cursed: bool,
    pub weapon: Option<Weapon>,
    pub natural_armor: Option<i32>,
    pub has_natural: bool,
    pub provides_healing: Option<i32>,
    pub provides_food: bool,
    pub inflicts_damage: Option<i32>,
    pub confusion: Option<i32>,
    pub magic_mapper: bool,
    pub town_portal: bool,
    /// The item whose name this entity has just learned.
    pub identified_item: Option<Entity>,
    pub aoe_radius: Option<i32>,
    pub vendor: bool,
    /// Whether the entity's faction attacks the player on sight (`None`: no faction).
    pub faction_hostile: Option<bool>,
    /// A door, and whether it is open.
    pub door: Option<bool>,
    pub blocks_tile: bool,
    pub blocks_visibility: bool,
    /// The glyph it is drawn with (code page 437).
    pub glyph: Option<u16>,
    pub viewshed: Option<Viewshed>,
    pub entity_moved: bool,
    pub equipment_changed: bool,
    pub wants_to_melee: Option<Entity>,
    pub wants_to_pickup: Option<WantsToPickupItem>,
    pub wants_to_drop: Option<Entity>,
    pub wants_to_remove: Option<Entity>,
    pub wants_to_use: Option<WantsToUseItem>,
    /// A spell, as the spell book describes it.
    pub spell_template: bool,
    pub wants_to_cast: Option<WantsToCastSpell>,
    /// Shown under another name until its kind is identified.
    pub obfuscated_name: bool,
    pub hidden: bool,
    pub entry_trigger: bool,
    pub single_activation: bool,
    pub teleport_to: Option<TeleportTo>,
    pub other_level: Option<OtherLevelPosition>,
    pub wants_to_shoot: Option<Entity>,
    /// The creature this one hunts.
    pub chasing: Option<Entity>,
    pub wants_to_flee: bool,
    /// The tile this creature moves to next.
    pub apply_move: Option<usize>,
    /// How the creature moves when nothing else drives it.
    pub move_mode: Option<Movement>,
}

/// The entity table and the shared resources.
pub struct World {
    pub ents: Vec<Ent>,
    /// The name of each entity; meaningful where `has_name` is set.
    pub names: Vec<String>,
    /// The natural attacks of each entity; meaningful where `has_natural` is set.
    pub natural_attacks: Vec<Vec<NaturalAttack>>,
    /// The entity the player controls.
    pub player: Entity,
    /// Where the player stands.
    pub player_pos: Point,
    /// The current level.
    pub map: GameMap,
    pub run_state: RunState,
    pub log: GameLog,
    pub journal: LogStore,
    pub effects: Vec<Effect>,
    /// The spells the player knows.
    pub known_spells: Vec<KnownSpell>,
    /// The names of the item kinds the player has identified.
    pub identified: Vec<String>,
}

/// The world as a plain value.
pub struct WorldView {
    pub ents: Seq<Ent>,
    pub names: Seq<Seq<char>>,
    pub natural_attacks: Seq<Seq<NaturalAttack>>,
    pub player: Entity,
    pub player_pos: Point,
    pub map_width: i32,
    pub map_height: i32,
    pub depth: i32,
    pub tiles: Seq<TileType>,
    pub revealed: Seq<bool>,
    pub visible: Seq<bool>,
    pub run_state: RunState,
    pub log: Seq<Seq<char>>,
    pub journal: Seq<Seq<(NamedColor, Seq<char>)>>,
    pub effects: Seq<Effect>,
    pub known_spells: Seq<(Seq<char>, i32)>,
    pub identified: Seq<Seq<char>>,
}

/// Every entity that a component points at is in the table.
pub open spec fn refs_in(e: Ent, n: int) -> bool {
    &&& (e.equipped matches Some(q) ==> q.owner < n)
    &&& (e.in_backpack matches Some(b) ==> b.owner < n)
    &&& (e.wants_to_melee matches Some(t) ==> t < n)
    &&& (e.wants_to_pickup matches Some(p) ==> p.item < n && p.collected_by < n)
    &&& (e.wants_to_drop matches Some(t) ==> t < n)
    &&& (e.wants_to_remove matches Some(t) ==> t < n)
    &&& (e.wants_to_use matches Some(u) ==> u.item < n)
    &&& (e.identified_item matches Some(t) ==> t < n)
    &&& (e.wants_to_cast matches Some(c) ==> c.spell < n)
    &&& (e.wants_to_shoot matches Some(t) ==> t < n)
    &&& (e.chasing matches Some(t) ==> t < n)
}

impl WorldView {
    pub open spec fn wf(self) -> bool {
        &&& self.names.len() == self.ents.len()
        &&& self.natural_attacks.len() == self.ents.len()
        &&& self.player < self.ents.len()
        &&& 0 < self.map_width
        &&& 0 < self.map_height
        &&& self.map_width * self.map_height <= usize::MAX
        &&& self.tiles.len() == self.map_width * self.map_height
        &&& self.revealed.len() == self.map_width * self.map_height
        &&& self.visible.len() == self.map_width * self.map_height
        &&& forall|i: int| 0 <= i < self.ents.len() ==> #[trigger] refs_in(self.ents[i], self.ents.len() as int)
    }
}

pub open spec fn spells_view(s: Seq<KnownSpell>) -> Seq<(Seq<char>, i32)> {
    s.map_values(|k: KnownSpell| (k.display_name@, k.mana_cost))
}

pub open spec fn names_view(names: Seq<String>) -> Seq<Seq<char>> {
    names.map_values(|s: String| s@)
}

pub open spec fn attacks_view(a: Seq<Vec<NaturalAttack>>) -> Seq<Seq<NaturalAttack>> {
    a.map_values(|v: Vec<NaturalAttack>| v@)
}

pub open spec fn journal_view(j: Seq<Vec<crate::logger::LogFragment>>) -> Seq<Seq<(NamedColor, Seq<char>)>> {
    j.map_values(|e: Vec<crate::logger::LogFragment>| fragments_view(e@))
}

impl World {
    pub open spec fn view(&self) -> WorldView {
        WorldView {
            ents: self.ents@,
            names: names_view(self.names@),
            natural_attacks: attacks_view(self.natural_attacks@),
            player: self.player,
            player_pos: self.player_pos,
            map_width: self.map.width,
            map_height: self.map.height,
            depth: self.map.depth,
            tiles: self.map.tiles@,
            revealed: self.map.revealed_tiles@,
            visible: self.map.visible_tiles@,
            run_state: self.run_state,
            log: names_view(self.log.entries@),
            journal: journal_view(self.journal.entries@),
            effects: self.effects@,
            known_spells: spells_view(self.known_spells@),
            identified: names_view(self.identified@),
        }
    }

    pub open spec fn wf(&self) -> bool {
        self.view().wf()
    }
}

/// An entity with no components at all, alive.
pub open spec fn spec_blank() -> Ent {
    Ent {
        alive: true,
        player: false,
        has_name: false,
        position: None,
        pools: None,
        attributes: None,
        skills: None,
        hunger: None,
        my_turn: false,
        item: false,
        consumable: None,
        ranged: None,
        equippable: None,
        equipped: None,
        in_backpack: None,
        cursed: false,
        weapon: None,
        natural_armor: None,
        has_natural: false,
        provides_healing: None,
        provides_food: false,
        inflicts_damage: None,
        confusion: None,
        magic_mapper: false,
        town_portal: false,
        identified_item: None,
        aoe_radius: None,
        vendor: false,
        faction_hostile: None,
        door: None,
        blocks_tile: false,
        blocks_visibility: false,
        glyph: None,
        viewshed: None,
        entity_moved: false,
        equipment_changed: false,
        wants_to_melee: None,
        wants_to_pickup: None,
        wants_to_drop: None,
        wants_to_remove: None,
        wants_to_use: None,
        spell_template: false,
        wants_to_cast: None,
        obfuscated_name: false,
        hidden: false,
        entry_trigger: false,
        single_activation: false,
        teleport_to: None,
        other_level: None,
        wants_to_shoot: None,
        chasing: None,
        wants_to_flee: false,
        apply_move: None,
        move_mode: None,
    }
}

pub fn blank() -> (e: Ent)
    ensures
        e == spec_blank(),
{
    Ent {
        alive: true,
        player: false,
        has_name: false,
        position: None,
        pools: None,
        attributes: None,
        skills: None,
        hunger: None,
        my_turn: false,
        item: false,
        consumable: None,
        ranged: None,
        equippable: None,
        equipped: None,
        in_backpack: None,
        cursed: false,
        weapon: None,
        natural_armor: None,
        has_natural: false,
        provides_healing: None,
        provides_food: false,
        inflicts_damage: None,
        confusion: None,
        magic_mapper: false,
        town_portal: false,
        identified_item: None,
        aoe_radius: None,
        vendor: false,
        faction_hostile: None,
        door: None,
        blocks_tile: false,
        blocks_visibility: false,
        glyph: None,
        viewshed: None,
        entity_moved: false,
        equipment_changed: false,
        wants_to_melee: None,
        wants_to_pickup: None,
        wants_to_drop: None,
        wants_to_remove: None,
        wants_to_use: None,
        spell_template: false,
        wants_to_cast: None,
        obfuscated_name: false,
        hidden: false,
        entry_trigger: false,
        single_activation: false,
        teleport_to: None,
        other_level: None,
        wants_to_shoot: None,
        chasing: None,
        wants_to_flee: false,
        apply_move: None,
        move_mode: None,
    }
}

/// An entity with every component removed, as deletion leaves it.
pub open spec fn spec_deleted() -> Ent {
    Ent { alive: false, ..spec_blank() }
}

impl World {
    /// A world holding only the player entity `player` (made alive and marked as the
    /// player), named `name`, standing at `pos`.
    pub fn new(player: Ent, name: String, pos: Point, map: GameMap) -> (w: World)
        requires
            refs_in(player, 1),
            map.wf(),
        ensures
            w.wf(),
            w.view().ents.len() == 1,
            w.view().ents[0] == (Ent { alive: true, player: true, ..player }),
            w.view().names.len() == 1,
            w.view().names[0] == name@,
            w.view().player == 0,
            w.view().player_pos == pos,
            w.map == map,
            w.view().run_state == RunState::PreRun,
            w.view().log.len() == 0,
            w.view().journal.len() == 0,
            w.view().effects.len() == 0,
            w.view().known_spells.len() == 0,
            w.view().identified.len() == 0,
    {
        let mut ents = Vec::new();
        ents.push(Ent { alive: true, player: true, ..player });
        let mut names = Vec::new();
        names.push(name);
        let mut natural_attacks = Vec::new();
        natural_attacks.push(Vec::new());
        let w = World {
            ents,
            names,
            natural_attacks,
            player: 0,
            player_pos: pos,
            map,
            run_state: RunState::PreRun,
            log: GameLog::new(),
            journal: LogStore::new(),
            effects: Vec::new(),
            known_spells: Vec::new(),
            identified: Vec::new(),
        };
        proof {
            let v = w.view();
            assert(v.ents.len() == 1);
            assert(refs_in(v.ents[0], 1));
        }
        w
    }

    /// Adds an entity carrying `e` (made alive), named `name`, and returns it.
    pub fn spawn(&mut self, e: Ent, name: String) -> (id: Entity)
        requires
            old(self).wf(),
            refs_in(e, old(self).view().ents.len() as int),
            old(self).view().ents.len() < usize::MAX,
        ensures
            final(self).wf(),
            id == old(self).view().ents.len(),
            final(self).view() == (WorldView {
                ents: old(self).view().ents.push(Ent { alive: true, ..e }),
                names: old(self).view().names.push(name@),
                natural_attacks: old(self).view().natural_attacks.push(Seq::empty()),
                ..old(self).view()
            }),
    {
        let id = self.ents.len();
        let ghost before = self.view();
        self.ents.push(Ent { alive: true, ..e });
        self.names.push(name);
        self.natural_attacks.push(Vec::new());
        proof {
            let n = self.ents@.len() as int;
            assert forall|i: int| 0 <= i < n implies #[trigger] refs_in(self.ents@[i], n) by {
                if i < n - 1 {
                    assert(refs_in(before.ents[i], n - 1));
                }
            }
            assert(self.view().names =~= before.names.push(name@));
            assert(self.view().natural_attacks =~= before.natural_attacks.push(Seq::empty()));
        }
        id
    }
}

/// Appending a string appends its characters to the viewed log.
pub proof fn lemma_names_view_push(s: Seq<String>, x: String)
    ensures
        names_view(s.push(x)) == names_view(s).push(x@),
{
    assert(names_view(s.push(x)) =~= names_view(s).push(x@));
}

/// Writing one more entry to the journal appends its fragments to the viewed journal.
pub proof fn lemma_journal_push(before: Seq<Vec<crate::logger::LogFragment>>, after: Seq<Vec<crate::logger::LogFragment>>)
    requires
        after.len() == before.len() + 1,
        forall|i: int| 0 <= i < before.len() ==> #[trigger] after[i] == before[i],
    ensures
        journal_view(after) == journal_view(before).push(fragments_view(after.last()@)),
{
    assert(journal_view(after) =~= journal_view(before).push(fragments_view(after.last()@)));
}

/// Replacing one entity record keeps every reference in the table when the new record's
/// references are in the table.
pub proof fn lemma_update_keeps_refs(ents: Seq<Ent>, i: int, e: Ent)
    requires
        0 <= i < ents.len(),
        forall|j: int| 0 <= j < ents.len() ==> #[trigger] refs_in(ents[j], ents.len() as int),
        refs_in(e, ents.len() as int),
    ensures
        forall|j: int| 0 <= j < ents.len() ==> #[trigger] refs_in(ents.update(i, e)[j], ents.len() as int),
{
    assert forall|j: int| 0 <= j < ents.len() implies #[trigger] refs_in(ents.update(i, e)[j], ents.len() as int) by {
        if j != i {
            assert(ents.update(i, e)[j] == ents[j]);
        }
    }
}

} // verus!
