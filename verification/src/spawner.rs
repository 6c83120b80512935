//! Making the player, and the portal a town portal scroll leaves behind.

use vstd::prelude::*;
use rltk::RandomNumberGenerator;
use crate::components::{Attribute, Attributes, Entity, HungerClock, HungerState, Pool, Pools, Position, Skills};
use crate::gamesystem::{mana_at_level, player_hp_at_level, spec_mana_at_level, spec_player_hp_at_level};
use crate::font::{cp437, to_cp437};
use crate::map::{GameMap, TileType};
use crate::world::{Ent, OtherLevelPosition, TeleportTo, Viewshed, World, WorldView, blank, refs_in, spec_blank};

verus! {

/// The glyph the player is drawn with: `@`.
pub open spec fn player_glyph() -> u16 {
    cp437('@')
}

/// The glyph of a town portal: a heart.
pub open spec fn portal_glyph() -> u16 {
    cp437('\u{2665}')
}

/// An average attribute.
pub open spec fn average() -> Attribute {
    Attribute { base: 11, modifiers: 0, bonus: 0 }
}

/// The player as a new game starts them at `(x, y)`: average attributes, a point in
/// each skill, level 1 with the hit points and mana of an average fitness and
/// intelligence, well fed, seeing 8 tiles around.
pub open spec fn spec_player_ent(x: i32, y: i32) -> Ent {
    Ent {
        player: true,
        has_name: true,
        position: Some(Position { x, y }),
        glyph: Some(player_glyph()),
        faction_hostile: Some(false),
        viewshed: Some(Viewshed { range: 8, dirty: true }),
        hunger: Some(HungerClock { state: HungerState::WellFed, duration: 20 }),
        attributes: Some(Attributes { might: average(), fitness: average(), quickness: average(), intelligence: average() }),
        skills: Some(Skills { melee: Some(1), defense: Some(1), magic: Some(1) }),
        pools: Some(Pools {
            hit_points: Pool { current: spec_player_hp_at_level(11, 1) as i32, max: spec_player_hp_at_level(11, 1) as i32 },
            mana: Pool { current: spec_mana_at_level(11, 1) as i32, max: spec_mana_at_level(11, 1) as i32 },
            xp: 0,
            level: 1,
            god_mode: false,
        }),
        equipment_changed: true,
        ..spec_blank()
    }
}

pub fn player_ent(x: i32, y: i32) -> (e: Ent)
    ensures
        e == spec_player_ent(x, y),
        refs_in(e, 0),
{
    let hp = player_hp_at_level(11, 1);
    let mana = mana_at_level(11, 1);
    let avg = Attribute::new();
    let glyph = to_cp437('@');
    let mut skills = Skills::new();
    skills.insert(crate::components::Skill::Melee, 1);
    skills.insert(crate::components::Skill::Defense, 1);
    skills.insert(crate::components::Skill::Magic, 1);
    let e = Ent {
        player: true,
        has_name: true,
        position: Some(Position { x, y }),
        glyph: Some(glyph),
        faction_hostile: Some(false),
        viewshed: Some(Viewshed { range: 8, dirty: true }),
        hunger: Some(HungerClock { state: HungerState::WellFed, duration: 20 }),
        attributes: Some(Attributes { might: avg, fitness: avg, quickness: avg, intelligence: avg }),
        skills: Some(skills),
        pools: Some(Pools {
            hit_points: Pool { current: hp, max: hp },
            mana: Pool { current: mana, max: mana },
            xp: 0,
            level: 1,
            god_mode: false,
        }),
        equipment_changed: true,
        ..blank()
    };
    proof { assert(skills == Skills { melee: Some(1), defense: Some(1), magic: Some(1) }); }
    e
}

/// Adds the player, named "Player", at `(x, y)` and returns their entity. (The starting
/// kit comes from the item definitions, by the names `starting_kit` lists.)
pub fn player(w: &mut World, x: i32, y: i32) -> (id: Entity)
    requires
        old(w).wf(),
        old(w).view().ents.len() < usize::MAX,
    ensures
        final(w).wf(),
        id == old(w).view().ents.len(),
        final(w).view() == (WorldView {
            ents: old(w).view().ents.push(spec_player_ent(x, y)),
            names: old(w).view().names.push("Player"@),
            natural_attacks: old(w).view().natural_attacks.push(Seq::empty()),
            ..old(w).view()
        }),
{
    let e = player_ent(x, y);
    proof { assert(refs_in(e, old(w).view().ents.len() as int)); }
    w.spawn(e, String::from_str("Player"))
}

/// The items a new player starts with, by name, and whether each is worn or wielded
/// (otherwise carried).
pub open spec fn spec_starting_kit() -> Seq<(Seq<char>, bool)> {
    seq![
        ("Rusty Longsword"@, true),
        ("Dried Sausage"@, false),
        ("Beer"@, false),
        ("Stained Tunic"@, true),
        ("Torn Trousers"@, true),
        ("Old Boots"@, true),
        ("Town Portal Scroll"@, false),
    ]
}

/// The starting kit, as owned strings.
pub fn starting_kit() -> (kit: Vec<(String, bool)>)
    ensures
        kit@.map_values(|k: (String, bool)| (k.0@, k.1)) == spec_starting_kit(),
{
    let mut kit = Vec::new();
    kit.push((String::from_str("Rusty Longsword"), true));
    kit.push((String::from_str("Dried Sausage"), false));
    kit.push((String::from_str("Beer"), false));
    kit.push((String::from_str("Stained Tunic"), true));
    kit.push((String::from_str("Torn Trousers"), true));
    kit.push((String::from_str("Old Boots"), true));
    kit.push((String::from_str("Town Portal Scroll"), false));
    proof { assert(kit@.map_values(|k: (String, bool)| (k.0@, k.1)) =~= spec_starting_kit()); }
    kit
}

/// The last down staircase among the first `n` tiles, or 0 when there is none.
pub open spec fn last_down_stairs(tiles: Seq<TileType>, n: nat) -> int
    decreases n,
{
    if n == 0 {
        0
    } else if tiles[n - 1] == TileType::DownStairs {
        n - 1
    } else {
        last_down_stairs(tiles, (n - 1) as nat)
    }
}

/// Where the town portal stands in the town: two tiles left of the town's (last) down
/// staircase.
pub open spec fn spec_portal_spot(town: &GameMap) -> (int, int) {
    let idx = last_down_stairs(town.tiles@, town.tiles@.len());
    (idx % (town.width as int) - 2, idx / (town.width as int))
}

proof fn lemma_last_down_stairs(tiles: Seq<TileType>, n: nat)
    requires
        n <= tiles.len(),
    ensures
        0 <= last_down_stairs(tiles, n),
        n > 0 ==> last_down_stairs(tiles, n) < n,
    decreases n,
{
    if n > 0 {
        lemma_last_down_stairs(tiles, (n - 1) as nat);
    }
}

pub fn portal_spot(town: &GameMap) -> (r: (i32, i32))
    requires
        town.wf(),
        town.tiles@.len() <= i32::MAX,
    ensures
        r.0 == spec_portal_spot(town).0,
        r.1 == spec_portal_spot(town).1,
{
    let mut idx: usize = 0;
    let mut k: usize = 0;
    while k < town.tiles.len()
        invariant
            k <= town.tiles@.len(),
            idx == last_down_stairs(town.tiles@, k as nat),
        decreases town.tiles@.len() - k,
    {
        if town.tiles[k] == TileType::DownStairs {
            idx = k;
        }
        k = k + 1;
    }
    proof { lemma_last_down_stairs(town.tiles@, town.tiles@.len()); }
    let i = idx as i32;
    (i % town.width - 2, i / town.width)
}

/// The town portal: it stands at `spot` in the town (depth 1) and, once stepped on,
/// sends the player back to where the scroll was read.
pub open spec fn spec_portal_ent(spot: (int, int), back: (i32, i32, i32)) -> Ent {
    Ent {
        has_name: true,
        other_level: Some(OtherLevelPosition { x: spot.0 as i32, y: spot.1 as i32, depth: 1 }),
        glyph: Some(portal_glyph()),
        entry_trigger: true,
        teleport_to: Some(TeleportTo { x: back.0, y: back.1, depth: back.2, player_only: true }),
        single_activation: true,
        ..spec_blank()
    }
}

/// Leaves a portal in `town` that leads back to where the player stands now.
pub fn spawn_town_portal(w: &mut World, town: &GameMap)
    requires
        old(w).wf(),
        old(w).view().ents.len() < usize::MAX,
        town.wf(),
        town.tiles@.len() <= i32::MAX,
    ensures
        final(w).wf(),
        final(w).view() == (WorldView {
            ents: old(w).view().ents.push(Ent { alive: true, ..spec_portal_ent(spec_portal_spot(town),
                (old(w).view().player_pos.x, old(w).view().player_pos.y, old(w).view().depth)) }),
            names: old(w).view().names.push("Town Portal"@),
            natural_attacks: old(w).view().natural_attacks.push(Seq::empty()),
            ..old(w).view()
        }),
{
    let (px, py) = portal_spot(town);
    let back = (w.player_pos.x, w.player_pos.y, w.map.depth);
    let glyph = to_cp437('\u{2665}');
    let e = Ent {
        has_name: true,
        other_level: Some(OtherLevelPosition { x: px, y: py, depth: 1 }),
        glyph: Some(glyph),
        entry_trigger: true,
        teleport_to: Some(TeleportTo { x: back.0, y: back.1, depth: back.2, player_only: true }),
        single_activation: true,
        ..blank()
    };
    let _ = w.spawn(e, String::from_str("Town Portal"));
}


// ----- where things spawn -----

/// A rectangle of the map, from corner `(x1, y1)` to corner `(x2, y2)`.
#[derive(Clone, Copy, Debug, PartialEq, Eq, Structural)]
pub struct Rect {
    pub x1: i32,
    pub y1: i32,
    pub x2: i32,
    pub y2: i32,
}

/// The floor tiles of row `y` from column `from` up to (not including) column `to`.
pub open spec fn row_floor(m: &GameMap, y: int, from: int, to: int) -> Seq<usize>
    decreases to - from,
{
    if to <= from {
        Seq::empty()
    } else {
        let prev = row_floor(m, y, from, to - 1);
        let idx = crate::map::spec_xy_idx(m.width as int, to - 1, y);
        if m.tiles@[idx] == TileType::Floor { prev.push(idx as usize) } else { prev }
    }
}

/// The floor tiles inside `room` (its walls excluded) on rows before `to`, row by row.
pub open spec fn room_floor(m: &GameMap, room: Rect, to: int) -> Seq<usize>
    decreases to - room.y1,
{
    if to <= room.y1 + 1 {
        Seq::empty()
    } else {
        room_floor(m, room, to - 1) + row_floor(m, to - 1, room.x1 + 1, room.x2 as int)
    }
}

/// Whether the inside of `room` lies on the map.
pub open spec fn room_on_map(m: &GameMap, room: Rect) -> bool {
    (room.x1 + 1 < room.x2 && room.y1 + 1 < room.y2) ==> (0 <= room.x1 + 1 && room.x2 <= m.width && 0 <= room.y1 + 1 && room.y2 <= m.height)
}

/// The floor tiles inside `room`, where a room's spawns may go.
pub fn room_spawn_tiles(m: &GameMap, room: Rect) -> (r: Vec<usize>)
    requires
        m.wf(),
        room_on_map(m, room),
    ensures
        r@ == room_floor(m, room, room.y2 as int),
{
    let mut r: Vec<usize> = Vec::new();
    if !((room.x1 as i64) + 1 < room.x2 as i64 && (room.y1 as i64) + 1 < room.y2 as i64) {
        proof {
            assert(room_floor(m, room, room.y2 as int) =~= Seq::empty()) by {
                lemma_room_floor_empty_rows(m, room, room.y2 as int);
            }
        }
        return r;
    }
    let mut y = room.y1 + 1;
    while y < room.y2
        invariant
            m.wf(),
            room_on_map(m, room),
            room.x1 + 1 < room.x2,
            room.y1 + 1 <= y <= room.y2,
            r@ == room_floor(m, room, y as int),
        decreases room.y2 - y,
    {
        let ghost before = r@;
        let mut x = room.x1 + 1;
        while x < room.x2
            invariant
                m.wf(),
                room_on_map(m, room),
                room.x1 + 1 <= x <= room.x2,
                room.y1 + 1 <= y < room.y2,
                r@ == before + row_floor(m, y as int, room.x1 + 1, x as int),
            decreases room.x2 - x,
        {
            let idx = m.xy_idx(x, y);
            if m.tiles[idx] == TileType::Floor {
                r.push(idx);
            }
            proof {
                let rf = row_floor(m, y as int, room.x1 + 1, x + 1);
                assert(rf == (if m.tiles@[idx as int] == TileType::Floor {
                    row_floor(m, y as int, room.x1 + 1, x as int).push(idx) } else { row_floor(m, y as int, room.x1 + 1, x as int) }));
                assert(r@ =~= before + rf);
            }
            x = x + 1;
        }
        y = y + 1;
    }
    r
}

proof fn lemma_room_floor_empty_rows(m: &GameMap, room: Rect, to: int)
    requires
        !(room.x1 + 1 < room.x2 && room.y1 + 1 < room.y2),
        to <= room.y2,
    ensures
        room_floor(m, room, to) =~= Seq::empty(),
    decreases to - room.y1,
{
    if to > room.y1 + 1 {
        lemma_room_floor_empty_rows(m, room, to - 1);
        assert(row_floor(m, to - 1, room.x1 + 1, room.x2 as int) =~= Seq::empty());
    }
}

/// The map position of tile `idx` on a map `width` tiles wide.
pub open spec fn spec_spawn_spot(width: int, idx: int) -> (int, int) {
    (idx % width, idx / width)
}

pub fn spawn_spot(width: i32, idx: usize) -> (r: (i32, i32))
    requires
        0 < width,
        (idx as int) / (width as int) <= i32::MAX,
    ensures
        r.0 == spec_spawn_spot(width as int, idx as int).0,
        r.1 == spec_spawn_spot(width as int, idx as int).1,
{
    let w = width as usize;
    proof { assert(idx % w < w); }
    ((idx % w) as i32, (idx / w) as i32)
}

/// How many spawns a region may hold: the d(`max_spawns` + 3) roll, shifted by the
/// depth less four, and never more than the region has tiles.
pub open spec fn spawn_count(tiles: int, roll: int, depth: int) -> int {
    let n = roll + (depth - 1) - 3;
    if tiles < n { tiles } else { n }
}

/// How many tiles are drawn: the spawn count, or none when it is not positive.
pub open spec fn spawn_total(tiles: int, roll: int, depth: int) -> int {
    if spawn_count(tiles, roll, depth) < 0 { 0 } else { spawn_count(tiles, roll, depth) }
}

/// Draws tiles from `area` one at a time: draw `k` takes the tile at place `picks[k]`
/// among the tiles not drawn yet. The tiles left, and the tiles drawn in order, after
/// the first `k` draws.
pub open spec fn draws(area: Seq<usize>, picks: Seq<usize>, k: nat) -> (Seq<usize>, Seq<usize>)
    decreases k,
{
    if k == 0 {
        (area, Seq::empty())
    } else {
        let (left, got) = draws(area, picks, (k - 1) as nat);
        let i = picks[k - 1] as int;
        (left.remove(i), got.push(left[i]))
    }
}

/// Whether every draw takes a place among the tiles left.
pub open spec fn picks_fit(tiles: int, picks: Seq<usize>) -> bool {
    forall|k: int| 0 <= k < picks.len() ==> #[trigger] picks[k] < tiles - k
}

/// What a region's spawning can give: for some d6 roll and some fair draws, as many
/// draws as the spawn count allows, the tiles drawn, in draw order.
pub open spec fn region_outcome(area: Seq<usize>, depth: int, r: Seq<usize>) -> bool {
    exists|roll: int, picks: Seq<usize>|
        #![trigger spawn_total(area.len() as int, roll, depth), draws(area, picks, picks.len())]
        1 <= roll <= 6
        && picks.len() == spawn_total(area.len() as int, roll, depth)
        && picks_fit(area.len() as int, picks)
        && r == draws(area, picks, picks.len()).1
}

/// `spawns` with tile `tile` now getting `name`: the entry for that tile takes the new
/// name where there is one, and a new entry goes at the end otherwise.
pub open spec fn put_spawn(spawns: Seq<(usize, Seq<char>)>, tile: usize, name: Seq<char>) -> Seq<(usize, Seq<char>)> {
    if exists|j: int| 0 <= j < spawns.len() && #[trigger] spawns[j].0 == tile {
        let j = choose|j: int| 0 <= j < spawns.len() && #[trigger] spawns[j].0 == tile;
        spawns.update(j, (tile, name))
    } else {
        spawns.push((tile, name))
    }
}

/// The spawn points after the first `n` draws: each drawn tile whose roll on the spawn
/// table gave a name gets that name, a later name for the same tile replacing an earlier
/// one; one entry per tile, in the order first named.
pub open spec fn spawn_points_upto(drawn: Seq<usize>, rolled: Seq<Option<Seq<char>>>, n: nat) -> Seq<(usize, Seq<char>)>
    decreases n,
{
    if n == 0 {
        Seq::empty()
    } else {
        let prev = spawn_points_upto(drawn, rolled, (n - 1) as nat);
        match rolled[n - 1] {
            Some(name) => put_spawn(prev, drawn[n - 1], name),
            None => prev,
        }
    }
}

/// Whether no tile has two entries.
pub open spec fn tiles_distinct(spawns: Seq<(usize, Seq<char>)>) -> bool {
    forall|a: int, b: int| 0 <= a < spawns.len() && 0 <= b < spawns.len() && a != b ==> spawns[a].0 != spawns[b].0
}

pub open spec fn rolls_view(rolled: Seq<Option<String>>) -> Seq<Option<Seq<char>>> {
    rolled.map_values(|r: Option<String>| match r { Some(s) => Some(s@), None => None })
}

pub open spec fn spawns_view(spawns: Seq<(usize, String)>) -> Seq<(usize, Seq<char>)> {
    spawns.map_values(|p: (usize, String)| (p.0, p.1@))
}

proof fn lemma_draws(area: Seq<usize>, picks: Seq<usize>, k: nat)
    requires
        picks_fit(area.len() as int, picks),
        k <= picks.len(),
    ensures
        draws(area, picks, k).0.len() == area.len() - k,
        draws(area, picks, k).1.len() == k,
        forall|j: int| 0 <= j < draws(area, picks, k).0.len() ==> area.contains(#[trigger] draws(area, picks, k).0[j]),
        forall|j: int| 0 <= j < draws(area, picks, k).1.len() ==> area.contains(#[trigger] draws(area, picks, k).1[j]),
    decreases k,
{
    if k > 0 {
        lemma_draws(area, picks, (k - 1) as nat);
        let (left, got) = draws(area, picks, (k - 1) as nat);
        let i = picks[k - 1] as int;
        assert(picks[k - 1] < area.len() - (k - 1));
        let l2 = left.remove(i);
        let g2 = got.push(left[i]);
        assert forall|j: int| 0 <= j < l2.len() implies area.contains(#[trigger] l2[j]) by {
            if j < i { assert(l2[j] == left[j]); } else { assert(l2[j] == left[j + 1]); }
        }
        assert forall|j: int| 0 <= j < g2.len() implies area.contains(#[trigger] g2[j]) by {
            if j < got.len() { assert(g2[j] == got[j]); } else { assert(area.contains(left[i])); }
        }
    }
}

/// Draws from a region that lists no tile twice never draw a tile twice.
proof fn lemma_draws_distinct(area: Seq<usize>, picks: Seq<usize>, k: nat)
    requires
        picks_fit(area.len() as int, picks),
        k <= picks.len(),
        area.no_duplicates(),
    ensures
        draws(area, picks, k).0.no_duplicates(),
        draws(area, picks, k).1.no_duplicates(),
        forall|a: int, b: int| 0 <= a < draws(area, picks, k).0.len() && 0 <= b < draws(area, picks, k).1.len()
            ==> draws(area, picks, k).0[a] != draws(area, picks, k).1[b],
    decreases k,
{
    if k > 0 {
        lemma_draws_distinct(area, picks, (k - 1) as nat);
        lemma_draws(area, picks, (k - 1) as nat);
        let (left, got) = draws(area, picks, (k - 1) as nat);
        let i = picks[k - 1] as int;
        assert(picks[k - 1] < area.len() - (k - 1));
        let l2 = left.remove(i);
        let g2 = got.push(left[i]);
        assert forall|a: int, b: int| 0 <= a < l2.len() && 0 <= b < l2.len() && a != b implies l2[a] != l2[b] by {
            let aa = if a < i { a } else { a + 1 };
            let bb = if b < i { b } else { b + 1 };
            assert(l2[a] == left[aa]);
            assert(l2[b] == left[bb]);
        }
        assert forall|a: int, b: int| 0 <= a < g2.len() && 0 <= b < g2.len() && a != b implies g2[a] != g2[b] by {
            if a < got.len() && b < got.len() {
                assert(g2[a] == got[a] && g2[b] == got[b]);
            } else if a < got.len() {
                assert(g2[a] == got[a]);
                assert(g2[b] == left[i]);
            } else {
                assert(g2[b] == got[b]);
                assert(g2[a] == left[i]);
            }
        }
        assert forall|a: int, b: int| 0 <= a < l2.len() && 0 <= b < g2.len() implies l2[a] != g2[b] by {
            let aa = if a < i { a } else { a + 1 };
            assert(l2[a] == left[aa]);
            if b < got.len() {
                assert(g2[b] == got[b]);
            } else {
                assert(g2[b] == left[i]);
                assert(aa != i);
            }
        }
    }
}

/// The draws `picks` from `area`: the tiles drawn, in draw order.
pub fn draw_tiles(area: &Vec<usize>, picks: &Vec<usize>) -> (r: Vec<usize>)
    requires
        picks_fit(area@.len() as int, picks@),
    ensures
        r@ == draws(area@, picks@, picks@.len()).1,
        forall|i: int| 0 <= i < r@.len() ==> area@.contains(#[trigger] r@[i]),
{
    let mut left: Vec<usize> = area.clone();
    let mut r: Vec<usize> = Vec::new();
    let mut k: usize = 0;
    proof { assert(left@ =~= area@); }
    while k < picks.len()
        invariant
            k <= picks@.len(),
            picks_fit(area@.len() as int, picks@),
            (left@, r@) == draws(area@, picks@, k as nat),
            left@.len() == area@.len() - k,
        decreases picks@.len() - k,
    {
        proof { assert(picks@[k as int] < area@.len() - k); }
        let t = left.remove(picks[k]);
        r.push(t);
        k = k + 1;
    }
    proof { lemma_draws(area@, picks@, picks@.len()); }
    r
}

/// Where `tile` has an entry in `spawns`, if anywhere.
fn spawn_entry(spawns: &Vec<(usize, String)>, tile: usize) -> (r: Option<usize>)
    ensures
        r matches Some(j) ==> j < spawns@.len() && spawns@[j as int].0 == tile,
        r is None ==> forall|j: int| 0 <= j < spawns@.len() ==> #[trigger] spawns@[j].0 != tile,
{
    let mut k: usize = 0;
    while k < spawns.len()
        invariant
            k <= spawns@.len(),
            forall|j: int| 0 <= j < k ==> #[trigger] spawns@[j].0 != tile,
        decreases spawns@.len() - k,
    {
        if spawns[k].0 == tile {
            return Some(k);
        }
        k = k + 1;
    }
    None
}

/// The spawn list of a region: `drawn` are the tiles drawn, in order, and `rolled[k]` is
/// what the spawn table gave for draw `k` (`None` when it gave nothing). Each tile gets
/// the last name rolled for it; one entry per tile, in the order first named.
pub fn spawn_points(drawn: &Vec<usize>, rolled: &Vec<Option<String>>) -> (r: Vec<(usize, String)>)
    requires
        rolled@.len() == drawn@.len(),
    ensures
        spawns_view(r@) == spawn_points_upto(drawn@, rolls_view(rolled@), drawn@.len()),
        tiles_distinct(spawns_view(r@)),
        forall|i: int| 0 <= i < r@.len() ==> drawn@.contains(#[trigger] r@[i].0),
{
    let ghost rv = rolls_view(rolled@);
    let mut r: Vec<(usize, String)> = Vec::new();
    let mut k: usize = 0;
    while k < drawn.len()
        invariant
            k <= drawn@.len(),
            rolled@.len() == drawn@.len(),
            rv == rolls_view(rolled@),
            spawns_view(r@) == spawn_points_upto(drawn@, rv, k as nat),
            tiles_distinct(spawns_view(r@)),
            forall|i: int| 0 <= i < r@.len() ==> drawn@.contains(#[trigger] r@[i].0),
        decreases drawn@.len() - k,
    {
        let ghost before = spawns_view(r@);
        let ghost rb = r@;
        proof { assert(rv[k as int] == match rolled@[k as int] { Some(s) => Some(s@), None => None::<Seq<char>> }); }
        let tile = drawn[k];
        match &rolled[k] {
            Some(name) => {
                let n2 = name.clone();
                match spawn_entry(&r, tile) {
                    Some(j) => {
                        r.set(j, (tile, n2));
                        proof {
                            assert(before[j as int].0 == tile);
                            let c = choose|c: int| 0 <= c < before.len() && #[trigger] before[c].0 == tile;
                            assert(c == j as int);
                            assert(spawns_view(r@) =~= put_spawn(before, tile, name@));
                            assert forall|i: int| 0 <= i < r@.len() implies drawn@.contains(#[trigger] r@[i].0) by {
                                if i != j { assert(r@[i] == rb[i]); } else { assert(drawn@[k as int] == tile); }
                            }
                        }
                    },
                    None => {
                        r.push((tile, n2));
                        proof {
                            assert forall|c: int| 0 <= c < before.len() implies #[trigger] before[c].0 != tile by {
                                assert(before[c].0 == rb[c].0);
                            }
                            assert(spawns_view(r@) =~= put_spawn(before, tile, name@));
                            assert forall|i: int| 0 <= i < r@.len() implies drawn@.contains(#[trigger] r@[i].0) by {
                                if i < rb.len() { assert(r@[i] == rb[i]); } else { assert(drawn@[k as int] == tile); }
                            }
                        }
                    },
                }
            },
            None => {},
        }
        k = k + 1;
    }
    r
}

/// Draws the tiles of a region that may get a spawn: rolls how many (see
/// `spawn_count`), then draws each from the tiles of `area` not drawn yet. Returns the
/// tiles drawn, in order; each is then rolled on the level's spawn table, and
/// `spawn_points` makes the spawn list of the draws and rolls.
pub fn spawn_region(rng: &mut RandomNumberGenerator, area: &Vec<usize>, map_depth: i32) -> (r: Vec<usize>)
    requires
        area@.len() < i32::MAX,
        i32::MIN + 3 <= map_depth <= i32::MAX - 5,
    ensures
        region_outcome(area@, map_depth as int, r@),
        area@.no_duplicates() ==> r@.no_duplicates(),
        forall|i: int| 0 <= i < r@.len() ==> area@.contains(#[trigger] r@[i]),
{
    let roll = crate::rng::roll_dice(rng, 1, 6);
    let n: i64 = roll as i64 + (map_depth as i64 - 1) - 3;
    let count: i64 = if (area.len() as i64) < n { area.len() as i64 } else { n };
    let mut picks: Vec<usize> = Vec::new();
    let mut k: i64 = 0;
    while k < count
        invariant
            0 <= k,
            count <= area@.len(),
            count > 0 ==> k <= count,
            count <= 0 ==> k == 0,
            picks@.len() == k,
            picks_fit(area@.len() as int, picks@),
            area@.len() < i32::MAX,
        decreases count - k,
    {
        let left: usize = area.len() - k as usize;
        let pick: usize = if left == 1 {
            0
        } else {
            (crate::rng::roll_dice(rng, 1, left as i32) - 1) as usize
        };
        let ghost before = picks@;
        picks.push(pick);
        proof {
            assert forall|j: int| 0 <= j < picks@.len() implies #[trigger] picks@[j] < area@.len() - j by {
                if j < before.len() { assert(picks@[j] == before[j]); }
            }
        }
        k = k + 1;
    }
    let r = draw_tiles(area, &picks);
    proof { if area@.no_duplicates() { lemma_draws_distinct(area@, picks@, picks@.len()); } }
    proof {
        assert(picks@.len() == spawn_total(area@.len() as int, roll as int, map_depth as int));
        assert(region_outcome(area@, map_depth as int, r@));
    }
    r
}

/// Draws the floor tiles of `room` that may get a spawn (see `spawn_region`).
pub fn spawn_room(m: &GameMap, rng: &mut RandomNumberGenerator, room: Rect, map_depth: i32) -> (r: Vec<usize>)
    requires
        m.wf(),
        room_on_map(m, room),
        m.tiles@.len() < i32::MAX,
        i32::MIN + 3 <= map_depth <= i32::MAX - 5,
    ensures
        region_outcome(room_floor(m, room, room.y2 as int), map_depth as int, r@),
        r@.no_duplicates(),
        forall|i: int| 0 <= i < r@.len() ==> room_floor(m, room, room.y2 as int).contains(#[trigger] r@[i]),
{
    let area = room_spawn_tiles(m, room);
    proof {
        lemma_room_floor_len(m, room, room.y2 as int);
        lemma_room_floor_distinct(m, room);
    }
    spawn_region(rng, &area, map_depth)
}

/// No floor tile of a room is listed twice.
proof fn lemma_room_floor_distinct(m: &GameMap, room: Rect)
    requires
        m.wf(),
        room_on_map(m, room),
    ensures
        room_floor(m, room, room.y2 as int).no_duplicates(),
{
    let s = room_floor(m, room, room.y2 as int);
    if room.x1 + 1 < room.x2 && room.y1 + 1 < room.y2 {
        lemma_room_floor_sorted(m, room, room.y2 as int);
        assert forall|i: int, j: int| 0 <= i < s.len() && 0 <= j < s.len() && i != j implies s[i] != s[j] by {
            if i < j { assert(s[i] < s[j]); } else { assert(s[j] < s[i]); }
        }
    } else {
        lemma_room_floor_empty_rows(m, room, room.y2 as int);
    }
}

/// The floor tiles of a row come out in increasing order, all within the row's columns.
proof fn lemma_row_floor_sorted(m: &GameMap, y: int, from: int, to: int)
    requires
        m.wf(),
        0 <= y < m.height,
        0 <= from,
        to <= m.width,
    ensures
        forall|i: int| 0 <= i < row_floor(m, y, from, to).len() ==>
            y * m.width + from <= #[trigger] row_floor(m, y, from, to)[i] < y * m.width + to,
        forall|i: int, j: int| 0 <= i < j < row_floor(m, y, from, to).len() ==>
            row_floor(m, y, from, to)[i] < row_floor(m, y, from, to)[j],
    decreases to - from,
{
    if to > from {
        lemma_row_floor_sorted(m, y, from, to - 1);
        let w = m.width as int;
        let idx = crate::map::spec_xy_idx(w, to - 1, y);
        assert(0 <= idx < w * m.height) by (nonlinear_arith)
            requires idx == y * w + (to - 1), 0 <= y < m.height, 0 <= from < to <= w;
        assert(idx as usize == idx);
        let prev = row_floor(m, y, from, to - 1);
        let s = row_floor(m, y, from, to);
        if m.tiles@[idx] == TileType::Floor {
            assert(s == prev.push(idx as usize));
            assert forall|i: int| 0 <= i < s.len() implies y * m.width + from <= #[trigger] s[i] < y * m.width + to by {
                if i < prev.len() { assert(s[i] == prev[i]); }
            }
            assert forall|i: int, j: int| 0 <= i < j < s.len() implies s[i] < s[j] by {
                assert(s[i] == prev[i]);
                if j < prev.len() { assert(s[j] == prev[j]); }
            }
        } else {
            assert(s == prev);
        }
    }
}

/// The floor tiles of a room come out in increasing order, all before row `to`.
proof fn lemma_room_floor_sorted(m: &GameMap, room: Rect, to: int)
    requires
        m.wf(),
        room_on_map(m, room),
        room.x1 + 1 < room.x2,
        room.y1 + 1 < room.y2,
        to <= room.y2,
    ensures
        forall|i: int| 0 <= i < room_floor(m, room, to).len() ==>
            0 <= #[trigger] room_floor(m, room, to)[i] < to * m.width,
        forall|i: int, j: int| 0 <= i < j < room_floor(m, room, to).len() ==>
            room_floor(m, room, to)[i] < room_floor(m, room, to)[j],
    decreases to - room.y1,
{
    if to > room.y1 + 1 {
        lemma_room_floor_sorted(m, room, to - 1);
        let w = m.width as int;
        let y = to - 1;
        lemma_row_floor_sorted(m, y, room.x1 + 1, room.x2 as int);
        let prev = room_floor(m, room, y);
        let row = row_floor(m, y, room.x1 + 1, room.x2 as int);
        let s = room_floor(m, room, to);
        assert(s == prev + row);
        assert(y * w + w == to * w) by (nonlinear_arith) requires y == to - 1;
        assert(0 <= y * w) by (nonlinear_arith) requires 0 <= y, 0 < w;
        assert forall|i: int| 0 <= i < s.len() implies 0 <= #[trigger] s[i] < to * w by {
            if i >= prev.len() { assert(s[i] == row[i - prev.len()]); }
        }
        assert forall|i: int, j: int| 0 <= i < j < s.len() implies s[i] < s[j] by {
            if j < prev.len() {
            } else if i >= prev.len() {
                assert(s[i] == row[i - prev.len()]);
                assert(s[j] == row[j - prev.len()]);
            } else {
                assert(s[j] == row[j - prev.len()]);
                assert(s[i] == prev[i]);
            }
        }
    }
}

proof fn lemma_row_floor_len(m: &GameMap, y: int, from: int, to: int)
    ensures
        row_floor(m, y, from, to).len() <= if to > from { to - from } else { 0 },
    decreases to - from,
{
    if to > from {
        lemma_row_floor_len(m, y, from, to - 1);
    }
}

proof fn lemma_room_floor_len(m: &GameMap, room: Rect, to: int)
    requires
        m.wf(),
        room_on_map(m, room),
        to <= room.y2,
    ensures
        room_floor(m, room, to).len() <= m.tiles@.len(),
    decreases to - room.y1,
{
    lemma_room_floor_rows(m, room, to);
    if to > room.y1 + 1 {
        let wd = if room.x2 > room.x1 + 1 { room.x2 - room.x1 - 1 } else { 0 };
        let k = to - room.y1 - 1;
        if wd > 0 {
            assert(0 <= k <= m.height);
            assert(0 <= wd <= m.width);
            assert(k * wd <= m.width * m.height) by (nonlinear_arith)
                requires 0 <= k <= m.height, 0 <= wd <= m.width;
        } else {
            assert(k * wd == 0) by (nonlinear_arith) requires wd == 0;
        }
    }
}

proof fn lemma_room_floor_rows(m: &GameMap, room: Rect, to: int)
    requires
        m.wf(),
        room_on_map(m, room),
        to <= room.y2,
    ensures
        room_floor(m, room, to).len() <= (if to > room.y1 + 1 { (to - room.y1 - 1) * (if room.x2 > room.x1 + 1 { room.x2 - room.x1 - 1 } else { 0 }) } else { 0 }),
    decreases to - room.y1,
{
    if to > room.y1 + 1 {
        lemma_room_floor_rows(m, room, to - 1);
        lemma_row_floor_len(m, to - 1, room.x1 + 1, room.x2 as int);
        let wd = if room.x2 > room.x1 + 1 { room.x2 - room.x1 - 1 } else { 0 };
        let k = to - room.y1 - 1;
        assert((k - 1) * wd + wd == k * wd) by (nonlinear_arith);
    }
}

} // verus!
