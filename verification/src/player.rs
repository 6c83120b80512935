//! The player's turn: moving, bumping into things, stairs, picking up, resting, and
//! the hotkeys.

use vstd::prelude::*;
use rltk::RandomNumberGenerator;
use crate::components::{Entity, HungerState, Pool, Pools, Position};
use crate::font::{cp437, to_cp437};
use crate::item_use_system::{contents_at, contents_upto, indexed_at, refs_ok, tile_contents};
use crate::keys::{Key, digit_key, spec_digit_key};
use crate::map::{TileType, spec_xy_idx};
use crate::rng::roll_dice;
use crate::run_state::{RunState, VendorMode};
use crate::world::{Ent, Point, Viewshed, WantsToCastSpell, WantsToPickupItem, WantsToUseItem, World, WorldView, lemma_names_view_push, lemma_update_keeps_refs, names_view, refs_in};

verus! {

/// Tiles a creature can stand on.
pub open spec fn tile_walkable(t: TileType) -> bool {
    t != TileType::Wall && t != TileType::DeepWater
}

pub fn is_tile_walkable(t: TileType) -> (b: bool)
    ensures
        b == tile_walkable(t),
{
    t != TileType::Wall && t != TileType::DeepWater
}

pub open spec fn player_tile(w: WorldView) -> Option<int> {
    if 0 <= w.player_pos.x < w.map_width && 0 <= w.player_pos.y < w.map_height {
        Some(spec_xy_idx(w.map_width as int, w.player_pos.x as int, w.player_pos.y as int))
    } else {
        None
    }
}

fn player_tile_idx(w: &World) -> (r: Option<usize>)
    requires
        w.wf(),
    ensures
        r matches Some(i) ==> player_tile(w.view()) == Some(i as int) && i < w.view().tiles.len(),
        r is None ==> player_tile(w.view()) is None,
{
    let p = w.player_pos;
    if 0 <= p.x && p.x < w.map.width && 0 <= p.y && p.y < w.map.height {
        Some(w.map.xy_idx(p.x, p.y))
    } else {
        None
    }
}

/// Whether the player stands on a down staircase; if not, the log says so.
pub open spec fn spec_try_next_level(w: WorldView) -> (WorldView, bool) {
    if player_tile(w) matches Some(i) && w.tiles[i] == TileType::DownStairs {
        (w, true)
    } else {
        (WorldView { log: w.log.push("There is no way down from here"@), ..w }, false)
    }
}

/// Whether the player stands on an up staircase; if not, the log says so.
pub open spec fn spec_try_previous_level(w: WorldView) -> (WorldView, bool) {
    if player_tile(w) matches Some(i) && w.tiles[i] == TileType::UpStairs {
        (w, true)
    } else {
        (WorldView { log: w.log.push("There is no way up from here"@), ..w }, false)
    }
}

fn push_log(w: &mut World, msg: &str)
    requires
        old(w).wf(),
    ensures
        final(w).wf(),
        final(w).view() == (WorldView { log: old(w).view().log.push(msg@), ..old(w).view() }),
{
    let ghost before = w.log.entries@;
    let m = String::from_str(msg);
    w.log.entries.push(m);
    proof { lemma_names_view_push(before, m); }
}

pub fn try_next_level(w: &mut World) -> (b: bool)
    requires
        old(w).wf(),
    ensures
        final(w).wf(),
        (final(w).view(), b) == spec_try_next_level(old(w).view()),
{
    if let Some(i) = player_tile_idx(w) {
        if w.map.tiles[i] == TileType::DownStairs {
            return true;
        }
    }
    push_log(w, "There is no way down from here");
    false
}

pub fn try_previous_level(w: &mut World) -> (b: bool)
    requires
        old(w).wf(),
    ensures
        final(w).wf(),
        (final(w).view(), b) == spec_try_previous_level(old(w).view()),
{
    if let Some(i) = player_tile_idx(w) {
        if w.map.tiles[i] == TileType::UpStairs {
            return true;
        }
    }
    push_log(w, "There is no way up from here");
    false
}

// ----- picking up -----

/// The first item (in entity order, among the first `n`) lying where the player stands.
pub open spec fn item_here(w: WorldView, n: nat) -> Option<Entity>
    decreases n,
{
    if n == 0 {
        None
    } else {
        match item_here(w, (n - 1) as nat) {
            Some(i) => Some(i),
            None => {
                let e = w.ents[n - 1];
                if e.alive && e.item && (e.position matches Some(p) && p.x == w.player_pos.x && p.y == w.player_pos.y) {
                    Some((n - 1) as Entity)
                } else {
                    None
                }
            },
        }
    }
}

#[verifier::opaque]
pub open spec fn wants_pickup(e: Ent, item: Entity, by: Entity) -> Ent {
    Ent { wants_to_pickup: Some(WantsToPickupItem { collected_by: by, item }), ..e }
}

/// The player asks to pick up the first item where they stand, or hears that there is
/// nothing there.
pub open spec fn spec_get_item(w: WorldView) -> WorldView {
    match item_here(w, w.ents.len()) {
        None => WorldView { log: w.log.push("There is nothing here to pick up"@), ..w },
        Some(item) => WorldView { ents: w.ents.update(w.player as int, wants_pickup(w.ents[w.player as int], item, w.player)), ..w },
    }
}

proof fn lemma_item_here_bound(w: WorldView, n: nat)
    requires
        n <= w.ents.len(),
        n <= usize::MAX,
    ensures
        item_here(w, n) matches Some(i) ==> i < n,
    decreases n,
{
    if n > 0 {
        lemma_item_here_bound(w, (n - 1) as nat);
    }
}

pub fn get_item(w: &mut World)
    requires
        old(w).wf(),
    ensures
        final(w).wf(),
        final(w).view() == spec_get_item(old(w).view()),
{
    let ghost start = w.view();
    let n = w.ents.len();
    let mut found: Option<Entity> = None;
    let mut k: usize = 0;
    while k < n
        invariant
            k <= n,
            n == start.ents.len(),
            w.view() == start,
            found == item_here(start, k as nat),
        decreases n - k,
    {
        if found.is_none() {
            let e = w.ents[k];
            if e.alive && e.item {
                if let Some(p) = e.position {
                    if p.x == w.player_pos.x && p.y == w.player_pos.y {
                        found = Some(k);
                    }
                }
            }
        }
        k = k + 1;
    }
    proof { lemma_item_here_bound(start, n as nat); }
    match found {
        None => push_log(w, "There is nothing here to pick up"),
        Some(item) => {
            let p = w.player;
            let e = w.ents[p];
            let e2 = Ent { wants_to_pickup: Some(WantsToPickupItem { collected_by: p, item }), ..e };
            proof {
                reveal(wants_pickup);
                assert(e2 == wants_pickup(e, item, p));
                assert(refs_in(e, n as int));
                lemma_update_keeps_refs(w.ents@, p as int, e2);
            }
            w.ents.set(p, e2);
        },
    }
}

// ----- hotkeys -----

/// The consumables the player carries, among the first `n` entities, in order.
pub open spec fn carried_consumables(w: WorldView, n: nat) -> Seq<Entity>
    decreases n,
{
    if n == 0 {
        Seq::empty()
    } else {
        let prev = carried_consumables(w, (n - 1) as nat);
        let e = w.ents[n - 1];
        if e.alive && e.consumable is Some && (e.in_backpack matches Some(b) && b.owner == w.player) {
            prev.push((n - 1) as Entity)
        } else {
            prev
        }
    }
}

#[verifier::opaque]
pub open spec fn wants_use(e: Ent, item: Entity) -> Ent {
    Ent { wants_to_use: Some(WantsToUseItem { item, target: None }), ..e }
}

/// Hotkey `key` (0 for the first) uses the matching carried consumable: an item with a
/// range asks for a target first; otherwise the player asks to use it.
pub open spec fn spec_use_consumable_hotkey(w: WorldView, key: i32) -> (WorldView, RunState) {
    let carried = carried_consumables(w, w.ents.len());
    if 0 <= key < carried.len() {
        let item = carried[key as int];
        match w.ents[item as int].ranged {
            Some(r) => (w, RunState::ShowTargeting { range: r, item }),
            None => (
                WorldView { ents: w.ents.update(w.player as int, wants_use(w.ents[w.player as int], item)), ..w },
                RunState::Ticking,
            ),
        }
    } else {
        (w, RunState::Ticking)
    }
}

pub fn use_consumable_hotkey(w: &mut World, key: i32) -> (r: RunState)
    requires
        old(w).wf(),
    ensures
        final(w).wf(),
        (final(w).view(), r) == spec_use_consumable_hotkey(old(w).view(), key),
{
    let ghost start = w.view();
    let n = w.ents.len();
    let mut carried: Vec<Entity> = Vec::new();
    let mut k: usize = 0;
    while k < n
        invariant
            k <= n,
            n == start.ents.len(),
            w.view() == start,
            carried@ == carried_consumables(start, k as nat),
            forall|j: int| 0 <= j < carried@.len() ==> #[trigger] carried@[j] < k,
        decreases n - k,
    {
        let e = w.ents[k];
        if e.alive && e.consumable.is_some() {
            if let Some(b) = e.in_backpack {
                if b.owner == w.player {
                    carried.push(k);
                }
            }
        }
        k = k + 1;
    }
    if 0 <= key && (key as usize) < carried.len() {
        let item = carried[key as usize];
        match w.ents[item].ranged {
            Some(r) => RunState::ShowTargeting { range: r, item },
            None => {
                let p = w.player;
                let e = w.ents[p];
                let e2 = Ent { wants_to_use: Some(WantsToUseItem { item, target: None }), ..e };
                proof {
                    reveal(wants_use);
                    assert(e2 == wants_use(e, item));
                    assert(refs_in(e, n as int));
                    lemma_update_keeps_refs(w.ents@, p as int, e2);
                }
                w.ents.set(p, e2);
                RunState::Ticking
            },
        }
    } else {
        RunState::Ticking
    }
}

// ----- resting -----

/// A hostile creature stands on one of the first `n` tiles the player sees.
pub open spec fn hostile_in_view(w: WorldView, visible: Seq<Point>, n: nat) -> bool
    decreases n,
{
    if n == 0 {
        false
    } else {
        hostile_in_view(w, visible, (n - 1) as nat) || {
            let p = visible[n - 1];
            0 <= p.x < w.map_width && 0 <= p.y < w.map_height && exists|k: int|
                0 <= k < w.ents.len() && #[trigger] indexed_at(w.ents[k], w.map_width as int, w.map_height as int,
                    spec_xy_idx(w.map_width as int, p.x as int, p.y as int)) && w.ents[k].faction_hostile == Some(true)
        }
    }
}

/// The player may heal while resting unless an enemy is in view or they are hungry.
pub open spec fn can_heal(w: WorldView, visible: Seq<Point>) -> bool {
    &&& !hostile_in_view(w, visible, visible.len())
    &&& !(w.ents[w.player as int].hunger matches Some(c) && (c.state == HungerState::Hungry || c.state == HungerState::Starving))
}

/// One more hit point, and one more point of mana when `mana_roll` is 1, each capped
/// at its maximum (a pool above its maximum drops to it).
pub open spec fn rested(p: Pools, mana_roll: i32) -> Pools {
    let hp = if p.hit_points.current + 1 < p.hit_points.max { p.hit_points.current + 1 } else { p.hit_points.max as int };
    let mana = if mana_roll == 1 {
        if p.mana.current + 1 < p.mana.max { p.mana.current + 1 } else { p.mana.max as int }
    } else {
        p.mana.current as int
    };
    Pools { hit_points: Pool { current: hp as i32, ..p.hit_points }, mana: Pool { current: mana as i32, ..p.mana }, ..p }
}

/// Whether resting can be carried out: a player who may heal has pools, and each pool
/// can count up once more within `i32`.
pub open spec fn rest_ok(w: WorldView, visible: Seq<Point>) -> bool {
    can_heal(w, visible) ==> (w.ents[w.player as int].pools matches Some(p)
        && p.hit_points.current < i32::MAX && p.mana.current < i32::MAX)
}

#[verifier::opaque]
pub open spec fn with_rest(e: Ent, p: Pools) -> Ent {
    Ent { pools: Some(p), ..e }
}

/// Resting: when the player may heal and has pools, they rest with the given d6 roll.
pub open spec fn spec_skip_turn(w: WorldView, visible: Seq<Point>, mana_roll: i32) -> WorldView {
    let e = w.ents[w.player as int];
    if can_heal(w, visible) {
        WorldView { ents: w.ents.update(w.player as int, with_rest(e, rested(e.pools->0, mana_roll))), ..w }
    } else {
        w
    }
}

/// `cur + 1`, but no more than `max`.
fn raised_once(cur: i32, max: i32) -> (r: i32)
    requires
        cur < i32::MAX,
    ensures
        r == (if cur + 1 < max { cur + 1 } else { max as int }),
{
    if cur + 1 < max { cur + 1 } else { max }
}

fn hostile_at(w: &World, p: Point) -> (b: bool)
    requires
        w.wf(),
    ensures
        b == (0 <= p.x < w.view().map_width && 0 <= p.y < w.view().map_height && exists|k: int|
            0 <= k < w.view().ents.len() && #[trigger] indexed_at(w.view().ents[k], w.view().map_width as int, w.view().map_height as int,
                spec_xy_idx(w.view().map_width as int, p.x as int, p.y as int)) && w.view().ents[k].faction_hostile == Some(true)),
{
    if !(0 <= p.x && p.x < w.map.width && 0 <= p.y && p.y < w.map.height) {
        return false;
    }
    let idx = w.map.xy_idx(p.x, p.y);
    let ghost v = w.view();
    let n = w.ents.len();
    let mut k: usize = 0;
    while k < n
        invariant
            k <= n,
            n == v.ents.len(),
            v == w.view(),
            w.wf(),
            0 <= p.x < v.map_width && 0 <= p.y < v.map_height,
            idx == spec_xy_idx(v.map_width as int, p.x as int, p.y as int),
            forall|j: int| 0 <= j < k ==> !(#[trigger] indexed_at(v.ents[j], v.map_width as int, v.map_height as int, idx as int) && v.ents[j].faction_hostile == Some(true)),
        decreases n - k,
    {
        let e = w.ents[k];
        let mut here = false;
        if e.alive {
            if let Some(q) = e.position {
                if 0 <= q.x && q.x < w.map.width && 0 <= q.y && q.y < w.map.height {
                    let dead = match e.pools {
                        Some(pl) => pl.hit_points.current < 1,
                        None => false,
                    };
                    here = !dead && w.map.xy_idx(q.x, q.y) == idx;
                }
            }
        }
        if here && e.faction_hostile == Some(true) {
            proof { assert(indexed_at(v.ents[k as int], v.map_width as int, v.map_height as int, idx as int)); }
            return true;
        }
        k = k + 1;
    }
    false
}

/// Whether an enemy stands on one of the `visible` tiles.
fn hostile_in_sight(w: &World, visible: &Vec<Point>) -> (b: bool)
    requires
        w.wf(),
    ensures
        b == hostile_in_view(w.view(), visible@, visible@.len()),
{
    let mut hostile = false;
    let mut k: usize = 0;
    while k < visible.len()
        invariant
            k <= visible@.len(),
            w.wf(),
            hostile == hostile_in_view(w.view(), visible@, k as nat),
        decreases visible@.len() - k,
    {
        if !hostile {
            hostile = hostile_at(w, visible[k]);
        }
        k = k + 1;
    }
    hostile
}

/// Whether the player can rest this turn without a pool overflowing or missing: tests
/// `rest_ok`, which `skip_turn` requires.
pub fn can_rest(w: &World, visible: &Vec<Point>) -> (b: bool)
    requires
        w.wf(),
    ensures
        b == rest_ok(w.view(), visible@),
{
    let hostile = hostile_in_sight(w, visible);
    let e = w.ents[w.player];
    let hungry = match e.hunger {
        Some(c) => c.state == HungerState::Hungry || c.state == HungerState::Starving,
        None => false,
    };
    if hostile || hungry {
        return true;
    }
    match e.pools {
        Some(p) => p.hit_points.current < i32::MAX && p.mana.current < i32::MAX,
        None => false,
    }
}

/// Skips the player's turn; a player who may heal rests, regaining a hit point and,
/// on a d6 roll of 1, a point of mana. `visible` lists the tiles the player sees.
pub fn skip_turn(w: &mut World, visible: &Vec<Point>, rng: &mut RandomNumberGenerator) -> (r: RunState)
    requires
        old(w).wf(),
        rest_ok(old(w).view(), visible@),
    ensures
        final(w).wf(),
        r == RunState::Ticking,
        exists|mana_roll: i32| 1 <= mana_roll <= 6 && final(w).view() == spec_skip_turn(old(w).view(), visible@, mana_roll),
{
    let ghost start = w.view();
    let hostile = hostile_in_sight(w, visible);
    let p = w.player;
    let e = w.ents[p];
    let hungry = match e.hunger {
        Some(c) => c.state == HungerState::Hungry || c.state == HungerState::Starving,
        None => false,
    };
    if !hostile && !hungry {
        if let Some(pools) = e.pools {
            let hp = raised_once(pools.hit_points.current, pools.hit_points.max);
            let roll = roll_dice(rng, 1, 6);
            let mana = if roll == 1 { raised_once(pools.mana.current, pools.mana.max) } else { pools.mana.current };
            let np = Pools { hit_points: Pool { current: hp, ..pools.hit_points }, mana: Pool { current: mana, ..pools.mana }, ..pools };
            proof { assert(np == rested(pools, roll)); }
            let e2 = Ent { pools: Some(np), ..e };
            proof {
                reveal(with_rest);
                assert(e2 == with_rest(e, np));
                assert(refs_in(e, w.ents@.len() as int));
                lemma_update_keeps_refs(w.ents@, p as int, e2);
            }
            w.ents.set(p, e2);
            proof { assert(w.view() == spec_skip_turn(start, visible@, roll)); }
            return RunState::Ticking;
        }
    }
    proof { assert(w.view() == spec_skip_turn(start, visible@, 1)); }
    RunState::Ticking
}


// ----- moving -----

/// What bumping into an entity does.
#[derive(Clone, Copy, Debug, PartialEq, Eq, Structural)]
pub enum Bump {
    Trade,
    Swap,
    Attack,
    OpenDoor,
}

/// A vendor is traded with; a creature whose faction does not attack the player swaps
/// places with them; any other creature is attacked; a door is opened.
pub open spec fn bump_kind(e: Ent) -> Option<Bump> {
    if e.vendor {
        Some(Bump::Trade)
    } else if e.pools is Some && e.faction_hostile == Some(false) {
        Some(Bump::Swap)
    } else if e.pools is Some {
        Some(Bump::Attack)
    } else if e.door is Some {
        Some(Bump::OpenDoor)
    } else {
        None
    }
}

/// The first of the first `n` entities in `cs` that reacts to a bump.
pub open spec fn first_bump(w: WorldView, cs: Seq<Entity>, n: nat) -> Option<int>
    decreases n,
{
    if n == 0 {
        None
    } else {
        match first_bump(w, cs, (n - 1) as nat) {
            Some(k) => Some(k),
            None => if bump_kind(w.ents[cs[n - 1] as int]) is Some { Some(n - 1) } else { None },
        }
    }
}

/// Whether a tile blocks movement: its terrain does, or a blocking entity stands there.
pub open spec fn tile_blocked(w: WorldView, idx: int) -> bool {
    ||| !tile_walkable(w.tiles[idx])
    ||| exists|k: int| 0 <= k < w.ents.len() && #[trigger] indexed_at(w.ents[k], w.map_width as int, w.map_height as int, idx) && w.ents[k].blocks_tile
}

pub open spec fn clamp_to(v: int, hi: int) -> int {
    if v < 0 { if hi < 0 { hi } else { 0 } } else if v > hi { hi } else { v }
}

/// A creature moved to `pos`: it must look around again and its move is noted.
#[verifier::opaque]
pub open spec fn moved_to(e: Ent, pos: Position) -> Ent {
    Ent {
        position: Some(pos),
        entity_moved: true,
        viewshed: match e.viewshed { Some(v) => Some(Viewshed { dirty: true, ..v }), None => None },
        ..e
    }
}

#[verifier::opaque]
pub open spec fn opened(e: Ent) -> Ent {
    Ent { door: Some(true), blocks_visibility: false, blocks_tile: false, glyph: Some(cp437('/')), ..e }
}

#[verifier::opaque]
pub open spec fn looks_again(e: Ent) -> Ent {
    Ent { viewshed: match e.viewshed { Some(v) => Some(Viewshed { dirty: true, ..v }), None => None }, ..e }
}

#[verifier::opaque]
pub open spec fn attacks(e: Ent, target: Entity) -> Ent {
    Ent { wants_to_melee: Some(target), ..e }
}

#[verifier::opaque]
pub open spec fn placed_at(e: Ent, pos: Position) -> Ent {
    Ent { position: Some(pos), ..e }
}

/// The position one step of `(dx, dy)` from `pos`, kept on the map.
pub open spec fn stepped(w: WorldView, pos: Position, dx: int, dy: int) -> Position {
    Position {
        x: clamp_to(pos.x + dx, w.map_width - 1) as i32,
        y: clamp_to(pos.y + dy, w.map_height - 1) as i32,
    }
}

/// The player's move of `(dx, dy)`: the world afterwards and the mode that follows.
#[verifier::opaque]
/// Bumping into whatever stands on tile `dest` (where the player at `pos` steps with
/// `(dx, dy)`): the world afterwards, the mode, and the creature to swap places with.
pub open spec fn bump_stage(w: WorldView, pos: Position, dest: int, dx: i32, dy: i32) -> (WorldView, RunState, Option<(Entity, Position)>) {
    let p = w.player as int;
    let e = w.ents[p];
    let cs = tile_contents(w, dest);
    match first_bump(w, cs, cs.len()) {
        None => (w, RunState::AwaitingInput, None::<(Entity, Position)>),
        Some(k) => {
            let t = cs[k];
            match bump_kind(w.ents[t as int])->0 {
                Bump::Trade => (w, RunState::ShowVendor { vendor: t, mode: VendorMode::Sell }, None),
                Bump::Swap => {
                    let np = stepped(w, pos, dx as int, dy as int);
                    (WorldView {
                        ents: w.ents.update(p, moved_to(e, np)),
                        player_pos: Point { x: np.x, y: np.y },
                        ..w
                    }, RunState::Ticking, Some((t, pos)))
                },
                Bump::Attack => (WorldView { ents: w.ents.update(p, attacks(e, t)), ..w }, RunState::Ticking, None),
                Bump::OpenDoor => {
                    let ents1 = w.ents.update(t as int, opened(w.ents[t as int]));
                    (WorldView { ents: ents1.update(p, looks_again(ents1[p])), ..w }, RunState::Ticking, None)
                },
            }
        },
    }
}

#[verifier::opaque]
/// Walking onto tile `dest` of `w` when nothing blocks it: `w1` is the world after the
/// bump, `r1` the mode it chose.
pub open spec fn walk_stage(w: WorldView, w1: WorldView, r1: RunState, dest: int, dx: i32, dy: i32) -> (WorldView, RunState) {
    let p = w.player as int;
    if !tile_blocked(w, dest) {
        let cur = w1.ents[p].position->0;
        let np = stepped(w, cur, dx as int, dy as int);
        (WorldView {
            ents: w1.ents.update(p, moved_to(w1.ents[p], np)),
            player_pos: Point { x: np.x, y: np.y },
            ..w1
        }, if w.tiles[dest] == TileType::DownStairs {
            RunState::NextLevel
        } else if w.tiles[dest] == TileType::UpStairs {
            RunState::PreviousLevel
        } else {
            RunState::Ticking
        })
    } else {
        (w1, r1)
    }
}

/// The creature swapped with takes the player's old place.
pub open spec fn swap_stage(w2: WorldView, r2: RunState, swap: Option<(Entity, Position)>) -> (WorldView, RunState) {
    match swap {
        Some((t, old)) => if w2.ents[t as int].position is Some {
            (WorldView { ents: w2.ents.update(t as int, placed_at(w2.ents[t as int], old)), ..w2 }, RunState::Ticking)
        } else {
            (w2, r2)
        },
        None => (w2, r2),
    }
}

/// The player's move of `(dx, dy)`: the world afterwards and the mode that follows.
pub open spec fn spec_try_move_player(w: WorldView, dx: i32, dy: i32) -> (WorldView, RunState) {
    let p = w.player as int;
    let e = w.ents[p];
    if !(e.alive && e.player && e.position is Some && e.viewshed is Some) {
        (w, RunState::AwaitingInput)
    } else {
        let pos = e.position->0;
        let nx = pos.x + dx;
        let ny = pos.y + dy;
        if nx < 1 || nx > w.map_width - 1 || ny < 1 || ny > w.map_height - 1 {
            (w, RunState::AwaitingInput)
        } else {
            let dest = spec_xy_idx(w.map_width as int, nx, ny);
            let (w1, r1, swap) = bump_stage(w, pos, dest, dx, dy);
            let (w2, r2) = walk_stage(w, w1, r1, dest, dx, dy);
            swap_stage(w2, r2, swap)
        }
    }
}


pub(crate) proof fn lemma_first_bump(w: WorldView, cs: Seq<Entity>, n: nat)
    ensures
        first_bump(w, cs, n) matches Some(j) ==> 0 <= j < n && bump_kind(w.ents[cs[j] as int]) is Some,
    decreases n,
{
    if n > 0 {
        lemma_first_bump(w, cs, (n - 1) as nat);
    }
}

fn make_moved_to(e: Ent, pos: Position) -> (r: Ent)
    ensures
        r == moved_to(e, pos),
{
    proof { reveal(moved_to); }
    let vs = match e.viewshed {
        Some(v) => Some(Viewshed { dirty: true, ..v }),
        None => None,
    };
    Ent { position: Some(pos), entity_moved: true, viewshed: vs, ..e }
}

fn make_opened(e: Ent) -> (r: Ent)
    ensures
        r == opened(e),
{
    proof { reveal(opened); }
    let glyph = to_cp437('/');
    Ent { door: Some(true), blocks_visibility: false, blocks_tile: false, glyph: Some(glyph), ..e }
}

fn make_looks_again(e: Ent) -> (r: Ent)
    ensures
        r == looks_again(e),
{
    proof { reveal(looks_again); }
    let vs = match e.viewshed {
        Some(v) => Some(Viewshed { dirty: true, ..v }),
        None => None,
    };
    Ent { viewshed: vs, ..e }
}

fn make_attacks(e: Ent, target: Entity) -> (r: Ent)
    ensures
        r == attacks(e, target),
{
    proof { reveal(attacks); }
    Ent { wants_to_melee: Some(target), ..e }
}

fn make_placed_at(e: Ent, pos: Position) -> (r: Ent)
    ensures
        r == placed_at(e, pos),
{
    proof { reveal(placed_at); }
    Ent { position: Some(pos), ..e }
}

/// `v + d` kept within `0..=hi`.
fn clamp_step(v: i32, d: i32, hi: i32) -> (r: i32)
    requires
        0 <= hi,
    ensures
        r == clamp_to(v + d, hi as int),
{
    let s: i64 = v as i64 + d as i64;
    if s < 0 {
        0
    } else if s > hi as i64 {
        hi
    } else {
        s as i32
    }
}

fn step_from(w: &World, pos: Position, dx: i32, dy: i32) -> (r: Position)
    requires
        w.wf(),
    ensures
        r == stepped(w.view(), pos, dx as int, dy as int),
{
    Position { x: clamp_step(pos.x, dx, w.map.width - 1), y: clamp_step(pos.y, dy, w.map.height - 1) }
}

fn bump_of(e: &Ent) -> (b: Option<Bump>)
    ensures
        b == bump_kind(*e),
{
    if e.vendor {
        Some(Bump::Trade)
    } else if e.pools.is_some() && e.faction_hostile == Some(false) {
        Some(Bump::Swap)
    } else if e.pools.is_some() {
        Some(Bump::Attack)
    } else if e.door.is_some() {
        Some(Bump::OpenDoor)
    } else {
        None
    }
}

pub(crate) fn blocked_at(w: &World, idx: usize) -> (b: bool)
    requires
        w.wf(),
        idx < w.view().tiles.len(),
    ensures
        b == tile_blocked(w.view(), idx as int),
{
    if !is_tile_walkable(w.map.tiles[idx]) {
        return true;
    }
    let ghost v = w.view();
    let n = w.ents.len();
    let mut k: usize = 0;
    while k < n
        invariant
            k <= n,
            n == v.ents.len(),
            v == w.view(),
            w.wf(),
            forall|j: int| 0 <= j < k ==> !(#[trigger] indexed_at(v.ents[j], v.map_width as int, v.map_height as int, idx as int) && v.ents[j].blocks_tile),
        decreases n - k,
    {
        let e = w.ents[k];
        let mut here = false;
        if e.alive {
            if let Some(q) = e.position {
                if 0 <= q.x && q.x < w.map.width && 0 <= q.y && q.y < w.map.height {
                    let dead = match e.pools {
                        Some(pl) => pl.hit_points.current < 1,
                        None => false,
                    };
                    here = !dead && w.map.xy_idx(q.x, q.y) == idx;
                }
            }
        }
        if here && e.blocks_tile {
            proof { assert(indexed_at(v.ents[k as int], v.map_width as int, v.map_height as int, idx as int)); }
            return true;
        }
        k = k + 1;
    }
    false
}

/// Moves the player to `np`: the entity and the `player_pos` resource both follow.
fn move_player_to(w: &mut World, np: Position)
    requires
        old(w).wf(),
    ensures
        final(w).wf(),
        final(w).view() == (WorldView {
            ents: old(w).view().ents.update(old(w).view().player as int, moved_to(old(w).view().ents[old(w).view().player as int], np)),
            player_pos: Point { x: np.x, y: np.y },
            ..old(w).view()
        }),
{
    let p = w.player;
    let e = w.ents[p];
    let e2 = make_moved_to(e, np);
    proof {
        reveal(moved_to);
        assert(refs_in(e, w.ents@.len() as int));
        lemma_update_keeps_refs(w.ents@, p as int, e2);
    }
    w.ents.set(p, e2);
    w.player_pos = Point { x: np.x, y: np.y };
}

/// Replaces entity `i`'s record.
pub(crate) fn set_ent(w: &mut World, i: Entity, e: Ent)
    requires
        old(w).wf(),
        i < old(w).view().ents.len(),
        refs_in(e, old(w).view().ents.len() as int),
    ensures
        final(w).wf(),
        final(w).view() == (WorldView { ents: old(w).view().ents.update(i as int, e), ..old(w).view() }),
{
    proof { lemma_update_keeps_refs(w.ents@, i as int, e); }
    w.ents.set(i, e);
}

/// Moves the player by `(dx, dy)`: a vendor there opens the trade screen, a creature
/// that does not attack the player swaps places, any other creature is attacked, a
/// closed door opens; when nothing blocks the tile the player walks onto it, and a
/// staircase there leads to the next or previous level.
pub fn try_move_player(w: &mut World, dx: i32, dy: i32) -> (r: RunState)
    requires
        old(w).wf(),
    ensures
        final(w).wf(),
        (final(w).view(), r) == spec_try_move_player(old(w).view(), dx, dy),
{
    reveal(bump_stage);
    reveal(walk_stage);
    let ghost start = w.view();
    let p = w.player;
    let e = w.ents[p];
    if !(e.alive && e.player && e.position.is_some() && e.viewshed.is_some()) {
        return RunState::AwaitingInput;
    }
    let pos = e.position.unwrap();
    let nx: i64 = pos.x as i64 + dx as i64;
    let ny: i64 = pos.y as i64 + dy as i64;
    if nx < 1 || nx > w.map.width as i64 - 1 || ny < 1 || ny > w.map.height as i64 - 1 {
        return RunState::AwaitingInput;
    }
    let dest = w.map.xy_idx(nx as i32, ny as i32);
    let cs = contents_at(&w.ents, w.map.width, w.map.height, dest);
    assert(cs@ == tile_contents(start, dest as int));
    // The first entity there that reacts to a bump.
    let mut found: Option<usize> = None;
    let mut k: usize = 0;
    while k < cs.len()
        invariant
            k <= cs@.len(),
            w.view() == start,
            match found {
                Some(j) => first_bump(start, cs@, k as nat) == Some(j as int) && j < k,
                None => first_bump(start, cs@, k as nat) is None,
            },
            forall|j: int| 0 <= j < cs@.len() ==> #[trigger] cs@[j] < start.ents.len(),
        decreases cs@.len() - k,
    {
        if found.is_none() {
            if bump_of(&w.ents[cs[k]]).is_some() {
                found = Some(k);
            }
        }
        k = k + 1;
    }
    let blocked = blocked_at(w, dest);
    proof { lemma_first_bump(start, cs@, cs@.len()); }
    let mut result = RunState::AwaitingInput;
    let mut swap: Option<(Entity, Position)> = None;
    if let Some(j) = found {
        let t = cs[j];
        let kind = bump_of(&w.ents[t]).unwrap();
        match kind {
            Bump::Trade => {
                result = RunState::ShowVendor { vendor: t, mode: VendorMode::Sell };
            },
            Bump::Swap => {
                let np = step_from(w, pos, dx, dy);
                move_player_to(w, np);
                result = RunState::Ticking;
                swap = Some((t, pos));
            },
            Bump::Attack => {
                let e2 = make_attacks(e, t);
                proof {
                    reveal(attacks);
                    assert(refs_in(e, start.ents.len() as int));
                }
                set_ent(w, p, e2);
                result = RunState::Ticking;
            },
            Bump::OpenDoor => {
                let d = w.ents[t];
                let d2 = make_opened(d);
                proof {
                    reveal(opened);
                    assert(refs_in(d, start.ents.len() as int));
                }
                set_ent(w, t, d2);
                let e1 = w.ents[p];
                let e2 = make_looks_again(e1);
                proof {
                    reveal(looks_again);
                    assert(refs_in(e1, start.ents.len() as int));
                }
                set_ent(w, p, e2);
                result = RunState::Ticking;
            },
        }
    }
    let ghost w1 = w.view();
    assert(w1.ents[p as int].position is Some) by {
        reveal(moved_to);
        reveal(attacks);
        reveal(opened);
        reveal(looks_again);
    }
    if !blocked {
        let cur = w.ents[p].position.unwrap();
        let np = Position {
            x: clamp_step(cur.x, dx, w.map.width - 1),
            y: clamp_step(cur.y, dy, w.map.height - 1),
        };
        assert(np == stepped(start, cur, dx as int, dy as int));
        move_player_to(w, np);
        result = if w.map.tiles[dest] == TileType::DownStairs {
            RunState::NextLevel
        } else if w.map.tiles[dest] == TileType::UpStairs {
            RunState::PreviousLevel
        } else {
            RunState::Ticking
        };
    }
    if let Some((t, old_pos)) = swap {
        if w.ents[t].position.is_some() {
            let te = w.ents[t];
            let te2 = make_placed_at(te, old_pos);
            proof {
                reveal(placed_at);
                assert(refs_in(te, start.ents.len() as int));
            }
            set_ent(w, t, te2);
            result = RunState::Ticking;
        }
    }
    result
}


// ----- spells -----

/// The first of the first `n` entities that is a spell named `name`.
pub open spec fn find_spell(w: WorldView, name: Seq<char>, n: nat) -> Option<Entity>
    decreases n,
{
    if n == 0 {
        None
    } else {
        match find_spell(w, name, (n - 1) as nat) {
            Some(e) => Some(e),
            None => {
                let e = w.ents[n - 1];
                if e.alive && e.spell_template && e.has_name && w.names[n - 1] == name {
                    Some((n - 1) as Entity)
                } else {
                    None
                }
            },
        }
    }
}

proof fn lemma_find_spell_bound(w: WorldView, name: Seq<char>, n: nat)
    requires
        n <= w.ents.len(),
        n <= usize::MAX,
    ensures
        find_spell(w, name, n) matches Some(e) ==> e < n,
    decreases n,
{
    if n > 0 {
        lemma_find_spell_bound(w, name, (n - 1) as nat);
    }
}

proof fn lemma_find_spell_stable(w: WorldView, name: Seq<char>, a: nat, b: nat)
    requires
        a <= b,
        find_spell(w, name, a) is Some,
    ensures
        find_spell(w, name, b) == find_spell(w, name, a),
    decreases b - a,
{
    if a < b {
        lemma_find_spell_stable(w, name, a, (b - 1) as nat);
    }
}

/// The spell entity named `name`, if there is one.
pub fn find_spell_entity(w: &World, name: &String) -> (r: Option<Entity>)
    requires
        w.wf(),
    ensures
        r == find_spell(w.view(), name@, w.view().ents.len()),
        r matches Some(e) ==> e < w.view().ents.len(),
{
    let ghost v = w.view();
    let n = w.ents.len();
    let mut k: usize = 0;
    while k < n
        invariant
            k <= n,
            n == v.ents.len(),
            v == w.view(),
            w.wf(),
            find_spell(v, name@, k as nat) is None,
        decreases n - k,
    {
        let e = w.ents[k];
        if e.alive && e.spell_template && e.has_name && w.names[k].eq(name) {
            proof {
                assert(v.names[k as int] == w.names@[k as int]@);
                assert(find_spell(v, name@, (k + 1) as nat) == Some(k));
                lemma_find_spell_stable(v, name@, (k + 1) as nat, n as nat);
            }
            return Some(k);
        }
        proof { assert(v.names[k as int] == w.names@[k as int]@); }
        k = k + 1;
    }
    None
}

#[verifier::opaque]
pub open spec fn wants_cast(e: Ent, spell: Entity) -> Ent {
    Ent { wants_to_cast: Some(WantsToCastSpell { spell, target: None }), ..e }
}

/// Hotkey `key` (0 for the first) casts the matching known spell when the player has
/// the mana for it: a spell with a range asks for a target first, any other spell is
/// cast at once; without the mana, the log says so.
pub open spec fn spec_use_spell_hotkey(w: WorldView, key: i32) -> (WorldView, RunState) {
    if 0 <= key < w.known_spells.len() {
        let spell = w.known_spells[key as int];
        let mana = w.ents[w.player as int].pools->0.mana.current;
        if mana >= spell.1 {
            match find_spell(w, spell.0, w.ents.len()) {
                Some(se) => match w.ents[se as int].ranged {
                    Some(r) => (w, RunState::ShowTargeting { range: r, item: se }),
                    None => (
                        WorldView { ents: w.ents.update(w.player as int, wants_cast(w.ents[w.player as int], se)), ..w },
                        RunState::Ticking,
                    ),
                },
                None => (w, RunState::Ticking),
            }
        } else {
            (WorldView { log: w.log.push("You don't have enough mana to cast that!"@), ..w }, RunState::Ticking)
        }
    } else {
        (w, RunState::Ticking)
    }
}

/// Casting spell `key` reads the player's mana, so the player needs pools.
pub open spec fn spell_key_needs_pools(w: WorldView, key: i32) -> bool {
    0 <= key < w.known_spells.len() ==> w.ents[w.player as int].pools is Some
}

pub fn use_spell_hotkey(w: &mut World, key: i32) -> (r: RunState)
    requires
        old(w).wf(),
        spell_key_needs_pools(old(w).view(), key),
    ensures
        final(w).wf(),
        (final(w).view(), r) == spec_use_spell_hotkey(old(w).view(), key),
{
    if !(0 <= key && (key as usize) < w.known_spells.len()) {
        return RunState::Ticking;
    }
    let ki = key as usize;
    let p = w.player;
    let mana = w.ents[p].pools.unwrap().mana.current;
    if mana >= w.known_spells[ki].mana_cost {
        match find_spell_entity(w, &w.known_spells[ki].display_name) {
            Some(se) => match w.ents[se].ranged {
                Some(r) => RunState::ShowTargeting { range: r, item: se },
                None => {
                    let e = w.ents[p];
                    let e2 = Ent { wants_to_cast: Some(WantsToCastSpell { spell: se, target: None }), ..e };
                    proof {
                        reveal(wants_cast);
                        assert(e2 == wants_cast(e, se));
                        assert(refs_in(e, w.ents@.len() as int));
                    }
                    set_ent(w, p, e2);
                    RunState::Ticking
                },
            },
            None => RunState::Ticking,
        }
    } else {
        push_log(w, "You don't have enough mana to cast that!");
        RunState::Ticking
    }
}

// ----- the player's turn -----

/// What the player's key press does, with `mana_roll` the d6 that resting rolls.
pub open spec fn spec_player_input(w: WorldView, key: Option<Key>, shift: bool, control: bool, visible: Seq<Point>, mana_roll: i32) -> (WorldView, RunState) {
    match key {
        None => (w, RunState::AwaitingInput),
        Some(k) => {
            if shift && spec_digit_key(k) is Some {
                spec_use_consumable_hotkey(w, (spec_digit_key(k)->0 - 1) as i32)
            } else if control && spec_digit_key(k) is Some {
                spec_use_spell_hotkey(w, (spec_digit_key(k)->0 - 1) as i32)
            } else {
                match k {
                    Key::Left | Key::Numpad4 | Key::H => spec_try_move_player(w, -1i32, 0i32),
                    Key::Right | Key::Numpad6 | Key::L => spec_try_move_player(w, 1i32, 0i32),
                    Key::Up | Key::Numpad8 | Key::K => spec_try_move_player(w, 0i32, -1i32),
                    Key::Down | Key::Numpad2 | Key::J => spec_try_move_player(w, 0i32, 1i32),
                    Key::Numpad9 | Key::U => spec_try_move_player(w, 1i32, -1i32),
                    Key::Numpad7 | Key::Y => spec_try_move_player(w, -1i32, -1i32),
                    Key::Numpad3 | Key::N => spec_try_move_player(w, 1i32, 1i32),
                    Key::Numpad1 | Key::B => spec_try_move_player(w, -1i32, 1i32),
                    Key::Numpad5 | Key::Space => (spec_skip_turn(w, visible, mana_roll), RunState::Ticking),
                    Key::Period => {
                        let (w1, b) = spec_try_next_level(w);
                        (w1, if b { RunState::NextLevel } else { RunState::Ticking })
                    },
                    Key::Comma => {
                        let (w1, b) = spec_try_previous_level(w);
                        (w1, if b { RunState::PreviousLevel } else { RunState::Ticking })
                    },
                    Key::Escape => (w, RunState::SaveGame),
                    Key::Backslash => (w, RunState::ShowCheatMenu),
                    Key::D => (w, RunState::ShowDropItem),
                    Key::G => (spec_get_item(w), RunState::Ticking),
                    Key::I => (w, RunState::ShowInventory),
                    Key::R => (w, RunState::ShowRemoveItem),
                    _ => (w, RunState::AwaitingInput),
                }
            }
        },
    }
}

/// A key that casts a spell reads the player's mana, so the player needs pools then; a
/// key that rests needs what resting needs (`rest_ok`).
pub open spec fn input_needs_pools(w: WorldView, key: Option<Key>, shift: bool, control: bool, visible: Seq<Point>) -> bool {
    match key {
        Some(k) => {
            &&& !(shift && spec_digit_key(k) is Some) && control && spec_digit_key(k) is Some
                ==> spell_key_needs_pools(w, (spec_digit_key(k)->0 - 1) as i32)
            &&& (k == Key::Numpad5 || k == Key::Space) ==> rest_ok(w, visible)
        },
        None => true,
    }
}

/// The player's turn: reacts to the key pressed this frame (`None` when none was), with
/// shift or control held; `visible` lists the tiles the player sees.
pub fn player_input(w: &mut World, key: Option<Key>, shift: bool, control: bool, visible: &Vec<Point>, rng: &mut RandomNumberGenerator) -> (r: RunState)
    requires
        old(w).wf(),
        input_needs_pools(old(w).view(), key, shift, control, visible@),
    ensures
        final(w).wf(),
        exists|mana_roll: i32| 1 <= mana_roll <= 6 && (final(w).view(), r) == spec_player_input(old(w).view(), key, shift, control, visible@, mana_roll),
{
    let ghost start = w.view();
    let k = match key {
        None => {
            assert(spec_player_input(start, key, shift, control, visible@, 1) == (start, RunState::AwaitingInput));
            return RunState::AwaitingInput;
        },
        Some(k) => k,
    };
    let r = if shift && digit_key(k).is_some() {
        use_consumable_hotkey(w, digit_key(k).unwrap() - 1)
    } else if control && digit_key(k).is_some() {
        use_spell_hotkey(w, digit_key(k).unwrap() - 1)
    } else {
        match k {
            Key::Left | Key::Numpad4 | Key::H => try_move_player(w, -1, 0),
            Key::Right | Key::Numpad6 | Key::L => try_move_player(w, 1, 0),
            Key::Up | Key::Numpad8 | Key::K => try_move_player(w, 0, -1),
            Key::Down | Key::Numpad2 | Key::J => try_move_player(w, 0, 1),
            Key::Numpad9 | Key::U => try_move_player(w, 1, -1),
            Key::Numpad7 | Key::Y => try_move_player(w, -1, -1),
            Key::Numpad3 | Key::N => try_move_player(w, 1, 1),
            Key::Numpad1 | Key::B => try_move_player(w, -1, 1),
            Key::Numpad5 | Key::Space => {
                let r = skip_turn(w, visible, rng);
                let ghost roll = choose|mana_roll: i32| 1 <= mana_roll <= 6 && w.view() == spec_skip_turn(start, visible@, mana_roll);
                assert((w.view(), r) == spec_player_input(start, key, shift, control, visible@, roll));
                return r;
            },
            Key::Period => if try_next_level(w) { RunState::NextLevel } else { RunState::Ticking },
            Key::Comma => if try_previous_level(w) { RunState::PreviousLevel } else { RunState::Ticking },
            Key::Escape => RunState::SaveGame,
            Key::Backslash => RunState::ShowCheatMenu,
            Key::D => RunState::ShowDropItem,
            Key::G => {
                get_item(w);
                RunState::Ticking
            },
            Key::I => RunState::ShowInventory,
            Key::R => RunState::ShowRemoveItem,
            _ => RunState::AwaitingInput,
        }
    };
    assert((w.view(), r) == spec_player_input(start, key, shift, control, visible@, 1));
    r
}


} // verus!
