//! Using items: equipping, healing, eating, reading scrolls, and items that harm or
//! confuse whoever stands where they are aimed.

use vstd::prelude::*;
use crate::combat::clamp_i32;
use crate::components::{EquipmentSlot, Equipped, Entity, HungerClock, HungerState, InBackpack, Pool, Pools};
use crate::font::{cp437, to_cp437};
use crate::inventory_system::{marked_changed, unequipped_to};
use crate::logger::{NamedColor, decimal, int_to_string};
use crate::map::spec_xy_idx;
use crate::run_state::RunState;
use crate::world::{Effect, EffectType, Ent, Point, Targets, WantsToUseItem, World, WorldView, lemma_names_view_push, lemma_update_keeps_refs, names_view, refs_in, spec_deleted};

verus! {

// ----- who an item reaches -----

/// Whether entity `e` is listed as standing on tile `idx` of a map `w` by `h`: it is
/// alive, on the map there, and not a creature at zero hit points.
pub open spec fn indexed_at(e: Ent, w: int, h: int, idx: int) -> bool {
    &&& e.alive
    &&& e.position is Some
    &&& 0 <= e.position->0.x < w
    &&& 0 <= e.position->0.y < h
    &&& spec_xy_idx(w, e.position->0.x as int, e.position->0.y as int) == idx
    &&& !(e.pools is Some && e.pools->0.hit_points.current < 1)
}

/// The entities among the first `n` that stand on tile `idx`, in entity order.
pub open spec fn contents_upto(ents: Seq<Ent>, w: int, h: int, idx: int, n: nat) -> Seq<Entity>
    decreases n,
{
    if n == 0 {
        Seq::empty()
    } else {
        let prev = contents_upto(ents, w, h, idx, (n - 1) as nat);
        if indexed_at(ents[n - 1], w, h, idx) { prev.push((n - 1) as Entity) } else { prev }
    }
}

pub open spec fn tile_contents(v: WorldView, idx: int) -> Seq<Entity> {
    contents_upto(v.ents, v.map_width as int, v.map_height as int, idx, v.ents.len())
}

/// The blast tiles that lie inside the map's outer wall.
pub open spec fn kept_tiles(pts: Seq<Point>, w: int, h: int, n: nat) -> Seq<Point>
    decreases n,
{
    if n == 0 {
        Seq::empty()
    } else {
        let prev = kept_tiles(pts, w, h, (n - 1) as nat);
        let p = pts[n - 1];
        if 0 < p.x < w - 1 && 0 < p.y < h - 1 { prev.push(p) } else { prev }
    }
}

/// Everyone standing on the first `n` of `tiles`, tile by tile.
pub open spec fn blast_targets(v: WorldView, tiles: Seq<Point>, n: nat) -> Seq<Entity>
    decreases n,
{
    if n == 0 {
        Seq::empty()
    } else {
        blast_targets(v, tiles, (n - 1) as nat) + tile_contents(
            v,
            spec_xy_idx(v.map_width as int, tiles[n - 1].x as int, tiles[n - 1].y as int),
        )
    }
}

/// Who a use reaches: with an aim and an area item, everyone in the blast; with an aim,
/// everyone on the aimed tile; without an aim, the player.
pub open spec fn use_targets(v: WorldView, u: WantsToUseItem, tiles: Seq<Point>) -> Seq<Entity> {
    match u.target {
        None => seq![v.player],
        Some(p) => if v.ents[u.item as int].aoe_radius is Some {
            blast_targets(v, tiles, tiles.len())
        } else if 0 <= p.x < v.map_width && 0 <= p.y < v.map_height {
            tile_contents(v, spec_xy_idx(v.map_width as int, p.x as int, p.y as int))
        } else {
            Seq::empty()
        },
    }
}

// ----- the parts of one use -----

pub open spec fn spark(x: i32, y: i32, glyph: u16, fg: NamedColor) -> Effect {
    Effect { creator: None, effect: EffectType::Particle { glyph, fg, bg: NamedColor::Black }, targets: Targets::At { x, y } }
}

/// A flash on each blast tile.
pub open spec fn blast_sparks(effects: Seq<Effect>, tiles: Seq<Point>, n: nat) -> Seq<Effect>
    decreases n,
{
    if n == 0 { effects } else { blast_sparks(effects, tiles, (n - 1) as nat).push(spark(tiles[n - 1].x, tiles[n - 1].y, cp437('\u{2591}'), NamedColor::Orange)) }
}

pub open spec fn log_when(log: Seq<Seq<char>>, cond: bool, msg: Seq<char>) -> Seq<Seq<char>> {
    if cond { log.push(msg) } else { log }
}

/// An item worn by `owner` in `slot`.
#[verifier::opaque]
pub open spec fn worn_by(e: Ent, owner: Entity, slot: EquipmentSlot) -> Ent {
    Ent { equipped: Some(Equipped { owner, slot }), in_backpack: None, ..e }
}

#[verifier::opaque]
pub open spec fn learns(e: Ent, item: Entity) -> Ent {
    Ent { identified_item: Some(item), ..e }
}

pub open spec fn unequip_msg(name: Seq<char>) -> Seq<char> { "You unequip "@ + name + "."@ }
pub open spec fn equip_msg(name: Seq<char>) -> Seq<char> { "You equip "@ + name + "."@ }

/// Takes off what `target` wears in `slot`, among the first `n` entities.
pub open spec fn unequip_pass(v: WorldView, target: Entity, slot: EquipmentSlot, n: nat) -> WorldView
    decreases n,
{
    if n == 0 {
        v
    } else {
        let u = unequip_pass(v, target, slot, (n - 1) as nat);
        let e = u.ents[n - 1];
        if e.alive && e.has_name && (e.equipped matches Some(q) && q.owner == target && q.slot == slot) {
            WorldView {
                ents: u.ents.update(n - 1, unequipped_to(e, target)),
                log: log_when(u.log, target == v.player, unequip_msg(v.names[n - 1])),
                ..u
            }
        } else {
            u
        }
    }
}

/// An equippable item goes on the first target, replacing what it wore in that slot.
pub open spec fn equip_part(v: WorldView, it: int, targets: Seq<Entity>) -> WorldView {
    match v.ents[it].equippable {
        Some(eq) => if targets.len() > 0 {
            let t = targets[0];
            let u = unequip_pass(v, t, eq.slot, v.ents.len());
            WorldView {
                ents: u.ents.update(it, worn_by(u.ents[it], t, eq.slot)),
                log: log_when(u.log, t == v.player, equip_msg(v.names[it])),
                ..u
            }
        } else {
            v
        },
        None => v,
    }
}

pub open spec fn drink_msg(item: Seq<char>, amount: int) -> Seq<char> {
    "You drink the "@ + item + ", healing "@ + decimal(amount) + " hp."@
}

/// Hit points raised by `amount`, but not past the maximum.
pub open spec fn healed(p: Pools, amount: i32) -> Pools {
    let raised = clamp_i32(p.hit_points.current + amount);
    Pools { hit_points: Pool { current: if p.hit_points.max < raised { p.hit_points.max } else { raised as i32 }, ..p.hit_points }, ..p }
}

#[verifier::opaque]
pub open spec fn with_pools(e: Ent, p: Pools) -> Ent {
    Ent { pools: Some(p), ..e }
}

/// Heals the first `n` targets that have pools.
pub open spec fn heal_pass(v: WorldView, user: Entity, it: int, amount: i32, targets: Seq<Entity>, n: nat) -> WorldView
    decreases n,
{
    if n == 0 {
        v
    } else {
        let u = heal_pass(v, user, it, amount, targets, (n - 1) as nat);
        let t = targets[n - 1] as int;
        let e = u.ents[t];
        if e.pools is Some {
            WorldView {
                ents: u.ents.update(t, with_pools(e, healed(e.pools->0, amount))),
                log: log_when(u.log, user == v.player, drink_msg(v.names[it], amount as int)),
                effects: if e.position is Some { u.effects.push(spark(e.position->0.x, e.position->0.y, cp437('\u{2665}'), NamedColor::Green)) } else { u.effects },
                ..u
            }
        } else {
            u
        }
    }
}

pub open spec fn heal_part(v: WorldView, user: Entity, it: int, targets: Seq<Entity>) -> WorldView {
    match v.ents[it].provides_healing {
        Some(h) => heal_pass(v, user, it, h, targets, targets.len()),
        None => v,
    }
}

pub open spec fn mapper_part(v: WorldView, it: int) -> WorldView {
    if v.ents[it].magic_mapper {
        WorldView { log: v.log.push("The map is revealed to you!"@), run_state: RunState::MagicMapReveal { row: 0 }, ..v }
    } else {
        v
    }
}

/// A town portal scroll read in town does nothing and is kept.
pub open spec fn portal_part(v: WorldView, it: int) -> (WorldView, bool) {
    if v.ents[it].town_portal {
        if v.depth == 1 {
            (WorldView { log: v.log.push("You are already in town, so the scroll does nothing"@), ..v }, false)
        } else {
            (WorldView { log: v.log.push("You are teleported back to town!"@), run_state: RunState::TownPortal, ..v }, true)
        }
    } else {
        (v, true)
    }
}

pub open spec fn eat_msg(item: Seq<char>) -> Seq<char> { "You eat the "@ + item + "."@ }

#[verifier::opaque]
pub open spec fn fed(e: Ent) -> Ent {
    Ent { hunger: Some(HungerClock { state: HungerState::WellFed, duration: 20 }), ..e }
}

/// Food fills the first target, if it gets hungry at all.
pub open spec fn food_part(v: WorldView, it: int, targets: Seq<Entity>) -> WorldView {
    if v.ents[it].provides_food && targets.len() > 0 && v.ents[targets[0] as int].hunger is Some {
        let t = targets[0] as int;
        WorldView { ents: v.ents.update(t, fed(v.ents[t])), log: v.log.push(eat_msg(v.names[it])), ..v }
    } else {
        v
    }
}

pub open spec fn inflict_msg(item: Seq<char>, mob: Seq<char>, amount: int) -> Seq<char> {
    "You use "@ + item + " on "@ + mob + ", inflicting "@ + decimal(amount) + " hp."@
}

pub open spec fn fizzle_msg(item: Seq<char>, mob: Seq<char>) -> Seq<char> {
    "You use "@ + item + " but it fizzles against "@ + mob
}

/// Damages the first `n` targets: those with pools take the damage, the others are
/// unharmed, and a flash marks each.
pub open spec fn damage_pass(v: WorldView, user: Entity, it: int, amount: i32, targets: Seq<Entity>, n: nat) -> WorldView
    decreases n,
{
    if n == 0 {
        v
    } else {
        let u = damage_pass(v, user, it, amount, targets, (n - 1) as nat);
        let t = targets[n - 1];
        let e = u.ents[t as int];
        let effects1 = if e.pools is Some {
            u.effects.push(Effect { creator: Some(user), effect: EffectType::Damage { amount }, targets: Targets::Single { target: t } })
        } else {
            u.effects
        };
        let log1 = if e.pools is Some {
            log_when(u.log, user == v.player, inflict_msg(v.names[it], v.names[t as int], amount as int))
        } else {
            u.log.push(fizzle_msg(v.names[it], v.names[t as int]))
        };
        WorldView {
            log: log1,
            effects: if e.position is Some { effects1.push(spark(e.position->0.x, e.position->0.y, cp437('\u{203c}'), NamedColor::Red)) } else { effects1 },
            ..u
        }
    }
}

pub open spec fn damage_part(v: WorldView, user: Entity, it: int, targets: Seq<Entity>) -> WorldView {
    match v.ents[it].inflicts_damage {
        Some(d) => damage_pass(v, user, it, d, targets, targets.len()),
        None => v,
    }
}

pub open spec fn confuse_msg(item: Seq<char>, mob: Seq<char>) -> Seq<char> {
    "You use "@ + item + " on "@ + mob + ", confusing them"@
}

/// Announces and marks the confusion of the first `n` targets.
pub open spec fn confuse_notice_pass(v: WorldView, user: Entity, it: int, targets: Seq<Entity>, n: nat) -> WorldView
    decreases n,
{
    if n == 0 {
        v
    } else {
        let u = confuse_notice_pass(v, user, it, targets, (n - 1) as nat);
        let t = targets[n - 1];
        let e = u.ents[t as int];
        WorldView {
            log: log_when(u.log, user == v.player, confuse_msg(v.names[it], v.names[t as int])),
            effects: if e.position is Some { u.effects.push(spark(e.position->0.x, e.position->0.y, cp437('?'), NamedColor::Magenta)) } else { u.effects },
            ..u
        }
    }
}

#[verifier::opaque]
pub open spec fn confused_for(e: Ent, turns: i32) -> Ent {
    Ent { confusion: Some(turns), ..e }
}

/// Confuses the first `n` targets.
pub open spec fn confuse_pass(v: WorldView, turns: i32, targets: Seq<Entity>, n: nat) -> WorldView
    decreases n,
{
    if n == 0 {
        v
    } else {
        let u = confuse_pass(v, turns, targets, (n - 1) as nat);
        let t = targets[n - 1] as int;
        WorldView { ents: u.ents.update(t, confused_for(u.ents[t], turns)), ..u }
    }
}

pub open spec fn confusion_part(v: WorldView, user: Entity, it: int, targets: Seq<Entity>) -> WorldView {
    match v.ents[it].confusion {
        Some(turns) => confuse_pass(confuse_notice_pass(v, user, it, targets, targets.len()), turns, targets, targets.len()),
        None => v,
    }
}

/// Entity `i` uses the item it asked to use, aimed with the blast tiles `blast`.
pub open spec fn use_step(v: WorldView, i: int, blast: Seq<Point>) -> WorldView {
    let e = v.ents[i];
    if !(e.alive && e.wants_to_use is Some) {
        v
    } else {
        let u = e.wants_to_use->0;
        let it = u.item as int;
        let tiles = kept_tiles(blast, v.map_width as int, v.map_height as int, blast.len());
        let targets = use_targets(v, u, tiles);
        let area = u.target is Some && v.ents[it].aoe_radius is Some;
        let w1 = WorldView {
            ents: v.ents.update(i, marked_changed(v.ents[i])),
            effects: if area { blast_sparks(v.effects, tiles, tiles.len()) } else { v.effects },
            ..v
        };
        let w2 = if i == v.player { WorldView { ents: w1.ents.update(i, learns(w1.ents[i], u.item)), ..w1 } } else { w1 };
        let w3 = equip_part(w2, it, targets);
        let w4 = heal_part(w3, i as Entity, it, targets);
        let w5 = mapper_part(w4, it);
        let (w6, consume) = portal_part(w5, it);
        let w7 = food_part(w6, it, targets);
        let w8 = damage_part(w7, i as Entity, it, targets);
        let w9 = confusion_part(w8, i as Entity, it, targets);
        if consume && w9.ents[it].consumable is Some {
            WorldView { ents: w9.ents.update(it, spec_deleted()), ..w9 }
        } else {
            w9
        }
    }
}


// ----- carrying a use out -----

pub(crate) fn contents_at(ents: &Vec<Ent>, w: i32, h: i32, idx: usize) -> (r: Vec<Entity>)
    requires
        0 < w,
        w * h <= usize::MAX,
    ensures
        r@ == contents_upto(ents@, w as int, h as int, idx as int, ents@.len()),
        forall|k: int| 0 <= k < r@.len() ==> #[trigger] r@[k] < ents@.len(),
{
    let mut r: Vec<Entity> = Vec::new();
    let mut k: usize = 0;
    while k < ents.len()
        invariant
            k <= ents@.len(),
            0 < w,
            w * h <= usize::MAX,
            r@ == contents_upto(ents@, w as int, h as int, idx as int, k as nat),
            forall|j: int| 0 <= j < r@.len() ==> #[trigger] r@[j] < k,
        decreases ents@.len() - k,
    {
        let e = ents[k];
        let mut here = false;
        if e.alive {
            if let Some(p) = e.position {
                if 0 <= p.x && p.x < w && 0 <= p.y && p.y < h {
                    let dead = match e.pools {
                        Some(pl) => pl.hit_points.current < 1,
                        None => false,
                    };
                    let pidx = tile_index(w, h, p.x, p.y);
                    here = !dead && pidx == idx;
                }
            }
        }
        if here {
            r.push(k);
        }
        k = k + 1;
    }
    r
}

fn keep_tiles(pts: &Vec<Point>, w: i32, h: i32) -> (r: Vec<Point>)
    ensures
        r@ == kept_tiles(pts@, w as int, h as int, pts@.len()),
        forall|k: int| 0 <= k < r@.len() ==> 0 < #[trigger] r@[k].x < w - 1 && 0 < r@[k].y < h - 1,
{
    let mut r: Vec<Point> = Vec::new();
    let mut k: usize = 0;
    while k < pts.len()
        invariant
            k <= pts@.len(),
            r@ == kept_tiles(pts@, w as int, h as int, k as nat),
            forall|j: int| 0 <= j < r@.len() ==> 0 < #[trigger] r@[j].x < w - 1 && 0 < r@[j].y < h - 1,
        decreases pts@.len() - k,
    {
        let p = pts[k];
        if 0 < p.x && (p.x as i64) < (w as i64) - 1 && 0 < p.y && (p.y as i64) < (h as i64) - 1 {
            r.push(p);
        }
        k = k + 1;
    }
    r
}

/// The targets of a use, and the blast tiles it covers.
fn find_targets(ents: &Vec<Ent>, map_w: i32, map_h: i32, player: Entity, u: WantsToUseItem, blast: &Vec<Point>, Ghost(v): Ghost<WorldView>)
    -> (r: (Vec<Entity>, Vec<Point>))
    requires
        v.wf(),
        ents@ == v.ents,
        map_w == v.map_width,
        map_h == v.map_height,
        player == v.player,
        u.item < v.ents.len(),
    ensures
        r.1@ == kept_tiles(blast@, map_w as int, map_h as int, blast@.len()),
        r.0@ == use_targets(v, u, r.1@),
        forall|k: int| 0 <= k < r.0@.len() ==> #[trigger] r.0@[k] < v.ents.len(),
{
    let tiles = keep_tiles(blast, map_w, map_h);
    match u.target {
        None => {
            let mut t: Vec<Entity> = Vec::new();
            t.push(player);
            proof { assert(t@ =~= seq![v.player]); }
            (t, tiles)
        },
        Some(p) => {
            if ents[u.item].aoe_radius.is_some() {
                let mut t: Vec<Entity> = Vec::new();
                let mut k: usize = 0;
                while k < tiles.len()
                    invariant
                        k <= tiles@.len(),
                        v.wf(),
                        ents@ == v.ents,
                        map_w == v.map_width,
                        map_h == v.map_height,
                        forall|j: int| 0 <= j < tiles@.len() ==> 0 < #[trigger] tiles@[j].x < map_w - 1 && 0 < tiles@[j].y < map_h - 1,
                        t@ == blast_targets(v, tiles@, k as nat),
                        forall|j: int| 0 <= j < t@.len() ==> #[trigger] t@[j] < v.ents.len(),
                    decreases tiles@.len() - k,
                {
                    let q = tiles[k];
                    proof { assert(0 < tiles@[k as int].x < map_w - 1 && 0 < tiles@[k as int].y < map_h - 1); }
                    let idx = tile_index(map_w, map_h, q.x, q.y);
                    let c = contents_at(ents, map_w, map_h, idx);
                    let ghost before = t@;
                    let mut j: usize = 0;
                    while j < c.len()
                        invariant
                            j <= c@.len(),
                            t@ == before + c@.subrange(0, j as int),
                            forall|m: int| 0 <= m < before.len() ==> #[trigger] before[m] < v.ents.len(),
                            forall|m: int| 0 <= m < c@.len() ==> #[trigger] c@[m] < v.ents.len(),
                            forall|m: int| 0 <= m < t@.len() ==> #[trigger] t@[m] < v.ents.len(),
                        decreases c@.len() - j,
                    {
                        t.push(c[j]);
                        proof { assert(c@.subrange(0, j as int + 1) =~= c@.subrange(0, j as int).push(c@[j as int])); }
                        j = j + 1;
                    }
                    proof { assert(c@.subrange(0, c@.len() as int) =~= c@); }
                    k = k + 1;
                }
                (t, tiles)
            } else if 0 <= p.x && p.x < map_w && 0 <= p.y && p.y < map_h {
                let idx = tile_index(map_w, map_h, p.x, p.y);
                (contents_at(ents, map_w, map_h, idx), tiles)
            } else {
                let t: Vec<Entity> = Vec::new();
                proof { assert(t@ =~= Seq::<Entity>::empty()); }
                (t, tiles)
            }
        },
    }
}

pub(crate) fn tile_index(w: i32, h: i32, x: i32, y: i32) -> (idx: usize)
    requires
        0 < w,
        0 <= x < w,
        0 <= y < h,
        w * h <= usize::MAX,
    ensures
        idx == spec_xy_idx(w as int, x as int, y as int),
{
    proof {
        assert(y * w + x < w * h) by (nonlinear_arith) requires 0 <= x < w, 0 <= y < h;
        assert(0 <= y * w) by (nonlinear_arith) requires 0 <= y, 0 < w;
    }
    (y as usize) * (w as usize) + (x as usize)
}


/// `u` differs from `v` at most in the entities, the log, the effects and the mode.
pub open spec fn framed(v: WorldView, u: WorldView) -> bool {
    &&& u == (WorldView { ents: u.ents, log: u.log, effects: u.effects, run_state: u.run_state, ..v })
    &&& u.ents.len() == v.ents.len()
}

/// Every reference in the table points into the table.
pub open spec fn refs_ok(ents: Seq<Ent>) -> bool {
    forall|k: int| 0 <= k < ents.len() ==> #[trigger] refs_in(ents[k], ents.len() as int)
}

pub open spec fn all_below(targets: Seq<Entity>, n: int) -> bool {
    forall|k: int| 0 <= k < targets.len() ==> #[trigger] targets[k] < n
}

proof fn lemma_unequip_frame(v: WorldView, t: Entity, slot: EquipmentSlot, n: nat)
    requires
        n <= v.ents.len(),
    ensures
        framed(v, unequip_pass(v, t, slot, n)),
        unequip_pass(v, t, slot, n).effects == v.effects,
        unequip_pass(v, t, slot, n).run_state == v.run_state,
    decreases n,
{
    if n > 0 {
        lemma_unequip_frame(v, t, slot, (n - 1) as nat);
    }
}

proof fn lemma_heal_frame(v: WorldView, user: Entity, it: int, amount: i32, targets: Seq<Entity>, n: nat)
    requires
        n <= targets.len(),
        all_below(targets, v.ents.len() as int),
    ensures
        framed(v, heal_pass(v, user, it, amount, targets, n)),
        heal_pass(v, user, it, amount, targets, n).run_state == v.run_state,
    decreases n,
{
    if n > 0 {
        lemma_heal_frame(v, user, it, amount, targets, (n - 1) as nat);
    }
}

proof fn lemma_damage_frame(v: WorldView, user: Entity, it: int, amount: i32, targets: Seq<Entity>, n: nat)
    requires
        n <= targets.len(),
    ensures
        framed(v, damage_pass(v, user, it, amount, targets, n)),
        damage_pass(v, user, it, amount, targets, n).ents == v.ents,
        damage_pass(v, user, it, amount, targets, n).run_state == v.run_state,
    decreases n,
{
    if n > 0 {
        lemma_damage_frame(v, user, it, amount, targets, (n - 1) as nat);
    }
}

proof fn lemma_notice_frame(v: WorldView, user: Entity, it: int, targets: Seq<Entity>, n: nat)
    requires
        n <= targets.len(),
    ensures
        framed(v, confuse_notice_pass(v, user, it, targets, n)),
        confuse_notice_pass(v, user, it, targets, n).ents == v.ents,
        confuse_notice_pass(v, user, it, targets, n).run_state == v.run_state,
    decreases n,
{
    if n > 0 {
        lemma_notice_frame(v, user, it, targets, (n - 1) as nat);
    }
}

proof fn lemma_confuse_frame(v: WorldView, turns: i32, targets: Seq<Entity>, n: nat)
    requires
        n <= targets.len(),
        all_below(targets, v.ents.len() as int),
    ensures
        framed(v, confuse_pass(v, turns, targets, n)),
        confuse_pass(v, turns, targets, n).log == v.log,
        confuse_pass(v, turns, targets, n).effects == v.effects,
        confuse_pass(v, turns, targets, n).run_state == v.run_state,
    decreases n,
{
    if n > 0 {
        lemma_confuse_frame(v, turns, targets, (n - 1) as nat);
    }
}

fn msg2(a: &str, b: &str, c: &str) -> (s: String)
    ensures
        s@ == a@ + b@ + c@,
{
    let mut s = String::from_str(a);
    s.append(b);
    s.append(c);
    s
}

fn push_log(log: &mut Vec<String>, msg: String)
    ensures
        names_view(final(log)@) == names_view(old(log)@).push(msg@),
{
    let ghost before = log@;
    log.push(msg);
    proof { lemma_names_view_push(before, msg); }
}

fn unequip_from(ents: &mut Vec<Ent>, names: &Vec<String>, log: &mut Vec<String>, player: Entity, t: Entity, slot: EquipmentSlot, Ghost(v): Ghost<WorldView>)
    requires
        refs_ok(old(ents)@),
        old(ents)@ == v.ents,
        names_view(names@) == v.names,
        names@.len() == v.ents.len(),
        names_view(old(log)@) == v.log,
        player == v.player,
        t < v.ents.len(),
    ensures
        refs_ok(final(ents)@),
        final(ents)@ == unequip_pass(v, t, slot, v.ents.len()).ents,
        names_view(final(log)@) == unequip_pass(v, t, slot, v.ents.len()).log,
{
    let n = ents.len();
    let mut k: usize = 0;
    while k < n
        invariant
            k <= n,
            n == v.ents.len(),
            names_view(names@) == v.names,
            names@.len() == n,
            player == v.player,
            ents@ == unequip_pass(v, t, slot, k as nat).ents,
            refs_ok(ents@),
            t < n,
            names_view(log@) == unequip_pass(v, t, slot, k as nat).log,
        decreases n - k,
    {
        proof { lemma_unequip_frame(v, t, slot, k as nat); }
        let e = ents[k];
        let mut hit = false;
        if e.alive && e.has_name {
            if let Some(q) = e.equipped {
                hit = q.owner == t && q.slot == slot;
            }
        }
        if hit {
            let e2 = Ent { equipped: None, in_backpack: Some(InBackpack { owner: t }), ..e };
            proof {
                reveal(unequipped_to);
                assert(e2 == unequipped_to(e, t));
                assert(refs_in(e, n as int));
                lemma_update_keeps_refs(ents@, k as int, e2);
            }
            ents.set(k, e2);
            if t == player {
                proof { assert(names@[k as int]@ == v.names[k as int]); }
                push_log(log, msg2("You unequip ", names[k].as_str(), "."));
            }
        }
        k = k + 1;
    }
}

fn equip_item(ents: &mut Vec<Ent>, names: &Vec<String>, log: &mut Vec<String>, player: Entity, it: Entity, targets: &Vec<Entity>, Ghost(v): Ghost<WorldView>)
    requires
        refs_ok(old(ents)@),
        old(ents)@ == v.ents,
        names_view(names@) == v.names,
        names@.len() == v.ents.len(),
        names_view(old(log)@) == v.log,
        player == v.player,
        it < v.ents.len(),
        all_below(targets@, v.ents.len() as int),
    ensures
        refs_ok(final(ents)@),
        final(ents)@ == equip_part(v, it as int, targets@).ents,
        names_view(final(log)@) == equip_part(v, it as int, targets@).log,
{
    if let Some(eq) = ents[it].equippable {
        if targets.len() > 0 {
            let t = targets[0];
            unequip_from(ents, names, log, player, t, eq.slot, Ghost(v));
            proof { lemma_unequip_frame(v, t, eq.slot, v.ents.len()); }
            let e = ents[it];
            let e2 = Ent { equipped: Some(Equipped { owner: t, slot: eq.slot }), in_backpack: None, ..e };
            proof {
                reveal(worn_by);
                assert(e2 == worn_by(e, t, eq.slot));
                assert(refs_in(e, ents@.len() as int));
                lemma_update_keeps_refs(ents@, it as int, e2);
            }
            ents.set(it, e2);
            if t == player {
                proof { assert(names@[it as int]@ == v.names[it as int]); }
                push_log(log, msg2("You equip ", names[it].as_str(), "."));
            }
        }
    }
}

fn heal_targets(ents: &mut Vec<Ent>, names: &Vec<String>, log: &mut Vec<String>, effects: &mut Vec<Effect>, player: Entity, user: Entity, it: Entity, targets: &Vec<Entity>, Ghost(v): Ghost<WorldView>)
    requires
        refs_ok(old(ents)@),
        old(ents)@ == v.ents,
        names_view(names@) == v.names,
        names@.len() == v.ents.len(),
        names_view(old(log)@) == v.log,
        old(effects)@ == v.effects,
        player == v.player,
        it < v.ents.len(),
        all_below(targets@, v.ents.len() as int),
    ensures
        refs_ok(final(ents)@),
        final(ents)@ == heal_part(v, user, it as int, targets@).ents,
        names_view(final(log)@) == heal_part(v, user, it as int, targets@).log,
        final(effects)@ == heal_part(v, user, it as int, targets@).effects,
{
    let amount = match ents[it].provides_healing {
        Some(h) => h,
        None => { return; },
    };
    let n = targets.len();
    let mut k: usize = 0;
    while k < n
        invariant
            k <= n,
            n == targets@.len(),
            all_below(targets@, v.ents.len() as int),
            names_view(names@) == v.names,
            names@.len() == v.ents.len(),
            player == v.player,
            it < v.ents.len(),
            v.ents[it as int].provides_healing == Some(amount),
            ents@ == heal_pass(v, user, it as int, amount, targets@, k as nat).ents,
            refs_ok(ents@),
            names_view(log@) == heal_pass(v, user, it as int, amount, targets@, k as nat).log,
            effects@ == heal_pass(v, user, it as int, amount, targets@, k as nat).effects,
        decreases n - k,
    {
        proof { lemma_heal_frame(v, user, it as int, amount, targets@, k as nat); }
        let t = targets[k];
        let e = ents[t];
        if let Some(p) = e.pools {
            let raised: i64 = p.hit_points.current as i64 + amount as i64;
            let raised32: i32 = if raised > i32::MAX as i64 { i32::MAX } else if raised < i32::MIN as i64 { i32::MIN } else { raised as i32 };
            let cur = if p.hit_points.max < raised32 { p.hit_points.max } else { raised32 };
            let np = Pools { hit_points: Pool { current: cur, ..p.hit_points }, ..p };
            proof { assert(np == healed(p, amount)); }
            let e2 = Ent { pools: Some(np), ..e };
            proof {
                reveal(with_pools);
                assert(e2 == with_pools(e, np));
                assert(refs_in(e, ents@.len() as int));
                lemma_update_keeps_refs(ents@, t as int, e2);
            }
            ents.set(t, e2);
            if user == player {
                proof { assert(names@[it as int]@ == v.names[it as int]); }
                let mut m = String::from_str("You drink the ");
                m.append(names[it].as_str());
                m.append(", healing ");
                let num = int_to_string(amount);
                m.append(num.as_str());
                m.append(" hp.");
                push_log(log, m);
            }
            if let Some(pos) = e.position {
                effects.push(Effect { creator: None, effect: EffectType::Particle { glyph: to_cp437('\u{2665}'), fg: NamedColor::Green, bg: NamedColor::Black }, targets: Targets::At { x: pos.x, y: pos.y } });
            }
        }
        k = k + 1;
    }
}


fn damage_targets(ents: &Vec<Ent>, names: &Vec<String>, log: &mut Vec<String>, effects: &mut Vec<Effect>, player: Entity, user: Entity, it: Entity, targets: &Vec<Entity>, Ghost(v): Ghost<WorldView>)
    requires
        ents@ == v.ents,
        names_view(names@) == v.names,
        names@.len() == v.ents.len(),
        names_view(old(log)@) == v.log,
        old(effects)@ == v.effects,
        player == v.player,
        it < v.ents.len(),
        all_below(targets@, v.ents.len() as int),
    ensures
        names_view(final(log)@) == damage_part(v, user, it as int, targets@).log,
        final(effects)@ == damage_part(v, user, it as int, targets@).effects,
{
    let amount = match ents[it].inflicts_damage {
        Some(d) => d,
        None => { return; },
    };
    let n = targets.len();
    let mut k: usize = 0;
    while k < n
        invariant
            k <= n,
            n == targets@.len(),
            all_below(targets@, v.ents.len() as int),
            ents@ == v.ents,
            names_view(names@) == v.names,
            names@.len() == v.ents.len(),
            player == v.player,
            it < v.ents.len(),
            v.ents[it as int].inflicts_damage == Some(amount),
            names_view(log@) == damage_pass(v, user, it as int, amount, targets@, k as nat).log,
            effects@ == damage_pass(v, user, it as int, amount, targets@, k as nat).effects,
        decreases n - k,
    {
        proof { lemma_damage_frame(v, user, it as int, amount, targets@, k as nat); }
        let t = targets[k];
        let e = ents[t];
        proof {
            assert(names@[it as int]@ == v.names[it as int]);
            assert(names@[t as int]@ == v.names[t as int]);
        }
        if e.pools.is_some() {
            effects.push(Effect { creator: Some(user), effect: EffectType::Damage { amount }, targets: Targets::Single { target: t } });
            if user == player {
                let mut m = String::from_str("You use ");
                m.append(names[it].as_str());
                m.append(" on ");
                m.append(names[t].as_str());
                m.append(", inflicting ");
                let num = int_to_string(amount);
                m.append(num.as_str());
                m.append(" hp.");
                push_log(log, m);
            }
        } else {
            let mut m = String::from_str("You use ");
            m.append(names[it].as_str());
            m.append(" but it fizzles against ");
            m.append(names[t].as_str());
            push_log(log, m);
        }
        if let Some(pos) = e.position {
            effects.push(Effect { creator: None, effect: EffectType::Particle { glyph: to_cp437('\u{203c}'), fg: NamedColor::Red, bg: NamedColor::Black }, targets: Targets::At { x: pos.x, y: pos.y } });
        }
        k = k + 1;
    }
}

fn confuse_targets(ents: &mut Vec<Ent>, names: &Vec<String>, log: &mut Vec<String>, effects: &mut Vec<Effect>, player: Entity, user: Entity, it: Entity, targets: &Vec<Entity>, Ghost(v): Ghost<WorldView>)
    requires
        refs_ok(old(ents)@),
        old(ents)@ == v.ents,
        names_view(names@) == v.names,
        names@.len() == v.ents.len(),
        names_view(old(log)@) == v.log,
        old(effects)@ == v.effects,
        player == v.player,
        it < v.ents.len(),
        all_below(targets@, v.ents.len() as int),
    ensures
        refs_ok(final(ents)@),
        final(ents)@ == confusion_part(v, user, it as int, targets@).ents,
        names_view(final(log)@) == confusion_part(v, user, it as int, targets@).log,
        final(effects)@ == confusion_part(v, user, it as int, targets@).effects,
{
    let turns = match ents[it].confusion {
        Some(c) => c,
        None => { return; },
    };
    let n = targets.len();
    let mut k: usize = 0;
    while k < n
        invariant
            k <= n,
            n == targets@.len(),
            all_below(targets@, v.ents.len() as int),
            ents@ == v.ents,
            names_view(names@) == v.names,
            names@.len() == v.ents.len(),
            player == v.player,
            it < v.ents.len(),
            names_view(log@) == confuse_notice_pass(v, user, it as int, targets@, k as nat).log,
            effects@ == confuse_notice_pass(v, user, it as int, targets@, k as nat).effects,
        decreases n - k,
    {
        proof { lemma_notice_frame(v, user, it as int, targets@, k as nat); }
        let t = targets[k];
        let e = ents[t];
        if user == player {
            proof {
                assert(names@[it as int]@ == v.names[it as int]);
                assert(names@[t as int]@ == v.names[t as int]);
            }
            let mut m = String::from_str("You use ");
            m.append(names[it].as_str());
            m.append(" on ");
            m.append(names[t].as_str());
            m.append(", confusing them");
            push_log(log, m);
        }
        if let Some(pos) = e.position {
            effects.push(Effect { creator: None, effect: EffectType::Particle { glyph: to_cp437('?'), fg: NamedColor::Magenta, bg: NamedColor::Black }, targets: Targets::At { x: pos.x, y: pos.y } });
        }
        k = k + 1;
    }
    let ghost mid = confuse_notice_pass(v, user, it as int, targets@, n as nat);
    proof { lemma_notice_frame(v, user, it as int, targets@, n as nat); }
    let mut k: usize = 0;
    while k < n
        invariant
            k <= n,
            n == targets@.len(),
            all_below(targets@, v.ents.len() as int),
            mid.ents.len() == v.ents.len(),
            ents@ == confuse_pass(mid, turns, targets@, k as nat).ents,
            refs_ok(ents@),
        decreases n - k,
    {
        proof { lemma_confuse_frame(mid, turns, targets@, k as nat); }
        let t = targets[k];
        let e = ents[t];
        let e2 = Ent { confusion: Some(turns), ..e };
        proof {
            reveal(confused_for);
            assert(e2 == confused_for(e, turns));
            assert(refs_in(e, ents@.len() as int));
            lemma_update_keeps_refs(ents@, t as int, e2);
        }
        ents.set(t, e2);
        k = k + 1;
    }
    proof { lemma_confuse_frame(mid, turns, targets@, n as nat); }
}

fn feed_target(ents: &mut Vec<Ent>, names: &Vec<String>, log: &mut Vec<String>, it: Entity, targets: &Vec<Entity>, Ghost(v): Ghost<WorldView>)
    requires
        refs_ok(old(ents)@),
        old(ents)@ == v.ents,
        names_view(names@) == v.names,
        names@.len() == v.ents.len(),
        names_view(old(log)@) == v.log,
        it < v.ents.len(),
        all_below(targets@, v.ents.len() as int),
    ensures
        refs_ok(final(ents)@),
        final(ents)@ == food_part(v, it as int, targets@).ents,
        names_view(final(log)@) == food_part(v, it as int, targets@).log,
{
    if ents[it].provides_food && targets.len() > 0 {
        let t = targets[0];
        let e = ents[t];
        if e.hunger.is_some() {
            let e2 = Ent { hunger: Some(HungerClock { state: HungerState::WellFed, duration: 20 }), ..e };
            proof {
                reveal(fed);
                assert(e2 == fed(e));
                assert(refs_in(e, ents@.len() as int));
                lemma_update_keeps_refs(ents@, t as int, e2);
            }
            ents.set(t, e2);
            proof { assert(names@[it as int]@ == v.names[it as int]); }
            push_log(log, msg2("You eat the ", names[it].as_str(), "."));
        }
    }
}

fn read_scrolls(ents: &Vec<Ent>, log: &mut Vec<String>, run_state: &mut RunState, depth: i32, it: Entity, Ghost(v): Ghost<WorldView>) -> (consume: bool)
    requires
        ents@ == v.ents,
        names_view(old(log)@) == v.log,
        *old(run_state) == v.run_state,
        depth == v.depth,
        it < v.ents.len(),
    ensures
        names_view(final(log)@) == portal_part(mapper_part(v, it as int), it as int).0.log,
        *final(run_state) == portal_part(mapper_part(v, it as int), it as int).0.run_state,
        consume == portal_part(mapper_part(v, it as int), it as int).1,
{
    let e = ents[it];
    if e.magic_mapper {
        push_log(log, String::from_str("The map is revealed to you!"));
        *run_state = RunState::MagicMapReveal { row: 0 };
    }
    let mut consume = true;
    if e.town_portal {
        if depth == 1 {
            push_log(log, String::from_str("You are already in town, so the scroll does nothing"));
            consume = false;
        } else {
            push_log(log, String::from_str("You are teleported back to town!"));
            *run_state = RunState::TownPortal;
        }
    }
    consume
}


proof fn lemma_parts_framed(v: WorldView, user: Entity, it: int, targets: Seq<Entity>)
    requires
        0 <= it < v.ents.len(),
        all_below(targets, v.ents.len() as int),
    ensures
        framed(v, equip_part(v, it, targets)),
        equip_part(v, it, targets).effects == v.effects,
        equip_part(v, it, targets).run_state == v.run_state,
        framed(v, heal_part(v, user, it, targets)),
        heal_part(v, user, it, targets).run_state == v.run_state,
        framed(v, mapper_part(v, it)),
        mapper_part(v, it).ents == v.ents,
        mapper_part(v, it).effects == v.effects,
        framed(v, portal_part(v, it).0),
        portal_part(v, it).0.ents == v.ents,
        portal_part(v, it).0.effects == v.effects,
        framed(v, food_part(v, it, targets)),
        food_part(v, it, targets).effects == v.effects,
        food_part(v, it, targets).run_state == v.run_state,
        framed(v, damage_part(v, user, it, targets)),
        damage_part(v, user, it, targets).ents == v.ents,
        damage_part(v, user, it, targets).run_state == v.run_state,
        framed(v, confusion_part(v, user, it, targets)),
        confusion_part(v, user, it, targets).run_state == v.run_state,
{
    if let Some(eq) = v.ents[it].equippable {
        if targets.len() > 0 {
            lemma_unequip_frame(v, targets[0], eq.slot, v.ents.len());
        }
    }
    if let Some(h) = v.ents[it].provides_healing {
        lemma_heal_frame(v, user, it, h, targets, targets.len());
    }
    if let Some(d) = v.ents[it].inflicts_damage {
        lemma_damage_frame(v, user, it, d, targets, targets.len());
    }
    if let Some(turns) = v.ents[it].confusion {
        lemma_notice_frame(v, user, it, targets, targets.len());
        let mid = confuse_notice_pass(v, user, it, targets, targets.len());
        lemma_confuse_frame(mid, turns, targets, targets.len());
    }
}

/// Entity `i` uses the item it asked to use.
#[verifier::rlimit(60)]
fn use_item(w: &mut World, i: usize, blast: &Vec<Point>, Ghost(v): Ghost<WorldView>)
    requires
        old(w).view() == v,
        v.wf(),
        i < v.ents.len(),
    ensures
        final(w).view() == use_step(v, i as int, blast@),
        final(w).wf(),
        final(w).ents@.len() == v.ents.len(),
{
    let e = w.ents[i];
    if !e.alive {
        return;
    }
    let u = match e.wants_to_use {
        Some(u) => u,
        None => { return; },
    };
    proof { assert(refs_in(v.ents[i as int], v.ents.len() as int)); }
    let it = u.item;
    let (targets, tiles) = find_targets(&w.ents, w.map.width, w.map.height, w.player, u, blast, Ghost(v));
    let area = u.target.is_some() && w.ents[it].aoe_radius.is_some();
    let ghost tiles_s = tiles@;
    let ghost targets_s = targets@;
    // The user's equipment must be re-evaluated, and an area item flashes over its blast.
    let e1 = Ent { equipment_changed: true, ..e };
    proof {
        reveal(marked_changed);
        assert(e1 == marked_changed(e));
        lemma_update_keeps_refs(v.ents, i as int, e1);
    }
    w.ents.set(i, e1);
    let ghost pre = w.view();
    if area {
        let mut k: usize = 0;
        while k < tiles.len()
            invariant
                k <= tiles@.len(),
                tiles@ == tiles_s,
                w.view() == (WorldView { effects: w.view().effects, ..pre }),
                w.effects@ == blast_sparks(v.effects, tiles_s, k as nat),
            decreases tiles@.len() - k,
        {
            let q = tiles[k];
            w.effects.push(Effect { creator: None, effect: EffectType::Particle { glyph: to_cp437('\u{2591}'), fg: NamedColor::Orange, bg: NamedColor::Black }, targets: Targets::At { x: q.x, y: q.y } });
            k = k + 1;
        }
    }
    let ghost w1 = WorldView {
        ents: v.ents.update(i as int, marked_changed(v.ents[i as int])),
        effects: if area { blast_sparks(v.effects, tiles_s, tiles_s.len()) } else { v.effects },
        ..v
    };
    proof {
        assert(pre.ents == v.ents.update(i as int, marked_changed(v.ents[i as int])));
        assert(w.view().ents == w1.ents);
        assert(w.view() == w1);
    }
    if i == w.player {
        let e2 = Ent { identified_item: Some(it), ..w.ents[i] };
        proof {
            reveal(learns);
            assert(e2 == learns(w1.ents[i as int], it));
            assert(refs_in(w1.ents[i as int], v.ents.len() as int));
            lemma_update_keeps_refs(w1.ents, i as int, e2);
        }
        w.ents.set(i, e2);
    }
    let ghost w2 = if i == v.player { WorldView { ents: w1.ents.update(i as int, learns(w1.ents[i as int], it)), ..w1 } } else { w1 };
    proof { assert(w.view() == w2); assert(w2.names == v.names); }
    equip_item(&mut w.ents, &w.names, &mut w.log.entries, w.player, it, &targets, Ghost(w2));
    let ghost w3 = equip_part(w2, it as int, targets_s);
    proof { lemma_parts_framed(w2, i, it as int, targets_s); assert(w.view() == w3); }
    heal_targets(&mut w.ents, &w.names, &mut w.log.entries, &mut w.effects, w.player, i, it, &targets, Ghost(w3));
    let ghost w4 = heal_part(w3, i, it as int, targets_s);
    proof { lemma_parts_framed(w3, i, it as int, targets_s); assert(w.view() == w4); }
    let consume = read_scrolls(&w.ents, &mut w.log.entries, &mut w.run_state, w.map.depth, it, Ghost(w4));
    let ghost w5 = mapper_part(w4, it as int);
    let ghost w6 = portal_part(w5, it as int).0;
    proof {
        lemma_parts_framed(w4, i, it as int, targets_s);
        lemma_parts_framed(w5, i, it as int, targets_s);
        assert(w.view() == w6);
    }
    feed_target(&mut w.ents, &w.names, &mut w.log.entries, it, &targets, Ghost(w6));
    let ghost w7 = food_part(w6, it as int, targets_s);
    proof { lemma_parts_framed(w6, i, it as int, targets_s); assert(w.view() == w7); }
    damage_targets(&w.ents, &w.names, &mut w.log.entries, &mut w.effects, w.player, i, it, &targets, Ghost(w7));
    let ghost w8 = damage_part(w7, i, it as int, targets_s);
    proof { lemma_parts_framed(w7, i, it as int, targets_s); assert(w.view() == w8); }
    confuse_targets(&mut w.ents, &w.names, &mut w.log.entries, &mut w.effects, w.player, i, it, &targets, Ghost(w8));
    let ghost w9 = confusion_part(w8, i, it as int, targets_s);
    proof { lemma_parts_framed(w8, i, it as int, targets_s); assert(w.view() == w9); }
    if consume && w.ents[it].consumable.is_some() {
        let mut d = crate::world::blank();
        d.alive = false;
        proof { lemma_update_keeps_refs(w.ents@, it as int, d); }
        w.ents.set(it, d);
    }
}


#[verifier::opaque]
pub open spec fn without_use(e: Ent) -> Ent {
    Ent { wants_to_use: None, ..e }
}

pub open spec fn blasts_view(b: Seq<Vec<Point>>) -> Seq<Seq<Point>> {
    b.map_values(|v: Vec<Point>| v@)
}

pub open spec fn use_upto(w: WorldView, blasts: Seq<Seq<Point>>, n: nat) -> WorldView
    decreases n,
{
    if n == 0 { w } else { use_step(use_upto(w, blasts, (n - 1) as nat), n - 1, blasts[n - 1]) }
}

/// The world after every creature that wants to use an item does so, in entity order,
/// and the requests are cleared. `blasts[e]` lists the tiles that an area item used by
/// entity `e` could reach from where it is aimed (its field of view, which the caller
/// computes).
pub open spec fn spec_item_use(w: WorldView, blasts: Seq<Seq<Point>>) -> WorldView {
    let v = use_upto(w, blasts, w.ents.len());
    WorldView { ents: v.ents.map_values(|e: Ent| without_use(e)), ..v }
}

fn make_without_use(e: Ent) -> (r: Ent)
    ensures
        r == without_use(e),
{
    proof { reveal(without_use); }
    Ent { wants_to_use: None, ..e }
}

fn clear_use_requests(ents: &mut Vec<Ent>)
    ensures
        final(ents)@ == old(ents)@.map_values(|e: Ent| without_use(e)),
{
    let ghost mid = ents@;
    let n = ents.len();
    let mut j: usize = 0;
    while j < n
        invariant
            0 <= j <= n,
            n == mid.len(),
            ents@.len() == n,
            forall|k: int| 0 <= k < j ==> #[trigger] ents@[k] == without_use(mid[k]),
            forall|k: int| j <= k < n ==> #[trigger] ents@[k] == mid[k],
        decreases n - j,
    {
        let e = ents[j];
        let cleared = make_without_use(e);
        ents.set(j, cleared);
        j = j + 1;
    }
    assert(ents@ =~= mid.map_values(|e: Ent| without_use(e)));
}

pub struct ItemUseSystem {}

impl ItemUseSystem {
    pub fn run(&mut self, w: &mut World, blasts: &Vec<Vec<Point>>)
        requires
            old(w).wf(),
            blasts@.len() == old(w).ents@.len(),
        ensures
            final(w).wf(),
            final(w).view() == spec_item_use(old(w).view(), blasts_view(blasts@)),
    {
        let ghost start = w.view();
        let ghost bl = blasts_view(blasts@);
        let n = w.ents.len();
        let mut i: usize = 0;
        while i < n
            invariant
                0 <= i <= n,
                n == start.ents.len(),
                blasts@.len() == n,
                bl == blasts_view(blasts@),
                w.wf(),
                w.ents@.len() == n,
                w.view() == use_upto(start, bl, i as nat),
            decreases n - i,
        {
            proof { assert(blasts@[i as int]@ == bl[i as int]); }
            use_item(w, i, &blasts[i], Ghost(w.view()));
            i = i + 1;
        }
        let ghost mid = w.view();
        clear_use_requests(&mut w.ents);
        proof {
            assert(w.view().ents =~= spec_item_use(start, bl).ents);
            assert forall|k: int| 0 <= k < w.ents@.len() implies #[trigger] refs_in(w.ents@[k], w.ents@.len() as int) by {
                assert(refs_in(mid.ents[k], mid.ents.len() as int));
                reveal(without_use);
            }
            assert(w.view() == spec_item_use(start, bl));
        }
    }
}


// ----- confusion takes hold -----

/// `u` keeps every entity's confusion as it is in `v`.
spec fn confusion_kept(v: WorldView, u: WorldView) -> bool {
    &&& u.ents.len() == v.ents.len()
    &&& forall|k: int| 0 <= k < v.ents.len() ==> #[trigger] u.ents[k].confusion == v.ents[k].confusion
}

proof fn lemma_unequip_keeps_confusion(v: WorldView, t: Entity, slot: EquipmentSlot, n: nat)
    requires
        n <= v.ents.len(),
    ensures
        confusion_kept(v, unequip_pass(v, t, slot, n)),
    decreases n,
{
    reveal(unequipped_to);
    if n > 0 {
        lemma_unequip_keeps_confusion(v, t, slot, (n - 1) as nat);
    }
}

proof fn lemma_heal_keeps_confusion(v: WorldView, user: Entity, it: int, amount: i32, targets: Seq<Entity>, n: nat)
    requires
        n <= targets.len(),
        all_below(targets, v.ents.len() as int),
    ensures
        confusion_kept(v, heal_pass(v, user, it, amount, targets, n)),
    decreases n,
{
    reveal(with_pools);
    if n > 0 {
        lemma_heal_keeps_confusion(v, user, it, amount, targets, (n - 1) as nat);
        assert(targets[n - 1] < v.ents.len());
    }
}

/// Every one of the first `n` targets ends confused for `turns` turns.
proof fn lemma_confuse_pass_sets(v: WorldView, turns: i32, targets: Seq<Entity>, n: nat)
    requires
        v.ents.len() <= usize::MAX,
        n <= targets.len(),
        all_below(targets, v.ents.len() as int),
    ensures
        confuse_pass(v, turns, targets, n).ents.len() == v.ents.len(),
        forall|j: int| 0 <= j < n ==> #[trigger] confuse_pass(v, turns, targets, n).ents[targets[j] as int].confusion == Some(turns),
        forall|k: int| 0 <= k < v.ents.len() && !targets.take(n as int).contains(k as Entity)
            ==> #[trigger] confuse_pass(v, turns, targets, n).ents[k].confusion == v.ents[k].confusion,
    decreases n,
{
    reveal(confused_for);
    if n > 0 {
        lemma_confuse_pass_sets(v, turns, targets, (n - 1) as nat);
        assert(targets[n - 1] < v.ents.len());
        let u = confuse_pass(v, turns, targets, (n - 1) as nat);
        let r = confuse_pass(v, turns, targets, n);
        assert forall|j: int| 0 <= j < n implies #[trigger] r.ents[targets[j] as int].confusion == Some(turns) by {
            assert(targets[j] < v.ents.len());
            if targets[j] != targets[n - 1] {
                assert(r.ents[targets[j] as int] == u.ents[targets[j] as int]);
            }
        }
        assert forall|k: int| 0 <= k < v.ents.len() && !targets.take(n as int).contains(k as Entity)
            implies #[trigger] r.ents[k].confusion == v.ents[k].confusion by {
            assert(targets.take(n as int)[n - 1] == targets[n - 1]);
            assert(targets[n - 1] != k as Entity);
            assert(k as Entity as int == k);
            if targets.take((n - 1) as int).contains(k as Entity) {
                let m = choose|m: int| 0 <= m < targets.take((n - 1) as int).len() && #[trigger] targets.take((n - 1) as int)[m] == k as Entity;
                assert(targets.take(n as int)[m] == k as Entity);
            }
            assert(r.ents[k] == u.ents[k]);
        }
    }
}

proof fn lemma_user_marks_keep_confusion(v: WorldView, w1: WorldView, w2: WorldView, i: int, item: Entity)
    requires
        0 <= i < v.ents.len(),
        w1.ents == v.ents.update(i, marked_changed(v.ents[i])),
        w2.ents == (if i == v.player { w1.ents.update(i, learns(w1.ents[i], item)) } else { w1.ents }),
    ensures
        confusion_kept(v, w2),
{
    reveal(marked_changed);
    reveal(learns);
}

proof fn lemma_equip_keeps_confusion(v: WorldView, it: int, targets: Seq<Entity>)
    requires
        0 <= it < v.ents.len(),
    ensures
        confusion_kept(v, equip_part(v, it, targets)),
{
    reveal(worn_by);
    if let Some(eq) = v.ents[it].equippable {
        if targets.len() > 0 {
            lemma_unequip_keeps_confusion(v, targets[0], eq.slot, v.ents.len());
        }
    }
}

proof fn lemma_heal_part_keeps_confusion(v: WorldView, user: Entity, it: int, targets: Seq<Entity>)
    requires
        all_below(targets, v.ents.len() as int),
    ensures
        confusion_kept(v, heal_part(v, user, it, targets)),
{
    if let Some(h) = v.ents[it].provides_healing {
        lemma_heal_keeps_confusion(v, user, it, h, targets, targets.len());
    }
}

proof fn lemma_food_keeps_confusion(v: WorldView, it: int, targets: Seq<Entity>)
    requires
        all_below(targets, v.ents.len() as int),
    ensures
        confusion_kept(v, food_part(v, it, targets)),
{
    reveal(fed);
    if v.ents[it].provides_food && targets.len() > 0 {
        assert(targets[0] < v.ents.len());
    }
}

/// Everyone a use reaches is an entity of the world.
proof fn lemma_use_targets_below(v: WorldView, u: WantsToUseItem, tiles: Seq<Point>)
    requires
        v.wf(),
        v.ents.len() <= usize::MAX,
        u.item < v.ents.len(),
    ensures
        all_below(use_targets(v, u, tiles), v.ents.len() as int),
{
    if let Some(p) = u.target {
        if v.ents[u.item as int].aoe_radius is Some {
            lemma_blast_targets_below(v, tiles, tiles.len());
        } else if 0 <= p.x < v.map_width && 0 <= p.y < v.map_height {
            crate::visibility_system::lemma_contents_below(v.ents, v.map_width as int, v.map_height as int,
                spec_xy_idx(v.map_width as int, p.x as int, p.y as int), v.ents.len());
        }
    }
}

proof fn lemma_blast_targets_below(v: WorldView, tiles: Seq<Point>, n: nat)
    requires
        v.ents.len() <= usize::MAX,
        n <= tiles.len(),
    ensures
        all_below(blast_targets(v, tiles, n), v.ents.len() as int),
    decreases n,
{
    if n > 0 {
        lemma_blast_targets_below(v, tiles, (n - 1) as nat);
        let idx = spec_xy_idx(v.map_width as int, tiles[n - 1].x as int, tiles[n - 1].y as int);
        crate::visibility_system::lemma_contents_below(v.ents, v.map_width as int, v.map_height as int, idx, v.ents.len());
        let a = blast_targets(v, tiles, (n - 1) as nat);
        let b = tile_contents(v, idx);
        assert forall|k: int| 0 <= k < (a + b).len() implies #[trigger] (a + b)[k] < v.ents.len() by {
            if k < a.len() {
                assert((a + b)[k] == a[k]);
            } else {
                assert((a + b)[k] == b[k - a.len()]);
            }
        }
    }
}

/// Confusion takes hold: when entity `i` uses an item that confuses for `turns` turns,
/// every creature the use reaches (everyone in the blast, on the aimed tile, or the
/// player when nothing is aimed at) ends confused for exactly `turns` turns, whatever
/// confusion it had before. The one exception is the item itself, which a consumed
/// scroll deletes.
pub proof fn law_confusion_reaches_every_target(v: WorldView, i: int, blast: Seq<Point>, turns: i32, j: int)
    requires
        v.wf(),
        v.ents.len() <= usize::MAX,
        0 <= i < v.ents.len(),
        v.ents[i].alive,
        v.ents[i].wants_to_use is Some,
        v.ents[v.ents[i].wants_to_use->0.item as int].confusion == Some(turns),
        0 <= j < use_targets(v, v.ents[i].wants_to_use->0,
            kept_tiles(blast, v.map_width as int, v.map_height as int, blast.len())).len(),
        use_targets(v, v.ents[i].wants_to_use->0,
            kept_tiles(blast, v.map_width as int, v.map_height as int, blast.len()))[j] != v.ents[i].wants_to_use->0.item,
    ensures
        use_step(v, i, blast).ents[use_targets(v, v.ents[i].wants_to_use->0,
            kept_tiles(blast, v.map_width as int, v.map_height as int, blast.len()))[j] as int].confusion == Some(turns),
{
    lemma_use_step_confusion(v, i, blast);
    assert(refs_in(v.ents[i], v.ents.len() as int));
}

/// Confusion reaches no one else: when entity `i` uses an item, every entity other than
/// the item that the use does not reach keeps the confusion it had, and when the item
/// does not confuse, nobody's confusion changes.
pub proof fn law_confusion_spares_everyone_else(v: WorldView, i: int, blast: Seq<Point>, k: int)
    requires
        v.wf(),
        v.ents.len() <= usize::MAX,
        0 <= i < v.ents.len(),
        v.ents[i].alive,
        v.ents[i].wants_to_use is Some,
        0 <= k < v.ents.len(),
        k != v.ents[i].wants_to_use->0.item,
        v.ents[v.ents[i].wants_to_use->0.item as int].confusion is None
            || !use_targets(v, v.ents[i].wants_to_use->0,
                kept_tiles(blast, v.map_width as int, v.map_height as int, blast.len())).contains(k as Entity),
    ensures
        use_step(v, i, blast).ents[k].confusion == v.ents[k].confusion,
{
    lemma_use_step_confusion(v, i, blast);
    assert(refs_in(v.ents[i], v.ents.len() as int));
}

proof fn lemma_use_step_confusion(v: WorldView, i: int, blast: Seq<Point>)
    requires
        v.wf(),
        v.ents.len() <= usize::MAX,
        0 <= i < v.ents.len(),
        v.ents[i].alive,
        v.ents[i].wants_to_use is Some,
    ensures
        ({
            let u = v.ents[i].wants_to_use->0;
            let targets = use_targets(v, u, kept_tiles(blast, v.map_width as int, v.map_height as int, blast.len()));
            &&& use_step(v, i, blast).ents.len() == v.ents.len()
            &&& v.ents[u.item as int].confusion matches Some(turns) ==> forall|j: int| 0 <= j < targets.len()
                && targets[j] != u.item ==> #[trigger] use_step(v, i, blast).ents[targets[j] as int].confusion == Some(turns)
            &&& forall|k: int| 0 <= k < v.ents.len() && k != u.item
                && (v.ents[u.item as int].confusion is None || !targets.contains(k as Entity))
                ==> #[trigger] use_step(v, i, blast).ents[k].confusion == v.ents[k].confusion
        }),
{
    let e = v.ents[i];
    let u = e.wants_to_use->0;
    assert(refs_in(v.ents[i], v.ents.len() as int));
    let it = u.item as int;
    let tiles = kept_tiles(blast, v.map_width as int, v.map_height as int, blast.len());
    let targets = use_targets(v, u, tiles);
    lemma_use_targets_below(v, u, tiles);
    let area = u.target is Some && v.ents[it].aoe_radius is Some;
    let w1 = WorldView {
        ents: v.ents.update(i, marked_changed(v.ents[i])),
        effects: if area { blast_sparks(v.effects, tiles, tiles.len()) } else { v.effects },
        ..v
    };
    let w2 = if i == v.player { WorldView { ents: w1.ents.update(i, learns(w1.ents[i], u.item)), ..w1 } } else { w1 };
    lemma_user_marks_keep_confusion(v, w1, w2, i, u.item);
    let w3 = equip_part(w2, it, targets);
    lemma_equip_keeps_confusion(w2, it, targets);
    let w4 = heal_part(w3, i as Entity, it, targets);
    lemma_heal_part_keeps_confusion(w3, i as Entity, it, targets);
    let w5 = mapper_part(w4, it);
    let (w6, consume) = portal_part(w5, it);
    let w7 = food_part(w6, it, targets);
    lemma_food_keeps_confusion(w6, it, targets);
    let w8 = damage_part(w7, i as Entity, it, targets);
    lemma_parts_framed(w4, i as Entity, it, targets);
    lemma_parts_framed(w5, i as Entity, it, targets);
    lemma_parts_framed(w7, i as Entity, it, targets);
    assert(confusion_kept(v, w8));
    let w9 = confusion_part(w8, i as Entity, it, targets);
    let r = use_step(v, i, blast);
    match w8.ents[it].confusion {
        Some(turns) => {
            let mid = confuse_notice_pass(w8, i as Entity, it, targets, targets.len());
            lemma_notice_frame(w8, i as Entity, it, targets, targets.len());
            lemma_confuse_pass_sets(mid, turns, targets, targets.len());
            assert(w9 == confuse_pass(mid, turns, targets, targets.len()));
            assert(targets.take(targets.len() as int) =~= targets);
            assert forall|j: int| 0 <= j < targets.len() && targets[j] != u.item
                implies #[trigger] r.ents[targets[j] as int].confusion == Some(turns) by {
                assert(w9.ents[targets[j] as int].confusion == Some(turns));
            }
        },
        None => {},
    }
}

} // verus!
