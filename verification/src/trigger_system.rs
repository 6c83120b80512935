//! Traps and other triggers: a creature that moves onto a trigger sets it off.

use vstd::prelude::*;
use crate::components::Entity;
use crate::item_use_system::{contents_at, tile_contents};
use crate::map::spec_xy_idx;
use crate::world::{Effect, EffectType, Ent, Targets, World, WorldView, lemma_names_view_push, names_view, refs_in};

verus! {

pub open spec fn triggers_msg(name: Seq<char>) -> Seq<char> {
    name + " triggers!"@
}

/// Where a trigger set off at tile `idx` (map position `(x, y)`) by `mover` lands: the
/// area around that spot for a trigger with an area of effect, else the tile itself.
pub open spec fn trigger_effect(mover: Entity, trigger: Entity, t: Ent, idx: int, x: i32, y: i32) -> Effect {
    Effect {
        creator: Some(mover),
        effect: EffectType::TriggerFire { trigger },
        targets: match t.aoe_radius {
            Some(r) => Targets::Area { x, y, radius: r },
            None => Targets::Tile { tile_idx: idx as i32 },
        },
    }
}

/// The triggers among `cs[0..n]` that `mover`, standing at tile `idx`, sets off.
pub open spec fn fire_upto(w: WorldView, mover: Entity, cs: Seq<Entity>, idx: int, x: i32, y: i32, n: nat) -> WorldView
    decreases n,
{
    if n == 0 {
        w
    } else {
        let v = fire_upto(w, mover, cs, idx, x, y, (n - 1) as nat);
        let c = cs[n - 1];
        let t = w.ents[c as int];
        if c != mover && t.entry_trigger {
            WorldView {
                log: if t.has_name { v.log.push(triggers_msg(w.names[c as int])) } else { v.log },
                effects: v.effects.push(trigger_effect(mover, c, t, idx, x, y)),
                ..v
            }
        } else {
            v
        }
    }
}

/// Entity `i`, if it moved this turn, sets off every trigger on its tile.
pub open spec fn trigger_step(w: WorldView, i: int) -> WorldView {
    let e = w.ents[i];
    if e.alive && e.entity_moved && (e.position matches Some(p) && 0 <= p.x < w.map_width && 0 <= p.y < w.map_height) {
        let p = e.position->0;
        let idx = spec_xy_idx(w.map_width as int, p.x as int, p.y as int);
        let cs = tile_contents(w, idx);
        fire_upto(w, i as Entity, cs, idx, p.x, p.y, cs.len())
    } else {
        w
    }
}

pub open spec fn trigger_upto(w: WorldView, n: nat) -> WorldView
    decreases n,
{
    if n == 0 { w } else { trigger_step(trigger_upto(w, (n - 1) as nat), n - 1) }
}

#[verifier::opaque]
pub open spec fn settled(e: Ent) -> Ent {
    Ent { entity_moved: false, ..e }
}

/// The world after every creature that moved, in entity order, sets off the triggers
/// where it stands, and the movement marks are cleared.
pub open spec fn spec_trigger_system(w: WorldView) -> WorldView {
    let v = trigger_upto(w, w.ents.len());
    WorldView { ents: v.ents.map_values(|e: Ent| settled(e)), ..v }
}

proof fn lemma_fire_shape(w: WorldView, mover: Entity, cs: Seq<Entity>, idx: int, x: i32, y: i32, n: nat)
    ensures
        fire_upto(w, mover, cs, idx, x, y, n) == (WorldView {
            log: fire_upto(w, mover, cs, idx, x, y, n).log,
            effects: fire_upto(w, mover, cs, idx, x, y, n).effects,
            ..w
        }),
    decreases n,
{
    if n > 0 {
        lemma_fire_shape(w, mover, cs, idx, x, y, (n - 1) as nat);
    }
}

proof fn lemma_trigger_shape(w: WorldView, n: nat)
    ensures
        trigger_upto(w, n) == (WorldView { log: trigger_upto(w, n).log, effects: trigger_upto(w, n).effects, ..w }),
    decreases n,
{
    if n > 0 {
        lemma_trigger_shape(w, (n - 1) as nat);
        let v = trigger_upto(w, (n - 1) as nat);
        let e = v.ents[n - 1];
        if e.alive && e.entity_moved && (e.position matches Some(p) && 0 <= p.x < v.map_width && 0 <= p.y < v.map_height) {
            let p = e.position->0;
            let idx = spec_xy_idx(v.map_width as int, p.x as int, p.y as int);
            let cs = tile_contents(v, idx);
            lemma_fire_shape(v, (n - 1) as Entity, cs, idx, p.x, p.y, cs.len());
        }
    }
}

fn fire_triggers(w: &mut World, i: usize, cs: &Vec<Entity>, idx: usize, x: i32, y: i32)
    requires
        old(w).wf(),
        i < old(w).view().ents.len(),
        forall|j: int| 0 <= j < cs@.len() ==> #[trigger] cs@[j] < old(w).view().ents.len(),
    ensures
        final(w).wf(),
        final(w).view() == fire_upto(old(w).view(), i as Entity, cs@, idx as int, x, y, cs@.len()),
{
    let ghost start = w.view();
    let mut k: usize = 0;
    while k < cs.len()
        invariant
            k <= cs@.len(),
            start.wf(),
            w.wf(),
            i < start.ents.len(),
            forall|j: int| 0 <= j < cs@.len() ==> #[trigger] cs@[j] < start.ents.len(),
            w.view() == fire_upto(start, i as Entity, cs@, idx as int, x, y, k as nat),
        decreases cs@.len() - k,
    {
        proof { lemma_fire_shape(start, i as Entity, cs@, idx as int, x, y, k as nat); }
        let c = cs[k];
        let t = w.ents[c];
        if c != i && t.entry_trigger {
            if t.has_name {
                let mut msg = w.names[c].clone();
                msg.append(" triggers!");
                let ghost before = w.log.entries@;
                proof { assert(start.names[c as int] == w.names@[c as int]@); }
                w.log.entries.push(msg);
                proof { lemma_names_view_push(before, msg); }
            }
            let targets = match t.aoe_radius {
                Some(r) => Targets::Area { x, y, radius: r },
                None => Targets::Tile { tile_idx: idx as i32 },
            };
            w.effects.push(Effect { creator: Some(i), effect: EffectType::TriggerFire { trigger: c }, targets });
        }
        k = k + 1;
    }
}

fn make_settled(e: Ent) -> (r: Ent)
    ensures
        r == settled(e),
{
    proof { reveal(settled); }
    Ent { entity_moved: false, ..e }
}

pub struct TriggerSystem {}

impl TriggerSystem {
    /// Every creature that moved this turn, in entity order, sets off each trigger on
    /// its tile (other than itself): the log names the trigger and a trigger effect is
    /// queued. Then the movement marks are cleared.
    pub fn run(&mut self, w: &mut World)
        requires
            old(w).wf(),
        ensures
            final(w).wf(),
            final(w).view() == spec_trigger_system(old(w).view()),
    {
        let ghost start = w.view();
        let n = w.ents.len();
        let mut i: usize = 0;
        while i < n
            invariant
                0 <= i <= n,
                n == start.ents.len(),
                start.wf(),
                w.wf(),
                w.view() == trigger_upto(start, i as nat),
            decreases n - i,
        {
            proof { lemma_trigger_shape(start, i as nat); }
            let e = w.ents[i];
            if e.alive && e.entity_moved {
                if let Some(p) = e.position {
                    if 0 <= p.x && p.x < w.map.width && 0 <= p.y && p.y < w.map.height {
                        let idx = w.map.xy_idx(p.x, p.y);
                        let cs = contents_at(&w.ents, w.map.width, w.map.height, idx);
                        fire_triggers(w, i, &cs, idx, p.x, p.y);
                    }
                }
            }
            i = i + 1;
        }
        let ghost mid = w.view();
        let n2 = w.ents.len();
        let mut j: usize = 0;
        while j < n2
            invariant
                0 <= j <= n2,
                n2 == mid.ents.len(),
                w.view() == (WorldView { ents: w.view().ents, ..mid }),
                w.ents@.len() == n2,
                forall|k: int| 0 <= k < j ==> #[trigger] w.ents@[k] == settled(mid.ents[k]),
                forall|k: int| j <= k < n2 ==> #[trigger] w.ents@[k] == mid.ents[k],
            decreases n2 - j,
        {
            let e = w.ents[j];
            let e2 = make_settled(e);
            w.ents.set(j, e2);
            j = j + 1;
        }
        proof {
            assert(w.view().ents =~= mid.ents.map_values(|e: Ent| settled(e)));
            assert forall|k: int| 0 <= k < w.ents@.len() implies #[trigger] refs_in(w.ents@[k], w.ents@.len() as int) by {
                assert(refs_in(mid.ents[k], mid.ents.len() as int));
                reveal(settled);
            }
        }
    }
}

} // verus!
